//! The persisted state-file format: a small, fixed JSON-shaped text with the
//! four timer fields, written and read by verified code. `parse_state`
//! accepts exactly the canonical texts `encode_state` produces, so a state
//! written and read back comes back unchanged, field for field.

use vstd::prelude::*;
use vstd::string::{StrSliceExecFns, StringExecFns};

use crate::decimal::{
    all_digits, dec_chars, dec_string, dec_val, digit_val, is_digit_char, lemma_dec_chars_val,
    lemma_dec_val_canonical, lemma_dec_val_prefix,
};
use crate::timer::{TimerPhase, TimerState};

verus! {

/// The text standing for the phase field.
pub open spec fn spec_phase_chars(p: TimerPhase) -> Seq<char> {
    match p {
        TimerPhase::Work => "Work"@,
        TimerPhase::Break => "Break"@,
    }
}

/// The text standing for the pause flag.
pub open spec fn spec_bool_chars(b: bool) -> Seq<char> {
    if b {
        "true"@
    } else {
        "false"@
    }
}

/// The text standing for the optional last-update timestamp.
pub open spec fn spec_opt_chars(o: Option<u64>) -> Seq<char> {
    match o {
        Option::Some(t) => dec_chars(t as nat),
        Option::None => "null"@,
    }
}

/// The canonical text for a whole timer state.
pub open spec fn spec_encoded(st: TimerState) -> Seq<char> {
    "{\n  \"phase\": \""@ + spec_phase_chars(st.phase) + "\",\n  \"remaining_seconds\": "@
        + dec_chars(st.remaining_seconds as nat) + ",\n  \"is_paused\": "@ + spec_bool_chars(
        st.is_paused,
    ) + ",\n  \"last_update\": "@ + spec_opt_chars(st.last_update) + "\n}"@
}

/// Where the run of decimal digits starting at `i` ends: the first position
/// at or after `i` holding no digit.
pub open spec fn digit_run_end(s: Seq<char>, i: int) -> int
    recommends
        0 <= i <= s.len(),
    decreases s.len() - i
        when 0 <= i <= s.len()
{
    if i >= s.len() || !is_digit_char(s[i]) {
        i
    } else {
        digit_run_end(s, i + 1)
    }
}

pub proof fn lemma_digit_run_end(s: Seq<char>, i: int)
    requires
        0 <= i <= s.len(),
    ensures
        i <= digit_run_end(s, i) <= s.len(),
        forall|k: int| i <= k < digit_run_end(s, i) ==> is_digit_char(#[trigger] s[k]),
        digit_run_end(s, i) < s.len() ==> !is_digit_char(s[digit_run_end(s, i)]),
    decreases s.len() - i,
{
    if i >= s.len() || !is_digit_char(s[i]) {
    } else {
        lemma_digit_run_end(s, i + 1);
    }
}

/// A maximal digit run determines `digit_run_end`: if everything in `[i, j)`
/// is a digit and `j` is the end of the text or holds no digit, the run
/// starting at `i` ends exactly at `j`.
pub proof fn lemma_digit_run_end_of_run(s: Seq<char>, i: int, j: int)
    requires
        0 <= i <= j <= s.len(),
        forall|k: int| i <= k < j ==> is_digit_char(#[trigger] s[k]),
        j < s.len() ==> !is_digit_char(s[j]),
    ensures
        digit_run_end(s, i) == j,
    decreases j - i,
{
    if i < j {
        lemma_digit_run_end_of_run(s, i + 1, j);
    }
}

/// Whether `lit` occurs in `s` exactly at position `i`; on success the
/// position just past it is returned.
fn expect_lit(s: &str, i: usize, lit: &str) -> (r: Option<usize>)
    requires
        i <= s@.len(),
    ensures
        match r {
            Option::Some(j) => j == i + lit@.len() && j <= s@.len() && s@.subrange(
                i as int,
                j as int,
            ) == lit@,
            Option::None => !(i + lit@.len() <= s@.len() && s@.subrange(
                i as int,
                i + lit@.len() as int,
            ) == lit@),
        },
{
    let len = s.unicode_len();
    let n = lit.unicode_len();
    if n > len - i {
        return None;
    }
    let mut j: usize = 0;
    while j < n
        invariant
            j <= n,
            n == lit@.len(),
            i + n <= s@.len(),
            len == s@.len(),
            forall|m: int| 0 <= m < j ==> s@[i + m] == lit@[m],
        decreases n - j,
    {
        let a = s.get_char(i + j);
        let b = lit.get_char(j);
        if a != b {
            assert(s@.subrange(i as int, i + n as int)[j as int] == s@[i + j]);
            return None;
        }
        j += 1;
    }
    assert(s@.subrange(i as int, (i + n) as int) =~= lit@);
    Some(i + n)
}

/// Reads the run of decimal digits starting at `i` as a number. Succeeds
/// exactly when there is at least one digit and the run's value fits in
/// `u64`, and then consumes the whole run.
fn parse_u64_at(s: &str, i: usize) -> (r: Option<(u64, usize)>)
    requires
        i <= s@.len(),
    ensures
        ({
            let e = digit_run_end(s@, i as int);
            match r {
                Option::Some(p) => p.1 == e && e > i && e <= s@.len() && p.0 == dec_val(
                    s@.subrange(i as int, e),
                ) && dec_val(s@.subrange(i as int, e)) <= u64::MAX,
                Option::None => e == i || dec_val(s@.subrange(i as int, e)) > u64::MAX,
            }
        }),
{
    proof {
        lemma_digit_run_end(s@, i as int);
    }
    let ghost e = digit_run_end(s@, i as int);
    let len = s.unicode_len();
    let mut k: usize = i;
    let mut acc: u128 = 0;
    proof {
        assert(s@.subrange(i as int, i as int) =~= Seq::<char>::empty());
        assert(dec_val(Seq::<char>::empty()) == 0);
    }
    loop
        invariant
            i <= k,
            k as int <= e,
            e <= s@.len(),
            len == s@.len(),
            e == digit_run_end(s@, i as int),
            acc == dec_val(s@.subrange(i as int, k as int)),
            acc <= u64::MAX,
            forall|m: int| i <= m < e ==> is_digit_char(#[trigger] s@[m]),
            e < s@.len() ==> !is_digit_char(s@[e]),
        ensures
            k as int == e,
            acc == dec_val(s@.subrange(i as int, e)),
        decreases s@.len() - k,
    {
        if k >= len {
            assert(k as int == e);
            break;
        }
        let c = s.get_char(k);
        let u: u32 = c as u32;
        if u < 48 || u > 57 {
            assert(!is_digit_char(s@[k as int]));
            assert(k as int == e);
            break;
        }
        assert(is_digit_char(s@[k as int]));
        assert((k as int) < e);
        let d: u64 = (u - 48) as u64;
        let acc2: u128 = acc * 10 + d as u128;
        proof {
            let run = s@.subrange(i as int, e);
            let pre1 = s@.subrange(i as int, k as int + 1);
            assert(pre1.drop_last() =~= s@.subrange(i as int, k as int));
            assert(pre1.last() == s@[k as int]);
            assert(digit_val(s@[k as int]) == d);
            assert(acc2 == dec_val(pre1));
            assert(all_digits(run));
            assert(pre1 =~= run.take(k as int + 1 - i));
            lemma_dec_val_prefix(run, k as int + 1 - i);
            assert(dec_val(run) >= dec_val(pre1));
        }
        if acc2 > u64::MAX as u128 {
            return None;
        }
        acc = acc2;
        k = k + 1;
    }
    if k == i {
        return None;
    }
    Some((acc as u64, k))
}

/// The canonical text for `st`, as pretty-printed JSON: each field on its
/// own two-space-indented line, the phase as a quoted word, and a missing
/// timestamp as `null`.
pub fn encode_state(st: &TimerState) -> (r: String)
    ensures
        r@ == spec_encoded(*st),
{
    let mut r = String::from_str("{\n  \"phase\": \"");
    match st.phase {
        TimerPhase::Work => r.append("Work"),
        TimerPhase::Break => r.append("Break"),
    }
    r.append("\",\n  \"remaining_seconds\": ");
    let d1 = dec_string(st.remaining_seconds as u64);
    r.append(d1.as_str());
    r.append(",\n  \"is_paused\": ");
    if st.is_paused {
        r.append("true");
    } else {
        r.append("false");
    }
    r.append(",\n  \"last_update\": ");
    match st.last_update {
        Option::Some(t) => {
            let d2 = dec_string(t);
            r.append(d2.as_str());
        },
        Option::None => r.append("null"),
    }
    r.append("\n}");
    assert(r@ =~= spec_encoded(*st));
    r
}

/// How the canonical text of a state splits into its nine consecutive
/// pieces: each piece sits at the position given by the lengths of those
/// before it.
pub proof fn lemma_encoded_shape(st: TimerState)
    ensures
        ({
            let l1 = "{\n  \"phase\": \""@;
            let ph = spec_phase_chars(st.phase);
            let l2 = "\",\n  \"remaining_seconds\": "@;
            let d1 = dec_chars(st.remaining_seconds as nat);
            let l3 = ",\n  \"is_paused\": "@;
            let bo = spec_bool_chars(st.is_paused);
            let l4 = ",\n  \"last_update\": "@;
            let lu = spec_opt_chars(st.last_update);
            let l5 = "\n}"@;
            let e = spec_encoded(st);
            let p1 = l1.len() as int;
            let p2 = p1 + ph.len();
            let p3 = p2 + l2.len();
            let p4 = p3 + d1.len();
            let p5 = p4 + l3.len();
            let p6 = p5 + bo.len();
            let p7 = p6 + l4.len();
            let p8 = p7 + lu.len();
            let p9 = p8 + l5.len();
            &&& e.len() == p9
            &&& e.subrange(0, p1) == l1
            &&& e.subrange(p1, p2) == ph
            &&& e.subrange(p2, p3) == l2
            &&& e.subrange(p3, p4) == d1
            &&& e.subrange(p4, p5) == l3
            &&& e.subrange(p5, p6) == bo
            &&& e.subrange(p6, p7) == l4
            &&& e.subrange(p7, p8) == lu
            &&& e.subrange(p8, p9) == l5
        }),
{
    let l1 = "{\n  \"phase\": \""@;
    let ph = spec_phase_chars(st.phase);
    let l2 = "\",\n  \"remaining_seconds\": "@;
    let d1 = dec_chars(st.remaining_seconds as nat);
    let l3 = ",\n  \"is_paused\": "@;
    let bo = spec_bool_chars(st.is_paused);
    let l4 = ",\n  \"last_update\": "@;
    let lu = spec_opt_chars(st.last_update);
    let l5 = "\n}"@;
    let e = spec_encoded(st);
    let p1 = l1.len() as int;
    let p2 = p1 + ph.len();
    let p3 = p2 + l2.len();
    let p4 = p3 + d1.len();
    let p5 = p4 + l3.len();
    let p6 = p5 + bo.len();
    let p7 = p6 + l4.len();
    let p8 = p7 + lu.len();
    let p9 = p8 + l5.len();
    assert(e.len() == p9);
    assert(e.subrange(0, p1) =~= l1);
    assert(e.subrange(p1, p2) =~= ph);
    assert(e.subrange(p2, p3) =~= l2);
    assert(e.subrange(p3, p4) =~= d1);
    assert(e.subrange(p4, p5) =~= l3);
    assert(e.subrange(p5, p6) =~= bo);
    assert(e.subrange(p6, p7) =~= l4);
    assert(e.subrange(p7, p8) =~= lu);
    assert(e.subrange(p8, p9) =~= l5);
}

/// Everything a parser meets in the canonical text of `st`: each piece at
/// its position, the digit runs maximal, their values the encoded fields,
/// and the first character of each variable piece telling the pieces apart.
pub open spec fn canonical_facts(s: Seq<char>, st: TimerState) -> bool {
    let d1 = dec_chars(st.remaining_seconds as nat);
    let lu = spec_opt_chars(st.last_update);
    let p1 = 14int;
    let p2 = p1 + (if st.phase is Work {
        4int
    } else {
        5int
    });
    let p3 = p2 + 26;
    let p4 = p3 + d1.len();
    let p5 = p4 + 17;
    let p6 = p5 + (if st.is_paused {
        4int
    } else {
        5int
    });
    let p7 = p6 + 19;
    let p8 = p7 + lu.len();
    let p9 = p8 + 2;
    &&& d1.len() >= 1
    &&& lu.len() >= 1
    &&& s.len() == p9
    &&& s.subrange(0, p1) == "{\n  \"phase\": \""@
    &&& (st.phase is Work ==> s.subrange(p1, p2) == "Work"@)
    &&& (st.phase is Break ==> s.subrange(p1, p2) == "Break"@)
    &&& s[p1] == (if st.phase is Work {
        'W'
    } else {
        'B'
    })
    &&& s.subrange(p2, p3) == "\",\n  \"remaining_seconds\": "@
    &&& s.subrange(p3, p4) == d1
    &&& digit_run_end(s, p3) == p4
    &&& dec_val(s.subrange(p3, p4)) == st.remaining_seconds
    &&& (s[p3] == '0' <==> st.remaining_seconds == 0)
    &&& (st.remaining_seconds == 0 ==> p4 == p3 + 1)
    &&& s.subrange(p4, p5) == ",\n  \"is_paused\": "@
    &&& (st.is_paused ==> s.subrange(p5, p6) == "true"@)
    &&& (!st.is_paused ==> s.subrange(p5, p6) == "false"@)
    &&& s[p5] == (if st.is_paused {
        't'
    } else {
        'f'
    })
    &&& s.subrange(p6, p7) == ",\n  \"last_update\": "@
    &&& (st.last_update is None ==> s.subrange(p7, p8) == "null"@ && s[p7] == 'n')
    &&& (st.last_update is Some ==> {
        &&& s.subrange(p7, p8) == dec_chars(st.last_update->0 as nat)
        &&& digit_run_end(s, p7) == p8
        &&& dec_val(s.subrange(p7, p8)) == st.last_update->0
        &&& (s[p7] == '0' <==> st.last_update->0 == 0)
        &&& (st.last_update->0 == 0 ==> p8 == p7 + 1)
        &&& is_digit_char(s[p7])
    })
    &&& s.subrange(p8, p9) == "\n}"@
}

proof fn lemma_canonical_facts(s: Seq<char>, st: TimerState)
    requires
        s == spec_encoded(st),
    ensures
        canonical_facts(s, st),
{
    reveal_strlit("{\n  \"phase\": \"");
    reveal_strlit("\",\n  \"remaining_seconds\": ");
    reveal_strlit(",\n  \"is_paused\": ");
    reveal_strlit(",\n  \"last_update\": ");
    reveal_strlit("\n}");
    reveal_strlit("Work");
    reveal_strlit("Break");
    reveal_strlit("true");
    reveal_strlit("false");
    reveal_strlit("null");
    lemma_encoded_shape(st);
    lemma_dec_chars_val(st.remaining_seconds as nat);
    let d1 = dec_chars(st.remaining_seconds as nat);
    let lu = spec_opt_chars(st.last_update);
    let p1 = 14int;
    let p2 = p1 + (if st.phase is Work {
        4int
    } else {
        5int
    });
    let p3 = p2 + 26;
    let p4 = p3 + d1.len();
    let p5 = p4 + 17;
    let p6 = p5 + (if st.is_paused {
        4int
    } else {
        5int
    });
    let p7 = p6 + 19;
    let p8 = p7 + lu.len();
    assert(s.subrange(p1, p2)[0] == s[p1]);
    assert(s.subrange(p5, p6)[0] == s[p5]);
    assert(s.subrange(p7, p8)[0] == s[p7]);
    assert(s.subrange(p3, p4)[0] == s[p3]);
    assert(s.subrange(p4, p5)[0] == s[p4]);
    assert(st.remaining_seconds == 0 ==> p4 == p3 + 1) by {
        if st.remaining_seconds == 0 {
            assert(d1 =~= seq![crate::decimal::digit_char(0)]);
        }
    }
    assert forall|k: int| p3 <= k < p4 implies is_digit_char(#[trigger] s[k]) by {
        assert(s.subrange(p3, p4)[k - p3] == s[k]);
        assert(d1[k - p3] == s[k]);
    }
    assert(!is_digit_char(s[p4]));
    lemma_digit_run_end_of_run(s, p3, p4);
    if st.last_update is Some {
        let t = st.last_update->0;
        lemma_dec_chars_val(t as nat);
        assert(t == 0 ==> p8 == p7 + 1) by {
            if t == 0 {
                assert(dec_chars(0) =~= seq![crate::decimal::digit_char(0)]);
            }
        }
        assert forall|k: int| p7 <= k < p8 implies is_digit_char(#[trigger] s[k]) by {
            assert(s.subrange(p7, p8)[k - p7] == s[k]);
            assert(lu[k - p7] == s[k]);
        }
        assert(s.subrange(p8, p8 + 2)[0] == s[p8]);
        assert(!is_digit_char(s[p8]));
        lemma_digit_run_end_of_run(s, p7, p8);
    }
}

/// Whether `s` is the canonical text of some state.
pub open spec fn is_canonical(s: Seq<char>) -> bool {
    exists|st: TimerState| s == spec_encoded(st)
}

/// The state a canonical text stands for.
spec fn canonical_state(s: Seq<char>) -> TimerState {
    choose|st: TimerState| s == spec_encoded(st)
}

proof fn lemma_canonical_witness(s: Seq<char>)
    ensures
        is_canonical(s) ==> s == spec_encoded(canonical_state(s)) && canonical_facts(
            s,
            canonical_state(s),
        ),
{
    if is_canonical(s) {
        let st = canonical_state(s);
        assert(s == spec_encoded(st));
        lemma_canonical_facts(s, st);
    }
}

/// Law: the canonical text determines the state - two states with the same
/// encoding are the same state.
pub proof fn lemma_encoded_injective(a: TimerState, b: TimerState)
    requires
        spec_encoded(a) == spec_encoded(b),
    ensures
        a == b,
{
    let e = spec_encoded(a);
    lemma_canonical_facts(e, a);
    lemma_canonical_facts(e, b);
    assert(a.phase == b.phase);
    assert(a.remaining_seconds == b.remaining_seconds);
    assert(a.is_paused == b.is_paused);
    if a.last_update is Some {
        assert(b.last_update is Some);
        assert(a.last_update->0 == b.last_update->0);
    } else {
        assert(b.last_update is None);
    }
}

/// The first half of a canonical text: the opening, the phase word, the
/// remaining-seconds key and its number. On success hands back the phase,
/// the seconds, and the position just past the digits.
fn parse_head(s: &str) -> (r: Option<(bool, u32, usize)>)
    ensures
        match r {
            Option::None => forall|st: TimerState| s@ != spec_encoded(st),
            Option::Some(t) => ({
                let p2 = 14int + (if t.0 {
                    4int
                } else {
                    5int
                });
                let p3 = p2 + 26;
                &&& t.2 <= s@.len()
                &&& p3 < t.2 as int
                &&& s@.subrange(0, 14) == "{\n  \"phase\": \""@
                &&& (t.0 ==> s@.subrange(14, p2) == "Work"@)
                &&& (!t.0 ==> s@.subrange(14, p2) == "Break"@)
                &&& s@[14] == (if t.0 {
                    'W'
                } else {
                    'B'
                })
                &&& s@.subrange(p2, p3) == "\",\n  \"remaining_seconds\": "@
                &&& t.2 as int == digit_run_end(s@, p3)
                &&& s@.subrange(p3, t.2 as int) == dec_chars(t.1 as nat)
            }),
        },
{
    proof {
        reveal_strlit("{\n  \"phase\": \"");
        reveal_strlit("\",\n  \"remaining_seconds\": ");
        reveal_strlit("Work");
        reveal_strlit("Break");
        lemma_canonical_witness(s@);
    }
    let pos1 = match expect_lit(s, 0, "{\n  \"phase\": \"") {
        Option::Some(j) => j,
        Option::None => {
            proof {
                assert(!is_canonical(s@));
            }
            return None;
        },
    };
    let (pos2, is_work): (usize, bool) = match expect_lit(s, pos1, "Work") {
        Option::Some(j) => (j, true),
        Option::None => match expect_lit(s, pos1, "Break") {
            Option::Some(j) => (j, false),
            Option::None => {
                proof {
                    assert(!is_canonical(s@));
                }
                return None;
            },
        },
    };
    proof {
        if is_work {
            assert(s@.subrange(14, 18)[0] == s@[14]);
        } else {
            assert(s@.subrange(14, 19)[0] == s@[14]);
        }
    }
    let pos3 = match expect_lit(s, pos2, "\",\n  \"remaining_seconds\": ") {
        Option::Some(j) => j,
        Option::None => {
            proof {
                assert(!is_canonical(s@));
            }
            return None;
        },
    };
    let (rem64, pos4) = match parse_u64_at(s, pos3) {
        Option::Some(p) => p,
        Option::None => {
            proof {
                assert(!is_canonical(s@));
            }
            return None;
        },
    };
    let c0 = s.get_char(pos3);
    if (c0 as u32) == 48 && pos4 != pos3 + 1 {
        proof {
            assert(!is_canonical(s@));
        }
        return None;
    }
    if rem64 > 0xFFFF_FFFF {
        proof {
            assert(!is_canonical(s@));
        }
        return None;
    }
    let remaining: u32 = rem64 as u32;
    proof {
        lemma_digit_run_end(s@, pos3 as int);
        let t1 = s@.subrange(pos3 as int, pos4 as int);
        assert(all_digits(t1)) by {
            assert forall|m: int| 0 <= m < t1.len() implies is_digit_char(#[trigger] t1[m]) by {
                assert(t1[m] == s@[pos3 + m]);
            }
        }
        assert(t1[0] == s@[pos3 as int]);
        lemma_dec_val_canonical(t1);
        assert(t1 == dec_chars(remaining as nat));
    }
    Some((is_work, remaining, pos4))
}

/// Reads a state back from its canonical text. Succeeds exactly on the
/// texts `encode_state` produces, and then returns the state that was
/// encoded: anything else - other layouts, other key orders, stray
/// characters, out-of-range numbers - yields `None`.
#[verifier::rlimit(100)]
pub fn parse_state(s: &str) -> (r: Option<TimerState>)
    ensures
        r is Some ==> s@ == spec_encoded(r->0),
        forall|st: TimerState| s@ == spec_encoded(st) ==> r == Option::Some(st),
{
    proof {
        reveal_strlit("{\n  \"phase\": \"");
        reveal_strlit("\",\n  \"remaining_seconds\": ");
        reveal_strlit(",\n  \"is_paused\": ");
        reveal_strlit(",\n  \"last_update\": ");
        reveal_strlit("\n}");
        reveal_strlit("Work");
        reveal_strlit("Break");
        reveal_strlit("true");
        reveal_strlit("false");
        reveal_strlit("null");
        lemma_canonical_witness(s@);
    }
    let len = s.unicode_len();
    let (is_work, remaining, pos4) = match parse_head(s) {
        Option::Some(t) => t,
        Option::None => {
            return None;
        },
    };
    let pos5 = match expect_lit(s, pos4, ",\n  \"is_paused\": ") {
        Option::Some(j) => j,
        Option::None => {
            proof {
                assert(!is_canonical(s@));
            }
            return None;
        },
    };
    let (pos6, paused): (usize, bool) = match expect_lit(s, pos5, "true") {
        Option::Some(j) => (j, true),
        Option::None => match expect_lit(s, pos5, "false") {
            Option::Some(j) => (j, false),
            Option::None => {
                proof {
                    assert(!is_canonical(s@));
                }
                return None;
            },
        },
    };
    proof {
        if paused {
            assert(s@.subrange(pos5 as int, pos5 + 4int)[0] == s@[pos5 as int]);
        } else {
            assert(s@.subrange(pos5 as int, pos5 + 5int)[0] == s@[pos5 as int]);
        }
    }
    let pos7 = match expect_lit(s, pos6, ",\n  \"last_update\": ") {
        Option::Some(j) => j,
        Option::None => {
            proof {
                assert(!is_canonical(s@));
            }
            return None;
        },
    };
    let (last_up, pos8): (Option<u64>, usize) = match expect_lit(s, pos7, "null") {
        Option::Some(j) => (None, j),
        Option::None => match parse_u64_at(s, pos7) {
            Option::Some(p) => {
                let cl = s.get_char(pos7);
                if (cl as u32) == 48 && p.1 != pos7 + 1 {
                    proof {
                        assert(!is_canonical(s@));
                    }
                    return None;
                }
                (Some(p.0), p.1)
            },
            Option::None => {
                proof {
                    assert(!is_canonical(s@));
                }
                return None;
            },
        },
    };
    let pos9 = match expect_lit(s, pos8, "\n}") {
        Option::Some(j) => j,
        Option::None => {
            proof {
                assert(!is_canonical(s@));
            }
            return None;
        },
    };
    if pos9 != len {
        proof {
            assert(!is_canonical(s@));
        }
        return None;
    }
    let stv = TimerState {
        phase: if is_work {
            TimerPhase::Work
        } else {
            TimerPhase::Break
        },
        remaining_seconds: remaining,
        is_paused: paused,
        last_update: last_up,
    };
    proof {
        if last_up is Some {
            lemma_digit_run_end(s@, pos7 as int);
            let t2 = s@.subrange(pos7 as int, pos8 as int);
            assert(all_digits(t2)) by {
                assert forall|m: int| 0 <= m < t2.len() implies is_digit_char(#[trigger] t2[m]) by {
                    assert(t2[m] == s@[pos7 + m]);
                }
            }
            assert(t2[0] == s@[pos7 as int]);
            lemma_dec_val_canonical(t2);
            assert(t2 == dec_chars(last_up->0 as nat));
        }
        let p2 = 14int + (if is_work {
            4int
        } else {
            5int
        });
        let p3 = p2 + 26;
        assert(s@ =~= s@.subrange(0, 14) + s@.subrange(14, p2) + s@.subrange(p2, p3)
            + s@.subrange(p3, pos4 as int) + s@.subrange(pos4 as int, pos5 as int) + s@.subrange(
            pos5 as int,
            pos6 as int,
        ) + s@.subrange(pos6 as int, pos7 as int) + s@.subrange(pos7 as int, pos8 as int)
            + s@.subrange(pos8 as int, pos9 as int));
        assert(s@ =~= spec_encoded(stv));
        assert forall|st: TimerState| s@ == spec_encoded(st) implies Option::Some(stv)
            == Option::Some(st) by {
            lemma_encoded_injective(stv, st);
        }
    }
    Some(stv)
}

} // verus!
