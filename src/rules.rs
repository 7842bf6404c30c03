//! The sound-change rules between the trailing consonant of one syllable and
//! the leading consonant of the next, applied to component codes.
use vstd::prelude::*;
use crate::tables::{
    JamoPosition, last_index, lead_table, lemma_empty_codes, lemma_last_index, reverse_dict, roman_of, str_eq,
    tail_table, LEAD_COUNT, TAIL_COUNT,
};

verus! {

pub const RULE_COUNT: usize = 5;

/// How a rule rewrites a (trailing, leading) pair of romanizations.
#[derive(Clone, Copy, PartialEq, Eq, Structural)]
pub enum Rewrite {
    /// Both sounds disappear.
    DropBoth,
    /// The trailing sound moves into the empty leading slot.
    MoveTailToLead,
    /// The trailing sound becomes "m".
    NasalizeTail,
    /// The trailing sound replaces the leading one.
    AbsorbLead,
    /// The trailing "bs" becomes "p", with "s" filling an empty leading slot.
    SplitBs,
}

/// A rule: a pattern for the trailing sound, one for the leading sound
/// ("*" matches anything), and the rewrite applied on a match.
#[derive(Clone, Copy)]
pub struct Rule {
    pub tail: &'static str,
    pub lead: &'static str,
    pub rewrite: Rewrite,
}

/// The trailing-sound pattern of the rule of priority `k`.
pub open spec fn rule_tail(k: int) -> Seq<char> {
    seq!["h"@, "*"@, "b"@, "n"@, "bs"@][k]
}

/// The leading-sound pattern of the rule of priority `k`.
pub open spec fn rule_lead(k: int) -> Seq<char> {
    seq![""@, ""@, "n"@, "h"@, "*"@][k]
}

/// The rewrite of the rule of priority `k`.
pub open spec fn rule_rewrite(k: int) -> Rewrite {
    seq![
        Rewrite::DropBoth,
        Rewrite::MoveTailToLead,
        Rewrite::NasalizeTail,
        Rewrite::AbsorbLead,
        Rewrite::SplitBs,
    ][k]
}

pub open spec fn pattern_matches(pattern: Seq<char>, s: Seq<char>) -> bool {
    pattern == "*"@ || pattern == s
}

/// The new (trailing, leading) romanizations that a rewrite gives.
pub open spec fn rewrite_spec(w: Rewrite, t: Seq<char>, l: Seq<char>) -> (Seq<char>, Seq<char>) {
    match w {
        Rewrite::DropBoth => (""@, ""@),
        Rewrite::MoveTailToLead => (""@, t),
        Rewrite::NasalizeTail => ("m"@, l),
        Rewrite::AbsorbLead => (""@, t),
        Rewrite::SplitBs => if l.len() == 0 {
            ("p"@, "s"@)
        } else {
            ("p"@, l)
        },
    }
}

/// A rewritten romanization that names no component of its slot.
#[derive(Clone, Copy, Debug, PartialEq, Eq, Structural)]
pub enum RuleError {
    NoSuchTail,
    NoSuchLead,
}

/// The rules `k` and later, each tried once in order against the pair as the
/// earlier ones left it; the codes are a trailing and a leading consonant.
pub open spec fn chain_from(k: nat, tc: int, lc: int) -> Result<(int, int), RuleError>
    decreases RULE_COUNT - k,
{
    if k >= RULE_COUNT {
        Ok((tc, lc))
    } else {
        let t = tail_table()[tc];
        let l = lead_table()[lc];
        if rule_fires(k as int, t, l) {
            let out = rewrite_spec(rule_rewrite(k as int), t, l);
            let nt = last_index(tail_table(), out.0);
            let nl = last_index(lead_table(), out.1);
            if nt < 0 {
                Err(RuleError::NoSuchTail)
            } else if nl < 0 {
                Err(RuleError::NoSuchLead)
            } else {
                chain_from(k + 1, nt, nl)
            }
        } else {
            chain_from(k + 1, tc, lc)
        }
    }
}

/// Every rule in priority order against a (trailing, leading) pair of codes.
pub open spec fn rewrite_codes(tc: int, lc: int) -> Result<(int, int), RuleError> {
    chain_from(0, tc, lc)
}

pub open spec fn codes_of(r: Result<(usize, usize), RuleError>) -> Result<(int, int), RuleError> {
    match r {
        Ok(p) => Ok((p.0 as int, p.1 as int)),
        Err(e) => Err(e),
    }
}

pub proof fn lemma_chain_in_range(k: nat, tc: int, lc: int)
    requires
        0 <= tc < TAIL_COUNT,
        0 <= lc < LEAD_COUNT,
    ensures
        chain_from(k, tc, lc) matches Ok(p) ==> 0 <= p.0 < TAIL_COUNT && 0 <= p.1 < LEAD_COUNT,
    decreases RULE_COUNT - k,
{
    if k < RULE_COUNT {
        let t = tail_table()[tc];
        let l = lead_table()[lc];
        let out = rewrite_spec(rule_rewrite(k as int), t, l);
        lemma_last_index(tail_table(), out.0);
        lemma_last_index(lead_table(), out.1);
        lemma_chain_in_range(k + 1, tc, lc);
        let nt = last_index(tail_table(), out.0);
        let nl = last_index(lead_table(), out.1);
        if nt >= 0 && nl >= 0 {
            lemma_chain_in_range(k + 1, nt, nl);
        }
    }
}

proof fn lemma_rule_literals()
    ensures
        ""@ != "h"@,
        ""@ != "b"@,
        ""@ != "n"@,
        ""@ != "bs"@,
        ""@ != "*"@,
        "h"@ != "*"@,
        "b"@ != "*"@,
        "n"@ != "*"@,
        "bs"@ != "*"@,
        "m"@ != "b"@,
        "m"@ != "n"@,
        "m"@ != "bs"@,
        "m"@ != "h"@,
        "m"@ != "*"@,
        "p"@ != "b"@,
        "p"@ != "n"@,
        "p"@ != "bs"@,
        "p"@ != "h"@,
        "p"@ != "*"@,
        "n"@ != "h"@,
        "n"@.len() != 0,
        "s"@.len() != 0,
        ""@.len() == 0,
{
    reveal_strlit("");
    reveal_strlit("h");
    reveal_strlit("b");
    reveal_strlit("n");
    reveal_strlit("bs");
    reveal_strlit("*");
    reveal_strlit("m");
    reveal_strlit("p");
    reveal_strlit("s");
    assert(""@.len() == 0);
    assert("h"@.len() == 1 && "h"@[0] == 'h');
    assert("b"@.len() == 1 && "b"@[0] == 'b');
    assert("n"@.len() == 1 && "n"@[0] == 'n');
    assert("*"@.len() == 1 && "*"@[0] == '*');
    assert("m"@.len() == 1 && "m"@[0] == 'm');
    assert("p"@.len() == 1 && "p"@[0] == 'p');
    assert("s"@.len() == 1);
    assert("bs"@.len() == 2);
}

/// Whether the rule of priority `k` matches the romanizations `t`, `l`.
pub open spec fn rule_fires(k: int, t: Seq<char>, l: Seq<char>) -> bool {
    pattern_matches(rule_tail(k), t) && pattern_matches(rule_lead(k), l)
}

proof fn lemma_quiet(k: nat, tc: int, lc: int)
    requires
        forall|j: int| k <= j < RULE_COUNT ==> !rule_fires(j, tail_table()[tc], lead_table()[lc]),
    ensures
        chain_from(k, tc, lc) == Ok::<(int, int), RuleError>((tc, lc)),
    decreases RULE_COUNT - k,
{
    if k < RULE_COUNT {
        assert(!rule_fires(k as int, tail_table()[tc], lead_table()[lc]));
        lemma_quiet(k + 1, tc, lc);
    }
}

/// A pair of codes that the rules produced is left unchanged by the rules:
/// a second rule pass over a pair does nothing.
pub proof fn lemma_rewrite_fixed_point(tc: int, lc: int)
    requires
        0 <= tc < TAIL_COUNT,
        0 <= lc < LEAD_COUNT,
    ensures
        rewrite_codes(tc, lc) matches Ok(p) ==> rewrite_codes(p.0, p.1) == Ok::<(int, int), RuleError>(p),
{
    lemma_rule_literals();
    let t = tail_table()[tc];
    let l = lead_table()[lc];
    assert(tail_table()[0] == ""@);
    assert(tail_table()[16] == "m"@);
    assert(tail_table()[26] == "p"@);
    assert(lead_table()[11] == ""@);
    assert(lead_table()[2] == "n"@);
    lemma_last_index(tail_table(), ""@);
    lemma_last_index(tail_table(), "m"@);
    lemma_last_index(tail_table(), "p"@);
    lemma_last_index(lead_table(), ""@);
    lemma_last_index(lead_table(), "n"@);
    lemma_last_index(lead_table(), t);
    lemma_last_index(lead_table(), l);
    let et = last_index(tail_table(), ""@);
    let el = last_index(lead_table(), ""@);
    // the empty pair: only the liaison rule fires, and gives the empty pair again
    assert(!rule_fires(0, ""@, ""@));
    assert(rule_fires(1, ""@, ""@));
    lemma_quiet(2, et, el);
    assert(chain_from(1, et, el) == chain_from(2, et, el));
    assert(rewrite_codes(et, el) == Ok::<(int, int), RuleError>((et, el)));
    if l == ""@ {
        assert(rule_fires(1, t, l));
        if t == "h"@ {
            assert(rule_fires(0, t, l));
            assert(rewrite_codes(tc, lc) == chain_from(1, et, el));
        } else {
            assert(!rule_fires(0, t, l));
            let nl = last_index(lead_table(), t);
            assert(rewrite_codes(tc, lc) == chain_from(1, tc, lc));
            if nl >= 0 {
                assert(chain_from(1, tc, lc) == chain_from(2, et, nl));
                lemma_quiet(2, et, nl);
                if t != ""@ {
                    lemma_quiet(0, et, nl);
                }
            }
        }
    } else {
        assert(!rule_fires(0, t, l));
        assert(!rule_fires(1, t, l));
        assert(rewrite_codes(tc, lc) == chain_from(2, tc, lc));
        if rule_fires(2, t, l) {
            let nl = last_index(lead_table(), l);
            let nm = last_index(tail_table(), "m"@);
            assert(chain_from(2, tc, lc) == chain_from(3, nm, nl));
            lemma_quiet(3, nm, nl);
            lemma_quiet(0, nm, nl);
        } else if rule_fires(3, t, l) {
            let nn = last_index(lead_table(), "n"@);
            assert(chain_from(2, tc, lc) == chain_from(3, tc, lc));
            assert(chain_from(3, tc, lc) == chain_from(4, et, nn));
            lemma_quiet(4, et, nn);
            lemma_quiet(0, et, nn);
        } else if rule_fires(4, t, l) {
            let nl = last_index(lead_table(), l);
            let np = last_index(tail_table(), "p"@);
            assert(chain_from(2, tc, lc) == chain_from(3, tc, lc));
            assert(chain_from(3, tc, lc) == chain_from(4, tc, lc));
            assert(l.len() != 0) by {
                if l.len() == 0 {
                    assert(l =~= ""@);
                }
            }
            assert(nl >= 0);
            assert(chain_from(4, tc, lc) == chain_from(5, np, nl));
            lemma_quiet(0, np, nl);
        } else {
            lemma_quiet(0, tc, lc);
        }
    }
}

/// A trailing "h" before a syllable without a leading consonant: both
/// become empty, the tail code 0 and the lead code 11.
pub proof fn lemma_h_before_vowel(tc: int, lc: int)
    requires
        0 <= tc < TAIL_COUNT,
        0 <= lc < LEAD_COUNT,
        tail_table()[tc] == "h"@,
        lead_table()[lc] == ""@,
    ensures
        rewrite_codes(tc, lc) == Ok::<(int, int), RuleError>((0, 11)),
{
    lemma_rule_literals();
    lemma_empty_codes();
    lemma_last_index(tail_table(), ""@);
    lemma_last_index(lead_table(), ""@);
    assert(rule_fires(0, "h"@, ""@));
    assert(rule_fires(1, ""@, ""@));
    assert(rewrite_codes(tc, lc) == chain_from(1, 0, 11));
    assert(chain_from(1, 0, 11) == chain_from(2, 0, 11));
    lemma_quiet(2, 0, 11);
}

/// The rules write only "", "m" or "p" as a tail, and each of them has a
/// code, so running the rules never fails on the tail.
pub proof fn lemma_tail_always_found(k: nat, tc: int, lc: int)
    ensures
        chain_from(k, tc, lc) != Err::<(int, int), RuleError>(RuleError::NoSuchTail),
    decreases RULE_COUNT - k,
{
    if k < RULE_COUNT {
        assert(tail_table()[0] == ""@);
        assert(tail_table()[16] == "m"@);
        assert(tail_table()[26] == "p"@);
        lemma_last_index(tail_table(), ""@);
        lemma_last_index(tail_table(), "m"@);
        lemma_last_index(tail_table(), "p"@);
        let t = tail_table()[tc];
        let l = lead_table()[lc];
        let out = rewrite_spec(rule_rewrite(k as int), t, l);
        assert(out.0 == ""@ || out.0 == "m"@ || out.0 == "p"@);
        lemma_tail_always_found(k + 1, tc, lc);
        lemma_tail_always_found(k + 1, last_index(tail_table(), out.0), last_index(lead_table(), out.1));
    }
}

/// The rule of priority `k`.
pub fn rule_at(k: usize) -> (r: Rule)
    requires
        k < RULE_COUNT,
    ensures
        r.tail@ == rule_tail(k as int),
        r.lead@ == rule_lead(k as int),
        r.rewrite == rule_rewrite(k as int),
{
    match k {
        0 => Rule { tail: "h", lead: "", rewrite: Rewrite::DropBoth },
        1 => Rule { tail: "*", lead: "", rewrite: Rewrite::MoveTailToLead },
        2 => Rule { tail: "b", lead: "n", rewrite: Rewrite::NasalizeTail },
        3 => Rule { tail: "n", lead: "h", rewrite: Rewrite::AbsorbLead },
        _ => Rule { tail: "bs", lead: "*", rewrite: Rewrite::SplitBs },
    }
}

impl Rewrite {
    /// The new (trailing, leading) romanizations for the old ones.
    pub fn apply(&self, t: &'static str, l: &'static str) -> (r: (&'static str, &'static str))
        ensures
            (r.0@, r.1@) == rewrite_spec(*self, t@, l@),
    {
        match self {
            Rewrite::DropBoth => ("", ""),
            Rewrite::MoveTailToLead => ("", t),
            Rewrite::NasalizeTail => ("m", l),
            Rewrite::AbsorbLead => ("", t),
            Rewrite::SplitBs => {
                if l.unicode_len() == 0 {
                    ("p", "s")
                } else {
                    ("p", l)
                }
            },
        }
    }
}

impl Rule {
    /// Whether the rule applies to a trailing romanization `t` followed by a
    /// leading romanization `l`.
    pub fn matches(&self, t: &str, l: &str) -> (r: bool)
        ensures
            r == (pattern_matches(self.tail@, t@) && pattern_matches(self.lead@, l@)),
    {
        (str_eq(self.tail, "*") || str_eq(self.tail, t)) && (str_eq(self.lead, "*") || str_eq(
            self.lead,
            l,
        ))
    }
}

/// Runs every rule in priority order against a trailing consonant code `tc`
/// and the following syllable's leading consonant code `lc`, each rule seeing
/// the pair as the earlier ones rewrote it.
pub fn rewrite_pair(tc: usize, lc: usize) -> (r: Result<(usize, usize), RuleError>)
    requires
        tc < TAIL_COUNT,
        lc < LEAD_COUNT,
    ensures
        codes_of(r) == rewrite_codes(tc as int, lc as int),
{
    let mut t_code = tc;
    let mut l_code = lc;
    let mut k: usize = 0;
    while k < RULE_COUNT
        invariant
            k <= RULE_COUNT,
            t_code < TAIL_COUNT,
            l_code < LEAD_COUNT,
            rewrite_codes(tc as int, lc as int) == chain_from(k as nat, t_code as int, l_code as int),
        decreases RULE_COUNT - k,
    {
        let rule = rule_at(k);
        let t = roman_of(JamoPosition::Tail, t_code);
        let l = roman_of(JamoPosition::Lead, l_code);
        if rule.matches(t, l) {
            let (nt, nl) = rule.rewrite.apply(t, l);
            proof {
                lemma_last_index(tail_table(), nt@);
                lemma_last_index(lead_table(), nl@);
            }
            match reverse_dict(JamoPosition::Tail, nt) {
                None => {
                    return Err(RuleError::NoSuchTail);
                },
                Some(x) => {
                    match reverse_dict(JamoPosition::Lead, nl) {
                        None => {
                            return Err(RuleError::NoSuchLead);
                        },
                        Some(y) => {
                            t_code = x;
                            l_code = y;
                        },
                    }
                },
            }
        }
        k = k + 1;
    }
    Ok((t_code, l_code))
}

} // verus!
