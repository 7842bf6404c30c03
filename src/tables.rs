//! Romanization tables for the three jamo positions of a Hangul syllable,
//! and their inverse lookups.
use vstd::prelude::*;

verus! {

/// First code point of the precomposed Hangul syllable block.
pub const JAMO_OFFSET: u32 = 0xac00;
/// Code point of the leading consonant with code 0.
pub const LEAD_OFFSET: u32 = 0x1100;
/// Code point of the vowel with code 0.
pub const VOWEL_OFFSET: u32 = 0x1161;
/// Code point one below the trailing consonant with code 1 (code 0 has no jamo).
pub const TAIL_OFFSET: u32 = 0x11a7;
/// Exclusive upper bound of the code points that are read as Hangul letters.
pub const HANGUL_END: u32 = 0xd74a;

pub const LEAD_COUNT: usize = 19;
pub const VOWEL_COUNT: usize = 21;
pub const TAIL_COUNT: usize = 28;

/// The slot of a jamo inside a syllable.
#[derive(Clone, Copy, Debug, PartialEq, Eq, Structural)]
pub enum JamoPosition {
    Lead,
    Vowel,
    Tail,
}

pub open spec fn lead_table() -> Seq<Seq<char>> {
    seq![
        "g"@, "kk"@, "n"@, "d"@, "tt"@, "r"@, "m"@, "b"@, "pp"@, "s"@,
        "ss"@, ""@, "j"@, "tch"@, "ch"@, "k"@, "t"@, "p"@, "h"@,
    ]
}

pub open spec fn vowel_table() -> Seq<Seq<char>> {
    seq![
        "a"@, "ae"@, "ya"@, "yae"@, "eo"@, "e"@, "yeo"@, "ye"@, "o"@, "wa"@,
        "wae"@, "oe"@, "yo"@, "u"@, "weo"@, "we"@, "wi"@, "yu"@, "eu"@, "eui"@,
        "i"@,
    ]
}

pub open spec fn tail_table() -> Seq<Seq<char>> {
    seq![
        ""@, "g"@, "gg"@, "gs"@, "n"@, "nj"@, "nh"@, "d"@, "r"@, "rg"@,
        "rm"@, "rb"@, "rs"@, "rt"@, "rp"@, "rh"@, "m"@, "b"@, "bs"@, "s"@,
        "ss"@, "ng"@, "j"@, "ch"@, "k"@, "t"@, "p"@, "h"@,
    ]
}

/// The romanization table of a position, indexed by component code.
pub open spec fn table(p: JamoPosition) -> Seq<Seq<char>> {
    match p {
        JamoPosition::Lead => lead_table(),
        JamoPosition::Vowel => vowel_table(),
        JamoPosition::Tail => tail_table(),
    }
}

/// The code point of the standalone jamo with code 0 in a position.
pub open spec fn jamo_base(p: JamoPosition) -> int {
    match p {
        JamoPosition::Lead => LEAD_OFFSET as int,
        JamoPosition::Vowel => VOWEL_OFFSET as int,
        JamoPosition::Tail => TAIL_OFFSET as int,
    }
}

/// The largest index at which `t` holds `s`, or -1 where it holds it nowhere.
pub open spec fn last_index(t: Seq<Seq<char>>, s: Seq<char>) -> int
    decreases t.len(),
{
    if t.len() == 0 {
        -1
    } else if t.last() == s {
        t.len() - 1
    } else {
        last_index(t.drop_last(), s)
    }
}

pub proof fn lemma_last_index(t: Seq<Seq<char>>, s: Seq<char>)
    ensures
        -1 <= last_index(t, s) < t.len(),
        last_index(t, s) >= 0 ==> t[last_index(t, s)] == s,
        last_index(t, s) >= 0 ==> forall|j: int| last_index(t, s) < j < t.len() ==> t[j] != s,
        last_index(t, s) == -1 <==> forall|j: int| 0 <= j < t.len() ==> t[j] != s,
    decreases t.len(),
{
    if t.len() > 0 && t.last() != s {
        lemma_last_index(t.drop_last(), s);
        assert forall|j: int| 0 <= j < t.len() - 1 implies t.drop_last()[j] == t[j] by {}
    }
}

/// The empty romanization has exactly one code in each consonant table:
/// 0 for a tail and 11 for a lead.
pub proof fn lemma_empty_codes()
    ensures
        last_index(tail_table(), ""@) == 0,
        last_index(lead_table(), ""@) == 11,
{
    reveal_with_fuel(last_index, 29);
    reveal_strlit("");
    assert(""@.len() == 0);
    reveal_strlit("g");
    assert("g"@.len() == 1);
    reveal_strlit("kk");
    assert("kk"@.len() == 2);
    reveal_strlit("n");
    assert("n"@.len() == 1);
    reveal_strlit("d");
    assert("d"@.len() == 1);
    reveal_strlit("tt");
    assert("tt"@.len() == 2);
    reveal_strlit("r");
    assert("r"@.len() == 1);
    reveal_strlit("m");
    assert("m"@.len() == 1);
    reveal_strlit("b");
    assert("b"@.len() == 1);
    reveal_strlit("pp");
    assert("pp"@.len() == 2);
    reveal_strlit("s");
    assert("s"@.len() == 1);
    reveal_strlit("ss");
    assert("ss"@.len() == 2);
    reveal_strlit("j");
    assert("j"@.len() == 1);
    reveal_strlit("tch");
    assert("tch"@.len() == 3);
    reveal_strlit("ch");
    assert("ch"@.len() == 2);
    reveal_strlit("k");
    assert("k"@.len() == 1);
    reveal_strlit("t");
    assert("t"@.len() == 1);
    reveal_strlit("p");
    assert("p"@.len() == 1);
    reveal_strlit("h");
    assert("h"@.len() == 1);
    reveal_strlit("gg");
    assert("gg"@.len() == 2);
    reveal_strlit("gs");
    assert("gs"@.len() == 2);
    reveal_strlit("nj");
    assert("nj"@.len() == 2);
    reveal_strlit("nh");
    assert("nh"@.len() == 2);
    reveal_strlit("rg");
    assert("rg"@.len() == 2);
    reveal_strlit("rm");
    assert("rm"@.len() == 2);
    reveal_strlit("rb");
    assert("rb"@.len() == 2);
    reveal_strlit("rp");
    assert("rp"@.len() == 2);
    reveal_strlit("rs");
    assert("rs"@.len() == 2);
    reveal_strlit("rt");
    assert("rt"@.len() == 2);
    reveal_strlit("rh");
    assert("rh"@.len() == 2);
    reveal_strlit("bs");
    assert("bs"@.len() == 2);
    reveal_strlit("ng");
    assert("ng"@.len() == 2);
}

fn lead_roman(code: usize) -> (r: &'static str)
    requires
        code < LEAD_COUNT,
    ensures
        r@ == lead_table()[code as int],
{
    match code {
        0 => "g",
        1 => "kk",
        2 => "n",
        3 => "d",
        4 => "tt",
        5 => "r",
        6 => "m",
        7 => "b",
        8 => "pp",
        9 => "s",
        10 => "ss",
        11 => "",
        12 => "j",
        13 => "tch",
        14 => "ch",
        15 => "k",
        16 => "t",
        17 => "p",
        _ => "h",
    }
}

fn vowel_roman(code: usize) -> (r: &'static str)
    requires
        code < VOWEL_COUNT,
    ensures
        r@ == vowel_table()[code as int],
{
    match code {
        0 => "a",
        1 => "ae",
        2 => "ya",
        3 => "yae",
        4 => "eo",
        5 => "e",
        6 => "yeo",
        7 => "ye",
        8 => "o",
        9 => "wa",
        10 => "wae",
        11 => "oe",
        12 => "yo",
        13 => "u",
        14 => "weo",
        15 => "we",
        16 => "wi",
        17 => "yu",
        18 => "eu",
        19 => "eui",
        _ => "i",
    }
}

fn tail_roman(code: usize) -> (r: &'static str)
    requires
        code < TAIL_COUNT,
    ensures
        r@ == tail_table()[code as int],
{
    match code {
        0 => "",
        1 => "g",
        2 => "gg",
        3 => "gs",
        4 => "n",
        5 => "nj",
        6 => "nh",
        7 => "d",
        8 => "r",
        9 => "rg",
        10 => "rm",
        11 => "rb",
        12 => "rs",
        13 => "rt",
        14 => "rp",
        15 => "rh",
        16 => "m",
        17 => "b",
        18 => "bs",
        19 => "s",
        20 => "ss",
        21 => "ng",
        22 => "j",
        23 => "ch",
        24 => "k",
        25 => "t",
        26 => "p",
        _ => "h",
    }
}

/// The number of codes of a position.
pub fn table_len(p: JamoPosition) -> (r: usize)
    ensures
        r == table(p).len(),
{
    match p {
        JamoPosition::Lead => LEAD_COUNT,
        JamoPosition::Vowel => VOWEL_COUNT,
        JamoPosition::Tail => TAIL_COUNT,
    }
}

/// The romanization of the component `code` in position `p`.
pub fn roman_of(p: JamoPosition, code: usize) -> (r: &'static str)
    requires
        code < table(p).len(),
    ensures
        r@ == table(p)[code as int],
{
    match p {
        JamoPosition::Lead => lead_roman(code),
        JamoPosition::Vowel => vowel_roman(code),
        JamoPosition::Tail => tail_roman(code),
    }
}

/// Whether two strings hold the same characters.
pub fn str_eq(a: &str, b: &str) -> (r: bool)
    ensures
        r == (a@ == b@),
{
    let n = a.unicode_len();
    if n != b.unicode_len() {
        return false;
    }
    let mut i: usize = 0;
    while i < n
        invariant
            n == a@.len(),
            n == b@.len(),
            i <= n,
            a@.subrange(0, i as int) == b@.subrange(0, i as int),
        decreases n - i,
    {
        if a.get_char(i) != b.get_char(i) {
            return false;
        }
        assert(a@.subrange(0, i + 1) =~= a@.subrange(0, i as int).push(a@[i as int]));
        assert(b@.subrange(0, i + 1) =~= b@.subrange(0, i as int).push(b@[i as int]));
        i = i + 1;
    }
    assert(a@ =~= a@.subrange(0, n as int));
    assert(b@ =~= b@.subrange(0, n as int));
    true
}

/// The inverse of a position's table: the code whose romanization is `s`,
/// or `None` where no code has it.
pub fn reverse_dict(p: JamoPosition, s: &str) -> (r: Option<usize>)
    ensures
        r == (if last_index(table(p), s@) >= 0 {
            Some(last_index(table(p), s@) as usize)
        } else {
            None::<usize>
        }),
{
    let mut i: usize = table_len(p);
    assert(table(p).subrange(0, i as int) =~= table(p));
    while i > 0
        invariant
            i <= table(p).len(),
            last_index(table(p), s@) == last_index(table(p).subrange(0, i as int), s@),
        decreases i,
    {
        let ghost sub = table(p).subrange(0, i as int);
        if str_eq(roman_of(p, i - 1), s) {
            return Some(i - 1);
        }
        assert(sub.drop_last() =~= table(p).subrange(0, i - 1));
        i = i - 1;
    }
    assert(table(p).subrange(0, 0).len() == 0);
    None
}

} // verus!
