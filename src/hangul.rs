//! Hangul syllables decoded into jamo, letters of a text, and sentences with
//! their three renderings and the rule pass.
use vstd::prelude::*;
use crate::rules::{
    lemma_chain_in_range, lemma_h_before_vowel, lemma_rewrite_fixed_point, rewrite_codes,
    rewrite_pair, RuleError,
};
use crate::tables::{
    jamo_base, lead_table, roman_of, table, tail_table, vowel_table, JamoPosition, HANGUL_END,
    JAMO_OFFSET, LEAD_COUNT, LEAD_OFFSET, TAIL_COUNT, TAIL_OFFSET, VOWEL_COUNT, VOWEL_OFFSET,
};

verus! {

/// Relies on std's `char::from_u32`: `Some` exactly for Unicode scalar
/// values, holding the char with that value.
#[verifier::external_body]
fn char_from_u32(u: u32) -> (r: Option<char>)
    ensures
        r is Some <==> (u < 0xd800 || (0xe000 <= u && u < 0x110000)),
        r matches Some(c) ==> c as int == u as int,
{
    char::from_u32(u)
}

/// Relies on std's `String::push`: appends one char.
#[verifier::external_body]
fn push_char(s: &mut String, c: char)
    ensures
        final(s)@ == old(s)@.push(c),
{
    s.push(c)
}

/// The codes (lead, vowel, tail) of the precomposed syllable with code point `c`.
pub open spec fn decompose(c: int) -> (int, int, int) {
    let rem = c - JAMO_OFFSET;
    (rem / 588, rem % 588 / 28, rem % 28)
}

/// The standalone jamo of a component: one char, none for an empty tail.
pub open spec fn jamo_chars(p: JamoPosition, code: int) -> Seq<char> {
    if p == JamoPosition::Tail && code == 0 {
        Seq::empty()
    } else {
        seq![(jamo_base(p) + code) as char]
    }
}

/// The romanization of a syllable: lead, vowel and tail romanizations in turn.
pub open spec fn syllable_roman(v: (int, int, int)) -> Seq<char> {
    lead_table()[v.0] + vowel_table()[v.1] + tail_table()[v.2]
}

/// The jamo of a syllable one after another.
pub open spec fn syllable_hangul(v: (int, int, int)) -> Seq<char> {
    jamo_chars(JamoPosition::Lead, v.0) + jamo_chars(JamoPosition::Vowel, v.1) + jamo_chars(
        JamoPosition::Tail,
        v.2,
    )
}

/// The jamo of a syllable, each in brackets.
pub open spec fn syllable_jamo(v: (int, int, int)) -> Seq<char> {
    seq!['['] + jamo_chars(JamoPosition::Lead, v.0) + seq![']', '['] + jamo_chars(
        JamoPosition::Vowel,
        v.1,
    ) + seq![']', '['] + jamo_chars(JamoPosition::Tail, v.2) + seq![']']
}

/// One component of a syllable: its code and its slot.
#[derive(Clone, Copy)]
pub struct Jamo {
    code: usize,
    position: JamoPosition,
}

impl View for Jamo {
    type V = (JamoPosition, int);

    closed spec fn view(&self) -> (JamoPosition, int) {
        (self.position, self.code as int)
    }
}

impl Jamo {
    pub closed spec fn wf(&self) -> bool {
        self.code < table(self.position).len()
    }

    /// The component code: an index into the table of its position.
    pub fn code(&self) -> (r: usize)
        ensures
            r == self@.1,
    {
        self.code
    }

    /// The romanization of the component.
    pub fn roman(&self) -> (r: &'static str)
        requires
            self.wf(),
        ensures
            r@ == table(self@.0)[self@.1],
    {
        roman_of(self.position, self.code)
    }

    fn jamo_char_from_usize(u: usize, offset: u32) -> (r: char)
        requires
            u + offset < 0xd800,
        ensures
            r == (u + offset) as char,
    {
        let v = (u as u32) + offset;
        let c = char_from_u32(v).unwrap();
        assert((c as int) as char == c);
        c
    }

    /// The standalone jamo of the component; empty for an empty tail.
    pub fn jamo_string(&self) -> (r: String)
        requires
            self.wf(),
        ensures
            r@ == jamo_chars(self@.0, self@.1),
    {
        let mut s = String::new();
        match self.position {
            JamoPosition::Lead => {
                push_char(&mut s, Self::jamo_char_from_usize(self.code, LEAD_OFFSET));
            },
            JamoPosition::Vowel => {
                push_char(&mut s, Self::jamo_char_from_usize(self.code, VOWEL_OFFSET));
            },
            JamoPosition::Tail => {
                if self.code != 0 {
                    push_char(&mut s, Self::jamo_char_from_usize(self.code, TAIL_OFFSET));
                }
            },
        }
        assert(s@ =~= jamo_chars(self@.0, self@.1));
        s
    }
}

/// A decoded syllable.
#[derive(Clone, Copy)]
pub struct Hangul {
    lead: Jamo,
    vowel: Jamo,
    tail: Jamo,
}

impl View for Hangul {
    type V = (int, int, int);

    closed spec fn view(&self) -> (int, int, int) {
        (self.lead.code as int, self.vowel.code as int, self.tail.code as int)
    }
}

impl Hangul {
    pub closed spec fn wf(&self) -> bool {
        &&& self.lead.position == JamoPosition::Lead
        &&& self.vowel.position == JamoPosition::Vowel
        &&& self.tail.position == JamoPosition::Tail
        &&& self.lead.wf()
        &&& self.vowel.wf()
        &&& self.tail.wf()
    }

    /// Decodes a precomposed syllable.
    pub fn new(c: char) -> (r: Hangul)
        requires
            JAMO_OFFSET <= c as u32 <= 0xd7a3,
        ensures
            r.wf(),
            r@ == decompose(c as int),
    {
        let rem = (c as u32 - JAMO_OFFSET) as usize;
        let lead = rem / 588;
        let vowel = rem % 588 / 28;
        let tail = rem % 28;
        Hangul {
            lead: Jamo { code: lead, position: JamoPosition::Lead },
            vowel: Jamo { code: vowel, position: JamoPosition::Vowel },
            tail: Jamo { code: tail, position: JamoPosition::Tail },
        }
    }

    pub fn lead(&self) -> (r: &Jamo)
        requires
            self.wf(),
        ensures
            r.wf(),
            r@ == (JamoPosition::Lead, self@.0),
    {
        &self.lead
    }

    pub fn vowel(&self) -> (r: &Jamo)
        requires
            self.wf(),
        ensures
            r.wf(),
            r@ == (JamoPosition::Vowel, self@.1),
    {
        &self.vowel
    }

    pub fn tail(&self) -> (r: &Jamo)
        requires
            self.wf(),
        ensures
            r.wf(),
            r@ == (JamoPosition::Tail, self@.2),
    {
        &self.tail
    }

    pub fn roman_string(&self) -> (r: String)
        requires
            self.wf(),
        ensures
            r@ == syllable_roman(self@),
    {
        let mut s = String::from_str(self.lead.roman());
        s.append(self.vowel.roman());
        s.append(self.tail.roman());
        s
    }

    /// The three jamo, each in brackets: "[lead][vowel][tail]".
    pub fn jamo_string(&self) -> (r: String)
        requires
            self.wf(),
        ensures
            r@ == syllable_jamo(self@),
    {
        let mut s = String::new();
        push_char(&mut s, '[');
        s.append(self.lead.jamo_string().as_str());
        push_char(&mut s, ']');
        push_char(&mut s, '[');
        s.append(self.vowel.jamo_string().as_str());
        push_char(&mut s, ']');
        push_char(&mut s, '[');
        s.append(self.tail.jamo_string().as_str());
        push_char(&mut s, ']');
        assert(s@ =~= syllable_jamo(self@));
        s
    }

    /// The three jamo one after another, which a renderer shows as the syllable.
    pub fn hangul_string(&self) -> (r: String)
        requires
            self.wf(),
        ensures
            r@ == syllable_hangul(self@),
    {
        let mut s = self.lead.jamo_string();
        s.append(self.vowel.jamo_string().as_str());
        s.append(self.tail.jamo_string().as_str());
        s
    }
}

/// One char of a text: a decoded syllable, or any other char kept as it is.
#[derive(Clone, Copy)]
pub enum Letter {
    HangulLetter(Hangul),
    OtherLetter(char),
}

/// Whether `c` is read as a syllable (a narrower range than the Unicode block).
pub open spec fn in_hangul_range(c: char) -> bool {
    JAMO_OFFSET <= c as int && (c as int) < HANGUL_END
}

/// `l` is the letter that the char `c` reads as.
pub open spec fn letter_decodes(l: Letter, c: char) -> bool {
    if in_hangul_range(c) {
        l matches Letter::HangulLetter(h) && h.wf() && h@ == decompose(c as int)
    } else {
        l == Letter::OtherLetter(c)
    }
}

pub open spec fn letter_wf(l: Letter) -> bool {
    l matches Letter::HangulLetter(h) ==> h.wf()
}

pub open spec fn letter_roman(l: Letter) -> Seq<char> {
    match l {
        Letter::HangulLetter(h) => syllable_roman(h@),
        Letter::OtherLetter(c) => seq![c],
    }
}

pub open spec fn letter_jamo(l: Letter) -> Seq<char> {
    match l {
        Letter::HangulLetter(h) => syllable_jamo(h@),
        Letter::OtherLetter(c) => seq![c],
    }
}

pub open spec fn letter_hangul(l: Letter) -> Seq<char> {
    match l {
        Letter::HangulLetter(h) => syllable_hangul(h@),
        Letter::OtherLetter(c) => seq![c],
    }
}

impl Letter {
    pub fn new(c: char) -> (r: Letter)
        ensures
            letter_decodes(r, c),
            letter_wf(r),
    {
        if JAMO_OFFSET <= (c as u32) && (c as u32) < HANGUL_END {
            Letter::HangulLetter(Hangul::new(c))
        } else {
            Letter::OtherLetter(c)
        }
    }

    pub fn roman(&self) -> (r: String)
        requires
            letter_wf(*self),
        ensures
            r@ == letter_roman(*self),
    {
        match self {
            Letter::HangulLetter(l) => l.roman_string(),
            Letter::OtherLetter(c) => {
                let mut s = String::new();
                push_char(&mut s, *c);
                assert(s@ =~= seq![*c]);
                s
            },
        }
    }

    pub fn jamo(&self) -> (r: String)
        requires
            letter_wf(*self),
        ensures
            r@ == letter_jamo(*self),
    {
        match self {
            Letter::HangulLetter(l) => l.jamo_string(),
            Letter::OtherLetter(c) => {
                let mut s = String::new();
                push_char(&mut s, *c);
                assert(s@ =~= seq![*c]);
                s
            },
        }
    }

    pub fn hangul_string(&self) -> (r: String)
        requires
            letter_wf(*self),
        ensures
            r@ == letter_hangul(*self),
    {
        match self {
            Letter::HangulLetter(l) => l.hangul_string(),
            Letter::OtherLetter(c) => {
                let mut s = String::new();
                push_char(&mut s, *c);
                assert(s@ =~= seq![*c]);
                s
            },
        }
    }

    pub fn is_hangul(&self) -> (r: bool)
        ensures
            r == (*self is HangulLetter),
    {
        if let Letter::HangulLetter(_) = self {
            return true;
        }
        false
    }
}

impl Hangul {
    pub closed spec fn with_tail(self, t: int) -> Hangul {
        Hangul { tail: Jamo { code: t as usize, position: JamoPosition::Tail }, ..self }
    }

    pub closed spec fn with_lead(self, l: int) -> Hangul {
        Hangul { lead: Jamo { code: l as usize, position: JamoPosition::Lead }, ..self }
    }

    pub proof fn lemma_with_same(self)
        requires
            self.wf(),
        ensures
            self.with_tail(self@.2) == self,
            self.with_lead(self@.0) == self,
    {
    }

    pub proof fn lemma_with(self, t: int, l: int)
        requires
            self.wf(),
            0 <= t < tail_table().len(),
            0 <= l < lead_table().len(),
        ensures
            self.with_tail(t).wf(),
            self.with_lead(l).wf(),
            self.with_tail(t)@ == (self@.0, self@.1, t),
            self.with_lead(l)@ == (l, self@.1, self@.2),
    {
    }
}

/// The rule pass on one adjacent pair: where both are syllables, the rules
/// rewrite the tail of `a` and the lead of `b`; any other pair stays as it is.
pub open spec fn pair_rewrite(a: Letter, b: Letter) -> Result<(Letter, Letter), RuleError> {
    match (a, b) {
        (Letter::HangulLetter(x), Letter::HangulLetter(y)) => match rewrite_codes(x@.2, y@.0) {
            Ok(p) => Ok(
                (Letter::HangulLetter(x.with_tail(p.0)), Letter::HangulLetter(y.with_lead(p.1))),
            ),
            Err(e) => Err(e),
        },
        _ => Ok((a, b)),
    }
}

/// The letters after the pair (i, i + 1) was rewritten.
pub open spec fn step_at(s: Seq<Letter>, i: int) -> Result<Seq<Letter>, RuleError> {
    match pair_rewrite(s[i], s[i + 1]) {
        Ok(p) => Ok(s.update(i, p.0).update(i + 1, p.1)),
        Err(e) => Err(e),
    }
}

/// The letters after the pairs (0, 1), ..., (n - 1, n) were rewritten in turn,
/// each seeing the letters as the pairs before it left them.
pub open spec fn sweep_upto(s: Seq<Letter>, n: nat) -> Result<Seq<Letter>, RuleError>
    decreases n,
{
    if n == 0 {
        Ok(s)
    } else {
        match sweep_upto(s, (n - 1) as nat) {
            Ok(cur) => step_at(cur, n - 1),
            Err(e) => Err(e),
        }
    }
}

proof fn lemma_sweep_err(s: Seq<Letter>, m: nat, n: nat)
    requires
        m <= n,
        sweep_upto(s, m) is Err,
    ensures
        sweep_upto(s, n) == sweep_upto(s, m),
    decreases n - m,
{
    if m < n {
        lemma_sweep_err(s, m, (n - 1) as nat);
    }
}

/// The codes of a syllable; (0, 0, 0) for any other letter.
pub open spec fn codes(l: Letter) -> (int, int, int) {
    match l {
        Letter::HangulLetter(h) => h@,
        Letter::OtherLetter(_) => (0, 0, 0),
    }
}

/// `b` is a syllable where `a` is, with the same vowel, and any other letter
/// is the same in both.
pub open spec fn same_kind(a: Letter, b: Letter) -> bool {
    &&& (a is HangulLetter <==> b is HangulLetter)
    &&& (a is OtherLetter ==> a == b)
    &&& codes(a).1 == codes(b).1
}

/// The codes of a syllable lie inside their tables.
pub open spec fn codes_in_range(l: Letter) -> bool {
    l is HangulLetter ==> {
        &&& 0 <= codes(l).0 < LEAD_COUNT
        &&& 0 <= codes(l).1 < VOWEL_COUNT
        &&& 0 <= codes(l).2 < TAIL_COUNT
    }
}

/// Letters `i` and `i + 1` are both syllables.
pub open spec fn syllable_pair(s: Seq<Letter>, i: int) -> bool {
    &&& 0 <= i
    &&& i + 1 < s.len()
    &&& s[i] is HangulLetter
    &&& s[i + 1] is HangulLetter
}

/// The rules run on the tail of letter `i` and the lead of letter `i + 1`.
pub open spec fn pair_codes(s: Seq<Letter>, i: int) -> Result<(int, int), RuleError> {
    rewrite_codes(codes(s[i]).2, codes(s[i + 1]).0)
}

/// The codes of letter `i` after the rule pass: its lead as the pair with the
/// letter before rewrote it, its vowel, and its tail as the pair with the
/// letter after rewrote it; a slot that faces no syllable keeps its code.
pub open spec fn pass_codes(s: Seq<Letter>, i: int) -> (int, int, int) {
    (
        if syllable_pair(s, i - 1) {
            pair_codes(s, i - 1)->Ok_0.1
        } else {
            codes(s[i]).0
        },
        codes(s[i]).1,
        if syllable_pair(s, i) {
            pair_codes(s, i)->Ok_0.0
        } else {
            codes(s[i]).2
        },
    )
}

pub proof fn lemma_letter_wf_range(l: Letter)
    requires
        letter_wf(l),
    ensures
        codes_in_range(l),
{
}

pub open spec fn letters_wf(s: Seq<Letter>) -> bool {
    forall|k: int| 0 <= k < s.len() ==> letter_wf(#[trigger] s[k])
}

proof fn lemma_step(s: Seq<Letter>, i: int)
    requires
        0 <= i,
        i + 1 < s.len(),
        letters_wf(s),
        step_at(s, i) is Ok,
    ensures
        ({
            let n = step_at(s, i)->Ok_0;
            &&& n.len() == s.len()
            &&& letters_wf(n)
            &&& forall|k: int| 0 <= k < s.len() ==> same_kind(s[k], #[trigger] n[k])
            &&& forall|k: int| 0 <= k < s.len() && k != i ==> codes(#[trigger] n[k]).2 == codes(s[k]).2
            &&& forall|k: int| 0 <= k < s.len() && k != i + 1 ==> codes(#[trigger] n[k]).0 == codes(s[k]).0
            &&& (s[i] is HangulLetter && s[i + 1] is HangulLetter) ==> rewrite_codes(codes(s[i]).2, codes(s[i + 1]).0) == Ok::<(int, int), RuleError>((codes(n[i]).2, codes(n[i + 1]).0))
            &&& !(s[i] is HangulLetter && s[i + 1] is HangulLetter) ==> n == s
        }),
{
    let a = s[i];
    let b = s[i + 1];
    assert(letter_wf(a) && letter_wf(b));
    if let Letter::HangulLetter(x) = a {
        if let Letter::HangulLetter(y) = b {
            lemma_chain_in_range(0, x@.2, y@.0);
            let p = rewrite_codes(x@.2, y@.0)->Ok_0;
            x.lemma_with(p.0, p.1);
            y.lemma_with(p.0, p.1);
        }
    }
    if !(a is HangulLetter && b is HangulLetter) {
        assert(s.update(i, a).update(i + 1, b) =~= s);
    }
}

proof fn lemma_sweep_frame(s: Seq<Letter>, m1: nat, m2: nat)
    requires
        m1 <= m2,
        m2 < s.len(),
        letters_wf(s),
        sweep_upto(s, m2) is Ok,
    ensures
        sweep_upto(s, m1) is Ok,
        ({
            let a = sweep_upto(s, m1)->Ok_0;
            let b = sweep_upto(s, m2)->Ok_0;
            &&& a.len() == s.len()
            &&& b.len() == s.len()
            &&& letters_wf(a)
            &&& letters_wf(b)
            &&& forall|k: int| 0 <= k < s.len() ==> same_kind(#[trigger] a[k], b[k])
            &&& forall|k: int| 0 <= k < s.len() ==> same_kind(s[k], #[trigger] b[k])
            &&& forall|k: int| 0 <= k < s.len() && (k < m1 || k >= m2) ==> codes(#[trigger] b[k]).2 == codes(a[k]).2
            &&& forall|k: int| 0 <= k < s.len() && (k <= m1 || k > m2) ==> codes(#[trigger] b[k]).0 == codes(a[k]).0
        }),
    decreases m2,
{
    if m2 == 0 {
        assert forall|k: int| 0 <= k < s.len() implies same_kind(s[k], #[trigger] s[k]) by {}
    } else {
        let prev = sweep_upto(s, (m2 - 1) as nat);
        if prev is Err {
            assert(sweep_upto(s, m2) is Err);
        }
        if m1 == m2 {
            lemma_sweep_frame(s, 0, (m2 - 1) as nat);
            lemma_step(prev->Ok_0, m2 - 1);
            let b = sweep_upto(s, m2)->Ok_0;
            assert forall|k: int| 0 <= k < s.len() implies same_kind(s[k], #[trigger] b[k]) by {
                assert(same_kind(s[k], prev->Ok_0[k]));
            }
            assert forall|k: int| 0 <= k < s.len() implies same_kind(#[trigger] b[k], b[k]) by {}
        } else {
            lemma_sweep_frame(s, m1, (m2 - 1) as nat);
            lemma_sweep_frame(s, 0, (m2 - 1) as nat);
            lemma_step(prev->Ok_0, m2 - 1);
            let a = sweep_upto(s, m1)->Ok_0;
            let b = sweep_upto(s, m2)->Ok_0;
            assert forall|k: int| 0 <= k < s.len() implies same_kind(#[trigger] a[k], b[k]) by {
                assert(same_kind(a[k], prev->Ok_0[k]));
                assert(same_kind(prev->Ok_0[k], b[k]));
            }
            assert forall|k: int| 0 <= k < s.len() implies same_kind(s[k], #[trigger] b[k]) by {
                assert(same_kind(s[k], prev->Ok_0[k]));
                assert(same_kind(prev->Ok_0[k], b[k]));
            }
        }
    }
}

/// One left-to-right rule pass over every adjacent pair.
pub open spec fn sweep(s: Seq<Letter>) -> Result<Seq<Letter>, RuleError> {
    if s.len() < 2 {
        Ok(s)
    } else {
        sweep_upto(s, (s.len() - 1) as nat)
    }
}

/// The romanizations of the letters, concatenated in order.
pub open spec fn render_roman(s: Seq<Letter>) -> Seq<char>
    decreases s.len(),
{
    if s.len() == 0 {
        Seq::empty()
    } else {
        render_roman(s.drop_last()) + letter_roman(s.last())
    }
}

/// The bracketed jamo renderings of the letters, concatenated in order.
pub open spec fn render_jamo(s: Seq<Letter>) -> Seq<char>
    decreases s.len(),
{
    if s.len() == 0 {
        Seq::empty()
    } else {
        render_jamo(s.drop_last()) + letter_jamo(s.last())
    }
}

/// The jamo renderings of the letters, concatenated in order.
pub open spec fn render_hangul(s: Seq<Letter>) -> Seq<char>
    decreases s.len(),
{
    if s.len() == 0 {
        Seq::empty()
    } else {
        render_hangul(s.drop_last()) + letter_hangul(s.last())
    }
}

/// A text as a sequence of letters.
pub struct KoreanSentence {
    payload: Vec<Letter>,
}

impl View for KoreanSentence {
    type V = Seq<Letter>;

    closed spec fn view(&self) -> Seq<Letter> {
        self.payload@
    }
}

impl KoreanSentence {
    pub open spec fn wf(&self) -> bool {
        letters_wf(self@)
    }

    /// The letters of the sentence, in order.
    pub fn letters(&self) -> (r: &[Letter])
        ensures
            r@ == self@,
    {
        self.payload.as_slice()
    }

    /// Reads each char of `s` as a letter.
    pub fn new(s: &str) -> (r: Self)
        ensures
            r.wf(),
            r@.len() == s@.len(),
            forall|i: int| 0 <= i < s@.len() ==> letter_decodes(#[trigger] r@[i], s@[i]),
    {
        let n = s.unicode_len();
        let mut payload: Vec<Letter> = Vec::new();
        let mut i: usize = 0;
        while i < n
            invariant
                n == s@.len(),
                i <= n,
                payload@.len() == i,
                forall|j: int| 0 <= j < i ==> letter_decodes(#[trigger] payload@[j], s@[j]),
                forall|j: int| 0 <= j < i ==> letter_wf(#[trigger] payload@[j]),
            decreases n - i,
        {
            payload.push(Letter::new(s.get_char(i)));
            i = i + 1;
        }
        KoreanSentence { payload }
    }

    pub fn roman(&self) -> (r: String)
        requires
            self.wf(),
        ensures
            r@ == render_roman(self@),
    {
        let mut out = String::new();
        let mut i: usize = 0;
        while i < self.payload.len()
            invariant
                self.wf(),
                i <= self@.len(),
                out@ == render_roman(self@.subrange(0, i as int)),
            decreases self@.len() - i,
        {
            assert(self@.subrange(0, i + 1).drop_last() =~= self@.subrange(0, i as int));
            out.append(self.payload[i].roman().as_str());
            i = i + 1;
        }
        assert(self@.subrange(0, i as int) =~= self@);
        out
    }

    pub fn jamo(&self) -> (r: String)
        requires
            self.wf(),
        ensures
            r@ == render_jamo(self@),
    {
        let mut out = String::new();
        let mut i: usize = 0;
        while i < self.payload.len()
            invariant
                self.wf(),
                i <= self@.len(),
                out@ == render_jamo(self@.subrange(0, i as int)),
            decreases self@.len() - i,
        {
            assert(self@.subrange(0, i + 1).drop_last() =~= self@.subrange(0, i as int));
            out.append(self.payload[i].jamo().as_str());
            i = i + 1;
        }
        assert(self@.subrange(0, i as int) =~= self@);
        out
    }

    pub fn hangul_string(&self) -> (r: String)
        requires
            self.wf(),
        ensures
            r@ == render_hangul(self@),
    {
        let mut out = String::new();
        let mut i: usize = 0;
        while i < self.payload.len()
            invariant
                self.wf(),
                i <= self@.len(),
                out@ == render_hangul(self@.subrange(0, i as int)),
            decreases self@.len() - i,
        {
            assert(self@.subrange(0, i + 1).drop_last() =~= self@.subrange(0, i as int));
            out.append(self.payload[i].hangul_string().as_str());
            i = i + 1;
        }
        assert(self@.subrange(0, i as int) =~= self@);
        out
    }

    /// A copy of the sentence with one rule pass applied, or the error of the
    /// first rewrite that names no component.
    pub fn applied(&self) -> (r: Result<Self, RuleError>)
        requires
            self.wf(),
        ensures
            match r {
                Ok(n) => sweep(self@) == Ok::<Seq<Letter>, RuleError>(n@) && n.wf(),
                Err(e) => sweep(self@) == Err::<Seq<Letter>, RuleError>(e),
            },
            r is Err <==> exists|i: int| syllable_pair(self@, i) && #[trigger] pair_codes(self@, i) is Err,
            r matches Err(e) ==> exists|i: int|
                syllable_pair(self@, i) && #[trigger] pair_codes(self@, i) == Err::<(int, int), RuleError>(e),
            r matches Ok(n) ==> n@.len() == self@.len() && forall|i: int|
                0 <= i < self@.len() ==> same_kind(self@[i], #[trigger] n@[i]) && codes(n@[i])
                    == pass_codes(self@, i) && codes_in_range(n@[i]),
    {
        let r = match self.applied_vec() {
            Ok(payload) => Ok(KoreanSentence { payload }),
            Err(e) => Err(e),
        };
        proof {
            if r is Ok {
                lemma_pass_codes(self@, r->Ok_0@);
            } else {
                lemma_first_failure(self@, (self@.len() - 1) as nat);
            }
        }
        r
    }

    fn applied_vec(&self) -> (r: Result<Vec<Letter>, RuleError>)
        requires
            self.wf(),
        ensures
            match r {
                Ok(v) => sweep(self@) == Ok::<Seq<Letter>, RuleError>(v@) && forall|i: int|
                    0 <= i < v@.len() ==> letter_wf(#[trigger] v@[i]),
                Err(e) => sweep(self@) == Err::<Seq<Letter>, RuleError>(e),
            },
    {
        let n = self.payload.len();
        let mut cur: Vec<Letter> = Vec::new();
        let mut j: usize = 0;
        while j < n
            invariant
                n == self@.len(),
                j <= n,
                cur@ == self@.subrange(0, j as int),
            decreases n - j,
        {
            cur.push(self.payload[j]);
            assert(cur@ =~= self@.subrange(0, j + 1));
            j = j + 1;
        }
        assert(cur@ =~= self@);
        if n < 2 {
            return Ok(cur);
        }
        let mut i: usize = 0;
        while i + 1 < n
            invariant
                n == self@.len(),
                n >= 2,
                i + 1 <= n,
                cur@.len() == n,
                sweep_upto(self@, i as nat) == Ok::<Seq<Letter>, RuleError>(cur@),
                forall|k: int| 0 <= k < n ==> letter_wf(#[trigger] cur@[k]),
            decreases n - i,
        {
            match Self::apply_rules(cur[i], cur[i + 1]) {
                Ok((a, b)) => {
                    cur.set(i, a);
                    cur.set(i + 1, b);
                },
                Err(e) => {
                    proof {
                        lemma_sweep_err(self@, (i + 1) as nat, (n - 1) as nat);
                    }
                    return Err(e);
                },
            }
            i = i + 1;
        }
        Ok(cur)
    }

    /// The rule pass on one adjacent pair of letters.
    pub fn apply_rules(a: Letter, b: Letter) -> (r: Result<(Letter, Letter), RuleError>)
        requires
            letter_wf(a),
            letter_wf(b),
        ensures
            r == pair_rewrite(a, b),
            r matches Ok(p) ==> letter_wf(p.0) && letter_wf(p.1),
            !(a is HangulLetter && b is HangulLetter) ==> r == Ok::<(Letter, Letter), RuleError>((a, b)),
            r matches Ok(p) ==> codes_in_range(p.0) && codes_in_range(p.1),
            (a is HangulLetter && b is HangulLetter) ==> match r {
                Ok(p) => {
                    &&& p.0 is HangulLetter
                    &&& p.1 is HangulLetter
                    &&& rewrite_codes(codes(a).2, codes(b).0) == Ok::<(int, int), RuleError>(
                        (codes(p.0).2, codes(p.1).0),
                    )
                    &&& codes(p.0).0 == codes(a).0
                    &&& codes(p.0).1 == codes(a).1
                    &&& codes(p.1).1 == codes(b).1
                    &&& codes(p.1).2 == codes(b).2
                },
                Err(e) => rewrite_codes(codes(a).2, codes(b).0) == Err::<(int, int), RuleError>(e),
            },
    {
        if let Letter::HangulLetter(x) = a {
            if let Letter::HangulLetter(y) = b {
                proof {
                    lemma_chain_in_range(0, x@.2, y@.0);
                }
                match rewrite_pair(x.tail.code, y.lead.code) {
                    Ok((t, l)) => {
                        proof {
                            x.lemma_with(t as int, l as int);
                            y.lemma_with(t as int, l as int);
                        }
                        let nx = Hangul { tail: Jamo { code: t, position: JamoPosition::Tail }, ..x };
                        let ny = Hangul { lead: Jamo { code: l, position: JamoPosition::Lead }, ..y };
                        return Ok((Letter::HangulLetter(nx), Letter::HangulLetter(ny)));
                    },
                    Err(e) => {
                        return Err(e);
                    },
                }
            }
        }
        Ok((a, b))
    }
}

/// The code point of the syllable whose jamo `s` holds: a lead and a vowel,
/// and a tail where there is a third char.
pub open spec fn recompose(s: Seq<char>) -> int {
    let lead = s[0] as int - LEAD_OFFSET;
    let vowel = s[1] as int - VOWEL_OFFSET;
    let tail = if s.len() == 3 {
        s[2] as int - TAIL_OFFSET
    } else {
        0
    };
    JAMO_OFFSET + (lead * 21 + vowel) * 28 + tail
}

/// Decoding a syllable gives codes within the tables, and its jamo rendering
/// recomposes to the same syllable; the third jamo is there exactly when the
/// tail is not empty.
pub proof fn lemma_decompose_round_trip(c: char)
    requires
        in_hangul_range(c),
    ensures
        0 <= decompose(c as int).0 < LEAD_COUNT,
        0 <= decompose(c as int).1 < VOWEL_COUNT,
        0 <= decompose(c as int).2 < TAIL_COUNT,
        syllable_hangul(decompose(c as int)).len() == (if decompose(c as int).2 == 0 {
            2int
        } else {
            3int
        }),
        recompose(syllable_hangul(decompose(c as int))) == c as int,
{
    let rem = c as int - JAMO_OFFSET;
    let v = decompose(c as int);
    assert(rem == v.0 * 588 + v.1 * 28 + v.2) by (nonlinear_arith)
        requires
            v == (rem / 588, rem % 588 / 28, rem % 28),
            0 <= rem,
    ;
    assert(0 <= v.0 < 19 && 0 <= v.1 < 21 && 0 <= v.2 < 28) by (nonlinear_arith)
        requires
            v == (rem / 588, rem % 588 / 28, rem % 28),
            0 <= rem < 11082,
    ;
    let a = LEAD_OFFSET + v.0;
    let b = VOWEL_OFFSET + v.1;
    let t = TAIL_OFFSET + v.2;
    assert((a as char) as int == a);
    assert((b as char) as int == b);
    assert((t as char) as int == t);
    let h = syllable_hangul(v);
    if v.2 == 0 {
        assert(h =~= seq![a as char, b as char]);
    } else {
        assert(h =~= seq![a as char, b as char, t as char]);
    }
    assert((v.0 * 21 + v.1) * 28 + v.2 == rem) by (nonlinear_arith)
        requires
            rem == v.0 * 588 + v.1 * 28 + v.2,
    ;
}

/// A char outside the syllable range reads as a letter that every
/// rendering shows as that char alone.
pub proof fn lemma_passthrough_renderings(c: char, l: Letter)
    requires
        !in_hangul_range(c),
        letter_decodes(l, c),
    ensures
        letter_roman(l) == seq![c],
        letter_jamo(l) == seq![c],
        letter_hangul(l) == seq![c],
{
}

/// A syllable ending in "h" before a syllable with no leading consonant:
/// after the rule pass the first has tail code 0 and the second the empty
/// lead code 11.
pub proof fn lemma_h_dropped_before_vowel(s: Seq<Letter>, r: Seq<Letter>, i: int)
    requires
        letters_wf(s),
        sweep(s) == Ok::<Seq<Letter>, RuleError>(r),
        0 <= i,
        i + 1 < s.len(),
        s[i] is HangulLetter,
        s[i + 1] is HangulLetter,
        tail_table()[codes(s[i]).2] == "h"@,
        lead_table()[codes(s[i + 1]).0] == ""@,
    ensures
        r[i] is HangulLetter,
        r[i + 1] is HangulLetter,
        codes(r[i]).2 == 0,
        codes(r[i + 1]).0 == 11,
{
    let last = (s.len() - 1) as nat;
    lemma_sweep_frame(s, i as nat, last);
    lemma_sweep_frame(s, 0, i as nat);
    lemma_sweep_frame(s, (i + 1) as nat, last);
    let cur = sweep_upto(s, i as nat)->Ok_0;
    assert(same_kind(s[i], cur[i]) && same_kind(s[i + 1], cur[i + 1]));
    assert(letter_wf(s[i]) && letter_wf(s[i + 1]));
    lemma_step(cur, i);
    lemma_h_before_vowel(codes(s[i]).2, codes(s[i + 1]).0);
}

/// A rule pass over the result of a rule pass changes nothing.
pub proof fn lemma_rule_pass_idempotent(s: Seq<Letter>, r: Seq<Letter>)
    requires
        letters_wf(s),
        sweep(s) == Ok::<Seq<Letter>, RuleError>(r),
    ensures
        sweep(r) == Ok::<Seq<Letter>, RuleError>(r),
{
    if s.len() >= 2 {
        let last = (s.len() - 1) as nat;
        lemma_sweep_frame(s, 0, last);
        lemma_second_pass(s, r, last);
    }
}

proof fn lemma_second_pass(s: Seq<Letter>, r: Seq<Letter>, m: nat)
    requires
        letters_wf(s),
        s.len() >= 2,
        sweep_upto(s, (s.len() - 1) as nat) == Ok::<Seq<Letter>, RuleError>(r),
        m <= s.len() - 1,
    ensures
        sweep_upto(r, m) == Ok::<Seq<Letter>, RuleError>(r),
    decreases m,
{
    if m > 0 {
        let last = (s.len() - 1) as nat;
        let j = m - 1;
        lemma_second_pass(s, r, (m - 1) as nat);
        lemma_sweep_frame(s, 0, last);
        lemma_sweep_frame(s, j as nat, last);
        lemma_sweep_frame(s, m, last);
        lemma_sweep_frame(s, 0, j as nat);
        let cur = sweep_upto(s, j as nat)->Ok_0;
        let next = sweep_upto(s, m)->Ok_0;
        assert(letter_wf(r[j]) && letter_wf(r[j + 1]));
        assert(same_kind(s[j], r[j]) && same_kind(s[j + 1], r[j + 1]));
        assert(same_kind(s[j], cur[j]) && same_kind(s[j + 1], cur[j + 1]));
        if let Letter::HangulLetter(x) = r[j] {
            if let Letter::HangulLetter(y) = r[j + 1] {
                lemma_step(cur, j);
                assert(letter_wf(cur[j]) && letter_wf(cur[j + 1]));
                lemma_rewrite_fixed_point(codes(cur[j]).2, codes(cur[j + 1]).0);
                assert(codes(r[j]).2 == codes(next[j]).2);
                assert(codes(r[j + 1]).0 == codes(next[j + 1]).0);
                x.lemma_with_same();
                y.lemma_with_same();
            }
        }
        assert(r.update(j, r[j]).update(j + 1, r[j + 1]) =~= r);
    }
}

/// A letter that is not a syllable comes out of the rule pass as it went in.
pub proof fn lemma_passthrough_kept(s: Seq<Letter>, r: Seq<Letter>, i: int)
    requires
        letters_wf(s),
        sweep(s) == Ok::<Seq<Letter>, RuleError>(r),
        0 <= i < s.len(),
        s[i] is OtherLetter,
    ensures
        r[i] == s[i],
{
    if s.len() >= 2 {
        lemma_sweep_frame(s, 0, (s.len() - 1) as nat);
        assert(same_kind(s[i], r[i]));
    }
}

/// Where only one letter of an adjacent pair is a syllable, no rule touches
/// the pair: the tail of the first and the lead of the second are kept.
pub proof fn lemma_mixed_pair_untouched(s: Seq<Letter>, r: Seq<Letter>, i: int)
    requires
        letters_wf(s),
        sweep(s) == Ok::<Seq<Letter>, RuleError>(r),
        0 <= i,
        i + 1 < s.len(),
        !(s[i] is HangulLetter && s[i + 1] is HangulLetter),
    ensures
        codes(r[i]).2 == codes(s[i]).2,
        codes(r[i + 1]).0 == codes(s[i + 1]).0,
{
    let last = (s.len() - 1) as nat;
    lemma_sweep_frame(s, i as nat, last);
    lemma_sweep_frame(s, 0, i as nat);
    lemma_sweep_frame(s, (i + 1) as nat, last);
    let cur = sweep_upto(s, i as nat)->Ok_0;
    assert(same_kind(s[i], cur[i]) && same_kind(s[i + 1], cur[i + 1]));
    lemma_step(cur, i);
}

/// Each pair of the pass sees the tail and lead that the input letters had:
/// a syllable pair gets the rules' codes, any other pair keeps its codes.
proof fn lemma_pair_in_pass(s: Seq<Letter>, r: Seq<Letter>, i: int)
    requires
        letters_wf(s),
        sweep(s) == Ok::<Seq<Letter>, RuleError>(r),
        0 <= i,
        i + 1 < s.len(),
    ensures
        syllable_pair(s, i) ==> pair_codes(s, i) == Ok::<(int, int), RuleError>(
            (codes(r[i]).2, codes(r[i + 1]).0),
        ),
        !syllable_pair(s, i) ==> codes(r[i]).2 == codes(s[i]).2 && codes(r[i + 1]).0 == codes(
            s[i + 1],
        ).0,
{
    let last = (s.len() - 1) as nat;
    lemma_sweep_frame(s, i as nat, last);
    lemma_sweep_frame(s, 0, i as nat);
    lemma_sweep_frame(s, (i + 1) as nat, last);
    let cur = sweep_upto(s, i as nat)->Ok_0;
    assert(same_kind(s[i], cur[i]) && same_kind(s[i + 1], cur[i + 1]));
    lemma_step(cur, i);
}

/// The result of a successful pass, letter by letter.
proof fn lemma_pass_codes(s: Seq<Letter>, r: Seq<Letter>)
    requires
        letters_wf(s),
        sweep(s) == Ok::<Seq<Letter>, RuleError>(r),
    ensures
        r.len() == s.len(),
        letters_wf(r),
        forall|i: int|
            0 <= i < s.len() ==> same_kind(s[i], #[trigger] r[i]) && codes(r[i]) == pass_codes(s, i)
                && codes_in_range(r[i]),
        forall|i: int| syllable_pair(s, i) ==> #[trigger] pair_codes(s, i) is Ok,
{
    if s.len() >= 2 {
        let last = (s.len() - 1) as nat;
        lemma_sweep_frame(s, 0, last);
        assert forall|i: int| 0 <= i < s.len() implies same_kind(s[i], #[trigger] r[i]) && codes(r[i])
            == pass_codes(s, i) && codes_in_range(r[i]) by {
            assert(same_kind(s[i], r[i]));
            assert(letter_wf(r[i]));
            if i > 0 {
                lemma_pair_in_pass(s, r, i - 1);
            }
            if i + 1 < s.len() {
                lemma_pair_in_pass(s, r, i);
            }
        }
        assert forall|i: int| syllable_pair(s, i) implies #[trigger] pair_codes(s, i) is Ok by {
            lemma_pair_in_pass(s, r, i);
        }
    } else {
        assert forall|i: int| 0 <= i < s.len() implies same_kind(s[i], #[trigger] r[i]) && codes(r[i])
            == pass_codes(s, i) && codes_in_range(r[i]) by {
            assert(letter_wf(s[i]));
        }
    }
}

/// A failed pass failed on some syllable pair of the input.
proof fn lemma_first_failure(s: Seq<Letter>, n: nat)
    requires
        letters_wf(s),
        n < s.len(),
        sweep_upto(s, n) is Err,
    ensures
        exists|i: int|
            0 <= i < n && syllable_pair(s, i) && #[trigger] pair_codes(s, i) == Err::<(int, int), RuleError>(
                sweep_upto(s, n)->Err_0,
            ),
    decreases n,
{
    let prev = sweep_upto(s, (n - 1) as nat);
    if prev is Err {
        lemma_first_failure(s, (n - 1) as nat);
    } else {
        let m = n - 1;
        lemma_sweep_frame(s, 0, m as nat);
        let cur = prev->Ok_0;
        assert(same_kind(s[m], cur[m]) && same_kind(s[m + 1], cur[m + 1]));
        assert(syllable_pair(s, m));
        assert(pair_codes(s, m) == Err::<(int, int), RuleError>(sweep_upto(s, n)->Err_0));
    }
}

} // verus!
