use jamo::hangul::{Hangul, KoreanSentence, Letter};
use jamo::rules::RuleError;
use jamo::tables::{reverse_dict, roman_of, JamoPosition};

fn codes_of(l: &Letter) -> (usize, usize) {
    match l {
        Letter::HangulLetter(h) => (h.lead().code(), h.tail().code()),
        Letter::OtherLetter(_) => panic!("not a syllable"),
    }
}

#[test]
fn decompose_first_syllable() {
    let h = Hangul::new('\u{AC00}');
    assert_eq!(h.roman_string(), "ga");
    assert_eq!(h.lead().code(), 0);
    assert_eq!(h.tail().code(), 0);
    assert_eq!(h.jamo_string(), "[\u{1100}][\u{1161}][]");
    assert_eq!(h.hangul_string(), "\u{1100}\u{1161}");
}

#[test]
fn decompose_last_syllable_of_block() {
    let h = Hangul::new('\u{D7A3}');
    assert_eq!(h.roman_string(), "hih");
    assert_eq!(h.lead().code(), 18);
    assert_eq!(h.tail().code(), 27);
    assert_eq!(h.jamo_string(), "[\u{1112}][\u{1175}][\u{11C2}]");
}

#[test]
fn decompose_with_tail() {
    let h = Hangul::new('좋');
    assert_eq!(h.roman_string(), "joh");
    assert_eq!(h.lead().roman(), "j");
    assert_eq!(h.tail().roman(), "h");
    assert_eq!(h.tail().jamo_string(), "\u{11C2}");
    assert_eq!(h.hangul_string(), "\u{110C}\u{1169}\u{11C2}");
}

#[test]
fn round_trip_recomposes_every_syllable() {
    for n in 0xAC00u32..0xD74A {
        let c = char::from_u32(n).unwrap();
        let h = Hangul::new(c);
        let s: Vec<char> = h.hangul_string().chars().collect();
        let lead = s[0] as u32 - 0x1100;
        let vowel = s[1] as u32 - 0x1161;
        let tail = if s.len() == 3 { s[2] as u32 - 0x11A7 } else { 0 };
        assert_eq!(s.len() == 3, h.tail().code() != 0);
        assert_eq!(0xAC00 + (lead * 21 + vowel) * 28 + tail, n);
    }
}

#[test]
fn classification_bounds() {
    assert!(Letter::new('\u{AC00}').is_hangul());
    assert!(Letter::new('\u{D749}').is_hangul());
    assert!(!Letter::new('\u{D74A}').is_hangul());
    assert!(!Letter::new('\u{D7A3}').is_hangul());
    assert!(!Letter::new('\u{ABFF}').is_hangul());
    assert_eq!(Letter::new('\u{D749}').roman(), "hyung");
}

#[test]
fn passthrough_renders_as_itself() {
    for c in ['a', '.', ' ', '\u{D74A}', '\u{D7A3}', '\u{1100}', 'é'] {
        let l = Letter::new(c);
        assert!(!l.is_hangul());
        assert_eq!(l.roman(), c.to_string());
        assert_eq!(l.jamo(), c.to_string());
        assert_eq!(l.hangul_string(), c.to_string());
    }
}

#[test]
fn sentence_renderings() {
    let s = KoreanSentence::new("좋아요.");
    assert_eq!(s.letters().len(), 4);
    assert_eq!(s.roman(), "johayo.");
    assert_eq!(
        s.jamo(),
        "[\u{110C}][\u{1169}][\u{11C2}][\u{110B}][\u{1161}][][\u{110B}][\u{116D}][]."
    );
    assert_eq!(s.hangul_string(), "\u{110C}\u{1169}\u{11C2}\u{110B}\u{1161}\u{110B}\u{116D}.");
}

#[test]
fn empty_sentence() {
    let s = KoreanSentence::new("");
    assert_eq!(s.roman(), "");
    assert_eq!(s.jamo(), "");
    assert_eq!(s.hangul_string(), "");
    let a = s.applied().unwrap();
    assert_eq!(a.letters().len(), 0);
}

#[test]
fn single_letter_sentence() {
    let a = KoreanSentence::new("좋").applied().unwrap();
    assert_eq!(a.roman(), "joh");
}

#[test]
fn applied_example() {
    let a = KoreanSentence::new("좋아요.").applied().unwrap();
    assert_eq!(a.hangul_string(), KoreanSentence::new("조아요.").hangul_string());
    assert_eq!(a.hangul_string(), "\u{110C}\u{1169}\u{110B}\u{1161}\u{110B}\u{116D}.");
    assert_eq!(a.roman(), "joayo.");
}

#[test]
fn h_tail_dropped_before_vowel() {
    let a = KoreanSentence::new("좋아").applied().unwrap();
    let l = a.letters();
    assert_eq!(codes_of(&l[0]).1, 0);
    assert_eq!(codes_of(&l[1]).0, 11);
}

#[test]
fn nasalization() {
    let a = KoreanSentence::new("입니다").applied().unwrap();
    assert_eq!(a.roman(), "imnida");
}

#[test]
fn n_before_h() {
    let a = KoreanSentence::new("신호").applied().unwrap();
    assert_eq!(a.roman(), "sino");
}

#[test]
fn bs_tail_and_chained_pairs() {
    let s = KoreanSentence::new("없습니다");
    assert_eq!(s.roman(), "eobsseubnida");
    let a = s.applied().unwrap();
    assert_eq!(a.roman(), "eopseumnida");
}

#[test]
fn longer_sentence() {
    let a = KoreanSentence::new("원하시는 페이지를 찾을 수가 없습니다. 좋아요.").applied().unwrap();
    assert_eq!(a.roman(), "weonasineun peijireur chajeur suga eopseumnida. joayo.");
}

#[test]
fn liaison_without_lead_errs() {
    assert!(matches!(KoreanSentence::new("없어").applied(), Err(RuleError::NoSuchLead)));
    assert!(matches!(KoreanSentence::new("밖에").applied(), Err(RuleError::NoSuchLead)));
}

#[test]
fn second_pass_changes_nothing() {
    for t in ["좋아요.", "입니다", "신호", "없습니다", "원하시는 페이지를 찾을 수가 없습니다. 좋아요.", "가 나"] {
        let once = KoreanSentence::new(t).applied().unwrap();
        let twice = once.applied().unwrap();
        assert_eq!(once.roman(), twice.roman());
        assert_eq!(once.hangul_string(), twice.hangul_string());
    }
}

#[test]
fn passthrough_kept_by_rules() {
    let a = KoreanSentence::new("좋.아").applied().unwrap();
    assert_eq!(a.roman(), "joh.a");
    assert!(matches!(a.letters()[1], Letter::OtherLetter('.')));
}

#[test]
fn mixed_pair_untouched() {
    let a = KoreanSentence::new("각a아").applied().unwrap();
    assert_eq!(a.roman(), "gagaa");
    let l = a.letters();
    assert_eq!(codes_of(&l[0]).1, 1);
    assert!(matches!(l[1], Letter::OtherLetter('a')));
    assert_eq!(KoreanSentence::apply_rules(Letter::new('좋'), Letter::new('.')).is_ok(), true);
}

fn all_codes(l: &Letter) -> (usize, usize, usize) {
    match l {
        Letter::HangulLetter(h) => (h.lead().code(), h.vowel().code(), h.tail().code()),
        Letter::OtherLetter(_) => panic!("not a syllable"),
    }
}

#[test]
fn tables_are_bijective() {
    for (p, n) in [(JamoPosition::Lead, 19), (JamoPosition::Vowel, 21), (JamoPosition::Tail, 28)] {
        for i in 0..n {
            assert_eq!(reverse_dict(p, roman_of(p, i)), Some(i));
        }
    }
    assert_eq!(roman_of(JamoPosition::Tail, 11), "rb");
    assert_eq!(roman_of(JamoPosition::Tail, 14), "rp");
    assert_eq!(reverse_dict(JamoPosition::Tail, "rb"), Some(11));
    assert_eq!(reverse_dict(JamoPosition::Lead, "bs"), None);
}

#[test]
fn h_deletion_codes() {
    let a = KoreanSentence::new("좋아").applied().unwrap();
    let l = a.letters();
    assert_eq!(all_codes(&l[0]), (12, 8, 0));
    assert_eq!(all_codes(&l[1]), (11, 0, 0));
    assert_eq!(a.hangul_string(), KoreanSentence::new("조아").hangul_string());
}

#[test]
fn liaison_moves_tail_to_lead() {
    let a = KoreanSentence::new("찾을").applied().unwrap();
    let l = a.letters();
    assert_eq!(all_codes(&l[0]), (14, 0, 0));
    assert_eq!(all_codes(&l[1]), (12, 18, 8));
    assert_eq!(a.hangul_string(), KoreanSentence::new("차즐").hangul_string());
}

#[test]
fn nasalization_hamnida() {
    assert_eq!(KoreanSentence::new("합니다").applied().unwrap().roman(), "hamnida");
}

#[test]
fn n_before_h_weona() {
    assert_eq!(KoreanSentence::new("원하").applied().unwrap().roman(), "weona");
}

#[test]
fn applied_example_jamo() {
    let a = KoreanSentence::new("좋아요.").applied().unwrap();
    assert_eq!(a.jamo(), "[\u{110C}][\u{1169}][][\u{110B}][\u{1161}][][\u{110B}][\u{116D}][].");
}

#[test]
fn two_passes_of_known_inputs() {
    let a = KoreanSentence::new("좋아요.").applied().unwrap().applied().unwrap();
    assert_eq!(a.hangul_string(), "\u{110C}\u{1169}\u{110B}\u{1161}\u{110B}\u{116D}.");
    let b = KoreanSentence::new("없습니다").applied().unwrap().applied().unwrap();
    assert_eq!(b.roman(), "eopseumnida");
}
