use bio_brain_snake::encoding::{b262u, u2b26};
use bio_brain_snake::ntype::NType;

#[test]
fn u2b26_zero_is_aa() {
    assert_eq!(u2b26(0), "AA");
}

#[test]
fn u2b26_small_numbers_pad_with_a() {
    assert_eq!(u2b26(1), "AB");
    assert_eq!(u2b26(25), "AZ");
}

#[test]
fn u2b26_two_digits() {
    assert_eq!(u2b26(26), "BA");
    assert_eq!(u2b26(27), "BB");
    assert_eq!(u2b26(675), "ZZ");
}

#[test]
fn u2b26_keeps_value_modulo_676() {
    assert_eq!(u2b26(676), "AA");
    assert_eq!(u2b26(700), "AY");
    assert_eq!(u2b26(456975), u2b26(456975 % 676));
}

#[test]
fn b262u_reads_codes() {
    assert_eq!(b262u("AA"), 0);
    assert_eq!(b262u("AB"), 1);
    assert_eq!(b262u("BA"), 26);
    assert_eq!(b262u("ZZ"), 675);
}

#[test]
fn b262u_reads_any_length() {
    assert_eq!(b262u(""), 0);
    assert_eq!(b262u("B"), 1);
    assert_eq!(b262u("ABC"), 28);
    assert_eq!(b262u("BAA"), 676);
}

#[test]
fn b262u_reads_letters_past_z() {
    // `a` has the byte 97, 32 past `A`.
    assert_eq!(b262u("a"), 32);
    assert_eq!(b262u("Aa"), 32);
}

#[test]
fn code_round_trip() {
    for n in 0..2000usize {
        assert_eq!(b262u(&u2b26(n)), n % 676);
    }
}

#[test]
fn ntype_letters_round_trip() {
    let all = [
        NType::Excitatory,
        NType::Inhibitory,
        NType::Effector,
        NType::LoopDet,
        NType::FoodSeek,
        NType::WallAvoid,
        NType::Randomizer,
        NType::Memory,
        NType::Speed,
        NType::Risk,
        NType::Novelty,
        NType::HormoneSrc,
        NType::HormoneSink,
        NType::Oscillator,
        NType::Gate,
        NType::Query,
        NType::Key,
        NType::Value,
        NType::AttentionOut,
        NType::PlasticityMod,
    ];
    for t in all {
        assert_eq!(NType::from(t.ch()), t);
    }
    let letters: Vec<char> = all.iter().map(|t| t.ch()).collect();
    assert_eq!(letters.iter().collect::<String>(), "EIXLFWRMSKVHZOGQYUAP");
}

#[test]
fn ntype_unknown_letter_is_excitatory() {
    assert_eq!(NType::from('?'), NType::Excitatory);
    assert_eq!(NType::from('D'), NType::Excitatory);
    assert_eq!(NType::from('e'), NType::Excitatory);
}

#[test]
fn ntype_attention_sources() {
    assert!(NType::Query.is_attention_source());
    assert!(NType::Key.is_attention_source());
    assert!(NType::Value.is_attention_source());
    assert!(!NType::AttentionOut.is_attention_source());
    assert!(!NType::Effector.is_attention_source());
}
