use lib::trit::Trit::{NegOne, One, Zero};
use lib::tryte::{Tryte, TryteError};

fn t(v: i16) -> Tryte {
    Tryte::from_i16(v).unwrap()
}

#[test]
fn test_from_i16_valid() {
    assert_eq!(Tryte::from_i16(0).unwrap().to_i16(), 0);
    assert_eq!(Tryte::from_i16(364).unwrap().to_i16(), 364);
    assert_eq!(Tryte::from_i16(-364).unwrap().to_i16(), -364);
}

#[test]
fn test_from_i16_invalid() {
    assert_eq!(Tryte::from_i16(365), None);
    assert_eq!(Tryte::from_i16(-365), None);
}

#[test]
fn test_from_trits() {
    assert_eq!(Tryte::from_trits([Zero; 6]).to_i16(), 0);
    assert_eq!(Tryte::from_trits([One, Zero, Zero, Zero, Zero, Zero]).to_i16(), 1);
    assert_eq!(Tryte::from_trits([NegOne, Zero, Zero, Zero, Zero, Zero]).to_i16(), -1);
    assert_eq!(Tryte::from_trits([Zero, NegOne, One, Zero, Zero, Zero]).to_i16(), 6);
}

#[test]
fn tryte_test_bits_roundtrip() {
    let cases = [-364, -1, 0, 1, 42, 364];
    for &v in &cases {
        let t = Tryte::from_i16(v).unwrap();
        let bits = t.to_bits();
        let back = Tryte::from_bits(bits).unwrap();
        assert_eq!(t, back, "bits roundtrip failed for {}", v);
    }
}

#[test]
fn tryte_test_from_bits_rejects_11() {
    assert_eq!(Tryte::from_bits(0b111111111111), None);
    assert_eq!(Tryte::from_bits(0b11), None);
}

#[test]
fn test_add_ok() {
    assert_eq!(t(1).add(t(2)).unwrap().to_i16(), 3);
    assert_eq!(t(-1).add(t(1)).unwrap().to_i16(), 0);
    assert_eq!(t(100).add(t(200)).unwrap().to_i16(), 300);
}

#[test]
fn tryte_test_add_overflow_pos() {
    let r = t(364).add(t(1));
    assert_eq!(r, Err(TryteError::Overflow(Tryte::maximum())));
}

#[test]
fn tryte_test_add_overflow_neg() {
    let r = t(-364).add(t(-1));
    assert_eq!(r, Err(TryteError::Overflow(Tryte::minimum())));
}

#[test]
fn test_sub_ok() {
    assert_eq!(t(5).sub(t(3)).unwrap().to_i16(), 2);
    assert_eq!(t(0).sub(t(1)).unwrap().to_i16(), -1);
}

#[test]
fn tryte_test_sub_overflow_neg() {
    let r = t(-364).sub(t(1));
    assert_eq!(r, Err(TryteError::Overflow(Tryte::minimum())));
}

#[test]
fn tryte_test_neg() {
    assert_eq!(t(5).neg().to_i16(), -5);
    assert_eq!(t(-364).neg().to_i16(), 364);
    assert_eq!(t(0).neg().to_i16(), 0);
}

#[test]
fn test_mul_wide_small() {
    let (hi, lo) = t(3).mul_wide(t(5));
    assert_eq!(hi.to_i16(), 0);
    assert_eq!(lo.to_i16(), 15);
}

#[test]
fn test_mul_wide_overflow_into_hi() {
    let (hi, lo) = t(50).mul_wide(t(50));
    let reconstructed = hi.to_i16() as i32 * 729 + lo.to_i16() as i32;
    assert_eq!(reconstructed, 2500);
}

#[test]
fn test_mul_wide_neg() {
    let (hi, lo) = t(-5).mul_wide(t(3));
    let reconstructed = hi.to_i16() as i32 * 729 + lo.to_i16() as i32;
    assert_eq!(reconstructed, -15);
}

#[test]
fn test_mul_wide_max() {
    let (hi, lo) = t(364).mul_wide(t(364));
    let reconstructed = hi.to_i16() as i32 * 729 + lo.to_i16() as i32;
    assert_eq!(reconstructed, 132496);
    assert!(lo.to_i16() >= -364 && lo.to_i16() <= 364);
}

#[test]
fn test_div_ok() {
    assert_eq!(t(10).div(t(3)).unwrap().to_i16(), 3);
    assert_eq!(t(-10).div(t(3)).unwrap().to_i16(), -3);
    assert_eq!(t(10).div(t(-3)).unwrap().to_i16(), -3);
}

#[test]
fn tryte_test_div_by_zero() {
    assert_eq!(t(5).div(t(0)), Err(TryteError::DivisionByZero));
}

#[test]
fn test_rem_ok() {
    assert_eq!(t(10).rem(t(3)).unwrap().to_i16(), 1);
    assert_eq!(t(-10).rem(t(3)).unwrap().to_i16(), -1);
}

#[test]
fn test_from_str() {
    assert_eq!("0".parse::<Tryte>().unwrap().to_i16(), 0);
    assert_eq!("1".parse::<Tryte>().unwrap().to_i16(), 1);
    assert_eq!("T".parse::<Tryte>().unwrap().to_i16(), -1);
    assert_eq!("1T0".parse::<Tryte>().unwrap().to_i16(), 6);
    assert_eq!("T1".parse::<Tryte>().unwrap().to_i16(), -2);
    assert_eq!("10T".parse::<Tryte>().unwrap().to_i16(), 8);
}

#[test]
fn test_from_str_empty() {
    assert!("".parse::<Tryte>().is_err());
}

#[test]
fn test_from_str_invalid_char() {
    assert!("2".parse::<Tryte>().is_err());
    assert!("abc".parse::<Tryte>().is_err());
}

#[test]
fn test_from_str_too_long() {
    assert!("1T01T0".parse::<Tryte>().is_ok());
    assert!("1T01T01".parse::<Tryte>().is_err());
}

#[test]
fn tryte_test_display() {
    assert_eq!(t(0).to_string(), "0");
    assert_eq!(t(6).to_string(), "1T0");
    assert_eq!(t(-2).to_string(), "T1");
    assert_eq!(t(8).to_string(), "10T");
    assert_eq!(t(-364).to_string(), "TTTTTT");
}

#[test]
fn test_trits_roundtrip() {
    let cases = [-364, -100, -1, 0, 1, 42, 100, 364];
    for &v in &cases {
        let t = Tryte::from_i16(v).unwrap();
        let ts = t.to_trits();
        let back = Tryte::from_trits(ts);
        assert_eq!(t, back, "trits roundtrip failed for {}", v);
    }
}

#[test]
fn tryte_text_roundtrip_all_values() {
    for v in -364i16..=364 {
        let x = t(v);
        let back: Tryte = x.to_string().parse().unwrap();
        assert_eq!(back, x, "text roundtrip failed for {}", v);
    }
}

#[test]
fn tryte_parse_messages() {
    assert_eq!(Tryte::parse_ternary(""), Err("empty string".to_string()));
    assert_eq!(Tryte::parse_ternary("1T01T01"), Err("too many trits: 7".to_string()));
    assert_eq!(Tryte::parse_ternary("12"), Err("invalid char '2'".to_string()));
    assert_eq!(Tryte::parse_ternary("  1t "), Ok(t(2)));
}

#[test]
fn tryte_rem_by_zero_and_identity() {
    assert_eq!(t(7).rem(t(0)), Err(TryteError::DivisionByZero));
    for a in [-364i16, -100, -7, 0, 7, 100, 364] {
        for b in [-13i16, -3, -1, 1, 3, 13] {
            let q = t(a).div(t(b)).unwrap().to_i16();
            let r = t(a).rem(t(b)).unwrap().to_i16();
            assert_eq!(q * b + r, a);
            assert!(r.abs() < b.abs());
        }
    }
}

#[test]
fn tryte_bits_exact_code() {
    // 1 = trits [1,0,0,0,0,0]: codes 2,1,1,1,1,1 (two bits each, lowest trit first)
    assert_eq!(t(1).to_bits(), 0b01_01_01_01_01_10);
    assert_eq!(t(0).to_bits(), 0b01_01_01_01_01_01);
}

#[test]
fn tryte_sub_overflow_pos_and_constants() {
    assert_eq!(t(364).sub(t(-1)), Err(TryteError::Overflow(Tryte::maximum())));
    assert_eq!(Tryte::zero().to_i16(), 0);
    assert_eq!(Tryte::one().to_i16(), 1);
    assert_eq!(Tryte::neg_one().to_i16(), -1);
}

#[test]
fn tryte_valid_codes_encode_back() {
    let mut valid = 0;
    for b in 0u16..4096 {
        match Tryte::from_bits(b) {
            Some(x) => {
                assert_eq!(x.to_bits(), b, "code {} does not encode back", b);
                valid += 1;
            }
            None => assert!((0..6).any(|i| (b >> (2 * i)) & 0b11 == 0b11)),
        }
    }
    assert_eq!(valid, 729);
}
