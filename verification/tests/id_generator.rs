use oms::id_generator::{generate_id, next_id, FatalError, IdState, ParseError, Uint128};

#[test]
fn foo() {
    let mut st = IdState::new();
    for _ in 0..10 {
        let id = generate_id(&mut st).unwrap();
        println!("{}", id.to_text());
    }

    let id_ = generate_id(&mut st).unwrap();
    println!("id_: {:?}", id_);
    let s = id_.to_text();
    let i: Uint128 = s.parse().unwrap();
    println!("i  : {:?}", i);
}

#[test]
fn round_trip_generated() {
    let mut st = IdState::new();
    for _ in 0..100 {
        let id = generate_id(&mut st).unwrap();
        let text = id.to_text();
        assert_eq!(text.len(), 32);
        let back = Uint128::from_text(&text).unwrap();
        assert_eq!(back.0, id.0);
    }
}

#[test]
fn round_trip_fixed() {
    let id = Uint128([
        0x01, 0x00, 0x00, 0x00, 0x00, 0x00, 0x00, 0x00, 0x00, 0x00, 0xbc, 0x9a, 0x34, 0x12, 0x00,
        0x00,
    ]);
    let text = id.to_text();
    assert_eq!(text, "01000000000000000000bc9a34120000");
    let back: Uint128 = text.parse().unwrap();
    assert_eq!(back.0, id.0);
}

#[test]
fn uniqueness_sequential() {
    // Stream many identifiers through one state, mixing a frozen clock
    // (same bucket) with the real one; all must be pairwise distinct.
    let mut st = IdState::new();
    let mut texts: Vec<String> = Vec::new();
    for _ in 0..2000 {
        texts.push(generate_id(&mut st).unwrap().to_text());
    }
    for _ in 0..2000 {
        texts.push(next_id(&mut st, 0, [0; 10]).unwrap().to_text());
    }
    texts.sort();
    for w in texts.windows(2) {
        assert_ne!(w[0], w[1]);
    }
}

#[test]
fn monotonic_timestamp_fields() {
    // The retained timestamp never goes backwards, even when the clock does.
    let mut st = IdState::new();
    let nows: [u128; 6] = [100, 100, 50, 200, 150, 200];
    let mut last: u64 = 0;
    for &now in nows.iter() {
        let id = next_id(&mut st, now, [7; 10]).unwrap();
        let ts = id.timestamp_part();
        assert!(last <= ts);
        last = ts;
    }
    assert_eq!(last, 200);
}

#[test]
fn sequence_progression_same_bucket() {
    let mut st = IdState::new();
    let a = next_id(&mut st, 42, [9; 10]).unwrap();
    let b = next_id(&mut st, 42, [0; 10]).unwrap();
    assert_eq!(a.timestamp_part(), b.timestamp_part());
    let (low_a, high_a) = a.sequence_parts();
    let (low_b, high_b) = b.sequence_parts();
    // the sequence fields differ by exactly 1 modulo 2^80
    let (expect_low, carry) = low_a.overflowing_add(1);
    let expect_high = if carry { high_a.wrapping_add(1) } else { high_a };
    assert_eq!(low_b, expect_low);
    assert_eq!(high_b, expect_high);
}

#[test]
fn parser_rejects_malformed() {
    assert_eq!(Uint128::from_text(""), Err(ParseError::WrongLength));
    let non_hex = "zz".repeat(16);
    assert_eq!(Uint128::from_text(&non_hex), Err(ParseError::InvalidHex));
    let short = "0123456789abcdef0123456789abcde";
    assert_eq!(short.len(), 31);
    assert_eq!(Uint128::from_text(short), Err(ParseError::WrongLength));
    let ok = "0123456789abcdef0123456789ABCDEF";
    let id = Uint128::from_text(ok).unwrap();
    assert_eq!(
        id.0,
        [
            0x01, 0x23, 0x45, 0x67, 0x89, 0xab, 0xcd, 0xef, 0x01, 0x23, 0x45, 0x67, 0x89, 0xab,
            0xcd, 0xef,
        ]
    );
}

#[test]
fn fixed_example() {
    // Frozen clock at T, sequence seeded to zero: the first call takes the
    // counter from 0 to 1 and records the split 48-bit timestamp.
    let t: u128 = 0x0000123456789abc;
    let mut st = IdState::new();
    let id = next_id(&mut st, t, [0; 10]).unwrap();
    // bytes [0, 8): the sequence value 1, little-endian
    assert_eq!(&id.0[0..8], &[1, 0, 0, 0, 0, 0, 0, 0]);
    assert_eq!(&id.0[8..10], &[0, 0]);
    // bytes [10, 12): lo16 = T & 0xffff = 0x9abc, little-endian
    assert_eq!(&id.0[10..12], &[0xbc, 0x9a]);
    // bytes [12, 16): hi32 = (T >> 16) & 0xffffffff = 0x12345678, little-endian
    assert_eq!(&id.0[12..16], &[0x78, 0x56, 0x34, 0x12]);
    assert_eq!(id.timestamp_part(), 0x123456789abc);
    assert_eq!(id.sequence_parts(), (1, 0));
}

#[test]
fn sequence_overflow_is_fatal() {
    // A counter at its maximum cannot be incremented without reuse.
    let mut st = IdState {
        last_timestamp: 10,
        last_random: [0xff; 10],
    };
    assert_eq!(next_id(&mut st, 5, [0; 10]), Err(FatalError::SequenceOverflow));
    // the same holds when the reseed itself is already at the maximum
    let mut st2 = IdState::new();
    st2.last_timestamp = 10;
    assert_eq!(next_id(&mut st2, 20, [0xff; 10]), Err(FatalError::SequenceOverflow));
}

#[test]
fn reseed_used_when_timestamp_advances() {
    // When the clock advances, the counter restarts from the reseed value
    // plus one; when it does not, the reseed argument is ignored.
    let mut st = IdState::new();
    let a = next_id(&mut st, 1000, [5, 0, 0, 0, 0, 0, 0, 0, 0, 0]).unwrap();
    assert_eq!(a.sequence_parts(), (6, 0));
    let b = next_id(&mut st, 1000, [99; 10]).unwrap();
    assert_eq!(b.sequence_parts(), (7, 0));
}
