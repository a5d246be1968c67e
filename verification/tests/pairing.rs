use seam::pairing::{parse_code, PairingCode, CODE_MODULUS, EXPORTER_LEN};
use sha2::{Digest, Sha256};

fn exporter(seed: u8) -> [u8; EXPORTER_LEN] {
    let mut out = [0u8; EXPORTER_LEN];
    for (i, b) in out.iter_mut().enumerate() {
        // `i` is bounded by 32, so this cannot truncate meaningfully.
        *b = seed.wrapping_add(u8::try_from(i).unwrap_or(0).wrapping_mul(31));
    }
    out
}

#[test]
fn same_exporter_yields_the_same_code_on_both_peers() {
    let secret = exporter(7);
    assert_eq!(PairingCode::from_exporter(&secret), PairingCode::from_exporter(&secret));
}

#[test]
fn a_man_in_the_middle_produces_different_codes() {
    // The MITM necessarily terminates two TLS sessions, so the two sides' exporters
    // differ. This is the whole security argument, so it gets a test.
    let alice_sees = PairingCode::from_exporter(&exporter(1));
    let bob_sees = PairingCode::from_exporter(&exporter(2));
    assert_ne!(alice_sees, bob_sees, "distinct sessions must not display the same code");
}

#[test]
fn code_is_always_six_digits_when_displayed() {
    // Including the cases that would render as "0" or "1 234" if formatted naively.
    for raw in [0u32, 1, 42, 999, 1000, 999_999] {
        let text = PairingCode(raw).to_display_string();
        assert_eq!(text.replace(' ', "").len(), 6, "{raw} rendered as {text:?}");
        assert_eq!(text.chars().nth(3), Some(' '), "{raw} must be grouped");
    }
}

#[test]
fn code_is_in_range() {
    for seed in 0..64u8 {
        assert!(PairingCode::from_exporter(&exporter(seed)).value() < CODE_MODULUS);
    }
}

#[test]
fn user_input_tolerates_the_separators_people_actually_type() {
    let code = PairingCode(123_456);
    for input in ["123456", "123 456", "123-456", " 123 456 ", "1 2 3 4 5 6", "123_456"] {
        assert!(code.matches_input(input), "should accept {input:?}");
    }
}

#[test]
fn user_input_rejects_wrong_or_malformed_codes() {
    let code = PairingCode(123_456);
    for input in [
        "123457",  // one digit off
        "654321",  // transposed
        "12345",   // too short
        "1234567", // too long
        "",        // empty
        "12345a",  // not a digit
        "123.456", // unsupported separator
    ] {
        assert!(!code.matches_input(input), "should reject {input:?}");
    }
}

#[test]
fn leading_zeros_are_preserved_through_input_parsing() {
    // "000042" must not be read as 42-with-two-digits and rejected, nor as a
    // different code. Leading-zero handling is a classic off-by-one in this pattern.
    let code = PairingCode(42);
    assert!(code.matches_input("000042"));
    assert!(code.matches_input("000 042"));
    assert!(!code.matches_input("42"));
    assert_eq!(code.to_display_string(), "000 042");
}

#[test]
fn derivation_is_sensitive_to_every_exporter_byte() {
    let base = exporter(5);
    let baseline = PairingCode::from_exporter(&base);
    let mut differing = 0;
    for i in 0..EXPORTER_LEN {
        let mut flipped = base;
        flipped[i] ^= 0x01;
        if PairingCode::from_exporter(&flipped) != baseline {
            differing += 1;
        }
    }
    // With a 20-bit output, ~1 in a million flips could collide by chance; requiring
    // all 32 to differ is safe and catches a derivation that ignores part of its input.
    assert_eq!(differing, EXPORTER_LEN, "every exporter byte must affect the code");
}

#[test]
fn the_code_comes_from_the_hash_of_the_exporter() {
    let secret = exporter(3);
    let digest: [u8; 32] =
        Sha256::new().chain_update(b"seam-pairing-code-v1").chain_update(secret).finalize().into();
    assert_eq!(PairingCode::from_exporter(&secret), PairingCode::from_hash(&digest));

    let mut hash = [0u8; 32];
    hash[..4].copy_from_slice(&4_001_234_567u32.to_be_bytes());
    assert_eq!(PairingCode::from_hash(&hash), PairingCode(234_567));
}

#[test]
fn a_shown_code_is_accepted_back() {
    for raw in [0, 7, 123_456, 999_999] {
        let code = PairingCode(raw);
        assert!(code.matches_input(&code.to_display_string()));
        assert_eq!(parse_code(&code.to_display_string()), Some(raw));
    }
    assert_eq!(parse_code("12 34"), None);
}

#[test]
fn a_log_shows_the_code_as_a_person_reads_it() {
    assert_eq!(PairingCode(4_207).describe(), "PairingCode(004 207)");
}
