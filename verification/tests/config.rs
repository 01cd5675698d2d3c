use ore_pool::address::Address;
use ore_pool::config::{
    attribution_epoch, boost_from, collect_boosts, load_boost, load_boosts, parse_u64, period_from,
    stake_commit_epoch, ConfigError,
};

const TOKEN: &str = "TokenkegQfeZyiNwAJbNbGKPFXCWuBvf9Ss623VQ5DA";
const TOKEN_BYTES: [u8; 32] = [
    6, 221, 246, 225, 215, 101, 161, 147, 217, 203, 225, 70, 206, 235, 121, 172, 28, 180, 133, 237, 95, 91, 55,
    145, 58, 140, 245, 133, 126, 255, 0, 169,
];
const CLOCK: &str = "SysvarC1ock11111111111111111111111111111111";
const CLOCK_BYTES: [u8; 32] = [
    6, 167, 213, 23, 24, 199, 116, 201, 40, 86, 99, 152, 105, 29, 94, 182, 139, 94, 184, 163, 155, 75, 109, 92,
    115, 85, 91, 33, 0, 0, 0, 0,
];
const SYSTEM: &str = "11111111111111111111111111111111";

#[test]
fn period_is_read_from_decimal_text() {
    assert_eq!(attribution_epoch(Some("15")), Ok(15));
    assert_eq!(attribution_epoch(Some("+7")), Ok(7));
    assert_eq!(attribution_epoch(Some("0042")), Ok(42));
    assert_eq!(attribution_epoch(Some("18446744073709551615")), Ok(u64::MAX));
    assert_eq!(stake_commit_epoch(Some("1")), Ok(1));
    assert_eq!(stake_commit_epoch(Some("60")), Ok(60));
}

#[test]
fn period_errors() {
    assert_eq!(attribution_epoch(None), Err(ConfigError::MissingPeriod));
    assert_eq!(stake_commit_epoch(None), Err(ConfigError::MissingPeriod));
    for text in ["", "+", "-", "-5", "1.5", " 5", "5 ", "1_000", "abc", "0x10", "++1", "18446744073709551616"] {
        assert_eq!(attribution_epoch(Some(text)), Err(ConfigError::InvalidPeriod));
        assert_eq!(stake_commit_epoch(Some(text)), Err(ConfigError::InvalidPeriod));
    }
    assert_eq!(attribution_epoch(Some("0")), Err(ConfigError::ZeroPeriod));
    assert_eq!(stake_commit_epoch(Some("+000")), Err(ConfigError::ZeroPeriod));
}

#[test]
fn numbers_are_read_as_std_reads_them() {
    let texts = [
        "0", "7", "+7", "007", "+007", "18446744073709551615", "+18446744073709551615",
        "18446744073709551616", "18446744073709551625", "28446744073709551615", "184467440737095516150",
        "99999999999999999999", "000000000000000000000000000018446744073709551615", "", "+", "-", "-0", "-1",
        "+-1", "++1", "1+", "1 ", " 1", "1e3", "1.0", "0x1f", "1_000", "١٢٣", "1２", "+٣", "１", "12a", "a12",
        "\u{0}", "1\u{0}", "1\n",
    ];
    for text in texts {
        assert_eq!(parse_u64(text), text.parse::<u64>().ok());
    }
    assert_eq!(parse_u64("184467440737095516150"), None);
    assert_eq!(parse_u64("+0018"), Some(18));
    assert_eq!(parse_u64("12a"), None);
}

#[test]
fn period_from_judges_what_was_read() {
    assert_eq!(period_from(None), Err(ConfigError::MissingPeriod));
    assert_eq!(period_from(Some(None)), Err(ConfigError::InvalidPeriod));
    assert_eq!(period_from(Some(Some(0))), Err(ConfigError::ZeroPeriod));
    assert_eq!(period_from(Some(Some(30))), Ok(30));
}

#[test]
fn boost_is_read_from_base58_text() {
    assert_eq!(load_boost(Some(TOKEN)), Ok(Some(Address::new(TOKEN_BYTES))));
    assert_eq!(load_boost(Some(CLOCK)), Ok(Some(Address::new(CLOCK_BYTES))));
    assert_eq!(load_boost(Some(SYSTEM)), Ok(Some(Address::new([0u8; 32]))));
    assert_eq!(load_boost(None), Ok(None));
}

#[test]
fn boost_errors() {
    for text in ["", "abc", "0OIl", "1111", "TokenkegQfeZyiNwAJbNbGKPFXCWuBvf9Ss623VQ5DAA1", "not a key"] {
        assert_eq!(load_boost(Some(text)), Err(ConfigError::InvalidBoost));
    }
}

#[test]
fn address_is_read_from_base58_text() {
    assert_eq!(Address::from_text(TOKEN), Some(Address::new(TOKEN_BYTES)));
    assert_eq!(Address::from_text(SYSTEM), Some(Address::new([0u8; 32])));
    assert_eq!(Address::from_text("TokenkegQfeZyiNwAJbNbGKPFXCWuBvf9Ss623VQ5D"), None);
    assert_eq!(Address::from_text(""), None);
    assert_eq!(Address::from_key(Some([3u8; 32])), Some(Address::new([3u8; 32])));
    assert_eq!(Address::from_key(None), None);
}

#[test]
fn boost_from_judges_what_was_read() {
    assert_eq!(boost_from(None), Ok(None));
    assert_eq!(boost_from(Some(None)), Err(ConfigError::InvalidBoost));
    assert_eq!(boost_from(Some(Some(Address::new([4u8; 32])))), Ok(Some(Address::new([4u8; 32]))));
}

#[test]
fn boosts_that_are_set_come_out_in_order() {
    assert_eq!(load_boosts(None, None, None), Ok(Vec::new()));
    assert_eq!(
        load_boosts(Some(TOKEN), None, Some(CLOCK)),
        Ok(vec![Address::new(TOKEN_BYTES), Address::new(CLOCK_BYTES)])
    );
    assert_eq!(
        load_boosts(Some(CLOCK), Some(SYSTEM), Some(TOKEN)),
        Ok(vec![Address::new(CLOCK_BYTES), Address::new([0u8; 32]), Address::new(TOKEN_BYTES)])
    );
    assert_eq!(load_boosts(None, Some(TOKEN), None), Ok(vec![Address::new(TOKEN_BYTES)]));
}

#[test]
fn one_unreadable_boost_refuses_the_configuration() {
    assert_eq!(load_boosts(Some(TOKEN), Some("abc"), None), Err(ConfigError::InvalidBoost));
    assert_eq!(load_boosts(Some(""), None, None), Err(ConfigError::InvalidBoost));
    assert_eq!(load_boosts(None, None, Some("0")), Err(ConfigError::InvalidBoost));
}

#[test]
fn collect_boosts_drops_empty_slots() {
    let a = Address::new([1u8; 32]);
    let b = Address::new([2u8; 32]);
    assert_eq!(collect_boosts(&vec![None, Some(a), None, Some(b), Some(a)]), vec![a, b, a]);
    assert_eq!(collect_boosts(&Vec::new()), Vec::<Address>::new());
}
