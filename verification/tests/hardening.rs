//! Levels of restriction.
use kepler_daemon::hardening::HardeningLevel;

const LEVELS: [HardeningLevel; 3] =
    [HardeningLevel::Unrestricted, HardeningLevel::NoRoot, HardeningLevel::Strict];

#[test]
fn parse_valid_levels() {
    assert_eq!(HardeningLevel::parse("none").unwrap(), HardeningLevel::Unrestricted);
    assert_eq!(HardeningLevel::parse("no-root").unwrap(), HardeningLevel::NoRoot);
    assert_eq!(HardeningLevel::parse("strict").unwrap(), HardeningLevel::Strict);
}

#[test]
fn parse_invalid_level() {
    assert!(HardeningLevel::parse("invalid").is_err());
}

#[test]
fn display_roundtrip() {
    for level in LEVELS {
        assert_eq!(HardeningLevel::parse(level.as_str()).unwrap(), level);
    }
}

#[test]
fn ordering() {
    assert!(HardeningLevel::Unrestricted.below(&HardeningLevel::NoRoot));
    assert!(HardeningLevel::NoRoot.below(&HardeningLevel::Strict));
}

#[test]
fn default_is_none() {
    assert_eq!(HardeningLevel::default(), HardeningLevel::Unrestricted);
}

#[test]
fn no_level_is_below_itself() {
    for level in LEVELS {
        assert!(!level.below(&level));
    }
    assert!(!HardeningLevel::Strict.below(&HardeningLevel::NoRoot));
}
