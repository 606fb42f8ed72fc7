use std::str::FromStr;

use rtmp::flag::Error;
use rtmp::flag::RecordFlag;

#[test]
fn live_from_str() {
    assert_eq!(RecordFlag::from_str("live"), Ok(RecordFlag::Live));
}

#[test]
fn parse_ignores_ascii_case() {
    assert_eq!(RecordFlag::from_str("LIVE"), Ok(RecordFlag::Live));
    assert_eq!(RecordFlag::from_str("Record"), Ok(RecordFlag::Record));
    assert_eq!(RecordFlag::from_str("aPPend"), Ok(RecordFlag::Append));
}

#[test]
fn parse_rejects_other_words() {
    assert_eq!(RecordFlag::from_str("loop"), Err(Error::RecordFlagParse));
    assert_eq!(RecordFlag::from_str(""), Err(Error::RecordFlagParse));
}

#[test]
fn flags_spell_lowercase() {
    assert_eq!(RecordFlag::Live.as_str(), "live");
    assert_eq!(RecordFlag::Record.as_str(), "record");
    assert_eq!(RecordFlag::Append.as_str(), "append");
}
