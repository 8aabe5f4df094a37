use gacha_export::decimal::parse_rank;
use gacha_export::model::{check_result, envelope_data, Envelope};

fn ok_env(payload: i64) -> Envelope<i64> {
    Envelope { retcode: 0, message: String::from("OK"), data: Some(payload) }
}

fn bad_env(msg: &str) -> Envelope<i64> {
    Envelope { retcode: -100, message: String::from(msg), data: None }
}

#[test]
fn present_payload_passes_the_check() {
    assert!(check_result(&ok_env(7)).is_ok());
}

#[test]
fn absent_payload_surfaces_vendor_message() {
    let e = check_result(&bad_env("authkey error")).unwrap_err();
    assert_eq!(e.message, "authkey error");
}

#[test]
fn envelope_data_takes_the_payload_out() {
    assert_eq!(envelope_data(ok_env(42)).unwrap(), 42);
    let e = envelope_data(bad_env("visit too frequently")).unwrap_err();
    assert_eq!(e.message, "visit too frequently");
}

#[test]
fn rank_strings_parse_as_decimal() {
    assert_eq!(parse_rank("5"), Some(5));
    assert_eq!(parse_rank("3"), Some(3));
    assert_eq!(parse_rank("045"), Some(45));
    assert_eq!(parse_rank("18446744073709551615"), Some(u64::MAX));
}

#[test]
fn non_decimal_rank_strings_do_not_parse() {
    assert_eq!(parse_rank(""), None);
    assert_eq!(parse_rank("4x"), None);
    assert_eq!(parse_rank("-3"), None);
    assert_eq!(parse_rank(" 5"), None);
    assert_eq!(parse_rank("18446744073709551616"), None);
}
