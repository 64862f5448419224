use ree_save_core::cli::{parse_steamid, required_file_name, steam_id_option};

#[test]
fn decimal_steamid() {
    assert_eq!(parse_steamid("76561198000000000"), Ok(76561198000000000));
    assert_eq!(parse_steamid("+5"), Ok(5));
    assert_eq!(parse_steamid("0"), Ok(0));
}

#[test]
fn hexadecimal_steamid() {
    assert_eq!(parse_steamid("0x10"), Ok(16));
    assert_eq!(parse_steamid("0xFF"), Ok(255));
    assert_eq!(parse_steamid("0x0110000100000000"), Ok(0x0110000100000000));
}

#[test]
fn bad_steamids() {
    assert!(parse_steamid("").is_err());
    assert!(parse_steamid("0x").is_err());
    assert!(parse_steamid("abc").is_err());
    assert!(parse_steamid(" 5").is_err());
    assert!(parse_steamid("-1").is_err());
    assert!(parse_steamid("18446744073709551616").is_err());
    assert!(parse_steamid("0X10").is_err());
    assert!(parse_steamid("+").is_err());
    assert!(parse_steamid("4_2").is_err());
    assert!(parse_steamid("0xg").is_err());
    assert!(parse_steamid("0x10000000000000000").is_err());
}

#[test]
fn widest_steamids() {
    assert_eq!(parse_steamid("18446744073709551615"), Ok(u64::MAX));
    assert_eq!(parse_steamid("0xffffffffffffffff"), Ok(u64::MAX));
    assert_eq!(parse_steamid("0xFfFf"), Ok(0xffff));
    assert_eq!(parse_steamid("0x+ff"), Ok(255));
}

#[test]
fn steamid_error_reason() {
    assert_eq!(parse_steamid("abc").unwrap_err(), "abc".parse::<u64>().unwrap_err().to_string());
}

#[test]
fn steam_id_option_values() {
    assert_eq!(steam_id_option(None), Ok(None));
    assert_eq!(steam_id_option(Some("0x20")), Ok(Some(32)));
    let err = steam_id_option(Some("zz")).unwrap_err();
    assert!(err.starts_with("invalid --steamid: "));
    assert_eq!(
        steam_id_option(Some("0x1g")).unwrap_err(),
        format!("invalid --steamid: {}", parse_steamid("0x1g").unwrap_err())
    );
    assert_eq!(err, format!("invalid --steamid: {}", "zz".parse::<u64>().unwrap_err()));
}

#[test]
fn file_name_is_required() {
    assert_eq!(required_file_name(None), Err("--file-name is required".to_string()));
    assert_eq!(required_file_name(Some("save.bin")), Ok("save.bin".to_string()));
}

#[test]
fn padded_hex_reads_back() {
    for v in [0u64, 1, 0x0110000100000000, u64::MAX] {
        assert_eq!(parse_steamid(&format!("0x{:016x}", v)), Ok(v));
        assert_eq!(parse_steamid(&v.to_string()), Ok(v));
        assert_eq!(parse_steamid(&format!("0x{:x}", v)), Ok(v));
        assert_eq!(parse_steamid(&format!("0x{:X}", v)), Ok(v));
    }
}
