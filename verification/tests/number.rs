use ree_save_core::cli::parse_steamid;
use ree_save_core::number::format_hex8;

#[test]
fn hex8_pads_and_lowercases() {
    assert_eq!(format_hex8(0xdeadbeef), "deadbeef");
    assert_eq!(format_hex8(0x1f), "0000001f");
    assert_eq!(format_hex8(0), "00000000");
    assert_eq!(format_hex8(u32::MAX), "ffffffff");
}

#[test]
fn hex8_agrees_with_format() {
    for h in [1u32, 0x10, 0xabc, 0x12345678, 0x80000000, 0x0badf00d] {
        assert_eq!(format_hex8(h), format!("{:08x}", h));
    }
}

#[test]
fn hex8_reads_back() {
    for h in [0u32, 7, 0xabcdef, u32::MAX] {
        assert_eq!(parse_steamid(&format!("0x{}", format_hex8(h))), Ok(h as u64));
    }
}
