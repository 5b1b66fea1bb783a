//! Address parsing.

use pow_gate_core::address::IpAddr;

#[test]
fn known_addresses() {
    assert_eq!(IpAddr::parse("1.2.3.4"), Some(IpAddr::V4(0x01020304)));
    assert_eq!(IpAddr::parse("0.0.0.0"), Some(IpAddr::V4(0)));
    assert_eq!(IpAddr::parse("255.255.255.255"), Some(IpAddr::V4(u32::MAX)));
    assert_eq!(IpAddr::parse("::"), Some(IpAddr::V6(0)));
    assert_eq!(IpAddr::parse("::1"), Some(IpAddr::V6(1)));
    assert_eq!(
        IpAddr::parse("1:2:3:4:5:6:7:8"),
        Some(IpAddr::V6(0x0001_0002_0003_0004_0005_0006_0007_0008))
    );
    assert_eq!(
        IpAddr::parse("FFFF:abcd:0:0:0:0:0:00f"),
        Some(IpAddr::V6(0xffff_abcd_0000_0000_0000_0000_0000_000f))
    );
    assert_eq!(
        IpAddr::parse("ffff:ffff:ffff:ffff:ffff:ffff:ffff:ffff"),
        Some(IpAddr::V6(u128::MAX))
    );
}

#[test]
fn the_gap_stands_for_one_zero_group_or_more() {
    assert_eq!(IpAddr::parse("1::"), Some(IpAddr::V6(1 << 112)));
    assert_eq!(IpAddr::parse("1::1"), Some(IpAddr::V6((1 << 112) | 1)));
    assert_eq!(
        IpAddr::parse("1:2:3:4:5:6:7::"),
        Some(IpAddr::V6(0x0001_0002_0003_0004_0005_0006_0007_0000))
    );
    assert_eq!(
        IpAddr::parse("::2:3:4:5:6:7:8"),
        Some(IpAddr::V6(0x0000_0002_0003_0004_0005_0006_0007_0008))
    );
    assert_eq!(
        IpAddr::parse("1::3:4:5:6:7:8"),
        Some(IpAddr::V6(0x0001_0000_0003_0004_0005_0006_0007_0008))
    );
    for s in ["1:2:3:4:5:6:7:8::", "::1:2:3:4:5:6:7:8", "1:2:3:4::5:6:7:8", ":::", "1:::2", "1::2::3"] {
        assert_eq!(IpAddr::parse(s), None, "{s:?}");
    }
}

#[test]
fn the_last_two_groups_may_be_dotted() {
    assert_eq!(IpAddr::parse("::ffff:1.2.3.4"), Some(IpAddr::V6(0xffff_0102_0304)));
    assert_eq!(IpAddr::parse("::1.2.3.4"), Some(IpAddr::V6(0x0102_0304)));
    assert_eq!(
        IpAddr::parse("1:2:3:4:5:6:1.2.3.4"),
        Some(IpAddr::V6(0x0001_0002_0003_0004_0005_0006_0102_0304))
    );
    assert_eq!(
        IpAddr::parse("1:2:3:4:5::1.2.3.4"),
        Some(IpAddr::V6(0x0001_0002_0003_0004_0005_0000_0102_0304))
    );
    for s in [
        "1:2:3:4:5:6:7:1.2.3.4", "1:2:3:4:5:6::1.2.3.4", "1.2.3.4::", "1.2.3.4::1", "::1.2.3.4:5",
        "1:2:3:4:5:1.2.3.4:8", "::1.2.3", "::01.2.3.4", "::1.2.3.256",
    ] {
        assert_eq!(IpAddr::parse(s), None, "{s:?}");
    }
}

#[test]
fn malformed_addresses() {
    for s in [
        "", "1", "1.2.3", "1.2.3.4.5", "1.2.3.", ".1.2.3", "1..2.3", "256.1.1.1", "1.2.3.04", "00.0.0.0",
        "1.2.3.4444", "+1.2.3.4", "1.2.3.+4", " 1.2.3.4", "1.2.3.4 ", "1.2.3.a", ":", "1:2",
        "1:2:3:4:5:6:7", "1:2:3:4:5:6:7:8:9", "12345::", "00000::", "g::", "::g", ":1::", "::1:", "1:2:",
        ":1:2", "::%1", "[::1]", "::1%eth0", "\u{e9}", "1.2.3.\u{661}", "::\u{661}",
    ] {
        assert_eq!(IpAddr::parse(s), None, "{s:?}");
    }
}

#[test]
fn written_addresses_are_read_back() {
    let mut x: u128 = 1;
    for i in 0..2000u32 {
        x = x.wrapping_mul(0x2360ed051fc65da44385df649fccf645).wrapping_add(i as u128);
        let v = x as u32;
        let v4 = format!("{}.{}.{}.{}", v >> 24, (v >> 16) & 255, (v >> 8) & 255, v & 255);
        assert_eq!(IpAddr::parse(&v4), Some(IpAddr::V4(v)));
        let groups: Vec<String> =
            (0..8).map(|k| format!("{:x}", (x >> (112 - 16 * k)) & 0xffff)).collect();
        assert_eq!(IpAddr::parse(&groups.join(":")), Some(IpAddr::V6(x)));
    }
}
