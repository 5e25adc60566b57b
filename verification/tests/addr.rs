use umai_core::addr::Ipv4Addr;

#[test]
fn dotted_decimal_is_read() {
    assert_eq!(Ipv4Addr::parse("172.30.0.3"), Some(Ipv4Addr::new(172, 30, 0, 3)));
    assert_eq!(Ipv4Addr::parse("0.0.0.0"), Some(Ipv4Addr::new(0, 0, 0, 0)));
    assert_eq!(Ipv4Addr::parse("255.255.255.255"), Some(Ipv4Addr::new(255, 255, 255, 255)));
    assert_eq!(Ipv4Addr::parse("1.20.103.249"), Some(Ipv4Addr::new(1, 20, 103, 249)));
}

#[test]
fn anything_else_is_refused() {
    for text in [
        "",
        ".",
        "...",
        "1",
        "1.2.3",
        "1.2.3.",
        ".1.2.3",
        "1.2.3.4.",
        "1.2.3.4.5",
        "1..3.4",
        "256.1.1.1",
        "1.2.3.256",
        "1.2.3.999",
        "01.2.3.4",
        "1.2.3.00",
        "1.2.3.04",
        "+1.2.3.4",
        "-1.2.3.4",
        " 1.2.3.4",
        "1.2.3.4 ",
        "1.2.3.4/32",
        "1,2,3,4",
        "0x1.2.3.4",
        "1.2.3.a",
        "1.2.3.1000",
        "0000.0.0.0",
        "255.255.255.2555",
        "255.255.255.255 and more text than an address can hold",
        "١.٢.٣.٤",
        "::1",
    ] {
        assert_eq!(Ipv4Addr::parse(text), None, "{text}");
    }
}

#[test]
fn the_standard_reader_agrees() {
    let parts = ["", "0", "1", "9", "10", "00", "07", "99", "100", "199", "255", "256", "300", "x"];
    for a in parts {
        for b in parts {
            let text = format!("{a}.{b}.3.{a}");
            let expected = text.parse::<core::net::Ipv4Addr>().ok().map(|addr| addr.octets());
            assert_eq!(Ipv4Addr::parse(&text).map(|addr| addr.octets()), expected, "{text}");
        }
    }
}

#[test]
fn text_round_trip() {
    for (a, d) in [(0u8, 0u8), (1, 9), (10, 99), (100, 255), (172, 3)] {
        let text = format!("{a}.30.7.{d}");
        assert_eq!(Ipv4Addr::parse(&text), Some(Ipv4Addr::new(a, 30, 7, d)));
    }
}

#[test]
fn octets_lie_in_network_order() {
    let addr = Ipv4Addr::new(172, 30, 0, 3);
    assert_eq!(addr.octets(), [172, 30, 0, 3]);
    assert_eq!(addr.to_network_u32().to_ne_bytes(), [172, 30, 0, 3]);
    assert_eq!(addr.to_network_u32(), 0xac1e_0003u32.to_be());
    assert_eq!(Ipv4Addr::new(1, 2, 3, 4).to_network_u32(), 0x0102_0304u32.to_be());
    assert_eq!(Ipv4Addr::new(255, 255, 255, 255).to_network_u32(), u32::MAX);
}

#[test]
fn numbers_tell_addresses_apart() {
    let forward = Ipv4Addr::new(1, 2, 3, 4).to_network_u32();
    let backward = Ipv4Addr::new(4, 3, 2, 1).to_network_u32();
    assert_ne!(forward, backward);
}
