use expr_eval::ipv4::{parse_ipv4_address, stringify_ipv4_address, Ipv4Addr};

#[test]
fn test_parse_ipv4_address() {
    assert_eq!(parse_ipv4_address("127.0.0.1".into()), 2130706433);
    assert_eq!(parse_ipv4_address("192.0.2.235".into()), 3221226219);
    assert_eq!(parse_ipv4_address("159.12.35.156".into()), 2668372892);
}

#[test]
fn test_stringify_ipv4_address() {
    assert_eq!(stringify_ipv4_address(2130706433), "127.0.0.1");
    assert_eq!(stringify_ipv4_address(3221226219), "192.0.2.235");
    assert_eq!(stringify_ipv4_address(2668372892), "159.12.35.156");
}

#[test]
fn test_to_u32() {
    assert_eq!(Ipv4Addr::to_u32("127.0.0.1".into()), 2130706433);
    assert_eq!(Ipv4Addr::to_u32("192.0.2.235".into()), 3221226219);
    assert_eq!(Ipv4Addr::to_u32("159.12.35.156".into()), 2668372892);
}

#[test]
fn test_struct() {
    let _ = Ipv4Addr { addr: 0, mask: 0 };
}

#[test]
fn test_new() {
    let _ = Ipv4Addr::new(0, 0);
}

#[test]
fn test_network_1() {
    let a = Ipv4Addr::new(
        Ipv4Addr::to_u32("127.0.0.1".into()),
        Ipv4Addr::to_u32("255.255.255.0".into()),
    );

    assert_eq!("127.0.0.0", Ipv4Addr::to_string(a.network()));
}

#[test]
fn test_network_2() {
    let a = Ipv4Addr::new(
        Ipv4Addr::to_u32("192.168.56.74".into()),
        Ipv4Addr::to_u32("255.255.255.0".into()),
    );

    assert_eq!("192.168.56.0", Ipv4Addr::to_string(a.network()));
}

#[test]
fn test_boardcast_1() {
    let a = Ipv4Addr::new(
        Ipv4Addr::to_u32("127.0.0.1".into()),
        Ipv4Addr::to_u32("255.0.0.0".into()),
    );

    assert_eq!("127.255.255.255", Ipv4Addr::to_string(a.broadcast()));
}

#[test]
fn test_boardcast_2() {
    let a = Ipv4Addr::new(
        Ipv4Addr::to_u32("192.168.56.76".into()),
        Ipv4Addr::to_u32("255.255.0.0".into()),
    );

    assert_eq!("192.168.255.255", Ipv4Addr::to_string(a.broadcast()));
}

#[test]
fn test_first_1() {
    let a = Ipv4Addr::new(
        Ipv4Addr::to_u32("127.0.0.12".into()),
        Ipv4Addr::to_u32("255.0.0.0".into()),
    );

    assert_eq!("127.0.0.1", Ipv4Addr::to_string(a.first()));
}

#[test]
fn test_last_1() {
    let a = Ipv4Addr::new(
        Ipv4Addr::to_u32("127.0.0.12".into()),
        Ipv4Addr::to_u32("255.0.0.0".into()),
    );

    assert_eq!("127.255.255.254", Ipv4Addr::to_string(a.last()));
}

#[test]
fn test_from_strings() {
    let a = Ipv4Addr::new(
        Ipv4Addr::to_u32("127.0.0.1".into()),
        Ipv4Addr::to_u32("255.255.255.0".into()),
    );

    assert_eq!(a.addr, 2130706433);
    println!("{:?}", a);
    println!("addr {:?}", Ipv4Addr::to_string(a.addr));
    println!("mask {:?}", Ipv4Addr::to_string(a.mask));
    println!("network {:?}", Ipv4Addr::to_string(a.network()));
}

#[test]
fn test_ipv4_round_trip() {
    for x in [0u32, 1, 2130706433, 3221226219, 2668372892, 4294967295] {
        assert_eq!(Ipv4Addr::to_u32(Ipv4Addr::to_string(x)), x);
    }
}

#[test]
fn test_parse_wraps() {
    // the accumulating u32 arithmetic reduces each run modulo 2^32
    assert_eq!(parse_ipv4_address("4294967296".into()), 0);
    assert_eq!(parse_ipv4_address("".into()), 0);
}

#[test]
fn test_default_is_zero() {
    let a = Ipv4Addr::default();
    assert_eq!(a.addr, 0);
    assert_eq!(a.mask, 0);
}
