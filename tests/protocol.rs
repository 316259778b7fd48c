use anybls::error::ProxyError;
use anybls::protocol::{check_greeting, Address, GreetingDecision, Socks5Request, Socks5Response};
use anybls::protocols::{
    check_method_selection, parse_reply_header, socks5_client_greeting, socks5_connect_request,
    BlackholeProtocol, BoundAddress, DirectProtocol, InboundPlan, OutboundPlan, Protocol,
    Socks5Protocol, TproxyProtocol, VlessProtocol,
};

#[test]
fn response_round_trips_through_address_reader() {
    let response = Socks5Response::new(0, Address::V4([127, 0, 0, 1]), 80);
    let bytes = response.to_bytes();
    assert_eq!(bytes, vec![5, 0, 0, 1, 127, 0, 0, 1, 0, 80]);
    let (address, port) = Address::from_bytes(&bytes, 3).unwrap();
    assert!(matches!(address, Address::V4([127, 0, 0, 1])));
    assert_eq!(port, 80);
}

#[test]
fn domain_and_ipv6_round_trip() {
    let bytes = Socks5Response::new(1, Address::Domain("example.com".to_string()), 443).to_bytes();
    assert_eq!(&bytes[..5], &[5, 1, 0, 3, 11]);
    match Address::from_bytes(&bytes, 3).unwrap() {
        (Address::Domain(d), 443) => assert_eq!(d, "example.com"),
        _ => panic!("wrong address"),
    }
    let mut o = [0u8; 16];
    o[0] = 0x20;
    o[15] = 7;
    let bytes = Socks5Response::new(0, Address::V6(o), 65535).to_bytes();
    assert_eq!(bytes.len(), 3 + 17 + 2);
    match Address::from_bytes(&bytes, 3).unwrap() {
        (Address::V6(got), 65535) => assert_eq!(got, o),
        _ => panic!("wrong address"),
    }
}

#[test]
fn request_parsing() {
    let req = Socks5Request::from_bytes(&[5, 1, 0, 1, 10, 0, 0, 1, 0x1f, 0x90]).unwrap();
    assert_eq!(req.command, 1);
    assert_eq!(req.port, 8080);
    assert!(matches!(req.address, Address::V4([10, 0, 0, 1])));
    assert!(matches!(Socks5Request::from_bytes(&[5, 2, 0, 1, 1, 1, 1, 1, 0, 80]), Err(ProxyError::UnsupportedCommand(2))));
    assert!(matches!(Socks5Request::from_bytes(&[4, 1, 0, 1, 1, 1, 1, 1, 0, 80]), Err(ProxyError::Protocol(_))));
    assert!(matches!(Socks5Request::from_bytes(&[5, 1, 0]), Err(ProxyError::Protocol(_))));
    assert!(matches!(Socks5Request::from_bytes(&[5, 1, 0, 9, 1, 2]), Err(ProxyError::InvalidAddressType(9))));
    assert!(matches!(Socks5Request::from_bytes(&[5, 1, 0, 1, 1, 2]), Err(ProxyError::Protocol(_))));
    assert!(matches!(Socks5Request::from_bytes(&[5, 1, 0, 3, 5, b'a', b'b']), Err(ProxyError::Protocol(_))));
    assert!(matches!(Socks5Request::from_bytes(&[5, 1, 0, 3, 2, 0xff, 0xfe, 0, 80]), Err(ProxyError::Protocol(_))));
    let req = Socks5Request::from_bytes(&[5, 1, 0, 3, 3, b'a', b'.', b'b', 1, 0]).unwrap();
    match req.address {
        Address::Domain(d) => assert_eq!(d, "a.b"),
        _ => panic!("expected a domain"),
    }
    assert_eq!(req.port, 256);
}

#[test]
fn address_to_ip() {
    assert_eq!(Address::V4([10, 0, 0, 1]).ip(), Some(anybls::net::IpAddress::V4(0x0A00_0001)));
    assert_eq!(Address::Domain("x".to_string()).ip(), None);
}

#[test]
fn greeting_decisions() {
    assert_eq!(check_greeting(&[5, 1, 0]).unwrap(), GreetingDecision::Accept);
    assert_eq!(check_greeting(&[5, 2, 2, 0]).unwrap(), GreetingDecision::Accept);
    assert_eq!(check_greeting(&[5, 1, 2]).unwrap(), GreetingDecision::Reject);
    assert!(matches!(check_greeting(&[5, 1]), Err(ProxyError::Protocol(_))));
    assert!(matches!(check_greeting(&[4, 1, 0]), Err(ProxyError::Protocol(_))));
    assert!(matches!(check_greeting(&[5, 3, 0, 1]), Err(ProxyError::Protocol(_))));
    assert_eq!(GreetingDecision::Accept.reply(), [5, 0]);
    assert_eq!(GreetingDecision::Reject.reply(), [5, 0xFF]);
}

#[test]
fn socks5_client_messages() {
    assert_eq!(socks5_client_greeting(), vec![5, 1, 0]);
    assert!(check_method_selection(&[5, 0]).is_ok());
    assert!(matches!(check_method_selection(&[5, 2]), Err(ProxyError::Protocol(_))));
    assert_eq!(socks5_connect_request(&Address::V4([1, 2, 3, 4]), 443), vec![5, 1, 0, 1, 1, 2, 3, 4, 1, 187]);
    assert_eq!(parse_reply_header([5, 0, 0, 1]).unwrap(), BoundAddress::Fixed(4));
    assert_eq!(parse_reply_header([5, 0, 0, 4]).unwrap(), BoundAddress::Fixed(16));
    assert_eq!(parse_reply_header([5, 0, 0, 3]).unwrap(), BoundAddress::LengthPrefixed);
    assert_eq!(parse_reply_header([5, 0, 0, 9]).unwrap(), BoundAddress::Fixed(0));
    assert!(matches!(parse_reply_header([5, 5, 0, 1]), Err(ProxyError::ConnectionFailed(_))));
}

#[test]
fn protocol_capabilities() {
    let direct = Protocol::Direct(DirectProtocol::new());
    assert_eq!(direct.name(), "direct");
    assert!(matches!(direct.connect_outbound(), Ok(OutboundPlan::Dial)));
    assert!(matches!(direct.start_inbound(true), Err(ProxyError::Protocol(_))));
    let hole = Protocol::Blackhole(BlackholeProtocol::new());
    assert!(matches!(hole.connect_outbound(), Err(ProxyError::ConnectionFailed(_))));
    let tproxy = Protocol::Tproxy(TproxyProtocol::new());
    assert_eq!(tproxy.start_inbound(true).unwrap(), InboundPlan::TransparentListener);
    assert!(matches!(tproxy.start_inbound(false), Err(ProxyError::Protocol(_))));
    assert!(matches!(tproxy.connect_outbound(), Err(ProxyError::Protocol(_))));
    let relay = Protocol::Socks5(Socks5Protocol::with_server("127.0.0.1:1081".to_string()));
    match relay.connect_outbound() {
        Ok(OutboundPlan::ViaSocks5 { server }) => assert_eq!(server, "127.0.0.1:1081"),
        _ => panic!("expected a relay plan"),
    }
    assert!(matches!(Protocol::Socks5(Socks5Protocol::new()).connect_outbound(), Err(ProxyError::Protocol(_))));
    let vless = Protocol::Vless(VlessProtocol::with_config("1.2.3.4:443".to_string(), "id".to_string(), true));
    assert!(matches!(vless.connect_outbound(), Err(ProxyError::Protocol(_))));
    assert!(matches!(Protocol::Vless(VlessProtocol::new()).start_inbound(true), Err(ProxyError::Protocol(_))));
}
