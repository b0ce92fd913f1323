use ftl_kernel::net::dhcp::Client;
use ftl_kernel::net::dhcp::Request;
use ftl_kernel::net::dhcp::RxOutcome;
use ftl_kernel::net::dhcp::TX_ID;
use ftl_kernel::net::packet::dhcp::DhcpInspector;
use ftl_kernel::net::packet::dhcp::DhcpRewriter;
use ftl_kernel::net::packet::dhcp::Error;
use ftl_kernel::net::packet::dhcp::DHCP_ACK;
use ftl_kernel::net::packet::dhcp::DHCP_OFFER;
use ftl_kernel::net::packet::dhcp::OPTION_ROUTER;
use ftl_kernel::net::packet::dhcp::OPTION_SERVER_ID;
use ftl_kernel::net::packet::dhcp::OPTION_SUBNET_MASK;
use ftl_kernel::net::packet::ipv4::Ipv4Inspector;
use ftl_kernel::net::packet::ipv4::Ipv4Rewriter;
use ftl_kernel::net::packet::udp::UdpInspector;
use ftl_kernel::net::packet::udp::UdpRewriter;
use ftl_kernel::net::packet::Ipv4Addr;
use ftl_kernel::net::packet::NetMask;

const MAC: [u8; 6] = [0x52, 0x54, 0x00, 0x12, 0x34, 0x56];
const SERVER: u32 = 0x0a00_0202;
const OFFERED: u32 = 0x0a00_020f;

/// A reply from a DHCP server of type `msg_type`, offering `yiaddr` to the
/// client with hardware address `mac` in transaction `xid`.
fn reply(msg_type: u8, xid: u32, yiaddr: u32, mac: [u8; 6], options: &[(u8, &[u8])]) -> [u8; 300] {
    let mut b = [0u8; 300];
    {
        let mut w = DhcpRewriter::new(&mut b).unwrap();
        w.set_op(2);
        w.set_hw_type(1);
        w.set_hwaddr_len(6);
        w.set_tx_id(xid);
        w.set_client_hwaddr(mac);
        w.write_option(53, &[msg_type]).unwrap();
        for (code, value) in options {
            w.write_option(*code, value).unwrap();
        }
        w.finish().unwrap();
    }
    b[16..20].copy_from_slice(&yiaddr.to_be_bytes());
    b
}

/// The IPv4 packet carrying `dhcp` in a UDP datagram from the server port
/// to the client port, sent by `src`.
fn packet(src: u32, dhcp: &[u8]) -> Vec<u8> {
    let mut d = vec![0u8; 8];
    d.extend_from_slice(dhcp);
    {
        let mut w = UdpRewriter::new(&mut d[..]).unwrap();
        w.set_src_port(67);
        w.set_dst_port(68);
        w.set_len();
        w.update_checksum(Ipv4Addr::new(src), Ipv4Addr::new(0xffff_ffff));
    }
    let mut p = vec![0u8; 20];
    {
        let mut w = Ipv4Rewriter::new(&mut p[..]).unwrap();
        w.set_version_and_header_len();
        w.set_total_len((20 + d.len()) as u16);
        w.set_ttl(64);
        w.set_ip_proto(17);
        w.set_src_ip(Ipv4Addr::new(src));
        w.set_dst_ip(Ipv4Addr::new(0xffff_ffff));
        w.update_checksum();
    }
    p.extend_from_slice(&d);
    p
}

fn deliver(client: &mut Client, src: u32, dhcp: &[u8]) -> RxOutcome {
    let p = packet(src, dhcp);
    let ip = Ipv4Inspector::new(&p).unwrap();
    let udp = UdpInspector::new(ip.payload()).unwrap();
    client.handle_rx(&ip, &udp)
}

fn offer() -> [u8; 300] {
    reply(DHCP_OFFER, TX_ID, OFFERED, MAC, &[(OPTION_SERVER_ID, &SERVER.to_be_bytes())])
}

fn ack() -> [u8; 300] {
    reply(
        DHCP_ACK,
        TX_ID,
        OFFERED,
        MAC,
        &[
            (OPTION_SERVER_ID, &SERVER.to_be_bytes()),
            (OPTION_ROUTER, &SERVER.to_be_bytes()),
            (OPTION_SUBNET_MASK, &[255, 255, 255, 0]),
        ],
    )
}

#[test]
fn dhcp_discover_message_bytes() {
    let bytes = Client::new(MAC).discover_message().unwrap();
    assert_eq!(&bytes[0..4], &[1, 1, 6, 0]);
    assert_eq!(&bytes[4..8], &TX_ID.to_be_bytes());
    assert_eq!(&bytes[10..12], &[0x80, 0x00]);
    assert_eq!(&bytes[28..34], &MAC);
    assert_eq!(&bytes[236..240], &[0x63, 0x82, 0x53, 0x63]);
    assert_eq!(&bytes[240..249], &[53, 1, 1, 55, 3, 1, 3, 54, 255]);
    assert!(bytes[249..].iter().all(|b| *b == 0));
    assert!(bytes[12..28].iter().all(|b| *b == 0));
}

#[test]
fn dhcp_request_message_bytes() {
    let req = Request { address: Ipv4Addr::new(OFFERED), server: Ipv4Addr::new(SERVER) };
    let bytes = Client::new(MAC).request_message(req).unwrap();
    assert_eq!(&bytes[0..4], &[1, 1, 6, 0]);
    assert_eq!(
        &bytes[240..260],
        &[53, 1, 3, 50, 4, 10, 0, 2, 15, 54, 4, 10, 0, 2, 2, 55, 2, 1, 3, 255]
    );
}

#[test]
fn dhcp_full_exchange() {
    let mut client = Client::new(MAC);
    match deliver(&mut client, SERVER, &offer()) {
        RxOutcome::SendRequest(bytes) => {
            assert_eq!(&bytes[240..243], &[53, 1, 3]);
            assert_eq!(&bytes[243..249], &[50, 4, 10, 0, 2, 15]);
            assert_eq!(&bytes[249..255], &[54, 4, 10, 0, 2, 2]);
        }
        _ => panic!("an offer leads to a request"),
    }
    match deliver(&mut client, SERVER, &ack()) {
        RxOutcome::Configured(config) => {
            assert_eq!(config.address, Ipv4Addr::new(OFFERED));
            assert_eq!(config.gateway, Ipv4Addr::new(SERVER));
            assert_eq!(config.netmask, NetMask::new(0xffff_ff00));
        }
        _ => panic!("the acknowledgment configures the client"),
    }
    // Bound: everything else is ignored.
    assert!(matches!(deliver(&mut client, SERVER, &offer()), RxOutcome::Nothing));
    assert!(matches!(deliver(&mut client, SERVER, &ack()), RxOutcome::Nothing));
}

#[test]
fn dhcp_ack_before_offer_is_ignored() {
    let mut client = Client::new(MAC);
    assert!(matches!(deliver(&mut client, SERVER, &ack()), RxOutcome::Nothing));
    assert!(matches!(deliver(&mut client, SERVER, &offer()), RxOutcome::SendRequest(_)));
}

#[test]
fn dhcp_foreign_replies_are_ignored() {
    let mut client = Client::new(MAC);
    let other_tx = reply(DHCP_OFFER, TX_ID + 1, OFFERED, MAC, &[]);
    assert!(matches!(deliver(&mut client, SERVER, &other_tx), RxOutcome::Nothing));
    let other_mac = reply(DHCP_OFFER, TX_ID, OFFERED, [1, 2, 3, 4, 5, 6], &[]);
    assert!(matches!(deliver(&mut client, SERVER, &other_mac), RxOutcome::Nothing));
    let nak = reply(6, TX_ID, 0, MAC, &[]);
    assert!(matches!(deliver(&mut client, SERVER, &nak), RxOutcome::Nothing));
    let mut request_op = offer();
    request_op[0] = 1;
    assert!(matches!(deliver(&mut client, SERVER, &request_op), RxOutcome::Nothing));
}

#[test]
fn dhcp_offer_without_server_id_uses_sender() {
    let mut client = Client::new(MAC);
    let plain = reply(DHCP_OFFER, TX_ID, OFFERED, MAC, &[]);
    match deliver(&mut client, 0x0a00_0203, &plain) {
        RxOutcome::SendRequest(bytes) => {
            assert_eq!(&bytes[249..255], &[54, 4, 10, 0, 2, 3]);
        }
        _ => panic!("an offer leads to a request"),
    }
}

#[test]
fn dhcp_ack_checks() {
    // An acknowledgment from another server is ignored.
    let mut client = Client::new(MAC);
    deliver(&mut client, SERVER, &offer());
    let other = reply(
        DHCP_ACK,
        TX_ID,
        OFFERED,
        MAC,
        &[(OPTION_SERVER_ID, &[10, 0, 2, 9]), (OPTION_ROUTER, &SERVER.to_be_bytes())],
    );
    assert!(matches!(deliver(&mut client, SERVER, &other), RxOutcome::Nothing));
    // One without a router is ignored.
    let no_router = reply(DHCP_ACK, TX_ID, OFFERED, MAC, &[]);
    assert!(matches!(deliver(&mut client, SERVER, &no_router), RxOutcome::Nothing));
    // One for another address is ignored.
    let moved = reply(DHCP_ACK, TX_ID, 0x0a00_0299, MAC, &[(OPTION_ROUTER, &SERVER.to_be_bytes())]);
    assert!(matches!(deliver(&mut client, SERVER, &moved), RxOutcome::Nothing));
    // An unset address and no mask are accepted; the mask counts as zero.
    let unset = reply(DHCP_ACK, TX_ID, 0, MAC, &[(OPTION_ROUTER, &SERVER.to_be_bytes())]);
    match deliver(&mut client, SERVER, &unset) {
        RxOutcome::Configured(config) => {
            assert_eq!(config.address, Ipv4Addr::new(OFFERED));
            assert_eq!(config.netmask, NetMask::new(0));
        }
        _ => panic!("accepted"),
    }
}

#[test]
fn dhcp_handle_offer_and_ack_directly() {
    let mut client = Client::new(MAC);
    let o = offer();
    let inspector = DhcpInspector::new(&o).unwrap();
    let req = client.handle_offer(&inspector, Ipv4Addr::new(1)).unwrap();
    assert_eq!(req.address, Ipv4Addr::new(OFFERED));
    assert_eq!(req.server, Ipv4Addr::new(SERVER));
    assert!(client.handle_offer(&inspector, Ipv4Addr::new(1)).is_none());
    let a = ack();
    let inspector = DhcpInspector::new(&a).unwrap();
    let config = client.handle_ack(&inspector).unwrap();
    assert_eq!(config.gateway, Ipv4Addr::new(SERVER));
    assert!(client.handle_ack(&inspector).is_none());
}

#[test]
fn dhcp_inspector_fields_and_options() {
    let a = ack();
    let d = DhcpInspector::new(&a).unwrap();
    assert_eq!(d.op(), 2);
    assert_eq!(d.hw_type(), 1);
    assert_eq!(d.hwaddr_len(), 6);
    assert_eq!(d.tx_id(), TX_ID);
    assert_eq!(d.your_ip(), Ipv4Addr::new(OFFERED));
    assert_eq!(d.client_hwaddr(), MAC);
    assert_eq!(d.message_type(), Ok(Some(DHCP_ACK)));
    assert_eq!(d.option(OPTION_SUBNET_MASK), Ok(Some(&[255u8, 255, 255, 0][..])));
    assert_eq!(d.option(12), Ok(None));
    assert_eq!(d.ipv4_option(OPTION_ROUTER), Ok(Some(Ipv4Addr::new(SERVER))));
    assert_eq!(d.ipv4_option(12), Ok(None));
}

#[test]
fn dhcp_option_scanning_edge_cases() {
    let mut b = ack();
    // Pad bytes are skipped.
    b.copy_within(240..290, 242);
    b[240] = 0;
    b[241] = 0;
    let d = DhcpInspector::new(&b).unwrap();
    assert_eq!(d.message_type(), Ok(Some(DHCP_ACK)));
    // An option that runs past the end is malformed.
    let mut m = [0u8; 244];
    m[..240].copy_from_slice(&ack()[..240]);
    m[240] = 3;
    m[241] = 4;
    m[242] = 10;
    m[243] = 0;
    let d = DhcpInspector::new(&m).unwrap();
    assert_eq!(d.option(OPTION_ROUTER), Err(Error::MalformedOptions));
    assert_eq!(d.message_type(), Err(Error::MalformedOptions));
    // A code with no length byte is malformed.
    let mut n = [0u8; 241];
    n[..240].copy_from_slice(&ack()[..240]);
    n[240] = 3;
    assert_eq!(DhcpInspector::new(&n).unwrap().option(OPTION_ROUTER), Err(Error::MalformedOptions));
    // A short address option holds no address.
    let short = reply(DHCP_ACK, TX_ID, 0, MAC, &[(OPTION_ROUTER, &[1, 2, 3])]);
    assert_eq!(DhcpInspector::new(&short).unwrap().ipv4_option(OPTION_ROUTER), Ok(None));
    // The end option stops the scan.
    let ended = reply(DHCP_ACK, TX_ID, 0, MAC, &[]);
    let mut e = ended;
    e[244] = OPTION_ROUTER;
    e[245] = 4;
    assert_eq!(DhcpInspector::new(&e).unwrap().option(OPTION_ROUTER), Ok(None));
}

#[test]
fn dhcp_inspector_errors() {
    let a = ack();
    assert!(matches!(DhcpInspector::new(&a[..239]), Err(Error::TooShort)));
    let mut req = a;
    req[0] = 1;
    assert!(matches!(DhcpInspector::new(&req), Err(Error::UnsupportedPacket)));
    let mut cookie = a;
    cookie[239] = 0;
    assert!(matches!(DhcpInspector::new(&cookie), Err(Error::InvalidMagicCookie)));
}

#[test]
fn dhcp_rewriter_errors() {
    let mut small = [0u8; 239];
    assert!(matches!(DhcpRewriter::new(&mut small), Err(Error::TooShort)));
    let mut b = [0u8; 246];
    let mut w = DhcpRewriter::new(&mut b).unwrap();
    assert_eq!(w.write_option(53, &[1, 2, 3, 4]), Err(Error::OptionsFull));
    w.write_option(53, &[1, 2, 3]).unwrap();
    assert_eq!(w.options_offset, 245);
    w.finish().unwrap();
    assert_eq!(b[245], 255);
    let mut c = [0u8; 240];
    let mut w = DhcpRewriter::new(&mut c).unwrap();
    assert_eq!(w.finish(), Err(Error::OptionsFull));
    let long = [0u8; 256];
    let mut d = [0u8; 600];
    let mut w = DhcpRewriter::new(&mut d).unwrap();
    assert_eq!(w.write_option(1, &long), Err(Error::OptionsFull));
}

#[test]
fn dhcp_written_options_read_back_first_match() {
    let mut b = [0u8; 300];
    {
        let mut w = DhcpRewriter::new(&mut b).unwrap();
        w.set_op(2);
        w.set_hw_type(1);
        w.set_hwaddr_len(6);
        w.write_option(OPTION_ROUTER, &[1, 2, 3, 4]).unwrap();
        w.write_option(6, &[8, 8]).unwrap();
        w.write_option(OPTION_ROUTER, &[9, 9, 9, 9]).unwrap();
        w.write_option(51, &[]).unwrap();
        w.finish().unwrap();
    }
    let d = DhcpInspector::new(&b).unwrap();
    assert_eq!(d.option(OPTION_ROUTER), Ok(Some(&[1u8, 2, 3, 4][..])));
    assert_eq!(d.option(6), Ok(Some(&[8u8, 8][..])));
    assert_eq!(d.option(51), Ok(Some(&[][..])));
    assert_eq!(d.option(7), Ok(None));
    assert_eq!(d.ipv4_option(OPTION_ROUTER), Ok(Some(Ipv4Addr::new(0x0102_0304))));
}
