use ftl_kernel::error::ErrorCode;
use ftl_kernel::net::network::classify_frame;
use ftl_kernel::net::network::rx_meta;
use ftl_kernel::net::network::find_network;
use ftl_kernel::net::network::match_packet;
use ftl_kernel::net::network::Enqueued;
use ftl_kernel::net::network::FrameStep;
use ftl_kernel::net::network::Rx;
use ftl_kernel::net::network::RxMeta;
use ftl_kernel::net::network::Network;
use ftl_kernel::net::network::Subscription;
use ftl_kernel::net::network::MAX_RX_QUEUE_DEPTH;
use ftl_kernel::net::network::OUR_IP;

fn arp_frame(op: u16, sender: u32, target: u32) -> Vec<u8> {
    let mut f = vec![0xff; 6];
    f.extend_from_slice(&[2, 0, 0, 0, 0, 1]);
    f.extend_from_slice(&[0x08, 0x06]);
    f.extend_from_slice(&[0, 1, 0x08, 0, 6, 4]);
    f.extend_from_slice(&op.to_be_bytes());
    f.extend_from_slice(&[2, 0, 0, 0, 0, 1]);
    f.extend_from_slice(&sender.to_be_bytes());
    f.extend_from_slice(&[0; 6]);
    f.extend_from_slice(&target.to_be_bytes());
    f
}

#[test]
fn network_classifies_arp_requests_for_us() {
    let mut buf = vec![0u8; 4];
    buf.extend_from_slice(&arp_frame(1, 0x0a00_0202, OUR_IP));
    match classify_frame(&buf, 4, 42) {
        FrameStep::Arp { sender_ip, src_mac, reply } => {
            assert_eq!(sender_ip.as_u32(), 0x0a00_0202);
            assert_eq!(src_mac, [2, 0, 0, 0, 0, 1]);
            assert!(reply);
        }
        _ => panic!("an ARP packet"),
    }
}

#[test]
fn network_arp_not_for_us_is_learned_without_reply() {
    let buf = arp_frame(1, 0x0a00_0202, 0x0a00_0203);
    assert!(matches!(classify_frame(&buf, 0, 42), FrameStep::Arp { reply: false, .. }));
    let buf = arp_frame(2, 0x0a00_0202, OUR_IP);
    assert!(matches!(classify_frame(&buf, 0, 42), FrameStep::Arp { reply: false, .. }));
    assert!(matches!(classify_frame(&buf, 0, 41), FrameStep::Recycle));
}

#[test]
fn network_classifies_ipv4_and_recycles_the_rest() {
    let mut f = vec![0u8; 60];
    f[6..12].copy_from_slice(&[2, 0, 0, 0, 0, 9]);
    f[12] = 0x08;
    f[13] = 0x00;
    match classify_frame(&f, 0, 60) {
        FrameStep::Ipv4 { src_mac, packet_offset, packet_len } => {
            assert_eq!(src_mac, [2, 0, 0, 0, 0, 9]);
            assert_eq!(packet_offset, 14);
            assert_eq!(packet_len, 46);
        }
        _ => panic!("an IPv4 packet"),
    }
    f[12] = 0x86;
    f[13] = 0xdd;
    assert!(matches!(classify_frame(&f, 0, 60), FrameStep::Recycle));
    assert!(matches!(classify_frame(&f, 0, 13), FrameStep::Recycle));
}

#[test]
fn network_match_packet_takes_the_last_most_specific() {
    assert_eq!(match_packet(&[]), None);
    assert_eq!(match_packet(&[(false, 9, 1)]), None);
    assert_eq!(
        match_packet(&[(true, 1, 10), (true, 3, 11), (false, 9, 12), (true, 3, 13), (true, 2, 14)]),
        Some((3, 13))
    );
}

#[test]
fn network_find_network_takes_the_first_most_specific() {
    assert_eq!(find_network(&[None, None]), None);
    assert_eq!(
        find_network(&[Some((1, 10)), None, Some((4, 11)), Some((4, 12)), Some((2, 13))]),
        Some((2, 11))
    );
}

fn rx_item(id: u8, packet_len: u32, payload_offset: u16) -> Rx<u8> {
    Rx {
        buf: id,
        packet_offset: 34,
        meta: RxMeta { cookie: id as u64, packet_len, transport_offset: 20, payload_offset },
    }
}

#[test]
fn network_rx_queue_is_first_in_first_out() {
    let mut q: Network<u8, &str> = Network::new();
    assert_eq!(q.peek(100), Err(ErrorCode::Empty));
    assert!(matches!(q.subscribe("w1"), Ok(Subscription::Waiting)));
    match q.enqueue_rx(rx_item(1, 60, 40)) {
        Enqueued::Queued(notify) => assert_eq!(notify, Some("w1")),
        _ => panic!("queued"),
    }
    assert!(matches!(q.enqueue_rx(rx_item(2, 50, 40)), Enqueued::Queued(None)));
    // Packets wait: a new subscriber is notified at once.
    assert!(matches!(q.subscribe("w2"), Ok(Subscription::NotifyNow("w2"))));
    let (meta, start, end) = q.peek(40).unwrap();
    assert_eq!(meta.cookie, 1);
    assert_eq!((start, end), (34, 74));
    // Peeking again looks at the same packet.
    assert_eq!(q.peek(40).unwrap().0.cookie, 1);
    assert_eq!(q.recv_range(20), Ok((74, 94)));
    assert_eq!(q.recv_range(19), Err(ErrorCode::OutOfBounds));
    assert_eq!(q.drop_rx().unwrap().buf, 1);
    assert_eq!(q.recv_range(10), Err(ErrorCode::Empty));
    assert!(q.drop_rx().is_err());
    assert_eq!(q.peek(39), Err(ErrorCode::OutOfBounds));
    assert_eq!(q.drop_rx().unwrap().buf, 2);
    assert_eq!(q.peek(100), Err(ErrorCode::Empty));
    assert_eq!(q.drop_rx().err(), Some(ErrorCode::Empty));
}

#[test]
fn network_rx_queue_depth_is_bounded() {
    let mut q: Network<u8, ()> = Network::new();
    for i in 0..MAX_RX_QUEUE_DEPTH {
        assert!(matches!(q.enqueue_rx(rx_item(i as u8, 60, 40)), Enqueued::Queued(None)));
    }
    match q.enqueue_rx(rx_item(200, 60, 40)) {
        Enqueued::Dropped(back) => assert_eq!(back.buf, 200),
        _ => panic!("the queue is full"),
    }
    // Looking at one makes room for another.
    q.peek(100).unwrap();
    assert!(matches!(q.enqueue_rx(rx_item(201, 60, 40)), Enqueued::Queued(None)));
}

use ftl_kernel::net::network::Bindings;

#[test]
fn network_bindings_refuse_duplicates_and_unsupported() {
    let mut b: Bindings<u32> = Bindings::new();
    assert_eq!(b.bind(5, 50, false, |s| *s == 5), Err(ErrorCode::InvalidArg));
    assert_eq!(b.bind(5, 50, true, |s| *s == 5), Ok(()));
    assert_eq!(b.bind(6, 60, true, |s| *s == 6), Ok(()));
    assert_eq!(b.bind(5, 51, true, |s| *s == 5), Err(ErrorCode::AlreadyExists));
    assert_eq!(b.as_slice(), &[(5, 50), (6, 60)]);
    assert_eq!(b.unbind(|s| *s == 7), Err(ErrorCode::InvalidArg));
    assert_eq!(b.unbind(|s| *s == 5), Ok(()));
    assert_eq!(b.as_slice(), &[(6, 60)]);
    assert_eq!(b.bind(5, 52, true, |s| *s == 5), Ok(()));
    assert_eq!(b.as_slice(), &[(6, 60), (5, 52)]);
}

#[test]
fn rx_meta_takes_the_tcp_offsets() {
    let meta = rx_meta(7, 16, 44, 20, 40).unwrap();
    assert_eq!(meta, RxMeta { cookie: 7, packet_len: 44, transport_offset: 20, payload_offset: 40 });
    // IPv4 options push the TCP header back.
    let meta = rx_meta(1, 0, 100, 24, 56).unwrap();
    assert_eq!(meta.transport_offset, 24);
    assert_eq!(meta.payload_offset, 56);
}

#[test]
fn rx_meta_refuses_what_does_not_fit() {
    assert_eq!(rx_meta(1, 0, 30, 20, 40), None);
    assert_eq!(rx_meta(1, 0, 100, 41, 40), None);
    assert_eq!(rx_meta(1, 0, 0x1_0000_0000, 20, 40), None);
    assert_eq!(rx_meta(1, 0, 0x2_0000, 20, 0x1_0000), None);
    assert_eq!(rx_meta(1, usize::MAX, 44, 20, 40), None);
    assert!(rx_meta(1, usize::MAX - 44, 44, 20, 40).is_some());
}
