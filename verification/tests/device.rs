use ftl_kernel::net::device::write_arp_reply;
use ftl_kernel::net::device::write_ethernet_header;
use ftl_kernel::net::device::HEADROOM_TOTAL;
use ftl_kernel::net::packet::arp::ArpInspector;
use ftl_kernel::net::packet::ethernet::EthernetInspector;
use ftl_kernel::net::packet::Ipv4Addr;

#[test]
fn device_writes_ethernet_header() {
    let mut header = [0xaau8; 14];
    write_ethernet_header(&mut header, [0xff; 6], [2, 0, 0, 0, 0, 1], 0x0806);
    assert_eq!(header, [0xff, 0xff, 0xff, 0xff, 0xff, 0xff, 2, 0, 0, 0, 0, 1, 0x08, 0x06]);
    assert_eq!(EthernetInspector::new(&header).unwrap().eth_type(), 0x0806);
}

#[test]
fn device_writes_arp_reply() {
    let mut packet = [0u8; 28];
    write_arp_reply(
        &mut packet,
        [2, 0, 0, 0, 0, 1],
        Ipv4Addr::new(0x0a00_020f),
        [2, 0, 0, 0, 0, 2],
        Ipv4Addr::new(0x0a00_0202),
    );
    assert_eq!(
        packet,
        [
            0, 1, 8, 0, 6, 4, 0, 2, 2, 0, 0, 0, 0, 1, 10, 0, 2, 15, 2, 0, 0, 0, 0, 2, 10, 0, 2, 2
        ]
    );
    let arp = ArpInspector::new(&packet).unwrap();
    assert_eq!(arp.op(), 2);
    assert_eq!(arp.dst_ip().as_u32(), 0x0a00_0202);
    assert_eq!(HEADROOM_TOTAL, 34);
}
