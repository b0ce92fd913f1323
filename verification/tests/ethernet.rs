use ftl_kernel::net::packet::EthernetInspector;
use ftl_kernel::net::packet::EthernetRewriter;
use ftl_kernel::net::packet::Error;

#[test]
fn ethernet_header_too_short() {
    let frame = [0u8; 13];
    assert!(matches!(
        EthernetInspector::new(&frame),
        Err(Error::EthernetHeaderTooShort)
    ));
}

#[test]
fn ethernet_rewrite_then_inspect() {
    let mut frame = [0u8; 20];
    {
        let mut w = EthernetRewriter::new(&mut frame).unwrap();
        w.set_dst_mac([1, 2, 3, 4, 5, 6]);
        w.set_src_mac([7, 8, 9, 10, 11, 12]);
        w.set_eth_type(0x0806);
    }
    let r = EthernetInspector::new(&frame).unwrap();
    assert_eq!(r.dst_mac(), [1, 2, 3, 4, 5, 6]);
    assert_eq!(r.src_mac(), [7, 8, 9, 10, 11, 12]);
    assert_eq!(r.eth_type(), 0x0806);
    assert_eq!(r.payload().len(), 6);
}
