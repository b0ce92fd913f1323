use ftl_kernel::net::arp::ArpTable;
use ftl_kernel::net::packet::Ipv4Addr;

const GATEWAY: u32 = 0x0a00_0202;
const MAC: [u8; 6] = [0x52, 0x55, 0x0a, 0x00, 0x02, 0x02];

#[test]
fn arp_unknown_address_becomes_pending() {
    let mut table = ArpTable::new();
    match table.lookup_or_insert(Ipv4Addr::new(GATEWAY)) {
        Ok(_) => panic!("nothing is resolved yet"),
        Err(inserter) => {
            assert_eq!(inserter.ip, GATEWAY);
            inserter.enqueue(7);
        }
    }
    match table.lookup_or_insert(Ipv4Addr::new(GATEWAY)) {
        Ok(_) => panic!("still pending"),
        Err(inserter) => inserter.enqueue(8),
    }
    let waiting = table.resolve(Ipv4Addr::new(GATEWAY), MAC);
    assert_eq!(waiting.into_iter().collect::<Vec<u64>>(), vec![7, 8]);
}

#[test]
fn arp_lookup_after_resolve_yields_the_mac() {
    let mut table = ArpTable::new();
    assert!(table.resolve(Ipv4Addr::new(GATEWAY), MAC).is_empty());
    match table.lookup_or_insert(Ipv4Addr::new(GATEWAY)) {
        Ok(mac) => assert_eq!(mac, MAC),
        Err(_) => panic!("resolved"),
    }
    // A later answer replaces the address and flushes nothing.
    let other = [1, 2, 3, 4, 5, 6];
    assert!(table.resolve(Ipv4Addr::new(GATEWAY), other).is_empty());
    assert!(matches!(table.lookup_or_insert(Ipv4Addr::new(GATEWAY)), Ok(m) if m == other));
}

#[test]
fn arp_addresses_are_kept_apart() {
    let mut table = ArpTable::new();
    if let Err(inserter) = table.lookup_or_insert(Ipv4Addr::new(1)) {
        inserter.enqueue(1);
    }
    if let Err(inserter) = table.lookup_or_insert(Ipv4Addr::new(2)) {
        inserter.enqueue(2);
    }
    assert_eq!(table.resolve(Ipv4Addr::new(2), MAC).into_iter().collect::<Vec<u64>>(), vec![2]);
    assert!(table.lookup_or_insert(Ipv4Addr::new(1)).is_err());
    assert_eq!(table.resolve(Ipv4Addr::new(1), MAC).into_iter().collect::<Vec<u64>>(), vec![1]);
}

#[test]
fn arp_waiting_frames_come_back_in_order_once() {
    let mut table = ArpTable::new();
    for tx in [3u64, 1, 2] {
        match table.lookup_or_insert(Ipv4Addr::new(GATEWAY)) {
            Ok(_) => panic!("not resolved yet"),
            Err(inserter) => inserter.enqueue(tx),
        }
    }
    let waiting = table.resolve(Ipv4Addr::new(GATEWAY), MAC);
    assert_eq!(waiting.into_iter().collect::<Vec<u64>>(), vec![3, 1, 2]);
    assert!(matches!(table.lookup_or_insert(Ipv4Addr::new(GATEWAY)), Ok(mac) if mac == MAC));
    assert!(table.resolve(Ipv4Addr::new(GATEWAY), MAC).is_empty());
}
