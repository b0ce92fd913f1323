use ftl_kernel::error::ErrorCode;
use ftl_kernel::service::check_name;
use ftl_kernel::service::Registry;
use ftl_kernel::service::Service;

#[test]
fn service_names_are_short_ascii() {
    assert_eq!(check_name(b"tcpip"), Ok(()));
    assert_eq!(check_name(&[b'a'; 32]), Ok(()));
    assert_eq!(check_name(&[b'a'; 33]), Err(ErrorCode::InvalidArg));
    assert_eq!(check_name(&[b'a', 0xc3, 0xa9]), Err(ErrorCode::InvalidArg));
    assert_eq!(check_name(b""), Ok(()));
}

#[test]
fn service_lookup_waits_until_registered() {
    let mut reg: Registry<&str, u32> = Registry::new();
    assert_eq!(reg.get(b"tcpip"), None);
    reg.wait_for(b"tcpip".to_vec(), 1);
    reg.wait_for(b"other".to_vec(), 2);
    reg.wait_for(b"tcpip".to_vec(), 3);
    assert_eq!(reg.register(b"tcpip".to_vec(), "stack"), vec![1, 3]);
    assert_eq!(reg.get(b"tcpip"), Some(&"stack"));
    assert_eq!(reg.get(b"other"), None);
    assert_eq!(reg.register(b"other".to_vec(), "x"), vec![2]);
    // Registering again replaces the service and wakes nobody.
    assert_eq!(reg.register(b"tcpip".to_vec(), "stack2"), Vec::<u32>::new());
    assert_eq!(reg.get(b"tcpip"), Some(&"stack2"));
    assert_eq!(reg.get(b"tcpi"), None);
}

#[test]
fn service_connections_are_read_in_order() {
    let mut svc: Service<u32, &str> = Service::new();
    assert_eq!(svc.emitter(), None);
    svc.set_event_emitter(Some("sink"));
    assert_eq!(svc.emitter(), Some(&"sink"));
    svc.connect(10);
    svc.connect(11);
    assert_eq!(svc.read_event(), Some(10));
    assert_eq!(svc.read_event(), Some(11));
    assert_eq!(svc.read_event(), None);
}
