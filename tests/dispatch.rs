use postcard_rpc_host::{Dispatch, Key};

fn key(b: u8) -> Key {
    Key::from_bytes([b; 8])
}

#[test]
fn handlers_register_once_per_key() {
    let mut d: Dispatch<u32, &'static str, 2> = Dispatch::new(0);
    assert_eq!(d.add_handler(key(1), "one"), Ok(()));
    assert_eq!(d.add_handler(key(1), "again"), Err("dupe"));
    assert_eq!(d.add_handler(key(2), "two"), Ok(()));
    assert_eq!(d.add_handler(key(3), "three"), Err("full"));
    assert_eq!(d.handler_for(&key(1)), Some(&"one"));
    assert_eq!(d.handler_for(&key(2)), Some(&"two"));
    assert_eq!(d.handler_for(&key(3)), None);
}

#[test]
fn full_is_checked_before_dupe() {
    let mut d: Dispatch<(), u8, 1> = Dispatch::new(());
    d.add_handler(key(1), 1).unwrap();
    assert_eq!(d.add_handler(key(1), 2), Err("full"));
}

#[test]
fn context_is_shared_with_handlers() {
    let mut d: Dispatch<u32, u8, 4> = Dispatch::new(5);
    *d.context() += 1;
    assert_eq!(*d.context(), 6);
}
