use syncbox::cache::{Cache, Lookup};

#[test]
fn cache_single_flight_steps() {
    let mut c: Cache<u64, String> = Cache::new();
    assert!(matches!(c.lookup(&3), Lookup::Missing));
    c.start(3);
    assert!(matches!(c.lookup(&3), Lookup::Pending));
    assert!(matches!(c.lookup(&4), Lookup::Missing));
    c.finish(3, "three".to_string());
    match c.lookup(&3) {
        Lookup::Ready(v) => assert_eq!(v, "three"),
        _ => panic!("value expected"),
    }
    c.finish(4, "four".to_string());
    match c.lookup(&4) {
        Lookup::Ready(v) => assert_eq!(v, "four"),
        _ => panic!("value expected"),
    }
}
