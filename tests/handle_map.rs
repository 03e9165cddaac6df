use ffi_bridge::error::InternalError;
use ffi_bridge::handle_map::HandleMap;

#[test]
fn remove_makes_handle_stale() {
    let mut t = HandleMap::new();
    let a = t.insert("A");
    let b = t.insert("B");
    assert_eq!(a, 0);
    assert_eq!(b, 1);
    assert_eq!(t.remove(0), Ok("A"));
    assert_eq!(t.get(0), Err(InternalError::StaleHandle));
    assert_eq!(t.get(1), Ok(&"B"));
}

#[test]
fn handles_are_distinct_and_never_reused() {
    let mut t = HandleMap::new();
    let a = t.insert(10u32);
    let b = t.insert(20u32);
    assert_ne!(a, b);
    t.remove(a).unwrap();
    let c = t.insert(30u32);
    assert_ne!(c, a);
    assert_ne!(c, b);
    assert_eq!(t.get(a), Err(InternalError::StaleHandle));
    assert_eq!(t.get(b), Ok(&20));
    assert_eq!(t.get(c), Ok(&30));
}

#[test]
fn remove_of_absent_handle_fails() {
    let mut t: HandleMap<String> = HandleMap::new();
    assert_eq!(t.remove(3), Err(InternalError::StaleHandle));
    assert_eq!(t.get(0), Err(InternalError::StaleHandle));
    let h = t.insert("x".to_string());
    assert_eq!(t.remove(h), Ok("x".to_string()));
    assert_eq!(t.remove(h), Err(InternalError::StaleHandle));
}
