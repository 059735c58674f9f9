use vault::entry::Entry;

#[test]
fn new_entry_is_stamped_with_the_current_time() {
    let e = Entry::new("svc".to_string(), "user".to_string(), "pw".to_string()).unwrap();
    assert_eq!(e.service, "svc");
    assert_eq!(e.username, "user");
    assert_eq!(e.passwd, "pw");
    assert_eq!(e.created_at, e.updated_at);
    assert!(e.created_at > 1_600_000_000);
}

#[test]
fn wipe_empties_every_field() {
    let mut e = Entry::with_time("svc".to_string(), "user".to_string(), "secret".to_string(), 77);
    assert_eq!((e.created_at, e.updated_at), (77, 77));
    e.wipe();
    assert!(e.service.is_empty());
    assert!(e.username.is_empty());
    assert!(e.passwd.is_empty());
    assert_eq!(e.created_at, 0);
    assert_eq!(e.updated_at, 0);
}
