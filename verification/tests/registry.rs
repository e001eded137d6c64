use dialf::registry::{DeviceInfo, Registry};

fn dev(id: &str, last_seen_ms: i64) -> DeviceInfo {
    DeviceInfo {
        id: id.to_string(),
        name: id.to_string(),
        addr: None,
        last_seen_ms,
        current_call: None,
    }
}

#[test]
fn reap_older_than_removes_only_stale() {
    let mut reg = Registry::new();
    reg.upsert(dev("fresh", 10_000));
    reg.upsert(dev("stale", 1_000));
    reg.upsert(dev("edge", 5_000)); // exactly at cutoff → kept (strictly older only)

    let reaped = reg.reap_older_than(5_000);
    assert_eq!(reaped, vec!["stale".to_string()]);
    assert!(reg.get("fresh").is_some());
    assert!(reg.get("edge").is_some());
    assert!(reg.get("stale").is_none());
}

#[test]
fn reaping_again_finds_nothing() {
    let mut reg = Registry::new();
    reg.upsert(dev("a", 1));
    reg.upsert(dev("b", 2));
    reg.upsert(dev("c", 9));
    assert_eq!(reg.reap_older_than(5), vec!["a".to_string(), "b".to_string()]);
    assert!(reg.reap_older_than(5).is_empty());
    assert_eq!(reg.sole_device_id(), Some("c".to_string()));
}

#[test]
fn devices_are_listed_by_id() {
    let mut reg = Registry::new();
    reg.upsert(dev("b", 2));
    reg.upsert(dev("a", 1));
    let ids: Vec<String> = reg.list().into_iter().map(|d| d.id).collect();
    assert_eq!(ids, vec!["a", "b"]);
    assert!(reg.sole_device_id().is_none());
    reg.get_mut("a").unwrap().name = "renamed".to_string();
    assert_eq!(reg.get("a").unwrap().name, "renamed");
    // A device that was given another id goes by that one.
    reg.get_mut("a").unwrap().id = "z".to_string();
    let ids: Vec<String> = reg.list().into_iter().map(|d| d.id).collect();
    assert_eq!(ids, vec!["b", "z"]);
    assert_eq!(reg.remove("b").unwrap().id, "b");
    assert!(reg.remove("b").is_none());
}
