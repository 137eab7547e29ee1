use partydeck::session::InstanceId;
use partydeck::toasts::{Severity, Toast, Toasts};

#[test]
fn toast_lifetimes_by_severity() {
    let info = Toast::new(Severity::Info, "a".to_string(), "b".to_string(), 1000);
    let warn = Toast::new(Severity::Warning, "a".to_string(), "b".to_string(), 1000);
    let err = Toast::new(Severity::Error, "a".to_string(), "b".to_string(), 1000);
    assert_eq!(info.expires_at, Some(5000));
    assert_eq!(warn.expires_at, Some(13000));
    assert_eq!(err.expires_at, None);
    assert!(info.alive(4999));
    assert!(!info.alive(5000));
    assert!(err.alive(u64::MAX));
}

#[test]
fn retain_keeps_only_live_toasts() {
    let mut t = Toasts::new();
    t.push(Severity::Info, "i".to_string(), String::new(), 0);
    t.push(Severity::Error, "e".to_string(), String::new(), 0);
    t.push(Severity::Warning, "w".to_string(), String::new(), 0);
    t.retain_alive(5000);
    let titles: Vec<&str> = t.items.iter().map(|x| x.title.as_str()).collect();
    assert_eq!(titles, vec!["e", "w"]);
}

#[test]
fn toasts_for_an_instance() {
    let mut t = Toasts::new();
    t.push_for(InstanceId(3), Severity::Info, "x".to_string(), String::new(), 100);
    t.push(Severity::Warning, "g".to_string(), String::new(), 100);
    assert!(t.has_toast_for(InstanceId(3), 200));
    assert!(!t.has_toast_for(InstanceId(4), 200));
    assert!(!t.has_toast_for(InstanceId(3), 4100));
    assert_eq!(t.next_expiry(Some(InstanceId(3)), 200), Some(4100));
    assert_eq!(t.next_expiry(None, 200), Some(12100));
    t.release_targets();
    assert!(!t.has_toast_for(InstanceId(3), 200));
    assert_eq!(t.next_expiry(None, 200), Some(4100));
}

#[test]
fn linked_toast_keeps_url() {
    let mut t = Toasts::new();
    t.push_linked(Severity::Info, "u".to_string(), String::new(), "https://x".to_string(), 0);
    assert_eq!(t.items[0].url.as_deref(), Some("https://x"));
    assert_eq!(t.items[0].expires_at, Some(12000));
}

#[test]
fn dismissing_toasts() {
    let mut t = Toasts::new();
    t.push(Severity::Error, "e".to_string(), String::new(), 0);
    t.push(Severity::Info, "i".to_string(), String::new(), 0);
    // Clicking an error does not dismiss it; closing it does.
    assert_eq!(t.dismissed(None, 10, &vec![(false, true), (false, false)]), None);
    assert_eq!(t.dismissed(None, 10, &vec![(true, false), (false, false)]), Some(0));
    assert_eq!(t.dismissed(None, 10, &vec![(false, false), (false, true)]), Some(1));
    t.remove(0);
    assert_eq!(t.items.len(), 1);
    assert_eq!(t.items[0].title, "i");
}
