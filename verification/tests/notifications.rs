use vetto::linux::observe_seccomp::{classify_notification_path, NotificationClass, PathScope};

fn scope() -> PathScope {
    PathScope {
        allow_read: vec!["/usr".into()],
        allow_write: vec!["/home/u/proj".into(), "/tmp".into()],
        deny: vec!["/home/u/proj/.env".into()],
    }
}

#[test]
fn notification_paths_are_classified_against_the_policy() {
    let s = scope();
    assert_eq!(classify_notification_path(None, "/home/u/proj", &s), NotificationClass::Unclassified);
    assert_eq!(classify_notification_path(Some("@abstract"), "/", &s), NotificationClass::Blocked);
    assert_eq!(classify_notification_path(Some("/usr/lib/x"), "/", &s), NotificationClass::Allowed);
    assert_eq!(classify_notification_path(Some("src/main.rs"), "/home/u/proj", &s), NotificationClass::Allowed);
    assert_eq!(classify_notification_path(Some(".env"), "/home/u/proj", &s), NotificationClass::Blocked);
    assert_eq!(classify_notification_path(Some("/etc/shadow"), "/", &s), NotificationClass::Blocked);
    assert_eq!(classify_notification_path(Some("/usrx"), "/", &s), NotificationClass::Blocked);
}
