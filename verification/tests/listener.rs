use zion::listener::{diff, ListenerDiff, ListenerKind, ListenerSupervisor};

fn s(addr: &str) -> String {
    addr.to_string()
}

#[test]
fn diff_same_when_both_none() {
    assert_eq!(diff(None, None), ListenerDiff::Same);
}

#[test]
fn diff_same_when_both_equal() {
    let a = s("127.0.0.1:8080");
    assert_eq!(diff(Some(a.clone()), Some(a)), ListenerDiff::Same);
}

#[test]
fn diff_rebind_on_change() {
    let from = s("127.0.0.1:8080");
    let to = s("127.0.0.1:8081");
    assert_eq!(
        diff(Some(from.clone()), Some(to.clone())),
        ListenerDiff::Rebind { from, to }
    );
}

#[test]
fn diff_add_when_was_none() {
    let to = s("0.0.0.0:80");
    assert_eq!(diff(None, Some(to.clone())), ListenerDiff::Add(to));
}

#[test]
fn diff_remove_when_now_none() {
    let from = s("0.0.0.0:80");
    assert_eq!(diff(Some(from.clone()), None), ListenerDiff::Remove(from));
}

#[test]
fn diff_recognises_v4_to_v6_change() {
    let v4 = s("127.0.0.1:8080");
    let v6 = s("[::1]:8080");
    assert_eq!(
        diff(Some(v4.clone()), Some(v6.clone())),
        ListenerDiff::Rebind { from: v4, to: v6 }
    );
}

#[test]
fn diff_recognises_interface_change_at_same_port() {
    let any = s("0.0.0.0:8080");
    let lo = s("127.0.0.1:8080");
    assert_eq!(
        diff(Some(any.clone()), Some(lo.clone())),
        ListenerDiff::Rebind { from: any, to: lo }
    );
}

#[test]
fn https_is_bound_first() {
    let sup = ListenerSupervisor {
        http: Some(s("0.0.0.0:80")),
        https: None,
    };
    let todo = sup.reconcile(&Some(s("0.0.0.0:81")), &Some(s("0.0.0.0:443")));
    assert_eq!(
        todo,
        vec![
            (ListenerKind::Https, s("0.0.0.0:443")),
            (ListenerKind::Http, s("0.0.0.0:81"))
        ]
    );
    assert!(sup.reconcile(&None, &None).is_empty());
}

#[test]
fn a_failed_bind_keeps_the_old_listener() {
    let mut sup = ListenerSupervisor {
        http: Some(s("0.0.0.0:80")),
        https: None,
    };
    let r = sup.settle(ListenerKind::Http, "0.0.0.0:81", Some("in use"));
    assert!(r.warning && !r.retire_old);
    assert_eq!(
        r.message,
        "rebind HTTP 0.0.0.0:80 → 0.0.0.0:81 failed: in use (keeping 0.0.0.0:80)"
    );
    assert_eq!(sup.http.as_deref(), Some("0.0.0.0:80"));
    let r = sup.settle(ListenerKind::Http, "0.0.0.0:81", None);
    assert!(!r.warning && r.retire_old);
    assert_eq!(sup.http.as_deref(), Some("0.0.0.0:81"));
    assert_eq!(sup.reconcile_one(ListenerKind::Http, &Some(s("0.0.0.0:81"))), None);
    let r = sup.settle(ListenerKind::Https, "[::]:443", None);
    assert!(!r.retire_old);
    assert!(r.message.starts_with("rebound HTTPS (none) → [::]:443"));
}
