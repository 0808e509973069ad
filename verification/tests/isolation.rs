use icebox::isolation::{bootstrap_plan, IsolationStep, GUEST_ID};

#[test]
fn bootstrap_order_is_fixed() {
    let plan = bootstrap_plan(1234, 5678);
    assert_eq!(plan.len(), 8);
    assert_eq!(plan[0], IsolationStep::UnshareNamespaces);
    assert_eq!(
        plan[1],
        IsolationStep::WriteText {
            path: String::from("/proc/self/uid_map"),
            data: String::from("1000 1234 1"),
        }
    );
    assert_eq!(
        plan[2],
        IsolationStep::WriteText {
            path: String::from("/proc/self/setgroups"),
            data: String::from("deny"),
        }
    );
    assert_eq!(
        plan[3],
        IsolationStep::WriteText {
            path: String::from("/proc/self/gid_map"),
            data: String::from("1000 5678 1"),
        }
    );
    assert_eq!(plan[4], IsolationStep::SetUser { uid: 1000 });
    assert_eq!(plan[5], IsolationStep::SetGroup { gid: 1000 });
    assert_eq!(plan[6], IsolationStep::SetHostname { name: String::from("icebox") });
    assert_eq!(plan[7], IsolationStep::BecomeInit);
}

#[test]
fn guest_identity_is_fixed_for_any_host() {
    assert_eq!(GUEST_ID, 1000);
    for (uid, gid) in [(0u32, 0u32), (1000, 1000), (4294967295, 1)] {
        let plan = bootstrap_plan(uid, gid);
        assert!(plan.contains(&IsolationStep::SetUser { uid: 1000 }));
        assert!(plan.contains(&IsolationStep::SetGroup { gid: 1000 }));
        assert!(plan.contains(&IsolationStep::SetHostname { name: String::from("icebox") }));
    }
}

#[test]
fn id_map_renders_large_ids() {
    let plan = bootstrap_plan(4294967295, 7);
    assert_eq!(
        plan[1],
        IsolationStep::WriteText {
            path: String::from("/proc/self/uid_map"),
            data: String::from("1000 4294967295 1"),
        }
    );
    assert_eq!(
        plan[3],
        IsolationStep::WriteText {
            path: String::from("/proc/self/gid_map"),
            data: String::from("1000 7 1"),
        }
    );
}
