use icebox::cgroup::{procs, CGroup, CGROUP_NAME_LEN};

#[test]
fn roots_are_the_three_controllers() {
    assert_eq!(
        CGroup::root_dirs(),
        vec![
            String::from("/sys/fs/cgroup/cpuacct/sandbox"),
            String::from("/sys/fs/cgroup/memory/sandbox"),
            String::from("/sys/fs/cgroup/pids/sandbox"),
        ]
    );
}

#[test]
fn names_are_sixteen_alphanumeric_characters() {
    let group = CGroup::new();
    for (path, root) in group.creation_paths().iter().zip([
        "/sys/fs/cgroup/cpuacct/sandbox/",
        "/sys/fs/cgroup/memory/sandbox/",
        "/sys/fs/cgroup/pids/sandbox/",
    ]) {
        assert!(path.starts_with(root));
        let name = &path[root.len()..];
        assert_eq!(name.chars().count(), CGROUP_NAME_LEN);
        assert!(name.chars().all(|c| c.is_ascii_alphanumeric()));
    }
}

#[test]
fn add_task_writes_the_pid_to_each_tasks_file() {
    let group = CGroup::new();
    let writes = group.add_task(4242);
    assert_eq!(writes.len(), 3);
    for (write, path) in writes.iter().zip(group.creation_paths()) {
        assert_eq!(write.path, format!("{}/tasks", path));
        assert_eq!(write.data, "4242");
    }
}

#[test]
fn procs_paths_name_each_controller() {
    let group = CGroup::new();
    for (path, dir) in group.procs_paths().iter().zip(group.creation_paths()) {
        assert_eq!(*path, format!("{}/cgroup.procs", dir));
    }
}

#[test]
fn procs_is_the_deduplicated_union() {
    // The same pids appear in every controller's file; each comes out once.
    let contents = vec![
        String::from("5\n7\n"),
        String::from("5\n7\n"),
        String::from("7\n"),
    ];
    assert_eq!(procs(&contents), Some(vec![5, 7]));
    // Duplicates across files are dropped even when they are not adjacent.
    let contents = vec![String::from("5\n7\n"), String::from("5\n")];
    assert_eq!(procs(&contents), Some(vec![5, 7]));
    // First-seen order is kept.
    let contents = vec![String::from("9\n2\n"), String::from("2\n4\n9\n")];
    assert_eq!(procs(&contents), Some(vec![9, 2, 4]));
}

#[test]
fn procs_rejects_a_malformed_file() {
    let contents = vec![String::from("5\n"), String::from("five\n")];
    assert_eq!(procs(&contents), None);
    let contents = vec![String::from("99999999999\n")];
    assert_eq!(procs(&contents), None);
    let contents = vec![String::from("\n")];
    assert_eq!(procs(&contents), None);
}

#[test]
fn procs_of_empty_files_is_empty() {
    let contents = vec![String::new(), String::new(), String::new()];
    assert_eq!(procs(&contents), Some(vec![]));
}

#[test]
fn handles_remove_exactly_what_they_created() {
    // A hundred consecutive handles: each one's removal set is exactly its
    // creation set, so the controller roots are left as they were found.
    for _ in 0..100 {
        let group = CGroup::new();
        assert_eq!(group.removal_paths(), group.creation_paths());
        assert_eq!(group.removal_paths().len(), 3);
    }
}
