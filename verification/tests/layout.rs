use icebox::layout::{bind_steps, fs_plan, AccessMode, Bind, SetupStep, SourceKind};

#[test]
fn default_binds_are_the_toolchain_mirror() {
    let binds = Bind::defaults();
    assert_eq!(binds.len(), 11);
    assert_eq!(binds[0].source, "/bin");
    assert_eq!(binds[0].target, "bin");
    assert_eq!(binds[0].mode, AccessMode::ReadOnly);
    assert_eq!(binds[10].source, "/var/lib/ghc");
    for bind in &binds {
        assert!(bind.source.starts_with('/'));
        assert!(!bind.target.starts_with('/'));
        assert_eq!(bind.mode, AccessMode::ReadOnly);
    }
}

#[test]
fn directory_bind_is_mounted_then_locked() {
    let bind = Bind::new(
        String::from("/bin"),
        String::from("bin"),
        AccessMode::ReadOnly,
    );
    let steps = bind_steps(&bind, SourceKind::Directory);
    assert_eq!(
        steps,
        vec![
            SetupStep::MakeDirAll { path: String::from("bin") },
            SetupStep::BindMount {
                source: String::from("/bin"),
                target: String::from("bin"),
                recursive: true,
            },
            SetupStep::RemountReadOnly { target: String::from("bin"), recursive: true },
        ]
    );
}

#[test]
fn writable_bind_is_not_locked() {
    let bind = Bind::new(
        String::from("/somewhere/out"),
        String::from("out"),
        AccessMode::ReadWrite,
    );
    let steps = bind_steps(&bind, SourceKind::Directory);
    assert_eq!(steps.len(), 2);
    assert!(!steps
        .iter()
        .any(|s| matches!(s, SetupStep::RemountReadOnly { .. })));
}

#[test]
fn symlink_bind_is_mirrored() {
    let bind = Bind::new(
        String::from("/lib64"),
        String::from("lib64"),
        AccessMode::ReadOnly,
    );
    let steps = bind_steps(&bind, SourceKind::SymbolicLink);
    assert_eq!(
        steps,
        vec![SetupStep::MirrorSymlink {
            source: String::from("/lib64"),
            target: String::from("lib64"),
        }]
    );
}

#[test]
fn missing_bind_is_skipped() {
    let bind = Bind::new(
        String::from("/var/lib/ghc"),
        String::from("var/lib/ghc"),
        AccessMode::ReadOnly,
    );
    assert!(bind_steps(&bind, SourceKind::Missing).is_empty());
}

#[test]
fn plan_order_is_root_proc_dev_tmp_binds_pivot_lock() {
    let binds = Bind::defaults();
    let kinds = vec![SourceKind::Directory; 11];
    let plan = fs_plan("/tmp/jd-sandbox-x/mount", &binds, &kinds);
    // Prologue: tmpfs root first, then chdir, proc, dev, tmp.
    assert_eq!(
        plan[0],
        SetupStep::MountTmpfs {
            target: String::from("/tmp/jd-sandbox-x/mount"),
            options: None,
        }
    );
    assert_eq!(plan[1], SetupStep::ChangeDir { path: String::from("/tmp/jd-sandbox-x/mount") });
    assert_eq!(plan[3], SetupStep::MountProc { target: String::from("proc") });
    assert_eq!(
        plan[10],
        SetupStep::MountTmpfs {
            target: String::from("tmp"),
            options: Some(String::from("size=16m,nr_inodes=4k")),
        }
    );
    // Every bind is a directory here: three steps each.
    assert_eq!(plan.len(), 11 + 11 * 3 + 6);
    // Epilogue: passwd, pivot, detach, and the final recursive root lock.
    let tail = &plan[plan.len() - 6..];
    assert_eq!(
        tail[0],
        SetupStep::WriteText {
            path: String::from("etc/passwd"),
            data: String::from("icebox:x:1000:1000:icebox:/:/bin/bash\n"),
        }
    );
    assert_eq!(
        tail[2],
        SetupStep::PivotRoot {
            new_root: String::from("."),
            put_old: String::from("old_root"),
        }
    );
    assert_eq!(
        tail[5],
        SetupStep::RemountReadOnly { target: String::from("/"), recursive: true }
    );
}

#[test]
fn plan_is_identical_across_runs() {
    let kinds = vec![
        SourceKind::Directory,
        SourceKind::Directory,
        SourceKind::Directory,
        SourceKind::SymbolicLink,
        SourceKind::Directory,
        SourceKind::Missing,
        SourceKind::Directory,
        SourceKind::SymbolicLink,
        SourceKind::Directory,
        SourceKind::Directory,
        SourceKind::Missing,
    ];
    let first = fs_plan("/tmp/jd-sandbox-y/mount", &Bind::defaults(), &kinds);
    let second = fs_plan("/tmp/jd-sandbox-y/mount", &Bind::defaults(), &kinds);
    assert_eq!(first, second);
}

#[test]
fn bin_is_read_only_in_every_plan() {
    // The guest must not be able to write under /bin: its bind is locked.
    let binds = Bind::defaults();
    let kinds = vec![SourceKind::Directory; 11];
    let plan = fs_plan("/tmp/jd-sandbox-z/mount", &binds, &kinds);
    assert!(plan.iter().any(|s| matches!(
        s,
        SetupStep::RemountReadOnly { target, recursive: true } if target == "bin"
    )));
}
