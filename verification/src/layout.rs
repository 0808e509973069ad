//! The confined root filesystem, as a plan.
//!
//! A sandbox's root is a fresh tmpfs populated in a fixed order: proc,
//! the two device nodes, a small tmp, the read-only bind mounts, a
//! synthetic passwd entry, then `pivot_root` and a final recursive
//! read-only remount of `/`.  The order is load-bearing: binds must land
//! before the pivot, and the root lock must come after it.  This module
//! computes the exact step sequence; the process that sits inside the
//! unshared mount namespace carries the steps out one syscall each.

use vstd::prelude::*;

verus! {

/// How a bind target may be used inside the guest.
#[derive(Clone, Copy, Debug, PartialEq, Eq, Structural)]
pub enum AccessMode {
    ReadOnly,
    ReadWrite,
}

/// A host subtree mirrored into the guest: an absolute host path, a
/// relative guest path, and the access the guest gets.
#[derive(Debug, PartialEq, Eq)]
pub struct Bind {
    pub source: String,
    pub target: String,
    pub mode: AccessMode,
}

/// The mathematical value of a [`Bind`].
pub ghost struct BindV {
    pub source: Seq<char>,
    pub target: Seq<char>,
    pub mode: AccessMode,
}

impl View for Bind {
    type V = BindV;

    open spec fn view(&self) -> BindV {
        BindV { source: self.source@, target: self.target@, mode: self.mode }
    }
}

impl DeepView for Bind {
    type V = BindV;

    open spec fn deep_view(&self) -> BindV {
        self.view()
    }
}

/// A path that names a location from the root down.
pub open spec fn is_absolute_path(s: Seq<char>) -> bool {
    s.len() > 0 && s[0] == '/'
}

/// A path that names a location under the current directory.
pub open spec fn is_relative_path(s: Seq<char>) -> bool {
    s.len() > 0 && s[0] != '/'
}

impl Bind {
    /// A bind is well-formed when its source is absolute and its target
    /// relative to the guest root.
    pub open spec fn wf(self) -> bool {
        is_absolute_path(self.source@) && is_relative_path(self.target@)
    }

    /// Pairs a host source with a guest target.
    pub fn new(source: String, target: String, mode: AccessMode) -> (b: Bind)
        requires
            is_absolute_path(source@),
            is_relative_path(target@),
        ensures
            b@ == (BindV { source: source@, target: target@, mode }),
            b.wf(),
    {
        Bind { source, target, mode }
    }

    /// The fixed read-only mirror of the host's toolchain directories.
    pub fn defaults() -> (v: Vec<Bind>)
        ensures
            v.deep_view() == spec_default_binds(),
            forall|i: int| 0 <= i < v@.len() ==> (#[trigger] v@[i]).wf(),
    {
        proof {
            reveal_strlit("/bin");
            reveal_strlit("bin");
            reveal_strlit("/etc/alternatives");
            reveal_strlit("etc/alternatives");
            reveal_strlit("/lib");
            reveal_strlit("lib");
            reveal_strlit("/lib64");
            reveal_strlit("lib64");
            reveal_strlit("/usr/bin");
            reveal_strlit("usr/bin");
            reveal_strlit("/usr/include");
            reveal_strlit("usr/include");
            reveal_strlit("/usr/lib");
            reveal_strlit("usr/lib");
            reveal_strlit("/usr/lib64");
            reveal_strlit("usr/lib64");
            reveal_strlit("/usr/libexec");
            reveal_strlit("usr/libexec");
            reveal_strlit("/usr/share");
            reveal_strlit("usr/share");
            reveal_strlit("/var/lib/ghc");
            reveal_strlit("var/lib/ghc");
        }
        let mut v: Vec<Bind> = Vec::new();
        v.push(Bind::new(String::from_str("/bin"), String::from_str("bin"), AccessMode::ReadOnly));
        v.push(
            Bind::new(
                String::from_str("/etc/alternatives"),
                String::from_str("etc/alternatives"),
                AccessMode::ReadOnly,
            ),
        );
        v.push(Bind::new(String::from_str("/lib"), String::from_str("lib"), AccessMode::ReadOnly));
        v.push(
            Bind::new(String::from_str("/lib64"), String::from_str("lib64"), AccessMode::ReadOnly),
        );
        v.push(
            Bind::new(
                String::from_str("/usr/bin"),
                String::from_str("usr/bin"),
                AccessMode::ReadOnly,
            ),
        );
        v.push(
            Bind::new(
                String::from_str("/usr/include"),
                String::from_str("usr/include"),
                AccessMode::ReadOnly,
            ),
        );
        v.push(
            Bind::new(
                String::from_str("/usr/lib"),
                String::from_str("usr/lib"),
                AccessMode::ReadOnly,
            ),
        );
        v.push(
            Bind::new(
                String::from_str("/usr/lib64"),
                String::from_str("usr/lib64"),
                AccessMode::ReadOnly,
            ),
        );
        v.push(
            Bind::new(
                String::from_str("/usr/libexec"),
                String::from_str("usr/libexec"),
                AccessMode::ReadOnly,
            ),
        );
        v.push(
            Bind::new(
                String::from_str("/usr/share"),
                String::from_str("usr/share"),
                AccessMode::ReadOnly,
            ),
        );
        v.push(
            Bind::new(
                String::from_str("/var/lib/ghc"),
                String::from_str("var/lib/ghc"),
                AccessMode::ReadOnly,
            ),
        );
        proof {
            assert(v.deep_view() =~= spec_default_binds());
        }
        v
    }
}

/// The default bind set: the host's toolchain directories, all read-only.
pub open spec fn spec_default_binds() -> Seq<BindV> {
    seq![
        (BindV { source: "/bin"@, target: "bin"@, mode: AccessMode::ReadOnly }),
        (BindV {
            source: "/etc/alternatives"@,
            target: "etc/alternatives"@,
            mode: AccessMode::ReadOnly,
        }),
        (BindV { source: "/lib"@, target: "lib"@, mode: AccessMode::ReadOnly }),
        (BindV { source: "/lib64"@, target: "lib64"@, mode: AccessMode::ReadOnly }),
        (BindV { source: "/usr/bin"@, target: "usr/bin"@, mode: AccessMode::ReadOnly }),
        (BindV { source: "/usr/include"@, target: "usr/include"@, mode: AccessMode::ReadOnly }),
        (BindV { source: "/usr/lib"@, target: "usr/lib"@, mode: AccessMode::ReadOnly }),
        (BindV { source: "/usr/lib64"@, target: "usr/lib64"@, mode: AccessMode::ReadOnly }),
        (BindV { source: "/usr/libexec"@, target: "usr/libexec"@, mode: AccessMode::ReadOnly }),
        (BindV { source: "/usr/share"@, target: "usr/share"@, mode: AccessMode::ReadOnly }),
        (BindV { source: "/var/lib/ghc"@, target: "var/lib/ghc"@, mode: AccessMode::ReadOnly }),
    ]
}

/// What a bind's host source turned out to be when it was examined.
#[derive(Clone, Copy, Debug, PartialEq, Eq, Structural)]
pub enum SourceKind {
    /// The source is a directory: it is bind-mounted.
    Directory,
    /// The source is a symbolic link: it is mirrored as a link.
    SymbolicLink,
    /// The source does not exist: it is skipped silently.
    Missing,
}

/// One step of building the confined root, each a single system call.
#[derive(Debug, PartialEq, Eq)]
pub enum SetupStep {
    /// Mount a fresh tmpfs at `target`, nosuid, with the given options.
    MountTmpfs { target: String, options: Option<String> },
    /// Make `path` the current directory.
    ChangeDir { path: String },
    /// Create one directory.
    MakeDir { path: String },
    /// Create a directory and any missing parents.
    MakeDirAll { path: String },
    /// Mount proc at `target`, nosuid.
    MountProc { target: String },
    /// Create an empty node at `path`, mode 0600, to serve as a bind seat.
    MakeDeviceNode { path: String },
    /// Bind-mount `source` onto `target`, nosuid, recursively if asked.
    BindMount { source: String, target: String, recursive: bool },
    /// Remount `target` read-only in place, nosuid, recursively if asked.
    RemountReadOnly { target: String, recursive: bool },
    /// Write `data` to the file at `path`, creating it.
    WriteText { path: String, data: String },
    /// Mirror the symbolic link at `source` as a new link at `target`.
    MirrorSymlink { source: String, target: String },
    /// Exchange the root for `new_root`, parking the old root at `put_old`.
    PivotRoot { new_root: String, put_old: String },
    /// Detach the mount at `path`.
    DetachMount { path: String },
    /// Remove one directory.
    RemoveDir { path: String },
}

/// The mathematical value of a [`SetupStep`].
pub ghost enum SetupStepV {
    MountTmpfs { target: Seq<char>, options: Option<Seq<char>> },
    ChangeDir { path: Seq<char> },
    MakeDir { path: Seq<char> },
    MakeDirAll { path: Seq<char> },
    MountProc { target: Seq<char> },
    MakeDeviceNode { path: Seq<char> },
    BindMount { source: Seq<char>, target: Seq<char>, recursive: bool },
    RemountReadOnly { target: Seq<char>, recursive: bool },
    WriteText { path: Seq<char>, data: Seq<char> },
    MirrorSymlink { source: Seq<char>, target: Seq<char> },
    PivotRoot { new_root: Seq<char>, put_old: Seq<char> },
    DetachMount { path: Seq<char> },
    RemoveDir { path: Seq<char> },
}

impl View for SetupStep {
    type V = SetupStepV;

    open spec fn view(&self) -> SetupStepV {
        match self {
            SetupStep::MountTmpfs { target, options } => (SetupStepV::MountTmpfs {
                target: target@,
                options: match options {
                    Some(o) => Some(o@),
                    None => None,
                },
            }),
            SetupStep::ChangeDir { path } => (SetupStepV::ChangeDir { path: path@ }),
            SetupStep::MakeDir { path } => (SetupStepV::MakeDir { path: path@ }),
            SetupStep::MakeDirAll { path } => (SetupStepV::MakeDirAll { path: path@ }),
            SetupStep::MountProc { target } => (SetupStepV::MountProc { target: target@ }),
            SetupStep::MakeDeviceNode { path } => (SetupStepV::MakeDeviceNode { path: path@ }),
            SetupStep::BindMount { source, target, recursive } => (SetupStepV::BindMount {
                source: source@,
                target: target@,
                recursive: *recursive,
            }),
            SetupStep::RemountReadOnly { target, recursive } => (SetupStepV::RemountReadOnly {
                target: target@,
                recursive: *recursive,
            }),
            SetupStep::WriteText { path, data } => (SetupStepV::WriteText {
                path: path@,
                data: data@,
            }),
            SetupStep::MirrorSymlink { source, target } => (SetupStepV::MirrorSymlink {
                source: source@,
                target: target@,
            }),
            SetupStep::PivotRoot { new_root, put_old } => (SetupStepV::PivotRoot {
                new_root: new_root@,
                put_old: put_old@,
            }),
            SetupStep::DetachMount { path } => (SetupStepV::DetachMount { path: path@ }),
            SetupStep::RemoveDir { path } => (SetupStepV::RemoveDir { path: path@ }),
        }
    }
}

impl DeepView for SetupStep {
    type V = SetupStepV;

    open spec fn deep_view(&self) -> SetupStepV {
        self.view()
    }
}

/// The steps that mirror one bind, given what its source turned out to be:
/// a directory is bind-mounted (and locked read-only when asked), a
/// symbolic link is mirrored, a missing source contributes nothing.
pub open spec fn spec_bind_steps(b: BindV, kind: SourceKind) -> Seq<SetupStepV> {
    match kind {
        SourceKind::Directory => {
            let base = seq![
                (SetupStepV::MakeDirAll { path: b.target }),
                (SetupStepV::BindMount { source: b.source, target: b.target, recursive: true }),
            ];
            if b.mode == AccessMode::ReadOnly {
                base.push(SetupStepV::RemountReadOnly { target: b.target, recursive: true })
            } else {
                base
            }
        },
        SourceKind::SymbolicLink => seq![
            (SetupStepV::MirrorSymlink { source: b.source, target: b.target }),
        ],
        SourceKind::Missing => Seq::empty(),
    }
}

/// Computes the steps for one bind.
pub fn bind_steps(b: &Bind, kind: SourceKind) -> (v: Vec<SetupStep>)
    ensures
        v.deep_view() == spec_bind_steps(b@, kind),
{
    let mut v: Vec<SetupStep> = Vec::new();
    match kind {
        SourceKind::Directory => {
            v.push(SetupStep::MakeDirAll { path: b.target.clone() });
            v.push(
                SetupStep::BindMount {
                    source: b.source.clone(),
                    target: b.target.clone(),
                    recursive: true,
                },
            );
            match b.mode {
                AccessMode::ReadOnly => {
                    v.push(
                        SetupStep::RemountReadOnly { target: b.target.clone(), recursive: true },
                    );
                },
                AccessMode::ReadWrite => {},
            }
        },
        SourceKind::SymbolicLink => {
            v.push(
                SetupStep::MirrorSymlink { source: b.source.clone(), target: b.target.clone() },
            );
        },
        SourceKind::Missing => {},
    }
    proof {
        assert(v.deep_view() =~= spec_bind_steps(b@, kind));
    }
    v
}

/// The opening of the layout: fresh tmpfs root, proc, device nodes, tmp.
pub open spec fn spec_layout_prologue(mount_dir: Seq<char>) -> Seq<SetupStepV> {
    seq![
        (SetupStepV::MountTmpfs { target: mount_dir, options: None }),
        (SetupStepV::ChangeDir { path: mount_dir }),
        (SetupStepV::MakeDir { path: "proc"@ }),
        (SetupStepV::MountProc { target: "proc"@ }),
        (SetupStepV::MakeDir { path: "dev"@ }),
        (SetupStepV::MakeDeviceNode { path: "dev/null"@ }),
        (SetupStepV::BindMount { source: "/dev/null"@, target: "dev/null"@, recursive: false }),
        (SetupStepV::MakeDeviceNode { path: "dev/urandom"@ }),
        (SetupStepV::BindMount {
            source: "/dev/urandom"@,
            target: "dev/urandom"@,
            recursive: false,
        }),
        (SetupStepV::MakeDir { path: "tmp"@ }),
        (SetupStepV::MountTmpfs { target: "tmp"@, options: Some("size=16m,nr_inodes=4k"@) }),
    ]
}

/// The close of the layout: the passwd entry, the pivot, and the root lock.
pub open spec fn spec_layout_epilogue() -> Seq<SetupStepV> {
    seq![
        (SetupStepV::WriteText {
            path: "etc/passwd"@,
            data: "icebox:x:1000:1000:icebox:/:/bin/bash\n"@,
        }),
        (SetupStepV::MakeDir { path: "old_root"@ }),
        (SetupStepV::PivotRoot { new_root: "."@, put_old: "old_root"@ }),
        (SetupStepV::DetachMount { path: "old_root"@ }),
        (SetupStepV::RemoveDir { path: "old_root"@ }),
        (SetupStepV::RemountReadOnly { target: "/"@, recursive: true }),
    ]
}

/// The steps of all binds, in bind order.
pub open spec fn spec_binds_steps(binds: Seq<BindV>, kinds: Seq<SourceKind>) -> Seq<SetupStepV>
    decreases binds.len(),
{
    if binds.len() == 0 {
        Seq::empty()
    } else {
        spec_bind_steps(binds[0], kinds[0]) + spec_binds_steps(
            binds.drop_first(),
            kinds.drop_first(),
        )
    }
}

/// The whole layout plan for one sandbox: prologue, the mirrored binds in
/// order, epilogue.  It is a function of the bind set and of what each
/// bind's source turned out to be, and of nothing else.
pub open spec fn spec_fs_plan(
    mount_dir: Seq<char>,
    binds: Seq<BindV>,
    kinds: Seq<SourceKind>,
) -> Seq<SetupStepV> {
    spec_layout_prologue(mount_dir) + spec_binds_steps(binds, kinds) + spec_layout_epilogue()
}

fn layout_prologue(mount_dir: &str) -> (v: Vec<SetupStep>)
    ensures
        v.deep_view() == spec_layout_prologue(mount_dir@),
{
    let mut v: Vec<SetupStep> = Vec::new();
    v.push(SetupStep::MountTmpfs { target: String::from_str(mount_dir), options: None });
    v.push(SetupStep::ChangeDir { path: String::from_str(mount_dir) });
    v.push(SetupStep::MakeDir { path: String::from_str("proc") });
    v.push(SetupStep::MountProc { target: String::from_str("proc") });
    v.push(SetupStep::MakeDir { path: String::from_str("dev") });
    v.push(SetupStep::MakeDeviceNode { path: String::from_str("dev/null") });
    v.push(
        SetupStep::BindMount {
            source: String::from_str("/dev/null"),
            target: String::from_str("dev/null"),
            recursive: false,
        },
    );
    v.push(SetupStep::MakeDeviceNode { path: String::from_str("dev/urandom") });
    v.push(
        SetupStep::BindMount {
            source: String::from_str("/dev/urandom"),
            target: String::from_str("dev/urandom"),
            recursive: false,
        },
    );
    v.push(SetupStep::MakeDir { path: String::from_str("tmp") });
    v.push(
        SetupStep::MountTmpfs {
            target: String::from_str("tmp"),
            options: Some(String::from_str("size=16m,nr_inodes=4k")),
        },
    );
    proof {
        assert(v.deep_view() =~= spec_layout_prologue(mount_dir@));
    }
    v
}

fn layout_epilogue() -> (v: Vec<SetupStep>)
    ensures
        v.deep_view() == spec_layout_epilogue(),
{
    let mut v: Vec<SetupStep> = Vec::new();
    v.push(
        SetupStep::WriteText {
            path: String::from_str("etc/passwd"),
            data: String::from_str("icebox:x:1000:1000:icebox:/:/bin/bash\n"),
        },
    );
    v.push(SetupStep::MakeDir { path: String::from_str("old_root") });
    v.push(
        SetupStep::PivotRoot {
            new_root: String::from_str("."),
            put_old: String::from_str("old_root"),
        },
    );
    v.push(SetupStep::DetachMount { path: String::from_str("old_root") });
    v.push(SetupStep::RemoveDir { path: String::from_str("old_root") });
    v.push(SetupStep::RemountReadOnly { target: String::from_str("/"), recursive: true });
    proof {
        assert(v.deep_view() =~= spec_layout_epilogue());
    }
    v
}

/// Computes the full layout plan from the bind set and the observed kind
/// of each bind's source.
pub fn fs_plan(mount_dir: &str, binds: &Vec<Bind>, kinds: &Vec<SourceKind>) -> (v: Vec<
    SetupStep,
>)
    requires
        binds@.len() == kinds@.len(),
    ensures
        v.deep_view() == spec_fs_plan(mount_dir@, binds.deep_view(), kinds@),
{
    let mut v = layout_prologue(mount_dir);
    let ghost prologue = v.deep_view();
    let mut i: usize = 0;
    while i < binds.len()
        invariant
            i <= binds@.len(),
            binds@.len() == kinds@.len(),
            v.deep_view() == prologue + spec_binds_steps(
                binds.deep_view().take(i as int),
                kinds@.take(i as int),
            ),
        decreases binds@.len() - i,
    {
        let mut steps = bind_steps(&binds[i], kinds[i]);
        let ghost before = v.deep_view();
        let ghost steps_v = steps.deep_view();
        v.append(&mut steps);
        proof {
            assert(v.deep_view() =~= before + steps_v);
            lemma_binds_steps_snoc(binds.deep_view(), kinds@, i as int);
            assert(v.deep_view() =~= prologue + spec_binds_steps(
                binds.deep_view().take(i + 1),
                kinds@.take(i + 1),
            ));
        }
        i = i + 1;
    }
    let mut tail = layout_epilogue();
    let ghost before = v.deep_view();
    let ghost tail_v = tail.deep_view();
    v.append(&mut tail);
    proof {
        assert(binds.deep_view().take(i as int) =~= binds.deep_view());
        assert(kinds@.take(i as int) =~= kinds@);
        assert(v.deep_view() =~= before + tail_v);
        assert(v.deep_view() =~= spec_fs_plan(mount_dir@, binds.deep_view(), kinds@));
    }
    v
}

proof fn lemma_binds_steps_snoc(binds: Seq<BindV>, kinds: Seq<SourceKind>, i: int)
    requires
        binds.len() == kinds.len(),
        0 <= i < binds.len(),
    ensures
        spec_binds_steps(binds.take(i + 1), kinds.take(i + 1)) == spec_binds_steps(
            binds.take(i),
            kinds.take(i),
        ) + spec_bind_steps(binds[i], kinds[i]),
    decreases i,
{
    if i == 0 {
        assert(binds.take(1).drop_first() =~= binds.take(0));
        assert(kinds.take(1).drop_first() =~= kinds.take(0));
        assert(spec_binds_steps(binds.take(0), kinds.take(0)) =~= Seq::<SetupStepV>::empty());
        assert(spec_binds_steps(binds.take(1), kinds.take(1)) =~= spec_bind_steps(
            binds[0],
            kinds[0],
        ) + Seq::<SetupStepV>::empty());
        assert(spec_binds_steps(binds.take(i), kinds.take(i)) + spec_bind_steps(
            binds[i],
            kinds[i],
        ) =~= spec_bind_steps(binds[0], kinds[0]));
    } else {
        lemma_binds_steps_snoc(binds.drop_first(), kinds.drop_first(), i - 1);
        assert(binds.take(i + 1).drop_first() =~= binds.drop_first().take(i));
        assert(kinds.take(i + 1).drop_first() =~= kinds.drop_first().take(i));
        assert(binds.take(i).drop_first() =~= binds.drop_first().take(i - 1));
        assert(kinds.take(i).drop_first() =~= kinds.drop_first().take(i - 1));
        assert(binds.drop_first()[i - 1] == binds[i]);
        assert(kinds.drop_first()[i - 1] == kinds[i]);
        assert(spec_binds_steps(binds.take(i + 1), kinds.take(i + 1)) =~= spec_binds_steps(
            binds.take(i),
            kinds.take(i),
        ) + spec_bind_steps(binds[i], kinds[i]));
    }
}

/// Successive sandboxes build identical trees: the layout plan is the same
/// function of the bind set and the observed source kinds every time, so
/// two runs over the same host state produce the same mount topology.
pub proof fn lemma_layout_idempotent(
    mount_dir: Seq<char>,
    binds: Seq<BindV>,
    kinds: Seq<SourceKind>,
    first: Seq<SetupStepV>,
    second: Seq<SetupStepV>,
)
    requires
        first == spec_fs_plan(mount_dir, binds, kinds),
        second == spec_fs_plan(mount_dir, binds, kinds),
    ensures
        first == second,
{
}

} // verus!
