//! Entering the sandbox's namespaces, as a plan.
//!
//! The supervisor-to-be unshares six kernel namespaces, maps itself to the
//! guest identity, takes the guest hostname, and forks once so that the
//! surviving process is PID 1 of the new PID namespace.  The write of
//! `setgroups` must sit between the uid map and the gid map: an
//! unprivileged user namespace refuses the gid map otherwise.  This module
//! computes the exact sequence; the forked child carries it out.

use crate::decimal::spec_decimal;
use crate::decimal::u32_decimal;
use vstd::prelude::*;

verus! {

/// The uid and gid the guest sees itself as.
pub const GUEST_ID: u32 = 1000;

/// One step of moving a process into the sandbox's namespaces.
#[derive(Debug, PartialEq, Eq)]
pub enum IsolationStep {
    /// Unshare mount, UTS, IPC, user, PID and net namespaces at once.
    UnshareNamespaces,
    /// Write `data` to the process file at `path`.
    WriteText { path: String, data: String },
    /// Set real, effective and saved uid to `uid`.
    SetUser { uid: u32 },
    /// Set real, effective and saved gid to `gid`.
    SetGroup { gid: u32 },
    /// Take this hostname inside the new UTS namespace.
    SetHostname { name: String },
    /// Fork; the parent waits for the child and exits with its status, so
    /// the child goes on as PID 1 of the new PID namespace.
    BecomeInit,
}

/// The mathematical value of an [`IsolationStep`].
pub ghost enum IsolationStepV {
    UnshareNamespaces,
    WriteText { path: Seq<char>, data: Seq<char> },
    SetUser { uid: u32 },
    SetGroup { gid: u32 },
    SetHostname { name: Seq<char> },
    BecomeInit,
}

impl View for IsolationStep {
    type V = IsolationStepV;

    open spec fn view(&self) -> IsolationStepV {
        match self {
            IsolationStep::UnshareNamespaces => IsolationStepV::UnshareNamespaces,
            IsolationStep::WriteText { path, data } => (IsolationStepV::WriteText {
                path: path@,
                data: data@,
            }),
            IsolationStep::SetUser { uid } => (IsolationStepV::SetUser { uid: *uid }),
            IsolationStep::SetGroup { gid } => (IsolationStepV::SetGroup { gid: *gid }),
            IsolationStep::SetHostname { name } => (IsolationStepV::SetHostname { name: name@ }),
            IsolationStep::BecomeInit => IsolationStepV::BecomeInit,
        }
    }
}

impl DeepView for IsolationStep {
    type V = IsolationStepV;

    open spec fn deep_view(&self) -> IsolationStepV {
        self.view()
    }
}

/// One line of an identity map: guest id, host id, a range of one.
pub open spec fn spec_id_map_line(host_id: int) -> Seq<char> {
    "1000 "@ + spec_decimal(host_id) + " 1"@
}

/// The bootstrap sequence for a process whose effective ids on the host
/// are `host_uid` and `host_gid`.  The order is fixed: unshare, uid map,
/// setgroups deny, gid map, setresuid, setresgid, hostname, the init fork.
pub open spec fn spec_bootstrap_plan(host_uid: u32, host_gid: u32) -> Seq<IsolationStepV> {
    seq![
        IsolationStepV::UnshareNamespaces,
        (IsolationStepV::WriteText {
            path: "/proc/self/uid_map"@,
            data: spec_id_map_line(host_uid as int),
        }),
        (IsolationStepV::WriteText { path: "/proc/self/setgroups"@, data: "deny"@ }),
        (IsolationStepV::WriteText {
            path: "/proc/self/gid_map"@,
            data: spec_id_map_line(host_gid as int),
        }),
        (IsolationStepV::SetUser { uid: GUEST_ID }),
        (IsolationStepV::SetGroup { gid: GUEST_ID }),
        (IsolationStepV::SetHostname { name: "icebox"@ }),
        IsolationStepV::BecomeInit,
    ]
}

fn id_map_line(host_id: u32) -> (s: String)
    ensures
        s@ == spec_id_map_line(host_id as int),
{
    let mut s = String::from_str("1000 ");
    let digits = u32_decimal(host_id);
    s.append(digits.as_str());
    s.append(" 1");
    s
}

/// Computes the bootstrap plan from the host identity.
pub fn bootstrap_plan(host_uid: u32, host_gid: u32) -> (v: Vec<IsolationStep>)
    ensures
        v.deep_view() == spec_bootstrap_plan(host_uid, host_gid),
{
    let mut v: Vec<IsolationStep> = Vec::new();
    v.push(IsolationStep::UnshareNamespaces);
    v.push(
        IsolationStep::WriteText {
            path: String::from_str("/proc/self/uid_map"),
            data: id_map_line(host_uid),
        },
    );
    v.push(
        IsolationStep::WriteText {
            path: String::from_str("/proc/self/setgroups"),
            data: String::from_str("deny"),
        },
    );
    v.push(
        IsolationStep::WriteText {
            path: String::from_str("/proc/self/gid_map"),
            data: id_map_line(host_gid),
        },
    );
    v.push(IsolationStep::SetUser { uid: GUEST_ID });
    v.push(IsolationStep::SetGroup { gid: GUEST_ID });
    v.push(IsolationStep::SetHostname { name: String::from_str("icebox") });
    v.push(IsolationStep::BecomeInit);
    proof {
        assert(v.deep_view() =~= spec_bootstrap_plan(host_uid, host_gid));
    }
    v
}

/// Whatever host the sandbox starts from, the guest identity is fixed:
/// the bootstrap maps and adopts uid 1000 and gid 1000 and takes the
/// hostname `icebox`, and the layout writes the matching passwd entry and
/// ends by locking `/` read-only.
pub proof fn lemma_guest_identity(
    host_uid: u32,
    host_gid: u32,
    mount_dir: Seq<char>,
    binds: Seq<crate::layout::BindV>,
    kinds: Seq<crate::layout::SourceKind>,
)
    ensures
        spec_bootstrap_plan(host_uid, host_gid).contains(
            (IsolationStepV::SetUser { uid: 1000u32 }),
        ),
        spec_bootstrap_plan(host_uid, host_gid).contains(
            (IsolationStepV::SetGroup { gid: 1000u32 }),
        ),
        spec_bootstrap_plan(host_uid, host_gid).contains(
            (IsolationStepV::SetHostname { name: "icebox"@ }),
        ),
        crate::layout::spec_fs_plan(mount_dir, binds, kinds).contains(
            (crate::layout::SetupStepV::WriteText {
                path: "etc/passwd"@,
                data: "icebox:x:1000:1000:icebox:/:/bin/bash\n"@,
            }),
        ),
        crate::layout::spec_fs_plan(mount_dir, binds, kinds).last() == (
        crate::layout::SetupStepV::RemountReadOnly { target: "/"@, recursive: true }),
{
    let boot = spec_bootstrap_plan(host_uid, host_gid);
    assert(boot[4] == (IsolationStepV::SetUser { uid: 1000u32 }));
    assert(boot[5] == (IsolationStepV::SetGroup { gid: 1000u32 }));
    assert(boot[6] == (IsolationStepV::SetHostname { name: "icebox"@ }));
    let plan = crate::layout::spec_fs_plan(mount_dir, binds, kinds);
    let epilogue = crate::layout::spec_layout_epilogue();
    let k = plan.len() - 6;
    assert(plan[k] == epilogue[0]);
    assert(plan.contains(
        (crate::layout::SetupStepV::WriteText {
            path: "etc/passwd"@,
            data: "icebox:x:1000:1000:icebox:/:/bin/bash\n"@,
        }),
    ));
    assert(plan.last() == epilogue[5]);
}

} // verus!
