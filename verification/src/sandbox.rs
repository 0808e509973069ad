//! The controller's side of a sandbox: the default guest environment, the
//! port presets, the pipe rendezvous that couples two sandboxes, and the
//! translation of ports into the open-file entries of an execute request.
//!
//! The handle that owns the socket, the scratch directory and the
//! supervisor pid lives with the process machinery outside the library;
//! everything it decides is computed here.

use crate::layout::{is_absolute_path, spec_default_binds, AccessMode, Bind, BindV};
use crate::wire::{ExecuteCommand, ExecuteCommandV, FileMode, OpenFile, OpenFileV, Request};
use vstd::prelude::*;

verus! {

/// The environment a payload gets when the caller asks for the defaults.
pub fn default_envs() -> (v: Vec<String>)
    ensures
        v.deep_view() =~= seq!["PATH=/usr/bin:/bin"@, "HOME=/"@],
{
    let mut v: Vec<String> = Vec::new();
    v.push(String::from_str("PATH=/usr/bin:/bin"));
    v.push(String::from_str("HOME=/"));
    v
}

// ---------------------------------------------------------------------------
// Ports
// ---------------------------------------------------------------------------

/// A named binding between a pipe endpoint and one of the payload's file
/// descriptors: the FIFO's name under the sandbox's `in/` tree, the
/// descriptor number, and the direction.
#[derive(Debug, PartialEq, Eq)]
pub struct Port {
    pub name: String,
    pub fd: i32,
    pub mode: FileMode,
}

/// The mathematical value of a [`Port`].
pub ghost struct PortV {
    pub name: Seq<char>,
    pub fd: i32,
    pub mode: FileMode,
}

impl View for Port {
    type V = PortV;

    open spec fn view(&self) -> PortV {
        PortV { name: self.name@, fd: self.fd, mode: self.mode }
    }
}

impl DeepView for Port {
    type V = PortV;

    open spec fn deep_view(&self) -> PortV {
        self.view()
    }
}

impl Port {
    /// The payload's standard input: descriptor 0, read side.
    pub fn stdin() -> (p: Port)
        ensures
            p@ == (PortV { name: "stdin"@, fd: 0, mode: FileMode::ReadOnly }),
    {
        Port { name: String::from_str("stdin"), fd: 0, mode: FileMode::ReadOnly }
    }

    /// The payload's standard output: descriptor 1, write side.
    pub fn stdout() -> (p: Port)
        ensures
            p@ == (PortV { name: "stdout"@, fd: 1, mode: FileMode::WriteOnly }),
    {
        Port { name: String::from_str("stdout"), fd: 1, mode: FileMode::WriteOnly }
    }

    /// The payload's standard error: descriptor 2, write side.
    pub fn stderr() -> (p: Port)
        ensures
            p@ == (PortV { name: "stderr"@, fd: 2, mode: FileMode::WriteOnly }),
    {
        Port { name: String::from_str("stderr"), fd: 2, mode: FileMode::WriteOnly }
    }

    /// The judge-to-user side channel: descriptor 3, read side.
    pub fn extra() -> (p: Port)
        ensures
            p@ == (PortV { name: "extra"@, fd: 3, mode: FileMode::ReadOnly }),
    {
        Port { name: String::from_str("extra"), fd: 3, mode: FileMode::ReadOnly }
    }
}

// ---------------------------------------------------------------------------
// The pipe rendezvous
// ---------------------------------------------------------------------------

/// What an endpoint must do to the filesystem to bind its pipe at a path.
#[derive(Debug, PartialEq, Eq)]
pub enum FifoAction {
    /// No endpoint has bound yet: create the FIFO at `path`.
    CreateFifo { path: String },
    /// The other endpoint already created the FIFO at `existing`: hard-link
    /// it to `path`, so both sandboxes reach the same kernel FIFO.
    LinkExisting { existing: String, path: String },
}

/// The mathematical value of a [`FifoAction`].
pub ghost enum FifoActionV {
    CreateFifo { path: Seq<char> },
    LinkExisting { existing: Seq<char>, path: Seq<char> },
}

impl View for FifoAction {
    type V = FifoActionV;

    open spec fn view(&self) -> FifoActionV {
        match self {
            FifoAction::CreateFifo { path } => (FifoActionV::CreateFifo { path: path@ }),
            FifoAction::LinkExisting { existing, path } => (FifoActionV::LinkExisting {
                existing: existing@,
                path: path@,
            }),
        }
    }
}

/// The rendezvous state both endpoints of a pipe share: the path of the
/// FIFO once some endpoint has created it.
#[derive(Debug)]
pub struct PipeState {
    pub path: Option<String>,
}

/// One logical pipe between two consumers.  The two endpoints act on this
/// shared state in turn; whichever binds first creates the FIFO, and the
/// other links it into its own tree.  The lock and the condition that let
/// two threads share a pipe live outside the library.
#[derive(Debug)]
pub struct Pipe {
    pub state: PipeState,
}

/// What one `bind` does to the rendezvous: the filesystem action for this
/// endpoint, and the state the pipe is left in.
pub open spec fn spec_pipe_bind(state: Option<Seq<char>>, target: Seq<char>) -> (
    FifoActionV,
    Option<Seq<char>>,
) {
    match state {
        None => ((FifoActionV::CreateFifo { path: target }), Some(target)),
        Some(existing) => ((FifoActionV::LinkExisting { existing, path: target }), state),
    }
}

impl Pipe {
    /// A fresh pipe that no endpoint has bound yet.
    pub fn new() -> (p: Pipe)
        ensures
            p.state.path is None,
    {
        Pipe { state: PipeState { path: None } }
    }

    /// The view of the shared state.
    pub open spec fn state_view(&self) -> Option<Seq<char>> {
        match self.state.path {
            Some(ref p) => Some(p@),
            None => None,
        }
    }

    /// Binds this pipe at `target` for one endpoint and says what to do on
    /// the filesystem: create the FIFO if this endpoint is first, link the
    /// existing FIFO otherwise.
    pub fn into_fifo(&mut self, target: &str) -> (a: FifoAction)
        ensures
            (a@, final(self).state_view()) == spec_pipe_bind(old(self).state_view(), target@),
    {
        match &self.state.path {
            None => {
                self.state.path = Some(String::from_str(target));
                FifoAction::CreateFifo { path: String::from_str(target) }
            },
            Some(existing) => {
                let e = existing.clone();
                FifoAction::LinkExisting { existing: e, path: String::from_str(target) }
            },
        }
    }

    /// The path a reader or writer opens, once some endpoint has bound the
    /// pipe; nothing before that.
    pub fn bound_path(&self) -> (r: Option<&String>)
        ensures
            match r {
                Some(p) => self.state_view() == Some(p@),
                None => self.state_view() is None,
            },
    {
        match &self.state.path {
            Some(p) => Some(p),
            None => None,
        }
    }
}

/// Two endpoints that bind the same fresh pipe agree on the FIFO: the
/// first creates it at its own path, and the second links that very path
/// into its own tree, so both sandboxes read and write one kernel object.
pub proof fn lemma_pipe_rendezvous(first_target: Seq<char>, second_target: Seq<char>)
    ensures
        ({
            let (first_action, mid) = spec_pipe_bind(None, first_target);
            let (second_action, last) = spec_pipe_bind(mid, second_target);
            &&& first_action == (FifoActionV::CreateFifo { path: first_target })
            &&& second_action == (FifoActionV::LinkExisting {
                existing: first_target,
                path: second_target,
            })
            &&& last == Some(first_target)
        }),
{
}

// ---------------------------------------------------------------------------
// From ports to an execute request
// ---------------------------------------------------------------------------

/// The open-file entry a port turns into: the FIFO's path as the payload
/// sees it, the single descriptor, the port's direction.
pub open spec fn spec_port_open_file(p: PortV) -> OpenFileV {
    OpenFileV { path: "/in/"@ + p.name, fds: seq![p.fd], mode: p.mode }
}

/// Translates one port into the open-file entry of the wire request.
pub fn open_file_for_port(port: &Port) -> (f: OpenFile)
    ensures
        f@ == spec_port_open_file(port@),
{
    let mut path = String::from_str("/in/");
    path.append(port.name.as_str());
    let mut fds: Vec<i32> = Vec::new();
    fds.push(port.fd);
    proof {
        assert(fds@ =~= seq![port@.fd]);
    }
    OpenFile { path, fds, mode: port.mode }
}

/// Translates every port, in order.
pub fn open_files_for_ports(ports: &Vec<Port>) -> (v: Vec<OpenFile>)
    ensures
        v.deep_view().len() == ports.deep_view().len(),
        forall|i: int|
            0 <= i < ports.deep_view().len() ==> v.deep_view()[i] == spec_port_open_file(
                #[trigger] ports.deep_view()[i],
            ),
{
    let mut v: Vec<OpenFile> = Vec::new();
    let mut i: usize = 0;
    while i < ports.len()
        invariant
            i <= ports@.len(),
            v.deep_view().len() == i,
            forall|j: int|
                0 <= j < i ==> v.deep_view()[j] == spec_port_open_file(
                    #[trigger] ports.deep_view()[j],
                ),
        decreases ports@.len() - i,
    {
        v.push(open_file_for_port(&ports[i]));
        i = i + 1;
    }
    v
}

/// The host path where a port's FIFO is materialized: the sandbox's `in/`
/// tree, then the port's name.
pub fn fifo_path(in_dir: &str, name: &str) -> (p: String)
    ensures
        p@ == in_dir@ + "/"@ + name@,
{
    let mut p = String::from_str(in_dir);
    p.append("/");
    p.append(name);
    p
}

/// Assembles the wire request for one execution.
pub fn execute_request(
    file: String,
    args: Vec<String>,
    envs: Vec<String>,
    working_dir: String,
    open_files: Vec<OpenFile>,
    cgroup_file: Option<String>,
) -> (r: Request)
    ensures
        r@ == crate::wire::RequestV::Execute(
            (ExecuteCommandV {
                file: file@,
                args: args.deep_view(),
                envs: envs.deep_view(),
                working_dir: working_dir@,
                open_files: open_files.deep_view(),
                cgroup_file: match cgroup_file {
                    Some(p) => Some(p@),
                    None => None,
                },
            }),
        ),
{
    Request::Execute(
        ExecuteCommand { file, args, envs, working_dir, open_files, cgroup_file },
    )
}

/// The bind set of one sandbox: the defaults, then its own `in/` tree
/// read-only and its own `out/` tree read-write.
pub fn sandbox_binds(in_dir: String, out_dir: String) -> (v: Vec<Bind>)
    requires
        is_absolute_path(in_dir@),
        is_absolute_path(out_dir@),
    ensures
        v.deep_view() == spec_default_binds() + seq![
            (BindV { source: in_dir@, target: "in"@, mode: AccessMode::ReadOnly }),
            (BindV { source: out_dir@, target: "out"@, mode: AccessMode::ReadWrite }),
        ],
        forall|i: int| 0 <= i < v@.len() ==> (#[trigger] v@[i]).wf(),
{
    proof {
        reveal_strlit("in");
        reveal_strlit("out");
    }
    let mut v = Bind::defaults();
    v.push(Bind::new(in_dir, String::from_str("in"), AccessMode::ReadOnly));
    v.push(Bind::new(out_dir, String::from_str("out"), AccessMode::ReadWrite));
    proof {
        assert(v.deep_view() =~= spec_default_binds() + seq![
            (BindV { source: in_dir@, target: "in"@, mode: AccessMode::ReadOnly }),
            (BindV { source: out_dir@, target: "out"@, mode: AccessMode::ReadWrite }),
        ]);
    }
    v
}

} // verus!
