use icebox::layout::AccessMode;
use icebox::sandbox::{
    default_envs, fifo_path, open_file_for_port, open_files_for_ports, sandbox_binds, FifoAction,
    Pipe, Port,
};
use icebox::wire::FileMode;

#[test]
fn default_envs_are_path_and_home() {
    let envs = default_envs();
    assert_eq!(envs, vec![String::from("PATH=/usr/bin:/bin"), String::from("HOME=/")]);
}

#[test]
fn port_presets() {
    let stdin = Port::stdin();
    assert_eq!((stdin.name.as_str(), stdin.fd, stdin.mode), ("stdin", 0, FileMode::ReadOnly));
    let stdout = Port::stdout();
    assert_eq!((stdout.name.as_str(), stdout.fd, stdout.mode), ("stdout", 1, FileMode::WriteOnly));
    let stderr = Port::stderr();
    assert_eq!((stderr.name.as_str(), stderr.fd, stderr.mode), ("stderr", 2, FileMode::WriteOnly));
    let extra = Port::extra();
    assert_eq!((extra.name.as_str(), extra.fd, extra.mode), ("extra", 3, FileMode::ReadOnly));
}

#[test]
fn first_endpoint_creates_second_links() {
    // One sandbox binds its stdout, the other its extra channel; both end
    // up on the one FIFO the first endpoint created.
    let mut pipe = Pipe::new();
    let first = pipe.into_fifo("/scratch/u/in/stdout");
    assert_eq!(
        first,
        FifoAction::CreateFifo { path: String::from("/scratch/u/in/stdout") }
    );
    let second = pipe.into_fifo("/scratch/j/in/extra");
    assert_eq!(
        second,
        FifoAction::LinkExisting {
            existing: String::from("/scratch/u/in/stdout"),
            path: String::from("/scratch/j/in/extra"),
        }
    );
    assert_eq!(pipe.bound_path(), Some(&String::from("/scratch/u/in/stdout")));
}

#[test]
fn unbound_pipe_has_no_path() {
    let pipe = Pipe::new();
    assert_eq!(pipe.bound_path(), None);
}

#[test]
fn ports_become_open_file_entries() {
    let entry = open_file_for_port(&Port::stdout());
    assert_eq!(entry.path, "/in/stdout");
    assert_eq!(entry.fds, vec![1]);
    assert_eq!(entry.mode, FileMode::WriteOnly);

    let entries = open_files_for_ports(&vec![Port::stdout(), Port::extra()]);
    assert_eq!(entries.len(), 2);
    assert_eq!(entries[0].path, "/in/stdout");
    assert_eq!(entries[1].path, "/in/extra");
    assert_eq!(entries[1].fds, vec![3]);
    assert_eq!(entries[1].mode, FileMode::ReadOnly);
}

#[test]
fn fifo_path_joins_under_in_dir() {
    assert_eq!(fifo_path("/scratch/u/in", "stdout"), "/scratch/u/in/stdout");
}

#[test]
fn sandbox_binds_append_in_and_out() {
    let binds = sandbox_binds(
        String::from("/scratch/u/in"),
        String::from("/scratch/u/out"),
    );
    assert_eq!(binds.len(), 13);
    let in_bind = &binds[11];
    assert_eq!(in_bind.source, "/scratch/u/in");
    assert_eq!(in_bind.target, "in");
    assert_eq!(in_bind.mode, AccessMode::ReadOnly);
    let out_bind = &binds[12];
    assert_eq!(out_bind.source, "/scratch/u/out");
    assert_eq!(out_bind.target, "out");
    assert_eq!(out_bind.mode, AccessMode::ReadWrite);
}
