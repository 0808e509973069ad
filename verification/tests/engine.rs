use icebox::compile::{
    package_install_dir, package_program_path, package_working_dir, BinaryCompiler, Interpreter,
};
use icebox::decimal::{parse_pids, u32_decimal};
use icebox::package::{Package, SingleFilePackage};
use icebox::subprocess::{
    backdoor_reply, decode_backdoor_request, decode_backdoor_result, encode_backdoor_request,
    encode_backdoor_result, BackdoorRequest, BackdoorResult, SpawnOutcome,
};

#[test]
fn decimal_rendering() {
    assert_eq!(u32_decimal(0), "0");
    assert_eq!(u32_decimal(7), "7");
    assert_eq!(u32_decimal(1000), "1000");
    assert_eq!(u32_decimal(4294967295), "4294967295");
}

#[test]
fn pid_lists_parse() {
    assert_eq!(parse_pids(""), Some(vec![]));
    assert_eq!(parse_pids("12\n34\n"), Some(vec![12, 34]));
    assert_eq!(parse_pids("12\n34"), Some(vec![12, 34]));
    assert_eq!(parse_pids("2147483647\n"), Some(vec![2147483647]));
    assert_eq!(parse_pids("2147483648\n"), None);
    assert_eq!(parse_pids("1a\n"), None);
    assert_eq!(parse_pids("\n"), None);
}

#[test]
fn compiler_command_runs_in_out() {
    let compiler = BinaryCompiler::new(
        String::from("/usr/bin/gcc"),
        vec![String::from("gcc"), String::from("foo.c"), String::from("-o"), String::from("foo")],
        String::from("foo.c"),
        String::from("foo"),
        vec![String::from("foo")],
    );
    let command = compiler.compile_command();
    assert_eq!(command.file, "/usr/bin/gcc");
    assert_eq!(command.args[1], "foo.c");
    assert_eq!(command.working_dir, "/out");
    assert_eq!(command.envs, vec![String::from("PATH=/usr/bin:/bin"), String::from("HOME=/")]);
    assert!(command.open_files.is_empty());
    assert!(command.cgroup_file.is_none());
}

#[test]
fn interpreter_keeps_its_configuration() {
    let interpreter = Interpreter::new(
        String::from("main.py"),
        String::from("main.py"),
        vec![String::from("python3"), String::from("main.py")],
    );
    assert_eq!(interpreter.code_file, "main.py");
    assert_eq!(interpreter.execute_args.len(), 2);
}

#[test]
fn package_paths_sit_under_in() {
    assert_eq!(package_install_dir("/scratch/u/in"), "/scratch/u/in/package");
    assert_eq!(package_program_path("foo"), "/in/package/foo");
    assert_eq!(package_working_dir(), "/in/package");
}

#[test]
fn single_file_package_installs_one_file() {
    let package = SingleFilePackage::new(String::from("foo"), vec![1, 2, 3], 0o755);
    let entries = package.install("/tmp/jd-package-x");
    assert_eq!(entries.len(), 1);
    assert_eq!(entries[0].path, "/tmp/jd-package-x/foo");
    assert_eq!(entries[0].data, vec![1, 2, 3]);
    assert_eq!(entries[0].mode, 0o755);
}

#[test]
fn backdoor_replies_cover_every_outcome() {
    assert_eq!(backdoor_reply(SpawnOutcome::Exited(0)), BackdoorResult::Exited(0));
    assert_eq!(backdoor_reply(SpawnOutcome::NoExitStatus), BackdoorResult::Signaled);
    assert_eq!(backdoor_reply(SpawnOutcome::SpawnFailed), BackdoorResult::SpawnError);
    assert_eq!(backdoor_reply(SpawnOutcome::WaitFailed), BackdoorResult::WaitError);
}

#[test]
fn backdoor_wire_round_trip() {
    for request in [BackdoorRequest::Backdoor, BackdoorRequest::Close] {
        let payload = encode_backdoor_request(request);
        assert_eq!(decode_backdoor_request(&payload), Some(request));
    }
    for reply in [
        BackdoorResult::Exited(17),
        BackdoorResult::Signaled,
        BackdoorResult::SpawnError,
        BackdoorResult::WaitError,
    ] {
        let payload = encode_backdoor_result(reply);
        assert_eq!(decode_backdoor_result(&payload), Some(reply));
    }
    assert_eq!(decode_backdoor_request(&[7, 0, 0, 0]), None);
    assert_eq!(decode_backdoor_result(&[0, 0, 0, 0]), None);
}
