//! Compiler and interpreter configurations, and the commands they give
//! rise to.
//!
//! A binary compiler runs once inside a fresh sandbox to turn source text
//! into a package; an interpreter packages the source as it is.  The
//! sandbox traffic and the copying of package trees happen outside the
//! library; the commands and paths they use are computed here.

use crate::sandbox::default_envs;
use crate::wire::ExecuteCommand;
use vstd::prelude::*;

verus! {

/// A compiler that produces a binary: the compiler's own invocation, the
/// name the source is written under, and the produced program with its
/// run-time arguments.
#[derive(Debug)]
pub struct BinaryCompiler {
    pub compiler_file: String,
    pub compiler_args: Vec<String>,
    pub code_file: String,
    pub execute_file: String,
    pub execute_args: Vec<String>,
}

impl BinaryCompiler {
    /// Bundles a binary compiler's configuration.
    pub fn new(
        compiler_file: String,
        compiler_args: Vec<String>,
        code_file: String,
        execute_file: String,
        execute_args: Vec<String>,
    ) -> (c: BinaryCompiler)
        ensures
            c.compiler_file@ == compiler_file@,
            c.compiler_args.deep_view() == compiler_args.deep_view(),
            c.code_file@ == code_file@,
            c.execute_file@ == execute_file@,
            c.execute_args.deep_view() == execute_args.deep_view(),
    {
        BinaryCompiler { compiler_file, compiler_args, code_file, execute_file, execute_args }
    }

    /// The command that runs this compiler inside a sandbox: its own file
    /// and arguments, the default guest environment, working in `/out`
    /// where the sandbox collects what it builds, no extra files and no
    /// control group.
    pub fn compile_command(&self) -> (c: ExecuteCommand)
        ensures
            c@.file == self.compiler_file@,
            c@.args == self.compiler_args.deep_view(),
            c@.envs =~= seq!["PATH=/usr/bin:/bin"@, "HOME=/"@],
            c@.working_dir == "/out"@,
            c@.open_files.len() == 0,
            c@.cgroup_file is None,
    {
        ExecuteCommand {
            file: self.compiler_file.clone(),
            args: clone_strings(&self.compiler_args),
            envs: default_envs(),
            working_dir: String::from_str("/out"),
            open_files: Vec::new(),
            cgroup_file: None,
        }
    }
}

/// An interpreter: the name the source is packaged under, and the
/// interpreter invocation that runs it.
#[derive(Debug)]
pub struct Interpreter {
    pub code_file: String,
    pub execute_file: String,
    pub execute_args: Vec<String>,
}

impl Interpreter {
    /// Bundles an interpreter's configuration.
    pub fn new(code_file: String, execute_file: String, execute_args: Vec<String>) -> (c:
        Interpreter)
        ensures
            c.code_file@ == code_file@,
            c.execute_file@ == execute_file@,
            c.execute_args.deep_view() == execute_args.deep_view(),
    {
        Interpreter { code_file, execute_file, execute_args }
    }
}

/// Copies a list of strings.
pub fn clone_strings(l: &Vec<String>) -> (v: Vec<String>)
    ensures
        v.deep_view() == l.deep_view(),
{
    let mut v: Vec<String> = Vec::new();
    let mut i: usize = 0;
    while i < l.len()
        invariant
            i <= l@.len(),
            v.deep_view().len() == i,
            forall|j: int| 0 <= j < i ==> v.deep_view()[j] == #[trigger] l.deep_view()[j],
        decreases l@.len() - i,
    {
        v.push(l[i].clone());
        i = i + 1;
    }
    proof {
        assert(v.deep_view() =~= l.deep_view());
    }
    v
}

/// The host-side directory a compiled package is installed into before a
/// run: the sandbox's `in/` tree, under `package`.
pub fn package_install_dir(in_dir: &str) -> (p: String)
    ensures
        p@ == in_dir@ + "/package"@,
{
    let mut p = String::from_str(in_dir);
    p.append("/package");
    p
}

/// The program path a packaged target is executed at, as the payload sees
/// it: the installed package tree under `/in`.
pub fn package_program_path(execute_file: &str) -> (p: String)
    ensures
        p@ == "/in/package/"@ + execute_file@,
{
    let mut p = String::from_str("/in/package/");
    p.append(execute_file);
    p
}

/// The working directory a packaged target runs in.
pub fn package_working_dir() -> (p: String)
    ensures
        p@ == "/in/package"@,
{
    String::from_str("/in/package")
}

} // verus!
