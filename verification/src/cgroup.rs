//! Per-execution control groups.
//!
//! Each execution gets a sibling directory under the cpuacct, memory and
//! pids controllers, named by sixteen random alphanumeric characters.  The
//! payload is attached by writing its pid to each `tasks` file, and the
//! live pids are read back from each `cgroup.procs` file.  The directory
//! creation, the writes and the reads are carried out by the host process;
//! every path and every byte of content is computed here.

use crate::decimal::{parse_pids, spec_decimal, spec_parse_pids, u32_decimal};
use rand::distr::SampleString;
use vstd::prelude::*;

verus! {

/// The length of a control-group directory name.
pub const CGROUP_NAME_LEN: usize = 16;

/// A character that may appear in a control-group directory name.
pub open spec fn is_name_char(c: char) -> bool {
    ('0' <= c <= '9') || ('a' <= c <= 'z') || ('A' <= c <= 'Z')
}

/// Relies on rand's `Alphanumeric` distribution with `SampleString`: the
/// sampled string has exactly the asked length, and every character is an
/// ASCII letter or digit.  Which characters come is up to the generator;
/// nothing here depends on it.
#[verifier::external_body]
fn sample_name(len: usize) -> (s: String)
    ensures
        s@.len() == len,
        forall|i: int| 0 <= i < s@.len() ==> is_name_char(#[trigger] s@[i]),
{
    rand::distr::Alphanumeric.sample_string(&mut rand::rng(), len)
}

/// One controller's directory for this execution.
#[derive(Debug)]
pub struct CGroupDir {
    /// The controller's sandbox root, such as `/sys/fs/cgroup/memory/sandbox`.
    pub root: String,
    /// The random sixteen-character directory name under the root.
    pub name: String,
}

impl CGroupDir {
    /// A well-formed directory sits under its controller root and carries
    /// a name of sixteen alphanumeric characters.
    pub open spec fn wf(self) -> bool {
        self.name@.len() == CGROUP_NAME_LEN && forall|i: int|
            0 <= i < self.name@.len() ==> is_name_char(#[trigger] self.name@[i])
    }

    /// The directory's path: root, slash, name.
    pub open spec fn spec_path(self) -> Seq<char> {
        self.root@ + "/"@ + self.name@
    }

    fn new_in(root: &str) -> (d: CGroupDir)
        ensures
            d.wf(),
            d.root@ == root@,
    {
        CGroupDir { root: String::from_str(root), name: sample_name(CGROUP_NAME_LEN) }
    }

    /// Renders the directory's path.
    pub fn path(&self) -> (p: String)
        ensures
            p@ == self.spec_path(),
    {
        let mut p = self.root.clone();
        p.append("/");
        p.append(self.name.as_str());
        p
    }

    fn file_path(&self, file: &str) -> (p: String)
        ensures
            p@ == self.spec_path() + "/"@ + file@,
    {
        let mut p = self.path();
        p.append("/");
        p.append(file);
        p
    }
}

/// One execution's control groups: a sibling directory in each of the
/// three controllers.
#[derive(Debug)]
pub struct CGroup {
    pub cpuacct_dir: CGroupDir,
    pub memory_dir: CGroupDir,
    pub pids_dir: CGroupDir,
}

/// One write the host performs against the cgroup filesystem.
#[derive(Debug, PartialEq, Eq)]
pub struct CGroupWrite {
    pub path: String,
    pub data: String,
}

impl CGroup {
    /// The handle is well-formed when each directory sits under its own
    /// controller root with a well-formed name.
    pub open spec fn wf(self) -> bool {
        &&& self.cpuacct_dir.wf()
        &&& self.memory_dir.wf()
        &&& self.pids_dir.wf()
        &&& self.cpuacct_dir.root@ == "/sys/fs/cgroup/cpuacct/sandbox"@
        &&& self.memory_dir.root@ == "/sys/fs/cgroup/memory/sandbox"@
        &&& self.pids_dir.root@ == "/sys/fs/cgroup/pids/sandbox"@
    }

    /// The three controller roots that must exist, once per process, before
    /// any handle is created.
    pub fn root_dirs() -> (v: Vec<String>)
        ensures
            v.deep_view() =~= seq![
                "/sys/fs/cgroup/cpuacct/sandbox"@,
                "/sys/fs/cgroup/memory/sandbox"@,
                "/sys/fs/cgroup/pids/sandbox"@,
            ],
    {
        let mut v: Vec<String> = Vec::new();
        v.push(String::from_str("/sys/fs/cgroup/cpuacct/sandbox"));
        v.push(String::from_str("/sys/fs/cgroup/memory/sandbox"));
        v.push(String::from_str("/sys/fs/cgroup/pids/sandbox"));
        v
    }

    /// Draws a fresh random name for each controller and lays the three
    /// directories out under their roots.  The host creates the directories
    /// at [`CGroup::creation_paths`]; a name collision surfaces there and is
    /// answered by drawing a new handle.
    pub fn new() -> (g: CGroup)
        ensures
            g.wf(),
    {
        CGroup {
            cpuacct_dir: CGroupDir::new_in("/sys/fs/cgroup/cpuacct/sandbox"),
            memory_dir: CGroupDir::new_in("/sys/fs/cgroup/memory/sandbox"),
            pids_dir: CGroupDir::new_in("/sys/fs/cgroup/pids/sandbox"),
        }
    }

    /// The directories the host must create for this handle, in order.
    pub fn creation_paths(&self) -> (v: Vec<String>)
        ensures
            v.deep_view() =~= seq![
                self.cpuacct_dir.spec_path(),
                self.memory_dir.spec_path(),
                self.pids_dir.spec_path(),
            ],
    {
        let mut v: Vec<String> = Vec::new();
        v.push(self.cpuacct_dir.path());
        v.push(self.memory_dir.path());
        v.push(self.pids_dir.path());
        v
    }

    /// The directories the host removes when the handle is dropped: exactly
    /// the three it created, nothing else.
    pub fn removal_paths(&self) -> (v: Vec<String>)
        ensures
            v.deep_view() =~= seq![
                self.cpuacct_dir.spec_path(),
                self.memory_dir.spec_path(),
                self.pids_dir.spec_path(),
            ],
    {
        self.creation_paths()
    }

    /// The writes that attach `pid` to this execution's groups: the pid in
    /// decimal, to each controller's `tasks` file.
    pub fn add_task(&self, pid: u32) -> (v: Vec<CGroupWrite>)
        ensures
            v@.len() == 3,
            v@[0].path@ == self.cpuacct_dir.spec_path() + "/tasks"@,
            v@[1].path@ == self.memory_dir.spec_path() + "/tasks"@,
            v@[2].path@ == self.pids_dir.spec_path() + "/tasks"@,
            forall|i: int| 0 <= i < 3 ==> (#[trigger] v@[i].data)@ == spec_decimal(pid as int),
    {
        let mut v: Vec<CGroupWrite> = Vec::new();
        v.push(
            CGroupWrite { path: self.cpuacct_dir.file_path("tasks"), data: u32_decimal(pid) },
        );
        v.push(CGroupWrite { path: self.memory_dir.file_path("tasks"), data: u32_decimal(pid) });
        v.push(CGroupWrite { path: self.pids_dir.file_path("tasks"), data: u32_decimal(pid) });
        proof {
            reveal_strlit("/");
            reveal_strlit("tasks");
            reveal_strlit("/tasks");
            assert(v@[0].path@ =~= self.cpuacct_dir.spec_path() + "/tasks"@);
            assert(v@[1].path@ =~= self.memory_dir.spec_path() + "/tasks"@);
            assert(v@[2].path@ =~= self.pids_dir.spec_path() + "/tasks"@);
        }
        v
    }

    /// The files the host reads to enumerate this execution's live pids:
    /// each controller's `cgroup.procs`.
    pub fn procs_paths(&self) -> (v: Vec<String>)
        ensures
            v.deep_view() =~= seq![
                self.cpuacct_dir.spec_path() + "/cgroup.procs"@,
                self.memory_dir.spec_path() + "/cgroup.procs"@,
                self.pids_dir.spec_path() + "/cgroup.procs"@,
            ],
    {
        let mut v: Vec<String> = Vec::new();
        v.push(self.cpuacct_dir.file_path("cgroup.procs"));
        v.push(self.memory_dir.file_path("cgroup.procs"));
        v.push(self.pids_dir.file_path("cgroup.procs"));
        proof {
            reveal_strlit("/");
            reveal_strlit("cgroup.procs");
            reveal_strlit("/cgroup.procs");
            assert(v@[0]@ =~= self.cpuacct_dir.spec_path() + "/cgroup.procs"@);
            assert(v@[1]@ =~= self.memory_dir.spec_path() + "/cgroup.procs"@);
            assert(v@[2]@ =~= self.pids_dir.spec_path() + "/cgroup.procs"@);
        }
        v
    }
}

/// What the pid enumeration yields for given file contents: every file
/// parsed as a pid list, the lists joined in file order; nothing if any
/// file fails to parse.
pub open spec fn spec_procs(contents: Seq<Seq<char>>) -> Option<Seq<i32>>
    decreases contents.len(),
{
    if contents.len() == 0 {
        Some(Seq::empty())
    } else {
        match spec_procs(contents.drop_last()) {
            None => None,
            Some(front) => match spec_parse_pids(contents.last()) {
                None => None,
                Some(pids) => Some(front + pids),
            },
        }
    }
}

/// The list with every repeat dropped: each value once, at its first
/// occurrence, in first-seen order.
pub open spec fn spec_distinct(s: Seq<i32>) -> Seq<i32>
    decreases s.len(),
{
    if s.len() == 0 {
        s
    } else if s.drop_last().contains(s.last()) {
        spec_distinct(s.drop_last())
    } else {
        spec_distinct(s.drop_last()).push(s.last())
    }
}

/// Dropping the repeats keeps exactly the values: the distinct list holds
/// a value if and only if the original does.
pub proof fn lemma_distinct_same_values(s: Seq<i32>, x: i32)
    ensures
        spec_distinct(s).contains(x) <==> s.contains(x),
    decreases s.len(),
{
    if s.len() > 0 {
        lemma_distinct_same_values(s.drop_last(), x);
        let front = s.drop_last();
        if s.contains(x) {
            let i = choose|i: int| 0 <= i < s.len() && s[i] == x;
            if i < s.len() - 1 {
                assert(front[i] == x);
                assert(front.contains(x));
            } else {
                assert(x == s.last());
                if !front.contains(x) {
                    assert(spec_distinct(s).last() == x);
                    assert(spec_distinct(s).contains(x));
                }
            }
        }
        if front.contains(x) {
            let i = choose|i: int| 0 <= i < front.len() && front[i] == x;
            assert(s[i] == x);
            assert(s.contains(x));
        }
        if !front.contains(s.last()) {
            let d = spec_distinct(front);
            assert(forall|j: int| 0 <= j < d.len() ==> d.push(s.last())[j] == d[j]);
            if spec_distinct(s).contains(x) && x != s.last() {
                let j = choose|j: int|
                    0 <= j < spec_distinct(s).len() && spec_distinct(s)[j] == x;
                assert(d[j] == x);
                assert(d.contains(x));
            }
        }
    }
}

/// Dropping the repeats leaves no value listed twice.
pub proof fn lemma_distinct_no_repeats(s: Seq<i32>)
    ensures
        forall|i: int, j: int|
            0 <= i < j < spec_distinct(s).len() ==> spec_distinct(s)[i] != spec_distinct(s)[j],
    decreases s.len(),
{
    if s.len() > 0 {
        lemma_distinct_no_repeats(s.drop_last());
        let front = s.drop_last();
        let d = spec_distinct(front);
        assert forall|i: int, j: int|
            0 <= i < j < spec_distinct(s).len() implies spec_distinct(s)[i] != spec_distinct(
            s,
        )[j] by {
            if front.contains(s.last()) {
                assert(spec_distinct(s) == d);
                assert(d[i] != d[j]);
            } else {
                lemma_distinct_same_values(front, s.last());
                assert(!d.contains(s.last()));
                assert(spec_distinct(s) == d.push(s.last()));
                if j < d.len() {
                    assert(d.push(s.last())[i] == d[i]);
                    assert(d.push(s.last())[j] == d[j]);
                    assert(d[i] != d[j]);
                } else {
                    assert(d.push(s.last())[j] == s.last());
                    assert(d.push(s.last())[i] == d[i]);
                    if d[i] == s.last() {
                        assert(d.contains(s.last()));
                    }
                }
            }
        }
    }
}

/// Drops the repeats of a pid list, keeping first occurrences.
fn distinct(s: &Vec<i32>) -> (v: Vec<i32>)
    ensures
        v@ == spec_distinct(s@),
{
    let mut v: Vec<i32> = Vec::new();
    let mut i: usize = 0;
    proof {
        assert(s@.take(0) =~= Seq::<i32>::empty());
    }
    while i < s.len()
        invariant
            0 <= i <= s@.len(),
            v@ == spec_distinct(s@.take(i as int)),
        decreases s@.len() - i,
    {
        let x = s[i];
        let mut seen: bool = false;
        let mut j: usize = 0;
        while j < i
            invariant
                0 <= j <= i < s@.len(),
                s@[i as int] == x,
                seen ==> (exists|m: int| 0 <= m < j && s@[m] == x),
                !seen ==> (forall|m: int| 0 <= m < j ==> s@[m] != x),
            decreases i - j,
        {
            proof {
                if seen {
                    let m = choose|m: int| 0 <= m < j && s@[m] == x;
                    assert(0 <= m < j + 1 && s@[m] == x);
                }
                if s@[j as int] == x {
                    assert(0 <= j < j + 1 && s@[j as int] == x);
                }
            }
            if s[j] == x {
                seen = true;
            }
            j = j + 1;
        }
        proof {
            let prefix = s@.take(i as int);
            if seen {
                let m = choose|m: int| 0 <= m < i && s@[m] == x;
                assert(prefix[m] == x);
                assert(prefix.contains(x));
            } else {
                if prefix.contains(x) {
                    let m = choose|m: int| 0 <= m < prefix.len() && prefix[m] == x;
                    assert(s@[m] == x);
                    assert(false);
                }
            }
            assert(s@.take(i + 1).drop_last() =~= prefix);
            assert(s@.take(i + 1).last() == s@[i as int]);
        }
        if !seen {
            v.push(x);
        }
        i = i + 1;
    }
    proof {
        assert(s@.take(i as int) =~= s@);
    }
    v
}

/// Parses the contents of the `cgroup.procs` files and yields the union
/// of the pids they list, duplicates dropped: each live pid exactly once,
/// in first-seen order.  Any malformed file yields nothing.
pub fn procs(contents: &Vec<String>) -> (r: Option<Vec<i32>>)
    ensures
        match r {
            Some(v) => {
                &&& spec_procs(contents.deep_view()) matches Some(all)
                &&& v@ == spec_distinct(spec_procs(contents.deep_view()) -> Some_0)
                &&& forall|p: i32|
                    #[trigger] v@.contains(p) <==> (spec_procs(contents.deep_view())
                        -> Some_0).contains(p)
                &&& forall|i: int, j: int| 0 <= i < j < v@.len() ==> v@[i] != v@[j]
            },
            None => spec_procs(contents.deep_view()) is None,
        },
{
    let mut all: Vec<i32> = Vec::new();
    let mut i: usize = 0;
    proof {
        assert(contents.deep_view().take(0) =~= Seq::<Seq<char>>::empty());
    }
    while i < contents.len()
        invariant
            0 <= i <= contents@.len(),
            spec_procs(contents.deep_view().take(i as int)) == Some(all@),
        decreases contents@.len() - i,
    {
        match parse_pids(contents[i].as_str()) {
            None => {
                proof {
                    lemma_procs_extend_none(contents.deep_view(), i as int);
                }
                return None;
            },
            Some(mut pids) => {
                let ghost before = all@;
                let ghost parsed = pids@;
                all.append(&mut pids);
                proof {
                    let dv = contents.deep_view();
                    assert(dv.take(i + 1).drop_last() =~= dv.take(i as int));
                    assert(dv.take(i + 1).last() == dv[i as int]);
                    assert(all@ =~= before + parsed);
                }
                i = i + 1;
            },
        }
    }
    proof {
        assert(contents.deep_view().take(i as int) =~= contents.deep_view());
    }
    let v = distinct(&all);
    proof {
        assert forall|p: i32| #[trigger] v@.contains(p) <==> all@.contains(p) by {
            lemma_distinct_same_values(all@, p);
        }
        lemma_distinct_no_repeats(all@);
    }
    Some(v)
}

proof fn lemma_procs_extend_none(contents: Seq<Seq<char>>, i: int)
    requires
        0 <= i < contents.len(),
        spec_parse_pids(contents[i]) is None,
    ensures
        spec_procs(contents) is None,
    decreases contents.len(),
{
    if contents.len() > 0 {
        if i == contents.len() - 1 {
            assert(contents.last() == contents[i]);
        } else {
            lemma_procs_extend_none(contents.drop_last(), i);
        }
    }
}

} // verus!
