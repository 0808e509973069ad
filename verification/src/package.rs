//! Packages: the files a compiled or interpreted program is materialized
//! from before a run.
//!
//! A package says which files to lay out under an install directory; the
//! host performs the writes.

use vstd::prelude::*;

verus! {

/// One file to materialize: its path, its bytes, and its permission bits.
#[derive(Debug, PartialEq, Eq)]
pub struct FileEntry {
    pub path: String,
    pub data: Vec<u8>,
    pub mode: u32,
}

/// The mathematical value of a [`FileEntry`].
pub ghost struct FileEntryV {
    pub path: Seq<char>,
    pub data: Seq<u8>,
    pub mode: u32,
}

impl View for FileEntry {
    type V = FileEntryV;

    open spec fn view(&self) -> FileEntryV {
        FileEntryV { path: self.path@, data: self.data@, mode: self.mode }
    }
}

impl DeepView for FileEntry {
    type V = FileEntryV;

    open spec fn deep_view(&self) -> FileEntryV {
        self.view()
    }
}

/// Something that can be installed into a directory: it names the files
/// to write there, and each implementation says which.
pub trait Package {
    /// The files this package lays out under `dir`.
    spec fn spec_install(&self, dir: Seq<char>) -> Seq<FileEntryV>;

    /// Computes the writes that install this package under `dir`.
    fn install(&self, dir: &str) -> (v: Vec<FileEntry>)
        ensures
            v.deep_view() == self.spec_install(dir@),
    ;
}

/// A package of a single file.
#[derive(Debug)]
pub struct SingleFilePackage {
    pub path: String,
    pub data: Vec<u8>,
    pub mode: u32,
}

impl SingleFilePackage {
    /// Bundles one file with its permission bits.
    pub fn new(path: String, data: Vec<u8>, mode: u32) -> (p: SingleFilePackage)
        ensures
            p.path@ == path@,
            p.data@ == data@,
            p.mode == mode,
    {
        SingleFilePackage { path, data, mode }
    }

    /// The single write this package asks for: its file, under `dir`.
    pub fn file_entries(&self, dir: &str) -> (v: Vec<FileEntry>)
        ensures
            v@.len() == 1,
            v@[0].path@ == dir@ + "/"@ + self.path@,
            v@[0].data@ == self.data@,
            v@[0].mode == self.mode,
    {
        let mut p = String::from_str(dir);
        p.append("/");
        p.append(self.path.as_str());
        let mut data: Vec<u8> = Vec::new();
        let mut i: usize = 0;
        while i < self.data.len()
            invariant
                i <= self.data@.len(),
                data@ == self.data@.take(i as int),
            decreases self.data@.len() - i,
        {
            data.push(self.data[i]);
            i = i + 1;
            proof {
                assert(data@ =~= self.data@.take(i as int));
            }
        }
        proof {
            assert(data@ =~= self.data@);
        }
        let mut v: Vec<FileEntry> = Vec::new();
        v.push(FileEntry { path: p, data, mode: self.mode });
        v
    }
}

impl Package for SingleFilePackage {
    open spec fn spec_install(&self, dir: Seq<char>) -> Seq<FileEntryV> {
        seq![
            (FileEntryV { path: dir + "/"@ + self.path@, data: self.data@, mode: self.mode }),
        ]
    }

    fn install(&self, dir: &str) -> (v: Vec<FileEntry>) {
        let v = self.file_entries(dir);
        proof {
            assert(v.deep_view() =~= self.spec_install(dir@));
        }
        v
    }
}

} // verus!
