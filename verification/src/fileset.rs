//! An explicit model of the file tree under analysis.
//!
//! The caller collects, outside this crate, the normalized absolute path of
//! every file under the analysis root and hands them over as plain strings.
//! Resolution then asks this value, never the real file system, whether a
//! candidate path exists; a directory exists exactly when some file lies
//! beneath it.

use vstd::prelude::*;

verus! {

/// The set of files that exist under the analysis root, each an absolute,
/// normalized, `/`-separated path.
pub struct FileSet {
    pub files: Vec<String>,
}

impl FileSet {
    /// The paths as a sequence of character sequences.
    pub open spec fn view_files(&self) -> Seq<Seq<char>> {
        self.files.deep_view()
    }

    /// Whether a file with path `p` exists.
    pub open spec fn spec_is_file(&self, p: Seq<char>) -> bool {
        self.view_files().contains(p)
    }

    /// Whether `p` is a directory: some file lies strictly beneath it.
    pub open spec fn spec_is_dir(&self, p: Seq<char>) -> bool {
        exists|i: int|
            0 <= i < self.view_files().len() && (p + seq!['/']).is_prefix_of(
                self.view_files()[i],
            )
    }

    /// Whether `p` exists at all, as a file or as a directory.
    pub open spec fn spec_exists(&self, p: Seq<char>) -> bool {
        self.spec_is_file(p) || self.spec_is_dir(p)
    }

    /// Builds the model from a list of file paths.
    pub fn new(files: Vec<String>) -> (r: FileSet)
        ensures
            r.files == files,
    {
        FileSet { files }
    }

    /// Tests whether a file with path `p` exists.
    pub fn is_file(&self, p: &String) -> (r: bool)
        ensures
            r == self.spec_is_file(p@),
    {
        let mut i: usize = 0;
        while i < self.files.len()
            invariant
                i <= self.files.len(),
                forall|j: int| 0 <= j < i ==> self.view_files()[j] != p@,
            decreases self.files.len() - i,
        {
            if crate::pathstr::str_eq(&self.files[i], p) {
                proof {
                    assert(self.view_files()[i as int] == p@);
                }
                return true;
            }
            i = i + 1;
        }
        proof {
            if self.spec_is_file(p@) {
                let j = choose|j: int|
                    0 <= j < self.view_files().len() && self.view_files()[j] == p@;
                assert(false);
            }
        }
        false
    }

    /// Tests whether `p` is a directory containing at least one file.
    pub fn is_dir(&self, p: &String) -> (r: bool)
        ensures
            r == self.spec_is_dir(p@),
    {
        proof {
            reveal_strlit("/");
        }
        let slash = String::from_str("/");
        let prefix = crate::pathstr::str_concat(p, &slash);
        proof {
            assert(prefix@ =~= p@ + seq!['/']);
        }
        let mut i: usize = 0;
        while i < self.files.len()
            invariant
                i <= self.files.len(),
                prefix@ == p@ + seq!['/'],
                forall|j: int|
                    0 <= j < i ==> !(p@ + seq!['/']).is_prefix_of(#[trigger] self.view_files()[j]),
            decreases self.files.len() - i,
        {
            if crate::pathstr::str_starts_with(&self.files[i], &prefix) {
                proof {
                    assert((p@ + seq!['/']).is_prefix_of(self.view_files()[i as int]));
                }
                return true;
            }
            i = i + 1;
        }
        proof {
            if self.spec_is_dir(p@) {
                let j = choose|j: int|
                    0 <= j < self.view_files().len() && (p@ + seq!['/']).is_prefix_of(
                        self.view_files()[j],
                    );
                assert(false);
            }
        }
        false
    }

    /// Tests whether `p` exists as a file or a directory.
    pub fn exists_path(&self, p: &String) -> (r: bool)
        ensures
            r == self.spec_exists(p@),
    {
        self.is_file(p) || self.is_dir(p)
    }
}

/// The first candidate that exists as a file, scanned in order.
pub open spec fn spec_first_existing(fs: &FileSet, cands: Seq<Seq<char>>) -> Option<Seq<char>>
    decreases cands.len(),
{
    if cands.len() == 0 {
        None
    } else if fs.spec_is_file(cands[0]) {
        Some(cands[0])
    } else {
        spec_first_existing(fs, cands.drop_first())
    }
}

/// Returns the first candidate path that exists as a file.
pub fn first_existing(fs: &FileSet, cands: &Vec<String>) -> (r: Option<String>)
    ensures
        match r {
            Some(p) => Some(p@) == spec_first_existing(fs, cands.deep_view()),
            None => spec_first_existing(fs, cands.deep_view()) == None::<Seq<char>>,
        },
{
    let mut i: usize = 0;
    proof {
        assert(cands.deep_view().skip(0) =~= cands.deep_view());
    }
    while i < cands.len()
        invariant
            i <= cands.len(),
            cands.deep_view().len() == cands.len(),
            spec_first_existing(fs, cands.deep_view()) == spec_first_existing(
                fs,
                cands.deep_view().skip(i as int),
            ),
        decreases cands.len() - i,
    {
        proof {
            assert(cands.deep_view().skip(i as int)[0] == cands.deep_view()[i as int]);
            assert(cands.deep_view().skip(i as int).drop_first() =~= cands.deep_view().skip(i + 1));
        }
        if fs.is_file(&cands[i]) {
            return Some(cands[i].clone());
        }
        i = i + 1;
    }
    proof {
        assert(cands.deep_view().skip(cands.len() as int) =~= Seq::<Seq<char>>::empty());
    }
    None
}

} // verus!
