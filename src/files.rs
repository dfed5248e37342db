//! A snapshot of the files a build reads: for each path, whether it exists and, when it
//! could be read, its bytes.
use vstd::prelude::*;

verus! {

/// The largest file a build takes in (the size bound of any `Vec<u8>`).
pub const MAX_FILE_LEN: usize = usize::MAX / 2;

/// What a build finds at a path.
#[derive(Clone, Debug)]
pub enum FileContent {
    /// Nothing exists there.
    Missing,
    /// Something exists there but could not be read.
    Unreadable,
    /// The whole content of the file.
    Bytes(Vec<u8>),
}

/// Paths and what was found at them; a later entry for a path supersedes an earlier one.
#[derive(Clone, Debug)]
pub struct FileStore {
    pub entries: Vec<(String, FileContent)>,
}

/// What `entries` records for `path`: its last entry, or `Missing` when there is none.
pub open spec fn content_of(entries: Seq<(String, FileContent)>, path: Seq<char>) -> FileContent
    decreases entries.len(),
{
    if entries.len() == 0 {
        FileContent::Missing
    } else if entries.last().0@ == path {
        entries.last().1
    } else {
        content_of(entries.drop_last(), path)
    }
}

/// The bytes recorded for `path` (empty when it could not be read).
pub open spec fn bytes_of(entries: Seq<(String, FileContent)>, path: Seq<char>) -> Seq<u8> {
    match content_of(entries, path) {
        FileContent::Bytes(b) => b@,
        _ => seq![],
    }
}

impl FileStore {
    /// Every recorded file fits within `MAX_FILE_LEN`.
    pub open spec fn wf(&self) -> bool {
        forall|i: int|
            0 <= i < self.entries@.len() ==> match (#[trigger] self.entries@[i]).1 {
                FileContent::Bytes(b) => b@.len() <= MAX_FILE_LEN,
                _ => true,
            }
    }

    pub open spec fn content(&self, path: Seq<char>) -> FileContent {
        content_of(self.entries@, path)
    }

    /// A snapshot that records nothing.
    pub fn new() -> (r: FileStore)
        ensures
            r.entries@.len() == 0,
            r.wf(),
    {
        FileStore { entries: Vec::new() }
    }

    /// Records what was found at `path`.
    pub fn insert(&mut self, path: String, content: FileContent)
        requires
            old(self).wf(),
            content matches FileContent::Bytes(b) ==> b@.len() <= MAX_FILE_LEN,
        ensures
            final(self).wf(),
            final(self).entries@ == old(self).entries@.push((path, content)),
            final(self).content(path@) == content,
    {
        self.entries.push((path, content));
        proof {
            let e = self.entries@;
            assert(e.last().0@ == path@);
            assert forall|i: int| 0 <= i < e.len() implies match (#[trigger] e[i]).1 {
                FileContent::Bytes(b) => b@.len() <= MAX_FILE_LEN,
                _ => true,
            } by {
                if i < e.len() - 1 {
                    assert(e[i] == old(self).entries@[i]);
                }
            }
        }
    }

    /// Position of the entry that decides what `path` holds.
    pub fn lookup(&self, path: &String) -> (r: Option<usize>)
        ensures
            match r {
                Some(i) => i < self.entries@.len() && self.entries@[i as int].0@ == path@
                    && self.content(path@) == self.entries@[i as int].1,
                None => self.content(path@) is Missing,
            },
    {
        let mut i: usize = self.entries.len();
        assert(self.entries@.take(i as int) =~= self.entries@);
        while i > 0
            invariant
                i <= self.entries@.len(),
                self.content(path@) == content_of(self.entries@.take(i as int), path@),
            decreases i,
        {
            assert(self.entries@.take(i as int).drop_last() =~= self.entries@.take(i - 1));
            if self.entries[i - 1].0 == *path {
                return Some(i - 1);
            }
            i = i - 1;
        }
        None
    }
}

} // verus!
