//! The per-entry handles of a directory walk. A callback inspects a handle
//! and marks what it wants — descend into a directory, read a file — and
//! the walker collects the marks. The walking itself is I/O and lives
//! outside the library, which only keeps the handles' state honest.

use vstd::prelude::*;

verus! {

/// A directory offered to callbacks; they may ask to descend into it.
pub struct DirHandle {
    path: String,
    must_descend: bool,
}

impl DirHandle {
    /// The path the handle stands for.
    pub closed spec fn path_view(&self) -> Seq<char> {
        self.path@
    }

    /// Whether a callback asked to descend.
    pub closed spec fn descend_requested(&self) -> bool {
        self.must_descend
    }

    /// A fresh handle: no descent requested yet.
    pub fn new(path: String) -> (r: Self)
        ensures
            r.path_view() == path@,
            !r.descend_requested(),
    {
        DirHandle { path, must_descend: false }
    }

    /// Asks the walker to descend into this directory.
    pub fn descend(&mut self)
        ensures
            final (self).descend_requested(),
            final (self).path_view() == old(self).path_view(),
    {
        self.must_descend = true;
    }

    /// The directory's path.
    pub fn path(&self) -> (r: &str)
        ensures
            r@ == self.path_view(),
    {
        self.path.as_str()
    }

    /// Reads and clears the descent mark, as the walker does after each
    /// callback.
    pub fn take_descend(&mut self) -> (r: bool)
        ensures
            r == old(self).descend_requested(),
            !final (self).descend_requested(),
            final (self).path_view() == old(self).path_view(),
    {
        let r = self.must_descend;
        self.must_descend = false;
        r
    }
}

/// A file offered to callbacks; they may ask to read it.
pub struct FileHandle {
    path: String,
    wants_to_read: bool,
}

impl FileHandle {
    /// The path the handle stands for.
    pub closed spec fn path_view(&self) -> Seq<char> {
        self.path@
    }

    /// Whether a callback asked to read the file.
    pub closed spec fn read_requested(&self) -> bool {
        self.wants_to_read
    }

    /// A fresh handle: no read requested yet.
    pub fn new(path: String) -> (r: Self)
        ensures
            r.path_view() == path@,
            !r.read_requested(),
    {
        FileHandle { path, wants_to_read: false }
    }

    /// Asks the walker for this file's contents.
    pub fn read(&mut self)
        ensures
            final (self).read_requested(),
            final (self).path_view() == old(self).path_view(),
    {
        self.wants_to_read = true;
    }

    /// The file's path.
    pub fn path(&self) -> (r: &str)
        ensures
            r@ == self.path_view(),
    {
        self.path.as_str()
    }

    /// Reads and clears the read mark, as the walker does after each
    /// callback.
    pub fn take_read(&mut self) -> (r: bool)
        ensures
            r == old(self).read_requested(),
            !final (self).read_requested(),
            final (self).path_view() == old(self).path_view(),
    {
        let r = self.wants_to_read;
        self.wants_to_read = false;
        r
    }
}

/// What a callback is handed: a directory, a file, or a file's contents
/// after it asked to read it.
pub enum Handle {
    Dir(DirHandle),
    File(FileHandle),
    Content { file_path: String, content: Vec<u8> },
}

} // verus!
