//! File descriptors and per-thread file descriptor tables.
use vstd::prelude::*;
use crate::tasking::scheme_container::SchemeId;

verus! {

/// Maximum amount of files a single table can have opened.
pub const MAX_FILES: usize = 32;

/// The first slots are reserved (standard input, output and error).
pub const RESERVED_FILES: usize = 3;

/// File index in file descriptor table.
pub type FileIdx = usize;

/// This should be handled by the service.
#[derive(Debug, Copy, Clone, PartialEq, Eq, Structural)]
pub struct InnerFileHandle(pub u64);

/// File handle used in a scheme (per-scheme).
#[derive(Debug, Copy, Clone, PartialEq, Eq, Structural)]
pub enum FileHandle {
    /// A handle to a file in the scheme.
    Inner(InnerFileHandle),
    /// A handle to the scheme itself.
    Own,
}

/// An open file: the scheme that serves it and the handle within that scheme.
pub struct FileDescriptor {
    scheme: SchemeId,
    handle: FileHandle,
    /// Files can be pre-opened and even mapped to a different name.
    /// Keep track of this because WASI needs it.
    pre_open_path: Option<Vec<u8>>,
}

/// File descriptor table.
pub struct FileDescriptorTable {
    /// File descriptor table.
    /// Note: there can be holes, which is why we need Option.
    files: Vec<Option<FileDescriptor>>,
}

impl FileDescriptor {
    /// The scheme that serves the file.
    pub closed spec fn spec_scheme(&self) -> SchemeId {
        self.scheme
    }

    /// The handle within the scheme.
    pub closed spec fn spec_handle(&self) -> FileHandle {
        self.handle
    }

    /// The path the file was pre-opened under, if any.
    pub closed spec fn spec_pre_open_path(&self) -> Option<Seq<u8>> {
        match self.pre_open_path {
            Some(p) => Some(p@),
            None => None,
        }
    }

    /// Creates a file descriptor from scheme data.
    pub fn from(scheme: SchemeId, handle: FileHandle) -> (r: Self)
        ensures
            r.spec_scheme() == scheme,
            r.spec_handle() == handle,
            r.spec_pre_open_path() is None,
    {
        Self { scheme, handle, pre_open_path: None }
    }

    /// Pre open path.
    pub fn pre_open_path(&self) -> (r: Option<&[u8]>)
        ensures
            self.spec_pre_open_path() is None ==> r is None,
            self.spec_pre_open_path() matches Some(p) ==> (r matches Some(s) && s@ == p),
    {
        match &self.pre_open_path {
            Some(path) => Some(path.as_slice()),
            None => None,
        }
    }

    /// Sets the pre open path.
    pub fn set_pre_open_path(&mut self, path: Vec<u8>)
        ensures
            final(self).spec_pre_open_path() == Some(path@),
            final(self).spec_scheme() == old(self).spec_scheme(),
            final(self).spec_handle() == old(self).spec_handle(),
    {
        self.pre_open_path = Some(path);
    }

    /// The scheme and the handle of the file.
    pub fn scheme_and_handle(&self) -> (r: (SchemeId, FileHandle))
        ensures
            r == (self.spec_scheme(), self.spec_handle()),
    {
        (self.scheme, self.handle)
    }
}

/// The slots of a table that hold a file.
pub open spec fn used_slots(files: Seq<Option<FileDescriptor>>) -> Seq<bool> {
    files.map_values(|f: Option<FileDescriptor>| f is Some)
}

impl FileDescriptorTable {
    /// The table's slots: `true` where a file is open.
    pub closed spec fn spec_used(&self) -> Seq<bool> {
        used_slots(self.files@)
    }

    /// The file in slot `i`, if any.
    pub closed spec fn spec_file(&self, i: int) -> Option<FileDescriptor> {
        if 0 <= i < self.files@.len() {
            self.files@[i]
        } else {
            None
        }
    }

    /// The table always has its reserved slots and never more than `MAX_FILES` slots.
    pub open spec fn wf(&self) -> bool {
        RESERVED_FILES <= self.spec_used().len() <= MAX_FILES
    }

    /// Creates a new file descriptor table, with its reserved slots empty.
    pub fn new() -> (r: Self)
        ensures
            r.wf(),
            r.spec_used() == seq![false, false, false],
    {
        let mut files: Vec<Option<FileDescriptor>> = Vec::new();
        files.push(None);
        files.push(None);
        files.push(None);
        let r = Self { files };
        proof {
            assert(r.spec_used() =~= seq![false, false, false]);
        }
        r
    }

    /// Insert file into lowest available index (past the reserved slots).
    pub fn insert_lowest(&mut self, fd: FileDescriptor) -> (r: Option<FileIdx>)
        requires
            old(self).wf(),
        ensures
            final(self).wf(),
            r matches Some(i) ==> RESERVED_FILES <= i && (i >= old(self).spec_used().len()
                || !old(self).spec_used()[i as int]) && (forall|j: int|
                RESERVED_FILES <= j < i && j < old(self).spec_used().len() ==> #[trigger] old(self).spec_used()[j]) && final(self).spec_file(i as int) == Some(fd) && (forall|j: int|
                j != i ==> #[trigger] final(self).spec_file(j) == old(self).spec_file(j)),
            r matches Some(i) ==> i <= old(self).spec_used().len() && final(self).spec_used().len()
                == if i == old(self).spec_used().len() {
                i + 1
            } else {
                old(self).spec_used().len() as int
            },
            r is None ==> old(self).spec_used().len() == MAX_FILES && (forall|j: int|
                RESERVED_FILES <= j < MAX_FILES ==> #[trigger] old(self).spec_used()[j]) && final(self).spec_used() == old(self).spec_used(),
            r is None ==> forall|j: int| #[trigger] final(self).spec_file(j) == old(self).spec_file(j),
    {
        let ghost old_files = self.files@;
        proof {
            assert(used_slots(old_files).len() == old_files.len());
        }
        let len = self.files.len();
        let mut idx: usize = RESERVED_FILES;
        while idx < len
            invariant
                RESERVED_FILES <= idx,
                len == self.files@.len(),
                self.files@ == old_files,
                old_files == old(self).files@,
                RESERVED_FILES <= old_files.len() <= MAX_FILES,
                forall|j: int| RESERVED_FILES <= j < idx && j < len ==> #[trigger] old_files[j] is Some,
            decreases len - idx,
        {
            if self.files[idx].is_none() {
                self.files.set(idx, Some(fd));
                proof {
                    assert(used_slots(self.files@).len() == self.files@.len());
                    assert(used_slots(old_files).len() == old_files.len());
                    assert(!used_slots(old_files)[idx as int]);
                    assert forall|j: int| j != idx implies #[trigger] self.spec_file(j) == old(self).spec_file(j) by {}
                    assert forall|j: int| RESERVED_FILES <= j < idx && j < old_files.len() implies #[trigger] used_slots(old_files)[j] by {
                        assert(old_files[j] is Some);
                    }
                }
                return Some(idx);
            }
            idx = idx + 1;
        }
        proof {
            assert forall|j: int| RESERVED_FILES <= j < len implies #[trigger] used_slots(old_files)[j] by {
                assert(old_files[j] is Some);
            }
        }
        if self.files.len() < MAX_FILES {
            self.files.push(Some(fd));
            proof {
                assert(used_slots(self.files@).len() == self.files@.len());
                assert(used_slots(old_files).len() == old_files.len());
                assert forall|j: int| j != len implies #[trigger] self.spec_file(j) == old(self).spec_file(j) by {}
                assert(self.spec_file(len as int) == Some(fd));
                assert(old(self).spec_used() == used_slots(old_files));
                assert forall|j: int| RESERVED_FILES <= j < len && j < old(self).spec_used().len()
                    implies #[trigger] old(self).spec_used()[j] by {
                    assert(used_slots(old_files)[j]);
                }
            }
            Some(len)
        } else {
            None
        }
    }

    /// Gets a file descriptor.
    pub fn get(&self, idx: FileIdx) -> (r: Option<&FileDescriptor>)
        ensures
            r matches Some(f) ==> self.spec_file(idx as int) == Some(*f),
            r is None ==> self.spec_file(idx as int) is None,
    {
        if idx < self.files.len() {
            self.files[idx].as_ref()
        } else {
            None
        }
    }
}

} // verus!
