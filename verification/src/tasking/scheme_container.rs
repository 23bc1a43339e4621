//! Identifiers of schemes, and the container that names them.
use vstd::prelude::*;
use crate::tasking::file::{FileDescriptor, FileHandle};

verus! {

/// Scheme identifier.
#[derive(Debug, Copy, Clone, Eq, PartialEq, Structural)]
pub struct SchemeId(pub usize);

impl SchemeId {
    /// Sentinel.
    pub fn sentinel() -> (r: Self)
        ensures
            r.0 == 0,
    {
        Self(0)
    }
}

/// Error that can occur when inserting a new scheme.
#[derive(Debug, Clone, Copy, PartialEq, Eq, Structural)]
pub enum SchemeInsertionError {
    /// The scheme name is already taken.
    NameAlreadyTaken,
}

/// Error numbers given back to WebAssembly programs.
#[derive(Debug, Clone, Copy, PartialEq, Eq, Structural)]
pub enum Errno {
    /// No such device.
    NoDev,
}

/// The registered schemes, by name.
pub struct SchemeContainer {
    /// Maps a name to an id.
    name_scheme_map: Vec<(Vec<u8>, SchemeId)>,
    /// Next scheme id.
    next_scheme_id: usize,
}

/// Two byte strings are equal.
fn bytes_eq(a: &[u8], b: &[u8]) -> (r: bool)
    ensures
        r == (a@ == b@),
{
    if a.len() != b.len() {
        return false;
    }
    let mut i: usize = 0;
    while i < a.len()
        invariant
            a@.len() == b@.len(),
            i <= a@.len(),
            forall|j: int| 0 <= j < i ==> a@[j] == b@[j],
        decreases a@.len() - i,
    {
        if a[i] != b[i] {
            return false;
        }
        i = i + 1;
    }
    assert(a@ =~= b@);
    true
}

impl View for SchemeContainer {
    type V = Map<Seq<u8>, SchemeId>;

    /// The identifier of each registered name.
    closed spec fn view(&self) -> Map<Seq<u8>, SchemeId> {
        Map::new(
            |name: Seq<u8>| exists|i: int| 0 <= i < self.name_scheme_map@.len() && #[trigger] self.name_scheme_map@[i].0@ == name,
            |name: Seq<u8>| self.name_scheme_map@[choose|i: int| 0 <= i < self.name_scheme_map@.len() && #[trigger] self.name_scheme_map@[i].0@ == name].1,
        )
    }
}

impl SchemeContainer {
    /// The identifier the next registered scheme gets.
    pub closed spec fn spec_next_id(&self) -> usize {
        self.next_scheme_id
    }

    /// Names are unique, and every identifier lies below the next one (and above the sentinel).
    pub closed spec fn wf(&self) -> bool {
        &&& forall|i: int, j: int| 0 <= i < j < self.name_scheme_map@.len() ==> #[trigger] self.name_scheme_map@[i].0@
            != #[trigger] self.name_scheme_map@[j].0@
        &&& forall|i: int| 0 <= i < self.name_scheme_map@.len() ==> 0 < #[trigger] self.name_scheme_map@[i].1.0 < self.next_scheme_id
        &&& self.next_scheme_id >= 1
    }

    /// Creates a new scheme container.
    pub fn new() -> (r: Self)
        ensures
            r.wf(),
            r@ == Map::<Seq<u8>, SchemeId>::empty(),
            r.spec_next_id() == 1,
    {
        let r = Self { name_scheme_map: Vec::new(), next_scheme_id: 1 };
        assert(r@ =~= Map::<Seq<u8>, SchemeId>::empty());
        r
    }

    /// The position of `name` in the map.
    fn find(&self, name: &[u8]) -> (r: Option<usize>)
        requires
            self.wf(),
        ensures
            r matches Some(i) ==> i < self.name_scheme_map@.len() && self.name_scheme_map@[i as int].0@ == name@,
            r is None ==> forall|i: int| 0 <= i < self.name_scheme_map@.len() ==> #[trigger] self.name_scheme_map@[i].0@ != name@,
    {
        let mut i: usize = 0;
        while i < self.name_scheme_map.len()
            invariant
                i <= self.name_scheme_map@.len(),
                forall|j: int| 0 <= j < i ==> #[trigger] self.name_scheme_map@[j].0@ != name@,
            decreases self.name_scheme_map@.len() - i,
        {
            if bytes_eq(self.name_scheme_map[i].0.as_slice(), name) {
                return Some(i);
            }
            i = i + 1;
        }
        None
    }

    /// The entry of `name`, if registered, gives its identifier.
    proof fn lemma_view_at(&self, i: int)
        requires
            self.wf(),
            0 <= i < self.name_scheme_map@.len(),
        ensures
            self@.contains_key(self.name_scheme_map@[i].0@),
            self@[self.name_scheme_map@[i].0@] == self.name_scheme_map@[i].1,
    {
        let name = self.name_scheme_map@[i].0@;
        let k = choose|k: int| 0 <= k < self.name_scheme_map@.len() && #[trigger] self.name_scheme_map@[k].0@ == name;
        if k != i {
            if k < i {
                assert(self.name_scheme_map@[k].0@ != self.name_scheme_map@[i].0@);
            } else {
                assert(self.name_scheme_map@[i].0@ != self.name_scheme_map@[k].0@);
            }
        }
    }

    /// Inserts a new scheme: it gets the next identifier.
    pub fn insert(&mut self, name: Vec<u8>) -> (r: Result<(), SchemeInsertionError>)
        requires
            old(self).wf(),
            old(self).spec_next_id() < usize::MAX,
        ensures
            final(self).wf(),
            old(self)@.contains_key(name@) ==> r == Err::<(), SchemeInsertionError>(SchemeInsertionError::NameAlreadyTaken)
                && final(self)@ == old(self)@ && final(self).spec_next_id() == old(self).spec_next_id(),
            !old(self)@.contains_key(name@) ==> r is Ok && final(self)@ == old(self)@.insert(
                name@,
                SchemeId(old(self).spec_next_id()),
            ) && final(self).spec_next_id() == old(self).spec_next_id() + 1,
    {
        let ghost old_map = self@;
        match self.find(name.as_slice()) {
            Some(i) => {
                proof {
                    self.lemma_view_at(i as int);
                }
                Err(SchemeInsertionError::NameAlreadyTaken)
            },
            None => {
                let ghost n = name@;
                let ghost old_entries = self.name_scheme_map@;
                proof {
                    assert(!old_map.contains_key(n));
                }
                let id = SchemeId(self.next_scheme_id);
                self.name_scheme_map.push((name, id));
                self.next_scheme_id = self.next_scheme_id + 1;
                proof {
                    let entries = self.name_scheme_map@;
                    assert forall|i: int| 0 <= i < entries.len() - 1 implies #[trigger] entries[i] == old_entries[i] by {}
                    assert forall|key: Seq<u8>| #[trigger] self@.contains_key(key) == old_map.insert(n, id).contains_key(key) by {
                        if self@.contains_key(key) {
                            let k = choose|k: int| 0 <= k < entries.len() && #[trigger] entries[k].0@ == key;
                            if k < entries.len() - 1 {
                                assert(old_entries[k].0@ == key);
                            }
                        }
                        if old_map.contains_key(key) {
                            let k = choose|k: int| 0 <= k < old_entries.len() && #[trigger] old_entries[k].0@ == key;
                            assert(entries[k].0@ == key);
                        }
                        if key == n {
                            assert(entries[entries.len() - 1].0@ == key);
                        }
                    }
                    assert forall|key: Seq<u8>| #[trigger] self@.contains_key(key) implies self@[key] == old_map.insert(n, id)[key] by {
                        let k = choose|k: int| 0 <= k < entries.len() && #[trigger] entries[k].0@ == key;
                        self.lemma_view_at(k);
                        if k < entries.len() - 1 {
                            assert(old_entries[k] == entries[k]);
                            assert(key != n);
                        }
                    }
                    assert(self@ =~= old_map.insert(n, id));
                }
                Ok(())
            },
        }
    }

    /// Opens the scheme itself, by name.
    pub fn open_self(&self, name: &[u8]) -> (r: Result<FileDescriptor, Errno>)
        requires
            self.wf(),
        ensures
            !self@.contains_key(name@) ==> r == Err::<FileDescriptor, Errno>(Errno::NoDev),
            self@.contains_key(name@) ==> (r matches Ok(fd) && fd.spec_scheme() == self@[name@]
                && fd.spec_handle() == FileHandle::Own && fd.spec_pre_open_path() is None),
    {
        match self.find(name) {
            Some(i) => {
                proof {
                    self.lemma_view_at(i as int);
                }
                Ok(FileDescriptor::from(self.name_scheme_map[i].1, FileHandle::Own))
            },
            None => Err(Errno::NoDev),
        }
    }
}

} // verus!
