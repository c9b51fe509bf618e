//! The synthetic directory tree: for each proper ancestor of the device path, from
//! the base directory down to the device's parent, the one entry it lists.
use vstd::prelude::*;

use crate::paths::{
    base_dir_spec, component_after, copy_range, find_slash, has_prefix, is_device_path, is_device_path_spec,
    is_name, lemma_next_slash, next_slash, SEPARATOR,
};

verus! {

/// What a synthetic entry stands for.
#[derive(Clone, Copy, Debug, PartialEq, Eq, Structural)]
pub enum EntryKind {
    CharDevice,
    Directory,
}

/// The one entry that a synthetic directory lists.
#[derive(Debug)]
pub struct DirEntry {
    /// Plausible only: neither unique nor stable.
    pub inode: u64,
    pub kind: EntryKind,
    /// One to 255 bytes.
    pub name: Vec<u8>,
}

impl DirEntry {
    pub open spec fn view_entry(&self) -> (EntryKind, Seq<u8>) {
        (self.kind, self.name@)
    }

    pub fn copy(&self) -> (r: DirEntry)
        ensures
            r.inode == self.inode,
            r.kind == self.kind,
            r.name@ == self.name@,
    {
        DirEntry { inode: self.inode, kind: self.kind, name: self.name.clone() }
    }
}

/// One key of the index with its entry.
#[derive(Debug)]
struct IndexSlot {
    dir: Vec<u8>,
    entry: DirEntry,
}

/// Maps each synthetic directory to the entry it lists.
#[derive(Debug)]
pub struct DirIndex {
    slots: Vec<IndexSlot>,
}

/// Whether `k` is a key of the tree over `p`: an ancestor of `p` that is the base
/// directory or lies below it.
pub open spec fn is_index_key(p: Seq<u8>, k: Seq<u8>) -> bool {
    &&& base_dir_spec().len() <= k.len() < p.len()
    &&& p[k.len() as int] == SEPARATOR
    &&& has_prefix(p, k)
}

/// The entry listed by the ancestor of `p` that ends before the separator at `i`.
pub open spec fn entry_at(p: Seq<u8>, i: int) -> (EntryKind, Seq<u8>) {
    let kind = if next_slash(p, i + 1) == p.len() {
        EntryKind::CharDevice
    } else {
        EntryKind::Directory
    };
    (kind, component_after(p, i))
}

/// The tree over `p`: empty where `p` is no device path below the base directory.
pub open spec fn index_model(p: Seq<u8>) -> Map<Seq<u8>, (EntryKind, Seq<u8>)> {
    if is_device_path_spec(p) {
        Map::new(|k: Seq<u8>| is_index_key(p, k), |k: Seq<u8>| entry_at(p, k.len() as int))
    } else {
        Map::empty()
    }
}

/// Relies on rand's `OsRng::try_fill_bytes`: eight bytes from the operating
/// system's generator, or an error (then none) where it cannot supply them.
#[verifier::external_body]
fn random_inode() -> (r: Option<u64>) {
    let mut b = [0u8; 8];
    match rand::RngCore::try_fill_bytes(&mut rand::rngs::OsRng, &mut b) {
        Ok(()) => Some(u64::from_ne_bytes(b)),
        Err(_) => None,
    }
}

impl DirIndex {
    pub closed spec fn has_key(&self, k: Seq<u8>) -> bool {
        exists|j: int| 0 <= j < self.slots@.len() && (#[trigger] self.slots@[j]).dir@ == k
    }

    /// The index as a map from directory to (kind, name).
    pub closed spec fn view(&self) -> Map<Seq<u8>, (EntryKind, Seq<u8>)> {
        Map::new(
            |k: Seq<u8>| self.has_key(k),
            |k: Seq<u8>|
                self.slots@[choose|j: int|
                    0 <= j < self.slots@.len() && (#[trigger] self.slots@[j]).dir@ == k].entry.view_entry(),
        )
    }

    /// Keys are unique.
    #[verifier::type_invariant]
    spec fn wf(&self) -> bool {
        forall|j1: int, j2: int|
            0 <= j1 < self.slots@.len() && 0 <= j2 < self.slots@.len() && j1 != j2 ==> (
            #[trigger] self.slots@[j1]).dir@ != (#[trigger] self.slots@[j2]).dir@
    }

    /// The empty index.
    pub fn empty() -> (r: DirIndex)
        ensures
            r@ == Map::<Seq<u8>, (EntryKind, Seq<u8>)>::empty(),
    {
        let r = DirIndex { slots: Vec::new() };
        assert(r@ =~= Map::<Seq<u8>, (EntryKind, Seq<u8>)>::empty());
        r
    }

    /// Number of synthetic directories.
    pub fn len(&self) -> (r: usize)
        ensures
            r == self@.len(),
    {
        proof {
            use_type_invariant(self);
            self.lemma_len();
        }
        self.slots.len()
    }

    proof fn lemma_len(&self)
        requires
            self.wf(),
        ensures
            self@.dom().finite(),
            self@.len() == self.slots@.len(),
        decreases self.slots@.len(),
    {
        let s = self.slots@.map_values(|x: IndexSlot| x.dir@);
        assert(self@.dom() =~= s.to_set()) by {
            assert forall|k: Seq<u8>| self@.dom().contains(k) implies s.to_set().contains(k) by {
                let j = choose|j: int| 0 <= j < self.slots@.len() && (#[trigger] self.slots@[j]).dir@ == k;
                assert(s[j] == k);
            }
            assert forall|k: Seq<u8>| s.to_set().contains(k) implies self@.dom().contains(k) by {
                let j = choose|j: int| 0 <= j < s.len() && s[j] == k;
                assert(self.slots@[j].dir@ == k);
            }
        }
        assert(s.no_duplicates()) by {
            assert forall|a: int, b: int| 0 <= a < s.len() && 0 <= b < s.len() && a != b implies s[a] != s[b] by {
                assert(self.slots@[a].dir@ != self.slots@[b].dir@);
            }
        }
        s.unique_seq_to_set();
    }

    /// The entry that the directory `path` lists, if it is a key.
    pub fn lookup(&self, path: &[u8]) -> (r: Option<DirEntry>)
        ensures
            match r {
                Some(e) => self@.contains_key(path@) && e.view_entry() == self@[path@],
                None => !self@.contains_key(path@),
            },
    {
        proof {
            use_type_invariant(self);
        }
        let mut j: usize = 0;
        while j < self.slots.len()
            invariant
                self.wf(),
                0 <= j <= self.slots@.len(),
                forall|m: int| 0 <= m < j ==> (#[trigger] self.slots@[m]).dir@ != path@,
            decreases self.slots@.len() - j,
        {
            if crate::paths::bytes_equal(self.slots[j].dir.as_slice(), path) {
                let e = self.slots[j].entry.copy();
                proof {
                    assert(self.has_key(path@));
                    let c = choose|c: int|
                        0 <= c < self.slots@.len() && (#[trigger] self.slots@[c]).dir@ == path@;
                    assert(self.slots@[j as int].dir@ == path@);
                    if c != j as int {
                        assert(self.slots@[c].dir@ != self.slots@[j as int].dir@);
                    }
                }
                return Some(e);
            }
            j = j + 1;
        }
        None
    }

    /// The tree over `p`, built afresh: its keys are exactly the ancestors of `p`
    /// from the base directory down to `p`'s parent, each listing the next
    /// component of `p` (a character device for the last one, a directory else).
    /// Where `p` is no device path below the base directory the index is empty.
    pub fn build(p: &[u8]) -> (r: DirIndex)
        ensures
            r@ == index_model(p@),
    {
        if !is_device_path(p) {
            return DirIndex::empty();
        }
        let ghost ps = p@;
        let b = crate::paths::base_dir().len();
        let n = p.len();
        let mut slots: Vec<IndexSlot> = Vec::new();
        let mut i = b;
        loop
            invariant
                n == ps.len(),
                ps == p@,
                is_device_path_spec(ps),
                b == base_dir_spec().len(),
                b <= i < n,
                ps[i as int] == SEPARATOR,
                forall|j: int| 0 <= j < slots@.len() ==> {
                    &&& is_index_key(ps, (#[trigger] slots@[j]).dir@)
                    &&& slots@[j].dir@.len() < i
                    &&& slots@[j].entry.view_entry() == entry_at(ps, slots@[j].dir@.len() as int)
                },
                forall|j1: int, j2: int|
                    0 <= j1 < j2 < slots@.len() ==> (#[trigger] slots@[j1]).dir@.len() < (
                    #[trigger] slots@[j2]).dir@.len(),
                forall|k: Seq<u8>|
                    is_index_key(ps, k) && k.len() < i ==> exists|j: int|
                        0 <= j < slots@.len() && (#[trigger] slots@[j]).dir@ == k,
            decreases n - i,
        {
            let j = find_slash(p, i + 1);
            proof {
                lemma_next_slash(ps, i + 1);
                assert(is_name(component_after(ps, i as int)));
            }
            let kind = if j == n {
                EntryKind::CharDevice
            } else {
                EntryKind::Directory
            };
            let dir = copy_range(p, 0, i);
            let name = copy_range(p, i + 1, j);
            // any value will do where no random one can be had
            let inode = match random_inode() {
                Some(v) => v,
                None => i as u64,
            };
            let entry = DirEntry { inode, kind, name };
            let ghost old_slots = slots@;
            slots.push(IndexSlot { dir, entry });
            proof {
                assert(dir@ == ps.subrange(0, i as int));
                assert(has_prefix(ps, dir@));
                assert(is_index_key(ps, dir@));
                assert(slots@[old_slots.len() as int].dir@ == dir@);
                assert forall|k: Seq<u8>|
                    is_index_key(ps, k) && k.len() < j implies exists|m: int|
                        0 <= m < slots@.len() && (#[trigger] slots@[m]).dir@ == k by {
                    if k.len() < i {
                        let m = choose|m: int| 0 <= m < old_slots.len() && (#[trigger] old_slots[m]).dir@ == k;
                        assert(slots@[m] == old_slots[m]);
                    } else if k.len() == i {
                        assert(k =~= dir@);
                        assert(slots@[old_slots.len() as int].dir@ == k);
                    } else {
                        assert(ps[k.len() as int] != SEPARATOR);
                    }
                }
            }
            if j == n {
                proof {
                    assert forall|j1: int, j2: int|
                        0 <= j1 < slots@.len() && 0 <= j2 < slots@.len() && j1 != j2 implies (
                        #[trigger] slots@[j1]).dir@ != (#[trigger] slots@[j2]).dir@ by {
                        if j1 < j2 {
                            assert(slots@[j1].dir@.len() < slots@[j2].dir@.len());
                        } else {
                            assert(slots@[j2].dir@.len() < slots@[j1].dir@.len());
                        }
                    }
                }
                let r = DirIndex { slots };
                proof {
                    assert forall|k: Seq<u8>| #[trigger] r@.contains_key(k) <==> index_model(ps).contains_key(k) by {
                        if r@.contains_key(k) {
                            let m = choose|m: int| 0 <= m < r.slots@.len() && (#[trigger] r.slots@[m]).dir@ == k;
                        }
                    }
                    assert forall|k: Seq<u8>| #[trigger] r@.contains_key(k) implies r@[k] == index_model(ps)[k] by {
                        let m = choose|m: int| 0 <= m < r.slots@.len() && (#[trigger] r.slots@[m]).dir@ == k;
                    }
                    assert(r@ =~= index_model(ps));
                }
                return r;
            }
            i = j;
        }
    }
}

} // verus!
