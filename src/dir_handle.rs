//! Directory handles handed to the caller: a native stream, or a synthetic one that
//! lists its single entry once.
use vstd::prelude::*;

use crate::dir_index::DirEntry;

verus! {

/// Where a synthetic stream stands after `k` reads from position `p`.
pub open spec fn position_after(p: nat, k: nat) -> nat
    decreases k,
{
    if k == 0 {
        p
    } else {
        position_after(next_position(p), (k - 1) as nat)
    }
}

/// A read at position `p` moves to this position.
pub open spec fn next_position(p: nat) -> nat {
    if p == 0 {
        1
    } else {
        p
    }
}

/// A read at position `p` yields the entry (else the end of the directory).
pub open spec fn yields_entry(p: nat) -> bool {
    p == 0
}

/// A synthetic directory stream: one entry, then the end.
#[derive(Debug)]
pub struct VirtualDir {
    entry: DirEntry,
    pos: u32,
}

impl VirtualDir {
    pub closed spec fn spec_entry(&self) -> DirEntry {
        self.entry
    }

    pub closed spec fn spec_position(&self) -> nat {
        self.pos as nat
    }

    /// A stream at position 0 over `entry`.
    pub fn new(entry: DirEntry) -> (r: VirtualDir)
        ensures
            r.spec_entry() == entry,
            r.spec_position() == 0,
    {
        VirtualDir { entry, pos: 0 }
    }

    pub fn entry(&self) -> (r: &DirEntry)
        ensures
            *r == self.spec_entry(),
    {
        &self.entry
    }

    pub fn position(&self) -> (r: u32)
        ensures
            r == self.spec_position(),
    {
        self.pos
    }

    /// At position 0: moves to 1 and yields a copy of the entry. Further on: the
    /// end of the directory, and nothing changes.
    pub fn read(&mut self) -> (r: Option<DirEntry>)
        ensures
            final(self).spec_entry() == old(self).spec_entry(),
            final(self).spec_position() == next_position(old(self).spec_position()),
            yields_entry(old(self).spec_position()) <==> r is Some,
            r matches Some(e) ==> e.inode == old(self).spec_entry().inode && e.view_entry()
                == old(self).spec_entry().view_entry(),
    {
        if self.pos == 0 {
            self.pos = 1;
            Some(self.entry.copy())
        } else {
            None
        }
    }
}

/// A handle returned by `opendir`; its variant is fixed when it is made.
#[derive(Debug)]
pub enum HookedDir<N> {
    Native(N),
    Virtual(VirtualDir),
}

/// What `readdir` does with a handle.
#[derive(Debug)]
pub enum ReadAction<N> {
    /// Hand the native stream to the real `readdir` and return what it returns.
    Forward(N),
    /// Return this entry.
    Entry(DirEntry),
    /// Return the end of the directory.
    End,
}

/// What `closedir` does with a handle.
#[derive(Debug, PartialEq, Eq)]
pub enum CloseDirAction<N> {
    /// Hand the native stream to the real `closedir` and return its status.
    Forward(N),
    /// The synthetic stream is released; report success.
    Released,
}

impl<N: Copy> HookedDir<N> {
    /// `readdir` on this handle: native streams are forwarded unchanged; a
    /// synthetic one yields its entry once and then the end, however often it is
    /// read again.
    pub fn readdir(&mut self) -> (r: ReadAction<N>)
        ensures
            match *old(self) {
                HookedDir::Native(n) => *final(self) == *old(self) && r == ReadAction::<N>::Forward(n),
                HookedDir::Virtual(v) => *final(self) matches HookedDir::Virtual(w) && {
                    &&& w.spec_entry() == v.spec_entry()
                    &&& w.spec_position() == next_position(v.spec_position())
                    &&& if yields_entry(v.spec_position()) {
                        r matches ReadAction::Entry(e) && e.inode == v.spec_entry().inode
                            && e.view_entry() == v.spec_entry().view_entry()
                    } else {
                        r matches ReadAction::End
                    }
                },
            },
    {
        match self {
            HookedDir::Native(n) => ReadAction::Forward(*n),
            HookedDir::Virtual(v) => match v.read() {
                Some(e) => ReadAction::Entry(e),
                None => ReadAction::End,
            },
        }
    }

    /// `closedir` on this handle: native streams are forwarded, synthetic ones
    /// released.
    pub fn closedir(self) -> (r: CloseDirAction<N>)
        ensures
            match self {
                HookedDir::Native(n) => r == CloseDirAction::<N>::Forward(n),
                HookedDir::Virtual(_) => r == CloseDirAction::<N>::Released,
            },
    {
        match self {
            HookedDir::Native(n) => CloseDirAction::Forward(n),
            HookedDir::Virtual(_) => CloseDirAction::Released,
        }
    }
}

/// Once a synthetic stream has been read past its entry, every further read yields
/// the end of the directory and leaves the stream where it is.
pub proof fn law_exhausted_stream_stays_at_end(p: nat, k: nat)
    requires
        p >= 1,
    ensures
        position_after(p, k) == p,
        !yields_entry(position_after(p, k)),
    decreases k,
{
    if k > 0 {
        law_exhausted_stream_stays_at_end(next_position(p), (k - 1) as nat);
    }
}

/// A fresh synthetic stream yields its entry on the first read and on no later one.
pub proof fn law_fresh_stream_yields_once(k: nat)
    ensures
        yields_entry(position_after(0, 0)),
        k >= 1 ==> !yields_entry(position_after(0, k)),
{
    if k >= 1 {
        assert(position_after(0, k) == position_after(1, (k - 1) as nat));
        law_exhausted_stream_stays_at_end(1, (k - 1) as nat);
    }
}

} // verus!
