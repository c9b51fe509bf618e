//! The shared state of the hooks (the active device, its directory tree and its
//! identity) and the decisions that `opendir`, `open` and `close` take on it.
use vstd::prelude::*;

use crate::dir_handle::VirtualDir;
use crate::dir_index::{entry_at, index_model, is_index_key, DirIndex, EntryKind};
use crate::paths::{base_dir, base_dir_spec, bytes_equal, copy_range, has_prefix, starts_with};

verus! {

/// The create flag of `open` (`O_CREAT`) on Linux and Android.
pub const O_CREAT: i32 = 64;

/// Whether `open` with these flags reads a mode argument.
pub open spec fn creates(flags: i32) -> bool {
    flags & O_CREAT != 0
}

/// Whether `open` with these flags reads a mode argument.
pub fn needs_mode(flags: i32) -> (r: bool)
    ensures
        r == creates(flags),
{
    flags & O_CREAT != 0
}

pub open spec fn opt_bytes(o: Option<&[u8]>) -> Option<Seq<u8>> {
    match o {
        Some(p) => Some(p@),
        None => None,
    }
}

/// The serial number of the active device and the sysfs file that holds it.
#[derive(Debug)]
pub struct UsbIdentity {
    pub serial_number: Vec<u8>,
    pub sysfs_path: Vec<u8>,
}

/// A new device path and descriptor pair, as the control channel delivers it.
#[derive(Debug)]
pub struct DeviceUpdate {
    pub path: Vec<u8>,
    pub fd: i32,
}

/// What `open` does with a request.
#[derive(Debug, PartialEq, Eq)]
pub enum OpenAction {
    /// Seek the active descriptor to its start and return it.
    UseActive(i32),
    /// Create an anonymous memory file holding these bytes, at offset 0, and return
    /// it; where a step of that fails, do what `Forward` says.
    WriteSerial(Vec<u8>),
    /// Hand the call to the real `open`, with the mode argument where `with_mode`.
    Forward { with_mode: bool },
}

/// `OpenAction` over plain values.
pub enum OpenView {
    UseActive(i32),
    WriteSerial(Seq<u8>),
    Forward { with_mode: bool },
}

impl OpenAction {
    pub open spec fn view(&self) -> OpenView {
        match self {
            OpenAction::UseActive(fd) => OpenView::UseActive(*fd),
            OpenAction::WriteSerial(b) => OpenView::WriteSerial(b@),
            OpenAction::Forward { with_mode } => OpenView::Forward { with_mode: *with_mode },
        }
    }
}

/// The directory tree of an active device path (none without one).
pub open spec fn tree_of(path: Option<Seq<u8>>) -> Map<Seq<u8>, (EntryKind, Seq<u8>)> {
    match path {
        Some(p) => index_model(p),
        None => Map::empty(),
    }
}

/// The state that the hooks share: the active device (path and descriptor), its
/// directory tree and its identity. Each is replaced together with the others.
#[derive(Debug)]
pub struct HookContext {
    path: Option<Vec<u8>>,
    fd: Option<i32>,
    index: DirIndex,
    identity: Option<UsbIdentity>,
}

impl HookContext {
    pub closed spec fn path_view(&self) -> Option<Seq<u8>> {
        match self.path {
            Some(p) => Some(p@),
            None => None,
        }
    }

    pub closed spec fn fd_view(&self) -> Option<i32> {
        self.fd
    }

    pub closed spec fn index_view(&self) -> Map<Seq<u8>, (EntryKind, Seq<u8>)> {
        self.index@
    }

    /// (serial number, sysfs path) of the identity, if any.
    pub closed spec fn identity_view(&self) -> Option<(Seq<u8>, Seq<u8>)> {
        match self.identity {
            Some(id) => Some((id.serial_number@, id.sysfs_path@)),
            None => None,
        }
    }

    /// The tree is the one of the active path.
    #[verifier::type_invariant]
    spec fn wf(&self) -> bool {
        self.index@ == tree_of(self.path_view())
    }

    /// What `open` does with `req` and `flags` in this state.
    pub open spec fn open_spec(&self, req: Option<Seq<u8>>, flags: i32) -> OpenView {
        match req {
            Some(p) => if self.path_view() == Some(p) && self.fd_view() is Some {
                OpenView::UseActive(self.fd_view()->0)
            } else if self.identity_view() is Some && self.identity_view().unwrap().1 == p {
                OpenView::WriteSerial(self.identity_view().unwrap().0)
            } else {
                OpenView::Forward { with_mode: creates(flags) }
            },
            None => OpenView::Forward { with_mode: creates(flags) },
        }
    }

    /// This state is the one that an update to `path` and `fd` produces.
    pub open spec fn is_update_to(&self, path: Seq<u8>, fd: i32) -> bool {
        &&& self.path_view() == Some(path)
        &&& self.fd_view() == Some(fd)
        &&& self.index_view() == index_model(path)
    }

    /// A state for `path` and `fd`, with the tree of `path`.
    pub fn new(path: Option<Vec<u8>>, fd: Option<i32>, identity: Option<UsbIdentity>) -> (r: HookContext)
        ensures
            r.path_view() == (match path {
                Some(p) => Some(p@),
                None => None::<Seq<u8>>,
            }),
            r.fd_view() == fd,
            r.index_view() == tree_of(r.path_view()),
            r.identity_view() == (match identity {
                Some(id) => Some((id.serial_number@, id.sysfs_path@)),
                None => None::<(Seq<u8>, Seq<u8>)>,
            }),
    {
        let index = match &path {
            Some(p) => DirIndex::build(p.as_slice()),
            None => DirIndex::empty(),
        };
        HookContext { path, fd, index, identity }
    }

    /// The active descriptor.
    pub fn active_fd(&self) -> (r: Option<i32>)
        ensures
            r == self.fd_view(),
    {
        self.fd
    }

    /// A copy of the active path and descriptor, taken together.
    pub fn snapshot(&self) -> (r: (Option<Vec<u8>>, Option<i32>))
        ensures
            r.1 == self.fd_view(),
            self.path_view() == (match r.0 {
                Some(p) => Some(p@),
                None => None::<Seq<u8>>,
            }),
    {
        let p = match &self.path {
            Some(p) => Some(copy_range(p.as_slice(), 0, p.len())),
            None => None,
        };
        (p, self.fd)
    }

    /// `opendir` of `path`: a synthetic stream at position 0 over the stored entry
    /// where `path` lies under the base directory and is a key of the tree; `None`
    /// where the call goes to the real `opendir` (a null path included).
    pub fn opendir_action(&self, path: Option<&[u8]>) -> (r: Option<VirtualDir>)
        ensures
            match path {
                Some(p) => if has_prefix(p@, base_dir_spec()) && self.index_view().contains_key(p@) {
                    r matches Some(v) && v.spec_position() == 0 && v.spec_entry().view_entry()
                        == self.index_view()[p@]
                } else {
                    r is None
                },
                None => r is None,
            },
    {
        proof {
            use_type_invariant(self);
        }
        match path {
            Some(p) => {
                let base = base_dir();
                if !starts_with(p, base.as_slice()) {
                    return None;
                }
                match self.index.lookup(p) {
                    Some(e) => Some(VirtualDir::new(e)),
                    None => None,
                }
            },
            None => None,
        }
    }

    /// `close` of `fd` is answered with success and not performed exactly when `fd`
    /// is the active descriptor; any other descriptor goes to the real `close`.
    pub fn close_swallows(&self, fd: i32) -> (r: bool)
        ensures
            r == (self.fd_view() == Some(fd)),
    {
        match self.fd {
            Some(f) => f == fd,
            None => false,
        }
    }

    /// `open` of `path` with `flags`: the active descriptor for the active path;
    /// else the serial number for the identity's sysfs path; else the real `open`,
    /// given the mode argument only when `flags` hold the create flag.
    pub fn open_action(&self, path: Option<&[u8]>, flags: i32) -> (r: OpenAction)
        ensures
            r@ == self.open_spec(opt_bytes(path), flags),
    {
        if let Some(p) = path {
            if let Some(active) = &self.path {
                if let Some(fd) = self.fd {
                    if bytes_equal(active.as_slice(), p) {
                        return OpenAction::UseActive(fd);
                    }
                }
            }
            if let Some(id) = &self.identity {
                if bytes_equal(id.sysfs_path.as_slice(), p) {
                    let b = copy_range(id.serial_number.as_slice(), 0, id.serial_number.len());
                    assert(b@ =~= id.serial_number@);
                    return OpenAction::WriteSerial(b);
                }
            }
        }
        OpenAction::Forward { with_mode: needs_mode(flags) }
    }

    /// Replaces the active device by `update` and the identity by `identity`, and
    /// rebuilds the tree for the new path; nothing of the previous generation stays.
    pub fn apply_update(&mut self, update: DeviceUpdate, identity: Option<UsbIdentity>)
        ensures
            final(self).is_update_to(update.path@, update.fd),
            final(self).identity_view() == (match identity {
                Some(id) => Some((id.serial_number@, id.sysfs_path@)),
                None => None::<(Seq<u8>, Seq<u8>)>,
            }),
    {
        let index = DirIndex::build(update.path.as_slice());
        *self = HookContext { path: Some(update.path), fd: Some(update.fd), index, identity };
    }
}

/// Every `open` of the active path, whatever its flags, answers with the active
/// descriptor itself: no new descriptor is made.
pub proof fn law_open_of_active_path_reuses_fd(ctx: HookContext, p: Seq<u8>, flags1: i32, flags2: i32)
    requires
        ctx.path_view() == Some(p),
        ctx.fd_view() is Some,
    ensures
        ctx.open_spec(Some(p), flags1) == OpenView::UseActive(ctx.fd_view().unwrap()),
        ctx.open_spec(Some(p), flags1) == ctx.open_spec(Some(p), flags2),
{
}

/// After an update the tree is the new path's alone: each key is an ancestor of the
/// new path listing the new path's component, and each key of the previous tree
/// that is no such ancestor is gone.
pub proof fn law_update_discards_previous_tree(
    before: HookContext,
    after: HookContext,
    path: Seq<u8>,
    fd: i32,
)
    requires
        after.is_update_to(path, fd),
    ensures
        forall|k: Seq<u8>| #[trigger] after.index_view().contains_key(k) ==> is_index_key(path, k)
            && after.index_view()[k] == entry_at(path, k.len() as int),
        forall|k: Seq<u8>|
            before.index_view().contains_key(k) && !is_index_key(path, k)
                ==> !(#[trigger] after.index_view().contains_key(k)),
{
}

} // verus!
