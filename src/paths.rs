//! Paths as byte strings, and the few operations on them that the hooks need.
use vstd::prelude::*;

verus! {

/// The byte `/`.
pub const SEPARATOR: u8 = 47;

/// The fixed directory under which the device tree is virtualised.
pub open spec fn base_dir_spec() -> Seq<u8> {
    seq![47u8, 100u8, 101u8, 118u8, 47u8, 98u8, 117u8, 115u8, 47u8, 117u8, 115u8, 98u8]
}

/// `/dev/bus/usb` as bytes.
pub fn base_dir() -> (r: Vec<u8>)
    ensures
        r@ == base_dir_spec(),
{
    let r: Vec<u8> = vec![47u8, 100u8, 101u8, 118u8, 47u8, 98u8, 117u8, 115u8, 47u8, 117u8, 115u8, 98u8];
    assert(r@ =~= base_dir_spec());
    r
}

/// Whether `p` begins with `prefix`.
pub open spec fn has_prefix(p: Seq<u8>, prefix: Seq<u8>) -> bool {
    prefix.len() <= p.len() && p.subrange(0, prefix.len() as int) == prefix
}

/// Byte-wise equality of two paths.
pub fn bytes_equal(a: &[u8], b: &[u8]) -> (r: bool)
    ensures
        r == (a@ == b@),
{
    if a.len() != b.len() {
        return false;
    }
    let mut i: usize = 0;
    while i < a.len()
        invariant
            a@.len() == b@.len(),
            0 <= i <= a@.len(),
            forall|j: int| 0 <= j < i ==> a@[j] == b@[j],
        decreases a@.len() - i,
    {
        if a[i] != b[i] {
            return false;
        }
        i = i + 1;
    }
    assert(a@ =~= b@);
    true
}

/// Whether `p` begins with `prefix`.
pub fn starts_with(p: &[u8], prefix: &[u8]) -> (r: bool)
    ensures
        r == has_prefix(p@, prefix@),
{
    if prefix.len() > p.len() {
        return false;
    }
    let mut i: usize = 0;
    while i < prefix.len()
        invariant
            prefix@.len() <= p@.len(),
            0 <= i <= prefix@.len(),
            forall|j: int| 0 <= j < i ==> p@[j] == prefix@[j],
        decreases prefix@.len() - i,
    {
        if p[i] != prefix[i] {
            assert(p@.subrange(0, prefix@.len() as int)[i as int] != prefix@[i as int]);
            return false;
        }
        i = i + 1;
    }
    assert(p@.subrange(0, prefix@.len() as int) =~= prefix@);
    true
}

/// The first position at or after `i` that holds a separator, or the length.
pub open spec fn next_slash(p: Seq<u8>, i: int) -> int
    decreases p.len() - i,
{
    if i >= p.len() {
        p.len() as int
    } else if i >= 0 && p[i] == SEPARATOR {
        i
    } else {
        next_slash(p, i + 1)
    }
}

pub proof fn lemma_next_slash(p: Seq<u8>, i: int)
    requires
        0 <= i <= p.len(),
    ensures
        i <= next_slash(p, i) <= p.len(),
        next_slash(p, i) < p.len() ==> p[next_slash(p, i)] == SEPARATOR,
        forall|m: int| i <= m < next_slash(p, i) ==> p[m] != SEPARATOR,
    decreases p.len() - i,
{
    if i < p.len() && p[i] != SEPARATOR {
        lemma_next_slash(p, i + 1);
    }
}

/// The position of the first separator at or after `from`, or the length.
pub fn find_slash(p: &[u8], from: usize) -> (r: usize)
    requires
        from <= p@.len(),
    ensures
        r == next_slash(p@, from as int),
{
    let mut i = from;
    while i < p.len()
        invariant
            from <= i <= p@.len(),
            next_slash(p@, i as int) == next_slash(p@, from as int),
        decreases p@.len() - i,
    {
        if p[i] == SEPARATOR {
            return i;
        }
        i = i + 1;
    }
    i
}

/// A component that can stand as a directory entry's name: one to 255 bytes,
/// no separator, neither `.` nor `..`.
pub open spec fn is_name(c: Seq<u8>) -> bool {
    &&& 0 < c.len() <= 255
    &&& forall|m: int| 0 <= m < c.len() ==> c[m] != SEPARATOR
    &&& c != seq![46u8]
    &&& c != seq![46u8, 46u8]
}

/// The component that starts right after the separator at `i`.
pub open spec fn component_after(p: Seq<u8>, i: int) -> Seq<u8> {
    p.subrange(i + 1, next_slash(p, i + 1))
}

/// A device path that the directory tree can be built over: the base directory,
/// then one or more components that are all names.
pub open spec fn is_device_path_spec(p: Seq<u8>) -> bool {
    let b = base_dir_spec().len() as int;
    &&& b < p.len()
    &&& has_prefix(p, base_dir_spec())
    &&& p[b] == SEPARATOR
    &&& forall|i: int| b <= i < p.len() && p[i] == SEPARATOR ==> is_name(#[trigger] component_after(p, i))
}

/// A copy of `p[from..to]`.
pub fn copy_range(p: &[u8], from: usize, to: usize) -> (r: Vec<u8>)
    requires
        from <= to <= p@.len(),
    ensures
        r@ == p@.subrange(from as int, to as int),
{
    let mut r: Vec<u8> = Vec::new();
    let mut i = from;
    while i < to
        invariant
            from <= i <= to <= p@.len(),
            r@ == p@.subrange(from as int, i as int),
        decreases to - i,
    {
        r.push(p[i]);
        i = i + 1;
        assert(r@ =~= p@.subrange(from as int, i as int));
    }
    r
}

/// Whether `p[start..end]`, which holds no separator, is a name.
fn span_is_name(p: &[u8], start: usize, end: usize) -> (r: bool)
    requires
        start <= end <= p@.len(),
        forall|m: int| start <= m < end ==> p@[m] != SEPARATOR,
    ensures
        r == is_name(p@.subrange(start as int, end as int)),
{
    let ghost c = p@.subrange(start as int, end as int);
    let n = end - start;
    if n == 0 || n > 255 {
        return false;
    }
    if n == 1 && p[start] == 46 {
        assert(c =~= seq![46u8]);
        return false;
    }
    if n == 2 && p[start] == 46 && p[start + 1] == 46 {
        assert(c =~= seq![46u8, 46u8]);
        return false;
    }
    assert(c.len() != 1 || c[0] != 46u8);
    assert(c != seq![46u8]) by {
        if c == seq![46u8] {
            assert(seq![46u8][0] == 46u8);
        }
    }
    assert(c != seq![46u8, 46u8]) by {
        if c == seq![46u8, 46u8] {
            assert(seq![46u8, 46u8][0] == 46u8);
            assert(seq![46u8, 46u8][1] == 46u8);
        }
    }
    true
}

/// Whether the directory tree can be built over `p` (see `is_device_path_spec`).
pub fn is_device_path(p: &[u8]) -> (r: bool)
    ensures
        r == is_device_path_spec(p@),
{
    let base = base_dir();
    let b = base.len();
    if p.len() <= b || !starts_with(p, base.as_slice()) || p[b] != SEPARATOR {
        return false;
    }
    let n = p.len();
    let mut i = b;
    loop
        invariant
            n == p@.len(),
            b == base_dir_spec().len(),
            b <= i < p@.len(),
            p@[i as int] == SEPARATOR,
            has_prefix(p@, base_dir_spec()),
            p@[b as int] == SEPARATOR,
            forall|k: int| b <= k < i && p@[k] == SEPARATOR ==> is_name(#[trigger] component_after(p@, k)),
        decreases p@.len() - i,
    {
        let j = find_slash(p, i + 1);
        proof {
            lemma_next_slash(p@, i + 1);
        }
        if !span_is_name(p, i + 1, j) {
            assert(!is_name(component_after(p@, i as int)));
            return false;
        }
        if j == p.len() {
            assert forall|k: int| b <= k < p@.len() && p@[k] == SEPARATOR implies is_name(
                #[trigger] component_after(p@, k),
            ) by {
                if k > i {
                    assert(p@[k] != SEPARATOR);
                }
            }
            return true;
        }
        assert forall|k: int| b <= k < j && p@[k] == SEPARATOR implies is_name(
            #[trigger] component_after(p@, k),
        ) by {
            if k > i {
                assert(p@[k] != SEPARATOR);
            }
        }
        i = j;
    }
}

} // verus!
