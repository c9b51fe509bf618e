//! The paths through which a device's serial number is found: the device number's
//! link under `/sys/dev/char`, and the `serial` file of the kernel device it names.
use vstd::prelude::*;

use crate::paths::{copy_range, SEPARATOR};

verus! {

/// The major number of a Linux device number.
pub open spec fn major_spec(dev: u64) -> u64 {
    ((dev >> 32u64) & 0xffff_f000u64) | ((dev >> 8u64) & 0x0000_0fffu64)
}

/// The minor number of a Linux device number.
pub open spec fn minor_spec(dev: u64) -> u64 {
    ((dev >> 12u64) & 0xffff_ff00u64) | (dev & 0x0000_00ffu64)
}

/// The major number of a Linux device number.
pub fn major(dev: u64) -> (r: u64)
    ensures
        r == major_spec(dev),
{
    ((dev >> 32u64) & 0xffff_f000u64) | ((dev >> 8u64) & 0x0000_0fffu64)
}

/// The minor number of a Linux device number.
pub fn minor(dev: u64) -> (r: u64)
    ensures
        r == minor_spec(dev),
{
    ((dev >> 12u64) & 0xffff_ff00u64) | (dev & 0x0000_00ffu64)
}

/// The decimal digits of `n`, most significant first, without leading zeros.
pub open spec fn decimal(n: nat) -> Seq<u8>
    decreases n,
{
    if n < 10 {
        seq![(48 + n) as u8]
    } else {
        decimal(n / 10).push((48 + n % 10) as u8)
    }
}

/// Appends the decimal digits of `n` to `out`.
pub fn push_decimal(out: &mut Vec<u8>, n: u64)
    ensures
        final(out)@ == old(out)@ + decimal(n as nat),
    decreases n,
{
    if n < 10 {
        out.push((48 + n) as u8);
        assert(decimal(n as nat) =~= seq![(48 + n) as u8]);
        assert(final(out)@ =~= old(out)@ + decimal(n as nat));
    } else {
        push_decimal(out, n / 10);
        out.push((48 + n % 10) as u8);
        assert(final(out)@ =~= old(out)@ + decimal(n as nat));
    }
}

/// Appends `s` to `out`.
pub fn push_all(out: &mut Vec<u8>, s: &[u8])
    ensures
        final(out)@ == old(out)@ + s@,
{
    let mut i: usize = 0;
    while i < s.len()
        invariant
            0 <= i <= s@.len(),
            out@ == old(out)@ + s@.subrange(0, i as int),
        decreases s@.len() - i,
    {
        out.push(s[i]);
        i = i + 1;
        assert(out@ =~= old(out)@ + s@.subrange(0, i as int));
    }
    assert(s@.subrange(0, s@.len() as int) =~= s@);
}

pub open spec fn char_dir_spec() -> Seq<u8> {
    seq![47u8, 115u8, 121u8, 115u8, 47u8, 100u8, 101u8, 118u8, 47u8, 99u8, 104u8, 97u8, 114u8, 47u8]
}

pub open spec fn usb_devices_dir_spec() -> Seq<u8> {
    seq![
        47u8, 115u8, 121u8, 115u8, 47u8, 98u8, 117u8, 115u8, 47u8, 117u8, 115u8, 98u8, 47u8, 100u8,
        101u8, 118u8, 105u8, 99u8, 101u8, 115u8, 47u8,
    ]
}

pub open spec fn serial_suffix_spec() -> Seq<u8> {
    seq![47u8, 115u8, 101u8, 114u8, 105u8, 97u8, 108u8]
}

/// `/sys/dev/char/<major>:<minor>` for the device number `dev`.
pub open spec fn char_device_link_spec(dev: u64) -> Seq<u8> {
    char_dir_spec() + decimal(major_spec(dev) as nat) + seq![58u8] + decimal(minor_spec(dev) as nat)
}

/// The link under `/sys/dev/char` that names the kernel device of `dev`.
pub fn char_device_link(dev: u64) -> (r: Vec<u8>)
    ensures
        r@ == char_device_link_spec(dev),
{
    let mut out: Vec<u8> = vec![47u8, 115u8, 121u8, 115u8, 47u8, 100u8, 101u8, 118u8, 47u8, 99u8, 104u8, 97u8, 114u8, 47u8];
    assert(out@ =~= char_dir_spec());
    push_decimal(&mut out, major(dev));
    out.push(58u8);
    push_decimal(&mut out, minor(dev));
    assert(out@ =~= char_device_link_spec(dev));
    out
}

/// Whether `p` ends in a separator, or in a `.` component after one.
pub open spec fn ends_trimmable(p: Seq<u8>) -> bool {
    p.len() > 0 && (p.last() == SEPARATOR || (p.len() >= 2 && p.last() == 46u8 && p[p.len() - 2]
        == SEPARATOR))
}

/// `p` without the separators and the `.` components at its end.
pub open spec fn trim_end(p: Seq<u8>) -> Seq<u8>
    decreases p.len(),
{
    if ends_trimmable(p) {
        trim_end(p.drop_last())
    } else {
        p
    }
}

/// The position of the last separator in `p`, or -1.
pub open spec fn last_slash(p: Seq<u8>) -> int
    decreases p.len(),
{
    if p.len() == 0 {
        -1
    } else if p.last() == SEPARATOR {
        p.len() - 1
    } else {
        last_slash(p.drop_last())
    }
}

/// The last component of `p`: what follows its last separator once the
/// separators and `.` components at the end are dropped; none where that is
/// empty, `.` or `..`.
pub open spec fn file_name_spec(p: Seq<u8>) -> Option<Seq<u8>> {
    let q = trim_end(p);
    let c = q.subrange(last_slash(q) + 1, q.len() as int);
    if c.len() == 0 || c == seq![46u8] || c == seq![46u8, 46u8] {
        None
    } else {
        Some(c)
    }
}

proof fn lemma_last_slash(q: Seq<u8>, s: int)
    requires
        -1 <= s < q.len(),
        s == -1 || q[s] == SEPARATOR,
        forall|m: int| s < m < q.len() ==> q[m] != SEPARATOR,
    ensures
        last_slash(q) == s,
    decreases q.len(),
{
    if q.len() > 0 && q.len() - 1 != s {
        lemma_last_slash(q.drop_last(), s);
    }
}

/// The last component of `p` (see `file_name_spec`).
pub fn file_name(p: &[u8]) -> (r: Option<Vec<u8>>)
    ensures
        r matches Some(c) ==> file_name_spec(p@) == Some(c@),
        r is None ==> file_name_spec(p@) is None,
{
    let mut end = p.len();
    assert(p@.subrange(0, end as int) =~= p@);
    while end > 0 && (p[end - 1] == SEPARATOR || (end >= 2 && p[end - 1] == 46 && p[end - 2] == SEPARATOR))
        invariant
            0 <= end <= p@.len(),
            trim_end(p@) == trim_end(p@.subrange(0, end as int)),
        decreases end,
    {
        assert(ends_trimmable(p@.subrange(0, end as int)));
        assert(p@.subrange(0, end as int).drop_last() =~= p@.subrange(0, end - 1));
        end = end - 1;
    }
    let ghost q = p@.subrange(0, end as int);
    assert(!ends_trimmable(q));
    assert(trim_end(p@) == q);
    let mut start = end;
    while start > 0 && p[start - 1] != SEPARATOR
        invariant
            0 <= start <= end <= p@.len(),
            forall|m: int| start <= m < end ==> p@[m] != SEPARATOR,
        decreases start,
    {
        start = start - 1;
    }
    proof {
        lemma_last_slash(q, start - 1);
    }
    let c = copy_range(p, start, end);
    assert(c@ =~= q.subrange(last_slash(q) + 1, q.len() as int));
    let n = end - start;
    if n == 0 {
        return None;
    }
    if n == 1 && c[0] == 46 {
        assert(c@ =~= seq![46u8]);
        return None;
    }
    if n == 2 && c[0] == 46 && c[1] == 46 {
        assert(c@ =~= seq![46u8, 46u8]);
        return None;
    }
    assert(c@ != seq![46u8]) by {
        if c@ == seq![46u8] {
            assert(seq![46u8][0] == 46u8);
        }
    }
    assert(c@ != seq![46u8, 46u8]) by {
        if c@ == seq![46u8, 46u8] {
            assert(seq![46u8, 46u8][0] == 46u8);
            assert(seq![46u8, 46u8][1] == 46u8);
        }
    }
    Some(c)
}

/// `/sys/bus/usb/devices/<name>/serial` for the kernel device `name`.
pub open spec fn serial_path_spec(name: Seq<u8>) -> Seq<u8> {
    usb_devices_dir_spec() + name + serial_suffix_spec()
}

/// The sysfs file that holds the serial number of the kernel device that the link
/// target `target` names: none where `target` has no last component.
pub fn serial_path_from_link(target: &[u8]) -> (r: Option<Vec<u8>>)
    ensures
        match file_name_spec(target@) {
            Some(name) => r matches Some(s) && s@ == serial_path_spec(name),
            None => r is None,
        },
{
    match file_name(target) {
        Some(name) => {
            let mut out: Vec<u8> = vec![
                47u8, 115u8, 121u8, 115u8, 47u8, 98u8, 117u8, 115u8, 47u8, 117u8, 115u8, 98u8,
                47u8, 100u8, 101u8, 118u8, 105u8, 99u8, 101u8, 115u8, 47u8,
            ];
            assert(out@ =~= usb_devices_dir_spec());
            push_all(&mut out, name.as_slice());
            let suffix: Vec<u8> = vec![47u8, 115u8, 101u8, 114u8, 105u8, 97u8, 108u8];
            assert(suffix@ =~= serial_suffix_spec());
            push_all(&mut out, suffix.as_slice());
            Some(out)
        },
        None => None,
    }
}

} // verus!
