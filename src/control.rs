//! What the control channel and the startup environment hand to the hooks.
use vstd::prelude::*;

use crate::device::DeviceUpdate;
use crate::paths::{bytes_equal, copy_range};

verus! {

/// The word that stands for "no device" in the startup environment.
pub open spec fn no_device_word() -> Seq<u8> {
    seq![110u8, 111u8, 110u8, 101u8]
}

/// The update carried by one control message: its payload is the device path and
/// its first attached descriptor the device's. A message without a descriptor
/// carries none.
pub fn decode_message(payload: &[u8], fds: &[i32]) -> (r: Option<DeviceUpdate>)
    ensures
        fds@.len() == 0 ==> r is None,
        fds@.len() > 0 ==> (r matches Some(u) && u.path@ == payload@ && u.fd == fds@[0]),
{
    if fds.len() == 0 {
        return None;
    }
    Some(DeviceUpdate { path: copy_range(payload, 0, payload.len()), fd: fds[0] })
}

/// The device path that the startup environment advertises: none where the value
/// is missing or is the word `none`.
pub fn startup_device_path(value: Option<&[u8]>) -> (r: Option<Vec<u8>>)
    ensures
        match value {
            Some(v) => if v@ == no_device_word() {
                r is None
            } else {
                r matches Some(p) && p@ == v@
            },
            None => r is None,
        },
{
    match value {
        Some(v) => {
            let none: Vec<u8> = vec![110u8, 111u8, 110u8, 101u8];
            assert(none@ =~= no_device_word());
            if bytes_equal(v, none.as_slice()) {
                None
            } else {
                Some(copy_range(v, 0, v.len()))
            }
        },
        None => None,
    }
}

/// One or more ASCII digits.
pub open spec fn is_digits(d: Seq<char>) -> bool {
    d.len() > 0 && forall|i: int| 0 <= i < d.len() ==> '0' <= #[trigger] d[i] <= '9'
}

/// The value of the decimal digits `d`.
pub open spec fn digits_value(d: Seq<char>) -> int
    decreases d.len(),
{
    if d.len() == 0 {
        0
    } else {
        digits_value(d.drop_last()) * 10 + (d.last() as u32 - '0' as u32)
    }
}

/// The `i32` written in `s`: an optional `+` or `-`, then one or more ASCII digits
/// whose value fits in an `i32`; none for any other text.
pub open spec fn parsed_int(s: Seq<char>) -> Option<i32> {
    let signed = s.len() > 0 && (s[0] == '-' || s[0] == '+');
    let d = if signed {
        s.drop_first()
    } else {
        s
    };
    let v = if signed && s[0] == '-' {
        -digits_value(d)
    } else {
        digits_value(d)
    };
    if is_digits(d) && i32::MIN <= v <= i32::MAX {
        Some(v as i32)
    } else {
        None
    }
}

/// Relies on `str::parse::<i32>` (`i32::from_str`): an optional `+` or `-` sign
/// followed by digits only, whose value is in range; any other text is an error.
#[verifier::external_body]
fn parse_int(s: &str) -> (r: Option<i32>)
    ensures
        r == parsed_int(s@),
{
    s.parse::<i32>().ok()
}

/// The descriptor setting for a parsed value: `-1` stands for none.
pub open spec fn fd_setting(parsed: Option<i32>) -> Option<i32> {
    match parsed {
        Some(v) => if v == -1 {
            None
        } else {
            Some(v)
        },
        None => None,
    }
}

/// The descriptor for the value that the startup environment holds, once parsed.
pub fn fd_from_parsed(parsed: Option<i32>) -> (r: Option<i32>)
    ensures
        r == fd_setting(parsed),
{
    match parsed {
        Some(v) => if v == -1 {
            None
        } else {
            Some(v)
        },
        None => None,
    }
}

/// The active descriptor that the startup environment advertises: none where the
/// value is missing, is no integer, or is `-1`.
pub fn startup_fd(value: Option<&str>) -> (r: Option<i32>)
    ensures
        r == match value {
            Some(s) => fd_setting(parsed_int(s@)),
            None => None,
        },
{
    match value {
        Some(s) => fd_from_parsed(parse_int(s)),
        None => None,
    }
}

} // verus!
