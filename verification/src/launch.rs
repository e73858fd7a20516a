//! Launching at login: which mechanism of macOS to use, by the version of
//! the system.

use crate::text::{parse_u32_range, parse_unsigned, pieces, split, split_chars, to_chars, trim, trimmed_chars};
use vstd::prelude::*;

verus! {

/// The first version of macOS that manages login items through its service
/// management.
pub const FIRST_SERVICE_MANAGEMENT_MAJOR: u32 = 13;

/// The major and minor number of a version such as `14.2.1`: the first two
/// of its parts between dots, each a number of at most 32 bits. Text around
/// the version is trimmed away first.
pub open spec fn version_numbers(text: Seq<char>) -> Option<(int, int)> {
    let parts = split(trim(text), '.');
    if parts.len() >= 2 {
        match (parse_unsigned(parts[0], 0xffff_ffff), parse_unsigned(parts[1], 0xffff_ffff)) {
            (Some(major), Some(minor)) => Some((major, minor)),
            _ => None,
        }
    } else {
        None
    }
}

/// The major and minor number of the version that `sw_vers -productVersion`
/// printed.
pub fn get_macos_version(printed: &str) -> (version: Option<(u32, u32)>)
    ensures
        version_numbers(printed@) == (match version {
            Some((major, minor)) => Some((major as int, minor as int)),
            None => None,
        }),
{
    let chars = to_chars(printed);
    let text = trimmed_chars(&chars, 0, chars.len());
    assert(chars@.subrange(0, chars.len() as int) =~= chars@);
    let parts = split_chars(&text, '.');
    if parts.len() < 2 {
        return None;
    }
    proof {
        assert(pieces(parts@)[0] == parts@[0]@);
        assert(pieces(parts@)[1] == parts@[1]@);
        assert(parts@[0]@.subrange(0, parts@[0]@.len() as int) =~= parts@[0]@);
        assert(parts@[1]@.subrange(0, parts@[1]@.len() as int) =~= parts@[1]@);
    }
    let major = parse_u32_range(&parts[0], 0, parts[0].len());
    let minor = parse_u32_range(&parts[1], 0, parts[1].len());
    match (major, minor) {
        (Some(major), Some(minor)) => Some((major, minor)),
        _ => None,
    }
}

/// Whether login items go through the system's service management: from
/// macOS 13 on. A version that could not be found out counts as an older
/// one.
pub fn should_use_smappservice(version: Option<(u32, u32)>) -> (service_management: bool)
    ensures
        service_management == (match version {
            Some((major, _)) => major >= FIRST_SERVICE_MANAGEMENT_MAJOR,
            None => false,
        }),
{
    match version {
        Some((major, _)) => major >= FIRST_SERVICE_MANAGEMENT_MAJOR,
        None => false,
    }
}

} // verus!
