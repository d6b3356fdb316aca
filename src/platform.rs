//! The catalog's names for the host's operating system and architecture.
use vstd::prelude::*;
use crate::text::{ci_eq, str_eq};

verus! {

/// The catalog's name for a host operating system name.
pub open spec fn os_alias_spec(host: Seq<char>) -> Option<Seq<char>> {
    if host == "linux"@ {
        Some("linux"@)
    } else if host == "macos"@ {
        Some("darwin"@)
    } else if host == "windows"@ {
        Some("windows"@)
    } else if host == "freebsd"@ {
        Some("freebsd"@)
    } else if host == "openbsd"@ {
        Some("openbsd"@)
    } else {
        None
    }
}

/// The catalog's name for a host architecture name.
pub open spec fn arch_alias_spec(host: Seq<char>) -> Option<Seq<char>> {
    if host == "x86_64"@ {
        Some("amd64"@)
    } else if host == "aarch64"@ {
        Some("arm64"@)
    } else if host == "arm"@ {
        Some("arm"@)
    } else if host == "i686"@ {
        Some("386"@)
    } else {
        None
    }
}

pub open spec fn opt_view(o: Option<String>) -> Option<Seq<char>> {
    match o {
        Some(s) => Some(s@),
        None => None,
    }
}

/// Maps a host operating system name to the catalog's; `None` where it has no entry.
pub fn os_alias(host: &str) -> (r: Option<String>)
    ensures
        opt_view(r) == os_alias_spec(host@),
{
    if str_eq(host, "linux") {
        Some(String::from_str("linux"))
    } else if str_eq(host, "macos") {
        Some(String::from_str("darwin"))
    } else if str_eq(host, "windows") {
        Some(String::from_str("windows"))
    } else if str_eq(host, "freebsd") {
        Some(String::from_str("freebsd"))
    } else if str_eq(host, "openbsd") {
        Some(String::from_str("openbsd"))
    } else {
        None
    }
}

/// Maps a host architecture name to the catalog's; `None` where it has no entry.
pub fn arch_alias(host: &str) -> (r: Option<String>)
    ensures
        opt_view(r) == arch_alias_spec(host@),
{
    if str_eq(host, "x86_64") {
        Some(String::from_str("amd64"))
    } else if str_eq(host, "aarch64") {
        Some(String::from_str("arm64"))
    } else if str_eq(host, "arm") {
        Some(String::from_str("arm"))
    } else if str_eq(host, "i686") {
        Some(String::from_str("386"))
    } else {
        None
    }
}

/// `name` is the word `all`, in any ASCII case.
pub open spec fn is_all_spec(name: Seq<char>) -> bool {
    &&& name.len() == 3
    &&& ci_eq(name[0], 'a')
    &&& ci_eq(name[1], 'l')
    &&& ci_eq(name[2], 'l')
}

/// Whether a product name asks for every product of the catalog.
pub fn is_all_products(name: &str) -> (r: bool)
    ensures
        r == is_all_spec(name@),
{
    if name.unicode_len() != 3 {
        return false;
    }
    let a = name.get_char(0);
    let b = name.get_char(1);
    let c = name.get_char(2);
    (a == 'a' || a == 'A') && (b == 'l' || b == 'L') && (c == 'l' || c == 'L')
}

} // verus!
