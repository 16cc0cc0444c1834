//! Package recognition for the content-addressed package store: telling a
//! tarball from other data and deriving a package's registered name.
use vstd::prelude::*;
use crate::text::{chars_of, push_all, string_of};

verus! {

/// A package key: the SHA-256 digest of the package's bytes.
pub type HashKey = [u8; 32];

/// `.tar.gz` for gzip data (magic `1f 8b`), `.tar` for a POSIX tar archive
/// (`ustar` at offset 257 of at least 300 bytes), else nothing.
pub open spec fn tar_format(d: Seq<u8>) -> Option<Seq<char>> {
    if d.len() < 2 {
        None
    } else if d[0] == 0x1f && d[1] == 0x8b {
        Some(".tar.gz"@)
    } else if d.len() >= 300 && d.subrange(257, 262) == seq![0x75u8, 0x73u8, 0x74u8, 0x61u8, 0x72u8] {
        Some(".tar"@)
    } else {
        None
    }
}

/// Recognises a package's archive format (see [`tar_format`]).
pub fn detect_tar(data: &Vec<u8>) -> (r: Option<&'static str>)
    ensures
        match tar_format(data@) {
            Some(f) => r matches Some(x) && x@ == f,
            None => r is None,
        },
{
    if data.len() < 2 {
        return None;
    }
    if data[0] == 0x1f && data[1] == 0x8b {
        return Some(".tar.gz");
    }
    if data.len() >= 300 {
        let ustar = data[257] == 0x75 && data[258] == 0x73 && data[259] == 0x74 && data[260] == 0x61
            && data[261] == 0x72;
        if ustar {
            assert(data@.subrange(257, 262) =~= seq![0x75u8, 0x73u8, 0x74u8, 0x61u8, 0x72u8]);
            return Some(".tar");
        } else {
            proof {
                if data@.subrange(257, 262) == seq![0x75u8, 0x73u8, 0x74u8, 0x61u8, 0x72u8] {
                    assert(data@.subrange(257, 262)[0] == data@[257]);
                    assert(data@.subrange(257, 262)[1] == data@[258]);
                    assert(data@.subrange(257, 262)[2] == data@[259]);
                    assert(data@.subrange(257, 262)[3] == data@[260]);
                    assert(data@.subrange(257, 262)[4] == data@[261]);
                }
            }
        }
    }
    None
}

/// The name a package registers under: the top-level `name`, else
/// `package.name`, with a leading `^` added if missing.
pub open spec fn registered_name(name: Option<Seq<char>>, package_name: Option<Seq<char>>) -> Option<Seq<char>> {
    let raw = match name {
        Some(n) => Some(n),
        None => package_name,
    };
    match raw {
        Some(r) => if r.len() > 0 && r[0] == '^' { Some(r) } else { Some(seq!['^'] + r) },
        None => None,
    }
}

/// The name a package registers under (see [`registered_name`]), from the
/// `name` and `package.name` fields of its `arcanum.toml`.
pub fn package_name_from_fields(name: Option<String>, package_name: Option<String>) -> (r: Option<String>)
    ensures
        r.deep_view() == registered_name(name.deep_view(), package_name.deep_view()),
{
    let raw = match name {
        Some(n) => n,
        None => match package_name {
            Some(p) => p,
            None => {
                return None;
            },
        },
    };
    let cs = chars_of(raw.as_str());
    if cs.len() > 0 && cs[0] == '^' {
        Some(raw)
    } else {
        let mut out: Vec<char> = Vec::new();
        out.push('^');
        push_all(&mut out, &cs);
        Some(string_of(&out))
    }
}

/// The version a package's `arcanum.toml` gives: the top-level `version`,
/// else `package.version`.
pub open spec fn manifest_version(version: Option<Seq<char>>, package_version: Option<Seq<char>>) -> Option<Seq<char>> {
    match version {
        Some(v) => Some(v),
        None => package_version,
    }
}

/// The version a package's `arcanum.toml` gives (see [`manifest_version`]),
/// from its `version` and `package.version` fields.
pub fn package_version_from_fields(version: Option<String>, package_version: Option<String>) -> (r: Option<String>)
    ensures
        r.deep_view() == manifest_version(version.deep_view(), package_version.deep_view()),
{
    match version {
        Some(v) => Some(v),
        None => package_version,
    }
}

} // verus!
