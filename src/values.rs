//! The two kinds of value that an update table lists: semantic versions for
//! registry packages and commit hashes for git packages.

use vstd::prelude::*;

verus! {

/// A semantic version: `major.minor.patch`, with the text of its pre-release
/// and build parts (empty where absent).
#[derive(Clone, Debug)]
pub struct SemVer {
    pub major: u64,
    pub minor: u64,
    pub patch: u64,
    pub pre: String,
    pub build: String,
}

impl View for SemVer {
    type V = (nat, nat, nat, Seq<char>, Seq<char>);

    open spec fn view(&self) -> (nat, nat, nat, Seq<char>, Seq<char>) {
        (self.major as nat, self.minor as nat, self.patch as nat, self.pre@, self.build@)
    }
}

/// The version that the `semver` crate reads from `text` (major, minor,
/// patch, pre-release and build), or `None` where `text` is no version.
pub uninterp spec fn semver_of(text: Seq<char>) -> Option<(nat, nat, nat, Seq<char>, Seq<char>)>;

/// Relies on `semver::Version::parse`: whether `s` is a version, and which one,
/// depends on the text alone.
#[verifier::external_body]
pub(crate) fn parse_semver(s: &str) -> (r: Result<SemVer, semver::Error>)
    ensures
        match semver_of(s@) {
            Some(v) => r matches Ok(parsed) && parsed@ == v,
            None => r is Err,
        },
{
    match semver::Version::parse(s) {
        Ok(v) => Ok(
            SemVer {
                major: v.major,
                minor: v.minor,
                patch: v.patch,
                pre: v.pre.as_str().to_string(),
                build: v.build.as_str().to_string(),
            },
        ),
        Err(e) => Err(e),
    }
}

/// The value of a hexadecimal digit of either case, or -1.
pub open spec fn hex_value(c: char) -> int {
    if '0' <= c && c <= '9' {
        c as int - '0' as int
    } else if 'a' <= c && c <= 'f' {
        c as int - 'a' as int + 10
    } else if 'A' <= c && c <= 'F' {
        c as int - 'A' as int + 10
    } else {
        -1
    }
}

/// Forty hexadecimal digits: the text of a SHA-1 object id.
pub open spec fn is_object_hex(s: Seq<char>) -> bool {
    &&& s.len() == 40
    &&& forall|i: int| 0 <= i < s.len() ==> hex_value(#[trigger] s[i]) >= 0
}

/// The bytes that pairs of hexadecimal digits spell, high digit first.
pub open spec fn hex_bytes(s: Seq<char>) -> Seq<u8> {
    Seq::new(s.len() / 2, |i: int| (hex_value(s[2 * i]) * 16 + hex_value(s[2 * i + 1])) as u8)
}

/// The id of a git object, as the bytes of its SHA-1 digest.
#[derive(Clone, Debug)]
pub struct ObjectHash {
    pub bytes: Vec<u8>,
}

impl View for ObjectHash {
    type V = Seq<u8>;

    open spec fn view(&self) -> Seq<u8> {
        self.bytes@
    }
}

/// Relies on `gix_hash::ObjectId::from_str`: forty hexadecimal digits of
/// either case decode to the twenty bytes they spell, and any other text is
/// refused.
#[verifier::external_body]
pub(crate) fn parse_object_hash(s: &str) -> (r: Result<ObjectHash, gix_hash::decode::Error>)
    ensures
        match r {
            Ok(h) => is_object_hex(s@) && h@ == hex_bytes(s@),
            Err(_) => !is_object_hex(s@),
        },
{
    match <gix_hash::ObjectId as std::str::FromStr>::from_str(s) {
        Ok(id) => Ok(ObjectHash { bytes: id.as_slice().to_vec() }),
        Err(e) => Err(e),
    }
}

} // verus!
