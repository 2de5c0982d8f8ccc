//! Splitting one data row of an update table into its fields and decoding them.

use vstd::prelude::*;

use crate::error::{CargoUpdateCheckError, Fault};
use crate::header::{text_at, ColumnWidths};
use crate::values::{
    hex_bytes, is_object_hex, parse_object_hash, parse_semver, semver_of, ObjectHash, SemVer,
};
use crate::width::{split_at_width, split_point};

verus! {

/// The characters with Unicode's White_Space property, which is what
/// `str::trim_end` removes.
pub open spec fn is_white_space(c: char) -> bool {
    ||| '\t' <= c && c <= '\r'
    ||| c == ' '
    ||| c == '\u{85}'
    ||| c == '\u{A0}'
    ||| c == '\u{1680}'
    ||| '\u{2000}' <= c && c <= '\u{200A}'
    ||| c == '\u{2028}'
    ||| c == '\u{2029}'
    ||| c == '\u{202F}'
    ||| c == '\u{205F}'
    ||| c == '\u{3000}'
}

/// `s` without the white space at its end.
pub open spec fn trimmed_end(s: Seq<char>) -> Seq<char>
    decreases s.len(),
{
    if s.len() > 0 && is_white_space(s.last()) {
        trimmed_end(s.drop_last())
    } else {
        s
    }
}

/// `s` without its leading `v`, or `None` where it does not start with one.
pub open spec fn without_v(s: Seq<char>) -> Option<Seq<char>> {
    if s.len() > 0 && s[0] == 'v' {
        Some(s.drop_first())
    } else {
        None
    }
}

/// The text of `s` before its first space (all of `s` where it has none).
pub open spec fn before_space(s: Seq<char>) -> Seq<char>
    decreases s.len(),
{
    if s.len() == 0 || s[0] == ' ' {
        Seq::empty()
    } else {
        seq![s[0]] + before_space(s.drop_first())
    }
}

/// What the last column says: `Yes` that the package needs an update, `No`
/// that it does not; anything else is `None`.
pub open spec fn flag_of(s: Seq<char>) -> Option<bool> {
    if s == seq!['Y', 'e', 's'] {
        Some(true)
    } else if s == seq!['N', 'o'] {
        Some(false)
    } else {
        None
    }
}

/// A row split at the widths `cw` of its first three columns: package,
/// installed, latest and the rest of the line.
pub open spec fn split_fields(s: Seq<char>, cw: (nat, nat, nat)) -> Option<
    (Seq<char>, Seq<char>, Seq<char>, Seq<char>),
> {
    match split_point(s, cw.0 as int) {
        None => None,
        Some(k1) => {
            let r1 = s.skip(k1);
            match split_point(r1, cw.1 as int) {
                None => None,
                Some(k2) => {
                    let r2 = r1.skip(k2);
                    match split_point(r2, cw.2 as int) {
                        None => None,
                        Some(k3) => Some((s.take(k1), r1.take(k2), r2.take(k3), r2.skip(k3))),
                    }
                },
            }
        },
    }
}

/// A row of the registry table, decoded: the package's name, whether it needs
/// an update, and its installed and latest versions. The versions carry a `v`
/// prefix, and the latest one may be followed by a space and a remark.
pub open spec fn registry_row(s: Seq<char>, cw: (nat, nat, nat)) -> Result<
    (Seq<char>, bool, (nat, nat, nat, Seq<char>, Seq<char>), (nat, nat, nat, Seq<char>, Seq<char>)),
    Fault,
> {
    match split_fields(s, cw) {
        None => Err(Fault::SplitAtWidth),
        Some((package, installed, latest, flag)) => match without_v(trimmed_end(installed)) {
            None => Err(Fault::VersionPrefix),
            Some(installed) => match semver_of(installed) {
                None => Err(Fault::SemVer),
                Some(installed) => match without_v(trimmed_end(latest)) {
                    None => Err(Fault::VersionPrefix),
                    Some(latest) => match semver_of(before_space(latest)) {
                        None => Err(Fault::SemVer),
                        Some(latest) => match flag_of(flag) {
                            None => Err(Fault::NeedsUpdate),
                            Some(needs) => Ok((trimmed_end(package), needs, installed, latest)),
                        },
                    },
                },
            },
        },
    }
}

/// A row of the git table, decoded: the package's name, whether it needs an
/// update, and its installed and latest commits.
pub open spec fn git_row(s: Seq<char>, cw: (nat, nat, nat)) -> Result<
    (Seq<char>, bool, Seq<u8>, Seq<u8>),
    Fault,
> {
    match split_fields(s, cw) {
        None => Err(Fault::SplitAtWidth),
        Some((package, installed, latest, flag)) => if !is_object_hex(trimmed_end(installed)) {
            Err(Fault::GitHash)
        } else if !is_object_hex(trimmed_end(latest)) {
            Err(Fault::GitHash)
        } else {
            match flag_of(flag) {
                None => Err(Fault::NeedsUpdate),
                Some(needs) => Ok(
                    (
                        trimmed_end(package),
                        needs,
                        hex_bytes(trimmed_end(installed)),
                        hex_bytes(trimmed_end(latest)),
                    ),
                ),
            }
        },
    }
}

fn is_white_space_char(c: char) -> (r: bool)
    ensures
        r == is_white_space(c),
{
    ('\t' <= c && c <= '\r') || c == ' ' || c == '\u{85}' || c == '\u{A0}' || c == '\u{1680}'
        || ('\u{2000}' <= c && c <= '\u{200A}') || c == '\u{2028}' || c == '\u{2029}' || c
        == '\u{202F}' || c == '\u{205F}' || c == '\u{3000}'
}

/// `s` without the white space at its end.
pub fn trim_end(s: &str) -> (r: &str)
    ensures
        r@ == trimmed_end(s@),
{
    let n = s.unicode_len();
    let mut e = n;
    assert(s@.take(n as int) =~= s@);
    while e > 0 && is_white_space_char(s.get_char(e - 1))
        invariant
            n == s@.len(),
            e <= n,
            trimmed_end(s@.take(e as int)) == trimmed_end(s@),
        decreases e,
    {
        assert(s@.take(e as int).drop_last() =~= s@.take(e - 1));
        e = e - 1;
    }
    assert(s@.subrange(0, e as int) == s@.take(e as int));
    s.substring_char(0, e)
}

/// `s` without its leading `v`, or `None` where it does not start with one.
pub fn strip_v(s: &str) -> (r: Option<&str>)
    ensures
        match without_v(s@) {
            Some(t) => r matches Some(x) && x@ == t,
            None => r is None,
        },
{
    let n = s.unicode_len();
    if n > 0 && s.get_char(0) == 'v' {
        assert(s@.subrange(1, n as int) =~= s@.drop_first());
        Some(s.substring_char(1, n))
    } else {
        None
    }
}

/// The text of `s` before its first space.
pub fn cut_at_space(s: &str) -> (r: &str)
    ensures
        r@ == before_space(s@),
{
    let n = s.unicode_len();
    let mut k: usize = 0;
    assert(s@.take(0) + s@.skip(0) =~= s@);
    assert(s@.take(0) + before_space(s@.skip(0)) =~= before_space(s@));
    while k < n && s.get_char(k) != ' '
        invariant
            n == s@.len(),
            k <= n,
            before_space(s@) == s@.take(k as int) + before_space(s@.skip(k as int)),
        decreases n - k,
    {
        let ghost t = s@.skip(k as int);
        assert(t[0] == s@[k as int]);
        assert(t.drop_first() =~= s@.skip(k + 1));
        assert(s@.take(k as int) + seq![s@[k as int]] =~= s@.take(k + 1));
        assert(s@.take(k as int) + (seq![s@[k as int]] + before_space(t.drop_first())) =~= s@.take(
            k + 1,
        ) + before_space(s@.skip(k + 1)));
        k = k + 1;
    }
    assert(before_space(s@.skip(k as int)) =~= Seq::<char>::empty());
    assert(s@.take(k as int) + Seq::<char>::empty() =~= s@.take(k as int));
    assert(s@.subrange(0, k as int) == s@.take(k as int));
    s.substring_char(0, k)
}

/// Reads the last column of a row.
pub fn parse_flag(s: &str) -> (r: Option<bool>)
    ensures
        r == flag_of(s@),
{
    proof {
        reveal_strlit("Yes");
        reveal_strlit("No");
        assert("Yes"@ =~= seq!['Y', 'e', 's']);
        assert("No"@ =~= seq!['N', 'o']);
    }
    let n = s.unicode_len();
    assert(s@.subrange(0, n as int) =~= s@);
    if n == 3 && text_at(s, n, 0, "Yes") {
        Some(true)
    } else if n == 2 && text_at(s, n, 0, "No") {
        Some(false)
    } else {
        None
    }
}

/// Splits a row into its package, installed and latest columns and the rest.
pub fn split_row<'a>(line: &'a str, cw: ColumnWidths) -> (r: Result<
    (&'a str, &'a str, &'a str, &'a str),
    CargoUpdateCheckError,
>)
    ensures
        match split_fields(line@, cw@) {
            Some((a, b, c, d)) => r matches Ok((w, x, y, z)) && w@ == a && x@ == b && y@ == c && z@
                == d,
            None => r matches Err(CargoUpdateCheckError::SplitAtWidth),
        },
{
    let (package, rest) = match split_at_width(line, cw.package) {
        Ok(parts) => parts,
        Err(e) => return Err(e),
    };
    let (installed, rest) = match split_at_width(rest, cw.installed) {
        Ok(parts) => parts,
        Err(e) => return Err(e),
    };
    let (latest, flag) = match split_at_width(rest, cw.latest) {
        Ok(parts) => parts,
        Err(e) => return Err(e),
    };
    Ok((package, installed, latest, flag))
}

/// Decodes a row of the registry table.
pub fn parse_registry_row(line: &str, cw: ColumnWidths) -> (r: Result<
    (String, bool, SemVer, SemVer),
    CargoUpdateCheckError,
>)
    ensures
        match registry_row(line@, cw@) {
            Ok((n, y, i, l)) => r matches Ok((name, needs, installed, latest)) && name@ == n && needs
                == y && installed@ == i && latest@ == l,
            Err(f) => r matches Err(e) && e.fault() == f,
        },
{
    let (package, installed, latest, flag) = match split_row(line, cw) {
        Ok(fields) => fields,
        Err(e) => return Err(e),
    };
    let installed = match strip_v(trim_end(installed)) {
        Some(text) => text,
        None => return Err(CargoUpdateCheckError::VersionPrefix),
    };
    let installed = match parse_semver(installed) {
        Ok(v) => v,
        Err(e) => return Err(CargoUpdateCheckError::SemVer(e)),
    };
    let latest = match strip_v(trim_end(latest)) {
        Some(text) => text,
        None => return Err(CargoUpdateCheckError::VersionPrefix),
    };
    let latest = match parse_semver(cut_at_space(latest)) {
        Ok(v) => v,
        Err(e) => return Err(CargoUpdateCheckError::SemVer(e)),
    };
    let needs = match parse_flag(flag) {
        Some(needs) => needs,
        None => return Err(CargoUpdateCheckError::NeedsUpdate),
    };
    Ok((trim_end(package).to_owned(), needs, installed, latest))
}

/// Decodes a row of the git table.
pub fn parse_git_row(line: &str, cw: ColumnWidths) -> (r: Result<
    (String, bool, ObjectHash, ObjectHash),
    CargoUpdateCheckError,
>)
    ensures
        match git_row(line@, cw@) {
            Ok((n, y, i, l)) => r matches Ok((name, needs, installed, latest)) && name@ == n && needs
                == y && installed@ == i && latest@ == l,
            Err(f) => r matches Err(e) && e.fault() == f,
        },
{
    let (package, installed, latest, flag) = match split_row(line, cw) {
        Ok(fields) => fields,
        Err(e) => return Err(e),
    };
    let installed = match parse_object_hash(trim_end(installed)) {
        Ok(h) => h,
        Err(e) => return Err(CargoUpdateCheckError::GitHash(e)),
    };
    let latest = match parse_object_hash(trim_end(latest)) {
        Ok(h) => h,
        Err(e) => return Err(CargoUpdateCheckError::GitHash(e)),
    };
    let needs = match parse_flag(flag) {
        Some(needs) => needs,
        None => return Err(CargoUpdateCheckError::NeedsUpdate),
    };
    Ok((trim_end(package).to_owned(), needs, installed, latest))
}

} // verus!
