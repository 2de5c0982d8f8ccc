//! The header row of an update table, whose padding gives the columns' widths.

use vstd::prelude::*;

use crate::width::{display_width, text_width};

verus! {

pub open spec fn spaces(n: nat) -> Seq<char> {
    Seq::new(n, |i: int| ' ')
}

pub open spec fn package_label() -> Seq<char> {
    seq!['P', 'a', 'c', 'k', 'a', 'g', 'e']
}

pub open spec fn installed_label() -> Seq<char> {
    seq!['I', 'n', 's', 't', 'a', 'l', 'l', 'e', 'd']
}

pub open spec fn latest_label() -> Seq<char> {
    seq!['L', 'a', 't', 'e', 's', 't']
}

pub open spec fn needs_update_label() -> Seq<char> {
    seq!['N', 'e', 'e', 'd', 's', ' ', 'u', 'p', 'd', 'a', 't', 'e']
}

/// The header row whose three leading labels are followed by `a`, `b` and `c`
/// spaces.
#[verifier::opaque]
pub open spec fn header_text(a: nat, b: nat, c: nat) -> Seq<char> {
    package_label() + spaces(a) + installed_label() + spaces(b) + latest_label() + spaces(c)
        + needs_update_label()
}

/// `line` is a header row padded by the counts in `pad`, each at least one.
pub open spec fn header_padded(line: Seq<char>, pad: (nat, nat, nat)) -> bool {
    &&& pad.0 > 0
    &&& pad.1 > 0
    &&& pad.2 > 0
    &&& line == header_text(pad.0, pad.1, pad.2)
}

pub open spec fn is_header(line: Seq<char>) -> bool {
    exists|pad: (nat, nat, nat)| header_padded(line, pad)
}

/// The display widths of the package, installed and latest columns that a
/// header row announces: each label together with the padding after it.
pub open spec fn header_columns(line: Seq<char>) -> Option<(nat, nat, nat)> {
    if is_header(line) {
        let pad = choose|pad: (nat, nat, nat)| header_padded(line, pad);
        Some(
            (
                text_width(package_label() + spaces(pad.0)),
                text_width(installed_label() + spaces(pad.1)),
                text_width(latest_label() + spaces(pad.2)),
            ),
        )
    } else {
        None
    }
}

/// The widths of the first three columns of a table, in display columns.
#[derive(Clone, Copy, Debug, PartialEq, Eq, Structural)]
pub struct ColumnWidths {
    pub package: usize,
    pub installed: usize,
    pub latest: usize,
}

impl View for ColumnWidths {
    type V = (nat, nat, nat);

    open spec fn view(&self) -> (nat, nat, nat) {
        (self.package as nat, self.installed as nat, self.latest as nat)
    }
}

/// Where each part of a header row stands.
proof fn lemma_header_shape(a: nat, b: nat, c: nat)
    ensures
        ({
            let line = header_text(a, b, c);
            let i: int = (7 + a) as int;
            let l: int = (i + 9 + b) as int;
            let n: int = (l + 6 + c) as int;
            &&& line.len() == n + 12
            &&& line.subrange(0, 7) == package_label()
            &&& forall|j: int| 7 <= j < i ==> line[j] == ' '
            &&& line.subrange(i, i + 9) == installed_label()
            &&& forall|j: int| i + 9 <= j < l ==> line[j] == ' '
            &&& line.subrange(l, l + 6) == latest_label()
            &&& forall|j: int| l + 6 <= j < n ==> line[j] == ' '
            &&& line.subrange(n, n + 12) == needs_update_label()
            &&& line[i] == 'I'
            &&& line[l] == 'L'
            &&& line[n] == 'N'
        }),
{
    reveal(header_text);
    let line = header_text(a, b, c);
    let i: int = (7 + a) as int;
    let l: int = (i + 9 + b) as int;
    let n: int = (l + 6 + c) as int;
    let s1 = package_label() + spaces(a);
    let s2 = s1 + installed_label();
    let s3 = s2 + spaces(b);
    let s4 = s3 + latest_label();
    let s5 = s4 + spaces(c);
    assert(line == s5 + needs_update_label());
    assert(line.subrange(0, 7) =~= package_label());
    assert(line.subrange(i, i + 9) =~= installed_label());
    assert(line.subrange(l, l + 6) =~= latest_label());
    assert(line.subrange(n, n + 12) =~= needs_update_label());
    assert(line[i] == line.subrange(i, i + 9)[0]);
    assert(line[l] == line.subrange(l, l + 6)[0]);
    assert(line[n] == line.subrange(n, n + 12)[0]);
}

/// A line made of the parts of a header row is that header row.
proof fn lemma_header_of_parts(s: Seq<char>, e1: int, e2: int, e3: int)
    requires
        7 < e1,
        e1 + 9 < e2,
        e2 + 6 < e3,
        e3 + 12 == s.len(),
        s.subrange(0, 7) == package_label(),
        forall|j: int| 7 <= j < e1 ==> s[j] == ' ',
        s.subrange(e1, e1 + 9) == installed_label(),
        forall|j: int| e1 + 9 <= j < e2 ==> s[j] == ' ',
        s.subrange(e2, e2 + 6) == latest_label(),
        forall|j: int| e2 + 6 <= j < e3 ==> s[j] == ' ',
        s.subrange(e3, e3 + 12) == needs_update_label(),
    ensures
        header_padded(s, ((e1 - 7) as nat, (e2 - e1 - 9) as nat, (e3 - e2 - 6) as nat)),
        s.subrange(0, e1) == package_label() + spaces((e1 - 7) as nat),
        s.subrange(e1, e2) == installed_label() + spaces((e2 - e1 - 9) as nat),
        s.subrange(e2, e3) == latest_label() + spaces((e3 - e2 - 6) as nat),
{
    let a = (e1 - 7) as nat;
    let b = (e2 - e1 - 9) as nat;
    let c = (e3 - e2 - 6) as nat;
    let h = header_text(a, b, c);
    lemma_header_shape(a, b, c);
    assert forall|j: int| 0 <= j < s.len() implies s[j] == h[j] by {
        if j < 7 {
            assert(s[j] == s.subrange(0, 7)[j]);
            assert(h[j] == h.subrange(0, 7)[j]);
        } else if j < e1 {
        } else if j < e1 + 9 {
            assert(s[j] == s.subrange(e1, e1 + 9)[j - e1]);
            assert(h[j] == h.subrange(e1, e1 + 9)[j - e1]);
        } else if j < e2 {
        } else if j < e2 + 6 {
            assert(s[j] == s.subrange(e2, e2 + 6)[j - e2]);
            assert(h[j] == h.subrange(e2, e2 + 6)[j - e2]);
        } else if j < e3 {
        } else {
            assert(s[j] == s.subrange(e3, e3 + 12)[j - e3]);
            assert(h[j] == h.subrange(e3, e3 + 12)[j - e3]);
        }
    }
    assert(s =~= h);
    assert(s.subrange(0, e1) =~= package_label() + spaces(a));
    assert(s.subrange(e1, e2) =~= installed_label() + spaces(b));
    assert(s.subrange(e2, e3) =~= latest_label() + spaces(c));
}

/// A header row has only one padding.
proof fn lemma_header_unique(p: (nat, nat, nat), q: (nat, nat, nat))
    requires
        p.0 > 0,
        q.0 > 0,
        p.1 > 0,
        q.1 > 0,
        p.2 > 0,
        q.2 > 0,
        header_text(p.0, p.1, p.2) == header_text(q.0, q.1, q.2),
    ensures
        p == q,
{
    let line = header_text(p.0, p.1, p.2);
    lemma_header_shape(p.0, p.1, p.2);
    lemma_header_shape(q.0, q.1, q.2);
    if p.0 != q.0 {
        let (x, y) = if p.0 < q.0 { (p.0, q.0) } else { (q.0, p.0) };
        let i: int = (7 + x) as int;
        assert(line.subrange(i, i + 9)[0] == line[i]);
    } else if p.1 != q.1 {
        let (x, y) = if p.1 < q.1 { (p.1, q.1) } else { (q.1, p.1) };
        let i: int = (16 + p.0 + x) as int;
        assert(line.subrange(i, i + 6)[0] == line[i]);
    } else if p.2 != q.2 {
        let (x, y) = if p.2 < q.2 { (p.2, q.2) } else { (q.2, p.2) };
        let i: int = (22 + p.0 + p.1 + x) as int;
        assert(line.subrange(i, i + 12)[0] == line[i]);
    }
}

/// Whether `lit` stands in `s` (of `n` characters) from character `pos` on.
pub(crate) fn text_at(s: &str, n: usize, pos: usize, lit: &str) -> (r: bool)
    requires
        n == s@.len(),
    ensures
        r == (pos + lit@.len() <= n && s@.subrange(pos as int, pos + lit@.len()) == lit@),
{
    let m = lit.unicode_len();
    if pos > n || m > n - pos {
        return false;
    }
    let mut j: usize = 0;
    while j < m
        invariant
            n == s@.len(),
            m == lit@.len(),
            pos + m <= n,
            j <= m,
            forall|k: int| 0 <= k < j ==> s@[pos + k] == lit@[k],
        decreases m - j,
    {
        if s.get_char(pos + j) != lit.get_char(j) {
            assert(s@.subrange(pos as int, pos + m)[j as int] != lit@[j as int]);
            return false;
        }
        j = j + 1;
    }
    assert(s@.subrange(pos as int, pos + m) =~= lit@);
    true
}

/// The end of the run of spaces in `s` (of `n` characters) that starts at `pos`.
fn end_of_spaces(s: &str, n: usize, pos: usize) -> (r: usize)
    requires
        n == s@.len(),
        pos <= n,
    ensures
        pos <= r <= n,
        forall|j: int| pos <= j < r ==> s@[j] == ' ',
        r < n ==> s@[r as int] != ' ',
{
    let mut e = pos;
    while e < n && s.get_char(e) == ' '
        invariant
            n == s@.len(),
            pos <= e <= n,
            forall|j: int| pos <= j < e ==> s@[j] == ' ',
        decreases n - e,
    {
        e = e + 1;
    }
    e
}

/// The column widths announced by `line` if it is a header row: the labels
/// `Package`, `Installed` and `Latest`, each followed by at least one space,
/// then `Needs update` and the end of the line.
pub fn match_header(line: &str) -> (r: Option<ColumnWidths>)
    ensures
        match header_columns(line@) {
            Some(cw) => r matches Some(found) && found@ == cw,
            None => r is None,
        },
{
    proof {
        reveal_strlit("Package");
        reveal_strlit("Installed");
        reveal_strlit("Latest");
        reveal_strlit("Needs update");
        assert("Package"@ =~= package_label());
        assert("Installed"@ =~= installed_label());
        assert("Latest"@ =~= latest_label());
        assert("Needs update"@ =~= needs_update_label());
    }
    let ghost s = line@;
    let n = line.unicode_len();
    // Should `line` be a header, its padding.
    let ghost pad = choose|pad: (nat, nat, nat)| header_padded(s, pad);
    proof {
        if is_header(s) {
            lemma_header_shape(pad.0, pad.1, pad.2);
        }
    }
    if !text_at(line, n, 0, "Package") {
        return None;
    }
    let e1 = end_of_spaces(line, n, 7);
    if e1 == 7 || !text_at(line, n, e1, "Installed") {
        assert(!is_header(s)) by {
            if is_header(s) {
                assert(s[e1 as int] == s.subrange(e1 as int, e1 + 9)[0]);
            }
        }
        return None;
    }
    proof {
        if is_header(s) {
            assert(s[e1 as int] == s.subrange(e1 as int, e1 + 9)[0]);
        }
    }
    let e2 = end_of_spaces(line, n, e1 + 9);
    if e2 == e1 + 9 || !text_at(line, n, e2, "Latest") {
        assert(!is_header(s)) by {
            if is_header(s) {
                assert(s[e2 as int] == s.subrange(e2 as int, e2 + 6)[0]);
            }
        }
        return None;
    }
    proof {
        if is_header(s) {
            assert(s[e2 as int] == s.subrange(e2 as int, e2 + 6)[0]);
        }
    }
    let e3 = end_of_spaces(line, n, e2 + 6);
    if e3 == e2 + 6 || !text_at(line, n, e3, "Needs update") || e3 + 12 != n {
        assert(!is_header(s)) by {
            if is_header(s) {
                assert(s[e3 as int] == s.subrange(e3 as int, e3 + 12)[0]);
            }
        }
        return None;
    }
    proof {
        let found = ((e1 - 7) as nat, (e2 - e1 - 9) as nat, (e3 - e2 - 6) as nat);
        lemma_header_of_parts(s, e1 as int, e2 as int, e3 as int);
        lemma_header_unique(pad, found);
    }
    let package = display_width(line.substring_char(0, e1));
    let installed = display_width(line.substring_char(e1, e2));
    let latest = display_width(line.substring_char(e2, e3));
    Some(ColumnWidths { package, installed, latest })
}

} // verus!
