//! The two update tables of a listing, read from one cursor over its lines.

use vstd::prelude::*;

use crate::error::{CargoUpdateCheckError, Fault};
use crate::header::{header_columns, match_header, text_at, ColumnWidths};
use crate::row::{git_row, parse_git_row, parse_registry_row, registry_row};
use crate::values::{ObjectHash, SemVer};

verus! {

/// A semantic version as the contracts see it: major, minor, patch,
/// pre-release and build.
pub type VersionView = (nat, nat, nat, Seq<char>, Seq<char>);

/// A package that needs an update, with its installed and latest values.
#[derive(Clone, Debug)]
pub struct UpdateEntry<V> {
    pub name: String,
    pub installed: V,
    pub latest: V,
}

impl<V: View> View for UpdateEntry<V> {
    type V = (Seq<char>, V::V, V::V);

    open spec fn view(&self) -> (Seq<char>, V::V, V::V) {
        (self.name@, self.installed@, self.latest@)
    }
}

/// Some entry of `entries` is named `name`.
pub open spec fn has_name<W>(entries: Seq<(Seq<char>, W, W)>, name: Seq<char>) -> bool {
    exists|i: int| 0 <= i < entries.len() && #[trigger] entries[i].0 == name
}

/// No two entries of `entries` share a name.
pub open spec fn distinct_names<W>(entries: Seq<(Seq<char>, W, W)>) -> bool {
    forall|i: int, j: int|
        0 <= i < j < entries.len() ==> #[trigger] entries[i].0 != #[trigger] entries[j].0
}

/// The packages of one table that need an update, in the order listed, each
/// name at most once.
#[derive(Clone, Debug)]
pub struct UpdateTable<V> {
    entries: Vec<UpdateEntry<V>>,
}

impl<V: View> View for UpdateTable<V> {
    type V = Seq<(Seq<char>, V::V, V::V)>;

    closed spec fn view(&self) -> Seq<(Seq<char>, V::V, V::V)> {
        self.entries@.map_values(|e: UpdateEntry<V>| e@)
    }
}

/// Whether two texts are equal.
fn same_text(a: &str, b: &str) -> (r: bool)
    ensures
        r == (a@ == b@),
{
    let n = a.unicode_len();
    let m = b.unicode_len();
    assert(a@.subrange(0, n as int) =~= a@);
    n == m && text_at(a, n, 0, b)
}

impl<V: View> UpdateTable<V> {
    pub open spec fn wf(&self) -> bool {
        distinct_names(self@)
    }

    /// A table with no entries.
    pub fn new() -> (r: UpdateTable<V>)
        ensures
            r@ == Seq::<(Seq<char>, V::V, V::V)>::empty(),
            r.wf(),
    {
        let r = UpdateTable { entries: Vec::new() };
        assert(r@ =~= Seq::<(Seq<char>, V::V, V::V)>::empty());
        r
    }

    /// The number of entries.
    pub fn len(&self) -> (r: usize)
        ensures
            r == self@.len(),
    {
        self.entries.len()
    }

    /// The entries, in the order they were listed.
    pub fn entries(&self) -> (r: &Vec<UpdateEntry<V>>)
        ensures
            r@.map_values(|e: UpdateEntry<V>| e@) == self@,
    {
        &self.entries
    }

    /// The entry named `name`, if there is one.
    pub fn get(&self, name: &str) -> (r: Option<&UpdateEntry<V>>)
        ensures
            match r {
                Some(e) => e.name@ == name@ && exists|i: int|
                    0 <= i < self@.len() && self@[i] == e@,
                None => !has_name(self@, name@),
            },
    {
        let mut i: usize = 0;
        while i < self.entries.len()
            invariant
                i <= self.entries@.len(),
                forall|j: int| 0 <= j < i ==> self@[j].0 != name@,
            decreases self.entries@.len() - i,
        {
            let e = &self.entries[i];
            if same_text(e.name.as_str(), name) {
                assert(self@[i as int] == e@);
                return Some(e);
            }
            assert(self@[i as int] == e@);
            i = i + 1;
        }
        None
    }

    /// Whether an entry is named `name`.
    pub fn contains(&self, name: &str) -> (r: bool)
        ensures
            r == has_name(self@, name@),
    {
        match self.get(name) {
            Some(e) => {
                proof {
                    let i = choose|i: int| 0 <= i < self@.len() && self@[i] == e@;
                    assert(self@[i].0 == name@);
                }
                true
            },
            None => false,
        }
    }

    /// Adds an entry for a package that is not in the table yet.
    pub fn push(&mut self, name: String, installed: V, latest: V)
        requires
            !has_name(old(self)@, name@),
            old(self).wf(),
        ensures
            final(self)@ == old(self)@.push((name@, installed@, latest@)),
            final(self).wf(),
    {
        let ghost before = self@;
        self.entries.push(UpdateEntry { name, installed, latest });
        assert(self@ =~= before.push((name@, installed@, latest@)));
        assert forall|i: int, j: int| 0 <= i < j < self@.len() implies #[trigger] self@[i].0
            != #[trigger] self@[j].0 by {
            if j == before.len() {
                assert(before[i].0 == self@[i].0);
            }
        }
    }
}

/// Adds a decoded row (name, needs update, installed, latest) to the entries
/// kept so far: only a row that needs an update is kept, and its name must be
/// new.
pub open spec fn absorb<W>(acc: Seq<(Seq<char>, W, W)>, row: (Seq<char>, bool, W, W)) -> Result<
    Seq<(Seq<char>, W, W)>,
    Fault,
> {
    if !row.1 {
        Ok(acc)
    } else if has_name(acc, row.0) {
        Err(Fault::DuplicatePackage)
    } else {
        Ok(acc.push((row.0, row.2, row.3)))
    }
}

/// Reads rows of the registry table from the front of `ls` up to and including
/// the first empty line (or to the end): the entries kept, and the lines left.
pub open spec fn registry_rows(
    ls: Seq<Seq<char>>,
    cw: (nat, nat, nat),
    acc: Seq<(Seq<char>, VersionView, VersionView)>,
) -> Result<(Seq<(Seq<char>, VersionView, VersionView)>, Seq<Seq<char>>), Fault>
    decreases ls.len(),
{
    if ls.len() == 0 {
        Ok((acc, ls))
    } else if ls[0].len() == 0 {
        Ok((acc, ls.drop_first()))
    } else {
        match registry_row(ls[0], cw) {
            Err(f) => Err(f),
            Ok(row) => match absorb(acc, row) {
                Err(f) => Err(f),
                Ok(next) => registry_rows(ls.drop_first(), cw, next),
            },
        }
    }
}

/// Reads rows of the git table as `registry_rows` reads those of the
/// registry table.
pub open spec fn git_rows(
    ls: Seq<Seq<char>>,
    cw: (nat, nat, nat),
    acc: Seq<(Seq<char>, Seq<u8>, Seq<u8>)>,
) -> Result<(Seq<(Seq<char>, Seq<u8>, Seq<u8>)>, Seq<Seq<char>>), Fault>
    decreases ls.len(),
{
    if ls.len() == 0 {
        Ok((acc, ls))
    } else if ls[0].len() == 0 {
        Ok((acc, ls.drop_first()))
    } else {
        match git_row(ls[0], cw) {
            Err(f) => Err(f),
            Ok(row) => match absorb(acc, row) {
                Err(f) => Err(f),
                Ok(next) => git_rows(ls.drop_first(), cw, next),
            },
        }
    }
}

/// The column widths of the first header row in `ls`, and the lines after it.
pub open spec fn locate_header(ls: Seq<Seq<char>>) -> Option<((nat, nat, nat), Seq<Seq<char>>)>
    decreases ls.len(),
{
    if ls.len() == 0 {
        None
    } else {
        match header_columns(ls[0]) {
            Some(cw) => Some((cw, ls.drop_first())),
            None => locate_header(ls.drop_first()),
        }
    }
}

/// A whole listing: the registry table, then the git table, each after its
/// own header row.
pub open spec fn listing(ls: Seq<Seq<char>>) -> Result<
    (Seq<(Seq<char>, VersionView, VersionView)>, Seq<(Seq<char>, Seq<u8>, Seq<u8>)>),
    Fault,
> {
    match locate_header(ls) {
        None => Err(Fault::MissingTableHeader),
        Some((cw, rest)) => match registry_rows(rest, cw, Seq::empty()) {
            Err(f) => Err(f),
            Ok((registry, rest)) => match locate_header(rest) {
                None => Err(Fault::MissingTableHeader),
                Some((cw, rest)) => match git_rows(rest, cw, Seq::empty()) {
                    Err(f) => Err(f),
                    Ok((git, _)) => Ok((registry, git)),
                },
            },
        },
    }
}

/// Header search passes over any lines that are not header rows: whatever
/// they hold and however many there are, it finds the same widths and leaves
/// the same lines as it would without them.
pub proof fn lemma_header_after_other_lines(before: Seq<Seq<char>>, rest: Seq<Seq<char>>)
    requires
        forall|i: int| 0 <= i < before.len() ==> header_columns(#[trigger] before[i]) is None,
    ensures
        locate_header(before + rest) == locate_header(rest),
        rest.len() > 0 && header_columns(rest[0]) is Some ==> locate_header(before + rest) == Some(
            (header_columns(rest[0])->Some_0, rest.drop_first()),
        ),
    decreases before.len(),
{
    if before.len() == 0 {
        assert(before + rest =~= rest);
    } else {
        assert((before + rest)[0] == before[0]);
        assert((before + rest).drop_first() =~= before.drop_first() + rest);
        lemma_header_after_other_lines(before.drop_first(), rest);
    }
}

/// The entries that decoded rows (name, needs update, installed, latest)
/// leave: those of the rows that need an update, in order.
pub open spec fn kept<W>(rows: Seq<(Seq<char>, bool, W, W)>) -> Seq<(Seq<char>, W, W)>
    decreases rows.len(),
{
    if rows.len() == 0 {
        Seq::empty()
    } else if rows[0].1 {
        seq![(rows[0].0, rows[0].2, rows[0].3)] + kept(rows.drop_first())
    } else {
        kept(rows.drop_first())
    }
}

/// Two of the decoded rows that need an update name the same package.
pub open spec fn repeats_kept_name<W>(rows: Seq<(Seq<char>, bool, W, W)>) -> bool {
    exists|i: int, j: int|
        0 <= i < j < rows.len() && rows[i].1 && rows[j].1 && #[trigger] rows[i].0
            == #[trigger] rows[j].0
}

/// Every line of `body` is a row of the registry table that decodes.
pub open spec fn registry_rows_decode(body: Seq<Seq<char>>, cw: (nat, nat, nat)) -> bool {
    forall|i: int|
        0 <= i < body.len() ==> #[trigger] body[i].len() > 0 && registry_row(body[i], cw) is Ok
}

/// The decoded rows of a registry table body all of whose rows decode.
pub open spec fn decoded_registry_rows(body: Seq<Seq<char>>, cw: (nat, nat, nat)) -> Seq<
    (Seq<char>, bool, VersionView, VersionView),
> {
    body.map_values(|l: Seq<char>| registry_row(l, cw)->Ok_0)
}

proof fn lemma_kept_has_name<W>(rows: Seq<(Seq<char>, bool, W, W)>, name: Seq<char>)
    ensures
        has_name(kept(rows), name) <==> exists|j: int|
            0 <= j < rows.len() && rows[j].1 && #[trigger] rows[j].0 == name,
    decreases rows.len(),
{
    if rows.len() > 0 {
        let rest = rows.drop_first();
        lemma_kept_has_name(rest, name);
        let k = kept(rows);
        let kr = kept(rest);
        if has_name(k, name) {
            let i = choose|i: int| 0 <= i < k.len() && #[trigger] k[i].0 == name;
            if rows[0].1 {
                if i == 0 {
                    assert(rows[0].0 == name);
                } else {
                    assert(k[i] == kr[i - 1]);
                    let j = choose|j: int| 0 <= j < rest.len() && rest[j].1 && #[trigger] rest[j].0
                        == name;
                    assert(rows[j + 1] == rest[j]);
                }
            } else {
                let j = choose|j: int| 0 <= j < rest.len() && rest[j].1 && #[trigger] rest[j].0
                    == name;
                assert(rows[j + 1] == rest[j]);
            }
        }
        if exists|j: int| 0 <= j < rows.len() && rows[j].1 && #[trigger] rows[j].0 == name {
            let j = choose|j: int| 0 <= j < rows.len() && rows[j].1 && #[trigger] rows[j].0 == name;
            if j == 0 {
                assert(k[0].0 == name);
            } else {
                assert(rest[j - 1] == rows[j]);
                let i = choose|i: int| 0 <= i < kr.len() && #[trigger] kr[i].0 == name;
                if rows[0].1 {
                    assert(k[i + 1] == kr[i]);
                } else {
                    assert(k[i] == kr[i]);
                }
            }
        }
    }
}

pub(crate) proof fn lemma_kept_distinct<W>(rows: Seq<(Seq<char>, bool, W, W)>)
    ensures
        distinct_names(kept(rows)) <==> !repeats_kept_name(rows),
    decreases rows.len(),
{
    if rows.len() > 0 {
        let rest = rows.drop_first();
        lemma_kept_distinct(rest);
        lemma_kept_has_name(rest, rows[0].0);
        let k = kept(rows);
        let kr = kept(rest);
        if repeats_kept_name(rows) {
            let (i, j) = choose|i: int, j: int|
                0 <= i < j < rows.len() && rows[i].1 && rows[j].1 && #[trigger] rows[i].0
                    == #[trigger] rows[j].0;
            if i == 0 {
                assert(rest[j - 1] == rows[j]);
                let m = choose|m: int| 0 <= m < kr.len() && #[trigger] kr[m].0 == rows[0].0;
                assert(k[0].0 == k[m + 1].0);
            } else {
                assert(rest[i - 1] == rows[i] && rest[j - 1] == rows[j]);
                assert(repeats_kept_name(rest));
                let (a, b) = choose|a: int, b: int|
                    0 <= a < b < kr.len() && #[trigger] kr[a].0 == #[trigger] kr[b].0;
                if rows[0].1 {
                    assert(k[a + 1] == kr[a] && k[b + 1] == kr[b]);
                } else {
                    assert(k[a] == kr[a] && k[b] == kr[b]);
                }
            }
        }
        if !distinct_names(k) {
            let (a, b) = choose|a: int, b: int|
                0 <= a < b < k.len() && #[trigger] k[a].0 == #[trigger] k[b].0;
            if rows[0].1 {
                if a == 0 {
                    assert(k[b] == kr[b - 1]);
                    assert(has_name(kr, rows[0].0));
                    let j = choose|j: int| 0 <= j < rest.len() && rest[j].1 && #[trigger] rest[j].0
                        == rows[0].0;
                    assert(rows[j + 1] == rest[j]);
                    assert(rows[0].0 == rows[j + 1].0);
                } else {
                    assert(k[a] == kr[a - 1] && k[b] == kr[b - 1]);
                    assert(!distinct_names(kr));
                    let (i, j) = choose|i: int, j: int|
                        0 <= i < j < rest.len() && rest[i].1 && rest[j].1 && #[trigger] rest[i].0
                            == #[trigger] rest[j].0;
                    assert(rows[i + 1] == rest[i] && rows[j + 1] == rest[j]);
                }
            } else {
                assert(!distinct_names(kr));
                let (i, j) = choose|i: int, j: int|
                    0 <= i < j < rest.len() && rest[i].1 && rest[j].1 && #[trigger] rest[i].0
                        == #[trigger] rest[j].0;
                assert(rows[i + 1] == rest[i] && rows[j + 1] == rest[j]);
            }
        }
    }
}

/// Reading a body of rows that all decode, then whatever follows: it fails
/// with a duplicate package exactly when the entries kept would repeat a name,
/// and otherwise goes on after the body with those entries.
pub proof fn lemma_registry_rows_body(
    body: Seq<Seq<char>>,
    tail: Seq<Seq<char>>,
    cw: (nat, nat, nat),
    acc: Seq<(Seq<char>, VersionView, VersionView)>,
)
    requires
        registry_rows_decode(body, cw),
        distinct_names(acc),
    ensures
        registry_rows(body + tail, cw, acc) == if distinct_names(
            acc + kept(decoded_registry_rows(body, cw)),
        ) {
            registry_rows(tail, cw, acc + kept(decoded_registry_rows(body, cw)))
        } else {
            Err(Fault::DuplicatePackage)
        },
    decreases body.len(),
{
    let d = decoded_registry_rows(body, cw);
    if body.len() == 0 {
        assert(body + tail =~= tail);
        assert(d =~= Seq::<(Seq<char>, bool, VersionView, VersionView)>::empty());
        assert(acc + kept(d) =~= acc);
    } else {
        let ls = body + tail;
        let rest = body.drop_first();
        assert(ls[0] == body[0]);
        assert(ls.drop_first() =~= rest + tail);
        assert(registry_rows_decode(rest, cw)) by {
            assert forall|i: int| 0 <= i < rest.len() implies #[trigger] rest[i].len() > 0
                && registry_row(rest[i], cw) is Ok by {
                assert(rest[i] == body[i + 1]);
            }
        }
        assert(d.drop_first() =~= decoded_registry_rows(rest, cw));
        assert(body[0].len() > 0);
        let r = d[0];
        assert(registry_row(body[0], cw) == Ok::<_, Fault>(r));
        let kr = kept(decoded_registry_rows(rest, cw));
        if !r.1 {
            lemma_registry_rows_body(rest, tail, cw, acc);
        } else {
            let e = (r.0, r.2, r.3);
            assert(kept(d) == seq![e] + kr);
            assert(acc + kept(d) =~= acc.push(e) + kr);
            if has_name(acc, r.0) {
                let i = choose|i: int| 0 <= i < acc.len() && #[trigger] acc[i].0 == r.0;
                let all = acc + kept(d);
                assert(all[i].0 == all[acc.len() as int].0);
            } else {
                let next = acc.push(e);
                assert forall|i: int, j: int| 0 <= i < j < next.len() implies #[trigger] next[i].0
                    != #[trigger] next[j].0 by {
                    if j == acc.len() {
                        assert(next[i] == acc[i]);
                    } else {
                        assert(next[i] == acc[i] && next[j] == acc[j]);
                    }
                }
                lemma_registry_rows_body(rest, tail, cw, next);
            }
        }
    }
}

/// Among rows of the registry table that all decode, a duplicate package is
/// reported exactly when two rows that need an update name the same package:
/// a package listed again with `No` in either row is no duplicate. Without
/// one, the table holds the rows that need an update, in order.
pub proof fn lemma_duplicate_package(body: Seq<Seq<char>>, cw: (nat, nat, nat))
    requires
        registry_rows_decode(body, cw),
    ensures
        (registry_rows(body, cw, Seq::empty()) == Err::<
            (Seq<(Seq<char>, VersionView, VersionView)>, Seq<Seq<char>>),
            Fault,
        >(Fault::DuplicatePackage)) <==> repeats_kept_name(decoded_registry_rows(body, cw)),
        !repeats_kept_name(decoded_registry_rows(body, cw)) ==> registry_rows(
            body,
            cw,
            Seq::empty(),
        ) == Ok::<_, Fault>((kept(decoded_registry_rows(body, cw)), Seq::<Seq<char>>::empty())),
{
    let empty = Seq::<Seq<char>>::empty();
    let acc = Seq::<(Seq<char>, VersionView, VersionView)>::empty();
    let d = decoded_registry_rows(body, cw);
    assert(body + empty =~= body);
    assert(acc + kept(d) =~= kept(d));
    lemma_registry_rows_body(body, empty, cw, acc);
    lemma_kept_distinct(d);
}

/// The text of each line.
pub open spec fn texts(lines: Seq<String>) -> Seq<Seq<char>> {
    lines.map_values(|l: String| l@)
}

/// A cursor over the lines of a listing; each line is read once, in order.
pub struct Lines {
    lines: Vec<String>,
    pos: usize,
}

impl View for Lines {
    type V = Seq<Seq<char>>;

    /// The lines not read yet.
    closed spec fn view(&self) -> Seq<Seq<char>> {
        texts(self.lines@.skip(self.pos as int))
    }
}

impl Lines {
    pub closed spec fn wf(&self) -> bool {
        self.pos <= self.lines@.len()
    }

    /// A cursor before the first of `lines`.
    pub fn new(lines: Vec<String>) -> (r: Lines)
        ensures
            r.wf(),
            r@ == texts(lines@),
    {
        let r = Lines { lines, pos: 0 };
        assert(r.lines@.skip(0) =~= r.lines@);
        r
    }

    /// Whether every line has been read.
    pub fn is_done(&self) -> (r: bool)
        requires
            self.wf(),
        ensures
            r == (self@.len() == 0),
    {
        self.pos >= self.lines.len()
    }

    /// Moves past the next line.
    fn advance(&mut self)
        requires
            old(self).wf(),
            old(self)@.len() > 0,
        ensures
            final(self).wf(),
            final(self)@ == old(self)@.drop_first(),
            final(self).lines@ == old(self).lines@,
            final(self).pos == old(self).pos + 1,
    {
        let ghost before = self@;
        assert(self@.len() == self.lines@.len() - self.pos);
        let n = self.lines.len();
        assert(self.pos < n);
        self.pos = self.pos + 1;
        assert(self@ =~= before.drop_first());
    }

    proof fn lemma_front(&self)
        requires
            self.wf(),
            self.pos < self.lines@.len(),
        ensures
            self@.len() > 0,
            self@[0] == self.lines@[self.pos as int]@,
    {
    }
}

/// Reads lines up to and including the first header row, and returns the
/// widths it announces.
pub fn find_header(lines: &mut Lines) -> (r: Result<ColumnWidths, CargoUpdateCheckError>)
    requires
        old(lines).wf(),
    ensures
        final(lines).wf(),
        match locate_header(old(lines)@) {
            Some((cw, rest)) => r matches Ok(found) && found@ == cw && final(lines)@ == rest,
            None => r matches Err(CargoUpdateCheckError::MissingTableHeader),
        },
{
    loop
        invariant
            lines.wf(),
            locate_header(lines@) == locate_header(old(lines)@),
        decreases lines.lines@.len() - lines.pos,
    {
        if lines.pos >= lines.lines.len() {
            return Err(CargoUpdateCheckError::MissingTableHeader);
        }
        proof {
            lines.lemma_front();
        }
        let found = match_header(lines.lines[lines.pos].as_str());
        lines.advance();
        if let Some(cw) = found {
            return Ok(cw);
        }
    }
}

/// Reads the rows of the registry table that follow its header, up to and
/// including the first empty line.
pub fn parse_registry_rows(lines: &mut Lines, cw: ColumnWidths) -> (r: Result<
    UpdateTable<SemVer>,
    CargoUpdateCheckError,
>)
    requires
        old(lines).wf(),
    ensures
        final(lines).wf(),
        match registry_rows(old(lines)@, cw@, Seq::empty()) {
            Ok((t, rest)) => r matches Ok(table) && table@ == t && table.wf() && final(lines)@
                == rest,
            Err(f) => r matches Err(e) && e.fault() == f,
        },
{
    let mut table: UpdateTable<SemVer> = UpdateTable::new();
    loop
        invariant
            lines.wf(),
            table.wf(),
            registry_rows(lines@, cw@, table@) == registry_rows(old(lines)@, cw@, Seq::empty()),
        decreases lines.lines@.len() - lines.pos,
    {
        if lines.pos >= lines.lines.len() {
            return Ok(table);
        }
        proof {
            lines.lemma_front();
        }
        let line = lines.lines[lines.pos].as_str();
        if line.unicode_len() == 0 {
            lines.advance();
            return Ok(table);
        }
        let row = parse_registry_row(line, cw);
        lines.advance();
        match row {
            Err(e) => return Err(e),
            Ok((name, needs, installed, latest)) => {
                if needs {
                    if table.contains(name.as_str()) {
                        return Err(CargoUpdateCheckError::DuplicatePackage);
                    }
                    table.push(name, installed, latest);
                }
            },
        }
    }
}

/// Reads the rows of the git table that follow its header, up to and including
/// the first empty line.
pub fn parse_git_rows(lines: &mut Lines, cw: ColumnWidths) -> (r: Result<
    UpdateTable<ObjectHash>,
    CargoUpdateCheckError,
>)
    requires
        old(lines).wf(),
    ensures
        final(lines).wf(),
        match git_rows(old(lines)@, cw@, Seq::empty()) {
            Ok((t, rest)) => r matches Ok(table) && table@ == t && table.wf() && final(lines)@
                == rest,
            Err(f) => r matches Err(e) && e.fault() == f,
        },
{
    let mut table: UpdateTable<ObjectHash> = UpdateTable::new();
    loop
        invariant
            lines.wf(),
            table.wf(),
            git_rows(lines@, cw@, table@) == git_rows(old(lines)@, cw@, Seq::empty()),
        decreases lines.lines@.len() - lines.pos,
    {
        if lines.pos >= lines.lines.len() {
            return Ok(table);
        }
        proof {
            lines.lemma_front();
        }
        let line = lines.lines[lines.pos].as_str();
        if line.unicode_len() == 0 {
            lines.advance();
            return Ok(table);
        }
        let row = parse_git_row(line, cw);
        lines.advance();
        match row {
            Err(e) => return Err(e),
            Ok((name, needs, installed, latest)) => {
                if needs {
                    if table.contains(name.as_str()) {
                        return Err(CargoUpdateCheckError::DuplicatePackage);
                    }
                    table.push(name, installed, latest);
                }
            },
        }
    }
}

/// Reads both tables of a listing: the registry table and then the git table.
pub fn parse_listing(lines: Vec<String>) -> (r: Result<
    (UpdateTable<SemVer>, UpdateTable<ObjectHash>),
    CargoUpdateCheckError,
>)
    ensures
        match listing(texts(lines@)) {
            Ok((registry, git)) => r matches Ok((a, b)) && a@ == registry && b@ == git && a.wf()
                && b.wf(),
            Err(f) => r matches Err(e) && e.fault() == f,
        },
{
    let mut lines = Lines::new(lines);
    let cw = match find_header(&mut lines) {
        Ok(cw) => cw,
        Err(e) => return Err(e),
    };
    let registry = match parse_registry_rows(&mut lines, cw) {
        Ok(t) => t,
        Err(e) => return Err(e),
    };
    let cw = match find_header(&mut lines) {
        Ok(cw) => cw,
        Err(e) => return Err(e),
    };
    let git = match parse_git_rows(&mut lines, cw) {
        Ok(t) => t,
        Err(e) => return Err(e),
    };
    Ok((registry, git))
}

/// The exit status with which `cargo` reports that the `install-update`
/// subcommand is not installed.
pub const SUBCOMMAND_MISSING_EXIT: i32 = 101;

/// How running `cargo install-update --list --git` went.
pub enum ListingOutcome {
    /// It succeeded and printed these lines.
    Listed(Vec<String>),
    /// No `cargo` executable was found.
    NotFound,
    /// It exited unsuccessfully, with this status code if it had one.
    Exited(Option<i32>),
}

/// The packages that need an update, registry and git, from the outcome of
/// the listing command; `None` where the command or its subcommand is not
/// installed.
pub fn check_cargo_updates(outcome: ListingOutcome) -> (r: Result<
    Option<(UpdateTable<SemVer>, UpdateTable<ObjectHash>)>,
    CargoUpdateCheckError,
>)
    ensures
        match outcome {
            ListingOutcome::NotFound => r matches Ok(None),
            ListingOutcome::Exited(code) => if code == Some(SUBCOMMAND_MISSING_EXIT) {
                r matches Ok(None)
            } else {
                r matches Err(e) && e.fault() == Fault::CommandExit(code)
            },
            ListingOutcome::Listed(lines) => match listing(texts(lines@)) {
                Ok((registry, git)) => r matches Ok(Some((a, b))) && a@ == registry && b@ == git
                    && a.wf() && b.wf(),
                Err(f) => r matches Err(e) && e.fault() == f,
            },
        },
{
    match outcome {
        ListingOutcome::NotFound => Ok(None),
        ListingOutcome::Exited(code) => {
            if code == Some(SUBCOMMAND_MISSING_EXIT) {
                Ok(None)
            } else {
                Err(CargoUpdateCheckError::CommandExit(code))
            }
        },
        ListingOutcome::Listed(lines) => match parse_listing(lines) {
            Ok(tables) => Ok(Some(tables)),
            Err(e) => Err(e),
        },
    }
}

} // verus!
