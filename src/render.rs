//! How `cargo install-update` prints a registry table, and the proof that
//! such a table reads back as the rows it was printed from.

use vstd::prelude::*;

use crate::error::Fault;
use crate::header::spaces;
use crate::row::{before_space, flag_of, is_white_space, registry_row, split_fields, trimmed_end, without_v};
use crate::table::{
    decoded_registry_rows, kept, lemma_kept_distinct, lemma_registry_rows_body, registry_rows,
    registry_rows_decode, repeats_kept_name, VersionView,
};
use crate::values::semver_of;
use crate::width::{all_ascii_in_line, lemma_ascii_split, split_point};

verus! {

/// `s` followed by spaces up to `w` characters.
pub open spec fn padded(s: Seq<char>, w: nat) -> Seq<char> {
    s + spaces((w - s.len()) as nat)
}

pub open spec fn flag_text(needs: bool) -> Seq<char> {
    if needs {
        seq!['Y', 'e', 's']
    } else {
        seq!['N', 'o']
    }
}

/// A row of the registry table, printed at column widths `cw` from the
/// package's name, its installed and latest version texts and whether it
/// needs an update.
pub open spec fn registry_line(
    cw: (nat, nat, nat),
    row: (Seq<char>, Seq<char>, Seq<char>, bool),
) -> Seq<char> {
    padded(row.0, cw.0) + padded(seq!['v'] + row.1, cw.1) + padded(seq!['v'] + row.2, cw.2)
        + flag_text(row.3)
}

/// A row that can be printed at widths `cw` and read back: ASCII text that
/// fits its columns, with no white space at the end of any field, no space in
/// the latest version, and versions that parse.
pub open spec fn fits_registry_row(
    cw: (nat, nat, nat),
    row: (Seq<char>, Seq<char>, Seq<char>, bool),
) -> bool {
    &&& all_ascii_in_line(row.0)
    &&& all_ascii_in_line(row.1)
    &&& all_ascii_in_line(row.2)
    &&& row.0.len() <= cw.0
    &&& row.1.len() + 1 <= cw.1
    &&& row.2.len() + 1 <= cw.2
    &&& row.0.len() == 0 || !is_white_space(row.0.last())
    &&& row.1.len() == 0 || !is_white_space(row.1.last())
    &&& row.2.len() == 0 || !is_white_space(row.2.last())
    &&& forall|i: int| 0 <= i < row.2.len() ==> row.2[i] != ' '
    &&& semver_of(row.1) is Some
    &&& semver_of(row.2) is Some
}

/// What a printed row should read back as: name, needs update, and the two
/// versions.
pub open spec fn expected_registry_row(row: (Seq<char>, Seq<char>, Seq<char>, bool)) -> (
    Seq<char>,
    bool,
    VersionView,
    VersionView,
) {
    (row.0, row.3, semver_of(row.1)->Some_0, semver_of(row.2)->Some_0)
}

proof fn lemma_ascii_concat(a: Seq<char>, b: Seq<char>)
    requires
        all_ascii_in_line(a),
        all_ascii_in_line(b),
    ensures
        all_ascii_in_line(a + b),
{
    assert forall|i: int| 0 <= i < (a + b).len() implies crate::width::is_ascii_in_line(
        #[trigger] (a + b)[i],
    ) by {
        if i < a.len() {
            assert((a + b)[i] == a[i]);
        } else {
            assert((a + b)[i] == b[i - a.len()]);
        }
    }
}

proof fn lemma_trim_padding(s: Seq<char>, n: nat)
    requires
        s.len() == 0 || !is_white_space(s.last()),
    ensures
        trimmed_end(s + spaces(n)) == s,
    decreases n,
{
    if n == 0 {
        assert(s + spaces(0) =~= s);
    } else {
        let t = s + spaces(n);
        assert(t.last() == ' ');
        assert(t.drop_last() =~= s + spaces((n - 1) as nat));
        lemma_trim_padding(s, (n - 1) as nat);
    }
}

proof fn lemma_no_space(s: Seq<char>)
    requires
        forall|i: int| 0 <= i < s.len() ==> s[i] != ' ',
    ensures
        before_space(s) == s,
    decreases s.len(),
{
    if s.len() > 0 {
        let rest = s.drop_first();
        assert forall|i: int| 0 <= i < rest.len() implies rest[i] != ' ' by {
            assert(rest[i] == s[i + 1]);
        }
        lemma_no_space(rest);
        assert(seq![s[0]] + rest =~= s);
    }
}

/// A fitting row, printed, splits into its padded columns and decodes to what
/// it was printed from.
proof fn lemma_registry_line_decodes(
    cw: (nat, nat, nat),
    row: (Seq<char>, Seq<char>, Seq<char>, bool),
)
    requires
        fits_registry_row(cw, row),
    ensures
        registry_line(cw, row).len() > 0,
        registry_row(registry_line(cw, row), cw) == Ok::<_, Fault>(expected_registry_row(row)),
{
    let p = padded(row.0, cw.0);
    let vi = seq!['v'] + row.1;
    let vl = seq!['v'] + row.2;
    let i = padded(vi, cw.1);
    let l = padded(vl, cw.2);
    let f = flag_text(row.3);
    let s = registry_line(cw, row);
    assert(all_ascii_in_line(spaces((cw.0 - row.0.len()) as nat)));
    assert(all_ascii_in_line(spaces((cw.1 - vi.len()) as nat)));
    assert(all_ascii_in_line(spaces((cw.2 - vl.len()) as nat)));
    assert(all_ascii_in_line(seq!['v']));
    assert(all_ascii_in_line(f));
    lemma_ascii_concat(seq!['v'], row.1);
    lemma_ascii_concat(seq!['v'], row.2);
    lemma_ascii_concat(row.0, spaces((cw.0 - row.0.len()) as nat));
    lemma_ascii_concat(vi, spaces((cw.1 - vi.len()) as nat));
    lemma_ascii_concat(vl, spaces((cw.2 - vl.len()) as nat));
    lemma_ascii_concat(l, f);
    lemma_ascii_concat(i, l + f);
    lemma_ascii_concat(p, i + (l + f));
    assert(s =~= p + (i + (l + f)));
    assert(p.len() == cw.0 && i.len() == cw.1 && l.len() == cw.2);

    let r1 = s.skip(cw.0 as int);
    lemma_ascii_split(s, cw.0 as int);
    assert(s.take(cw.0 as int) =~= p);
    assert(r1 =~= i + (l + f));
    let r2 = r1.skip(cw.1 as int);
    lemma_ascii_split(r1, cw.1 as int);
    assert(r1.take(cw.1 as int) =~= i);
    assert(r2 =~= l + f);
    lemma_ascii_split(r2, cw.2 as int);
    assert(r2.take(cw.2 as int) =~= l);
    assert(r2.skip(cw.2 as int) =~= f);
    assert(split_fields(s, cw) == Some((p, i, l, f)));

    lemma_trim_padding(row.0, (cw.0 - row.0.len()) as nat);
    assert(vi.last() == if row.1.len() == 0 { 'v' } else { row.1.last() });
    assert(vl.last() == if row.2.len() == 0 { 'v' } else { row.2.last() });
    lemma_trim_padding(vi, (cw.1 - vi.len()) as nat);
    lemma_trim_padding(vl, (cw.2 - vl.len()) as nat);
    assert(vi.drop_first() =~= row.1);
    assert(vl.drop_first() =~= row.2);
    assert(without_v(vi) == Some(row.1));
    assert(without_v(vl) == Some(row.2));
    lemma_no_space(row.2);
    assert(flag_of(f) == Some(row.3));
}

/// A registry table printed from known rows at known widths, ended by an
/// empty line, reads back as exactly its rows that need an update, in order,
/// provided no two of those name the same package; a row marked `No` never
/// appears. Reading stops after the empty line.
pub proof fn lemma_registry_round_trip(
    cw: (nat, nat, nat),
    rows: Seq<(Seq<char>, Seq<char>, Seq<char>, bool)>,
    after: Seq<Seq<char>>,
)
    requires
        forall|i: int| 0 <= i < rows.len() ==> fits_registry_row(cw, #[trigger] rows[i]),
        !repeats_kept_name(rows.map_values(|r| expected_registry_row(r))),
    ensures
        registry_rows(
            rows.map_values(|r| registry_line(cw, r)) + seq![Seq::<char>::empty()] + after,
            cw,
            Seq::empty(),
        ) == Ok::<_, Fault>((kept(rows.map_values(|r| expected_registry_row(r))), after)),
{
    let body = rows.map_values(|r| registry_line(cw, r));
    let expected = rows.map_values(|r| expected_registry_row(r));
    let tail = seq![Seq::<char>::empty()] + after;
    let acc = Seq::<(Seq<char>, VersionView, VersionView)>::empty();
    assert forall|i: int| 0 <= i < body.len() implies #[trigger] body[i].len() > 0 && registry_row(
        body[i],
        cw,
    ) is Ok by {
        lemma_registry_line_decodes(cw, rows[i]);
    }
    assert(decoded_registry_rows(body, cw) =~= expected) by {
        assert forall|i: int| 0 <= i < body.len() implies decoded_registry_rows(body, cw)[i]
            == expected[i] by {
            lemma_registry_line_decodes(cw, rows[i]);
        }
    }
    lemma_kept_distinct(expected);
    assert(acc + kept(expected) =~= kept(expected));
    lemma_registry_rows_body(body, tail, cw, acc);
    assert(body + seq![Seq::<char>::empty()] + after =~= body + tail);
    assert(tail[0].len() == 0);
    assert(tail.drop_first() =~= after);
}

} // verus!
