//! General laws of the TBE parse, stated and proved over the model: how
//! many rows a table collects, whose headers its rows carry, that metadata
//! entries overwrite, that lines outside a capture span and malformed rows
//! change nothing, and that re-declaring a table preserves its data.

use vstd::prelude::*;
use crate::model::{
    headers_of, init_state, is_att_line, is_plain_line, is_tbl_line, meta_values, parse_tbe_spec,
    row_keys, row_of, run_lines, step_line, StateModel,
};
use crate::text::{second_token_spec, split_commas, trim_spec};

verus! {

/// The parse state after the first `n` input lines.
pub open spec fn state_before(lines: Seq<Seq<char>>, n: int) -> StateModel {
    run_lines(init_state(), lines.subrange(0, n))
}

/// Line `i` contributes a row to the table named `name`: once trimmed it
/// matches no marker, the scan stands between a `BGN` and the next `EOT`,
/// `name` is the selected and existing table, and the line's comma field
/// count equals the header count in effect at that point.
pub open spec fn contributes_row(lines: Seq<Seq<char>>, i: int, name: Seq<char>) -> bool {
    let s = state_before(lines, i);
    let t = trim_spec(lines[i]);
    &&& 0 <= i < lines.len()
    &&& is_plain_line(t)
    &&& s.capturing
    &&& s.current == name
    &&& s.tables.contains_key(name)
    &&& split_commas(t).len() == s.headers.len()
}

/// How many of the first `n` lines contribute a row to `name`.
pub open spec fn row_count(lines: Seq<Seq<char>>, name: Seq<char>, n: int) -> nat
    decreases n,
{
    if n <= 0 {
        0
    } else {
        row_count(lines, name, n - 1) + (if contributes_row(lines, n - 1, name) {
            1nat
        } else {
            0nat
        })
    }
}

proof fn lemma_state_before_unfold(lines: Seq<Seq<char>>, n: int)
    requires
        1 <= n <= lines.len(),
    ensures
        state_before(lines, n) == step_line(state_before(lines, n - 1), lines[n - 1]),
{
    let pre = lines.subrange(0, n);
    assert(pre.drop_last() =~= lines.subrange(0, n - 1));
    assert(pre.last() == lines[n - 1]);
}

proof fn lemma_row_count_invariant(lines: Seq<Seq<char>>, name: Seq<char>, n: int)
    requires
        0 <= n <= lines.len(),
    ensures
        state_before(lines, n).tables.contains_key(name) ==> state_before(
            lines,
            n,
        ).tables[name].rows.len() == row_count(lines, name, n),
        !state_before(lines, n).tables.contains_key(name) ==> row_count(lines, name, n) == 0,
    decreases n,
{
    if n == 0 {
        assert(lines.subrange(0, 0) =~= Seq::<Seq<char>>::empty());
    } else {
        lemma_row_count_invariant(lines, name, n - 1);
        lemma_state_before_unfold(lines, n);
        let s = state_before(lines, n - 1);
        let t = trim_spec(lines[n - 1]);
        let parts = split_commas(t);
        if is_tbl_line(t) {
            if parts.len() > 1 {
                let name2 = second_token_spec(parts[0]);
                if name2 == name && !s.tables.contains_key(name) {
                    assert(state_before(lines, n).tables[name].rows.len() == 0);
                }
            }
        }
    }
}

/// The rows that the first `n` lines contribute to `name`, in file order:
/// for each contributing line, the headers active at that point zipped with
/// the line's trimmed fields.
pub open spec fn rows_from(lines: Seq<Seq<char>>, name: Seq<char>, n: int) -> Seq<
    Seq<(Seq<char>, Seq<char>)>,
>
    decreases n,
{
    if n <= 0 {
        Seq::empty()
    } else if contributes_row(lines, n - 1, name) {
        rows_from(lines, name, n - 1).push(
            row_of(state_before(lines, n - 1).headers, split_commas(trim_spec(lines[n - 1]))),
        )
    } else {
        rows_from(lines, name, n - 1)
    }
}

proof fn lemma_rows_from_invariant(lines: Seq<Seq<char>>, name: Seq<char>, n: int)
    requires
        0 <= n <= lines.len(),
    ensures
        state_before(lines, n).tables.contains_key(name) ==> state_before(
            lines,
            n,
        ).tables[name].rows == rows_from(lines, name, n),
        !state_before(lines, n).tables.contains_key(name) ==> rows_from(lines, name, n)
            == Seq::<Seq<(Seq<char>, Seq<char>)>>::empty(),
    decreases n,
{
    if n == 0 {
        assert(lines.subrange(0, 0) =~= Seq::<Seq<char>>::empty());
    } else {
        lemma_rows_from_invariant(lines, name, n - 1);
        lemma_state_before_unfold(lines, n);
        let s = state_before(lines, n - 1);
        let t = trim_spec(lines[n - 1]);
        let parts = split_commas(t);
        if is_tbl_line(t) {
            if parts.len() > 1 {
                let name2 = second_token_spec(parts[0]);
                if name2 == name && !s.tables.contains_key(name) {
                    assert(state_before(lines, n).tables[name].rows =~= rows_from(lines, name, n));
                }
            }
        }
    }
}

proof fn lemma_rows_from_index(lines: Seq<Seq<char>>, name: Seq<char>, n: int, j: int)
    requires
        0 <= n <= lines.len(),
        0 <= j < rows_from(lines, name, n).len(),
    ensures
        exists|i: int|
            0 <= i < n && contributes_row(lines, i, name) && rows_from(lines, name, n)[j]
                == row_of(state_before(lines, i).headers, split_commas(trim_spec(lines[i]))),
    decreases n,
{
    if n <= 0 {
    } else if contributes_row(lines, n - 1, name) && j == rows_from(lines, name, n).len() - 1 {
        assert(0 <= n - 1 < n && contributes_row(lines, n - 1, name) && rows_from(
            lines,
            name,
            n,
        )[j] == row_of(
            state_before(lines, n - 1).headers,
            split_commas(trim_spec(lines[n - 1])),
        ));
    } else {
        lemma_rows_from_index(lines, name, n - 1, j);
        let i = choose|i: int|
            0 <= i < n - 1 && contributes_row(lines, i, name) && rows_from(lines, name, n - 1)[j]
                == row_of(state_before(lines, i).headers, split_commas(trim_spec(lines[i])));
        assert(rows_from(lines, name, n)[j] == rows_from(lines, name, n - 1)[j]);
        assert(0 <= i < n && contributes_row(lines, i, name) && rows_from(lines, name, n)[j]
            == row_of(state_before(lines, i).headers, split_commas(trim_spec(lines[i]))));
    }
}

/// LAW: the rows recorded for a table are exactly, in file order, the rows
/// of its contributing lines: each is the header list active at that line
/// zipped with the line's trimmed fields.
pub proof fn lemma_rows_are_the_matching_lines(lines: Seq<Seq<char>>, name: Seq<char>)
    requires
        parse_tbe_spec(lines).contains_key(name),
    ensures
        parse_tbe_spec(lines)[name].rows == rows_from(lines, name, lines.len() as int),
{
    lemma_rows_from_invariant(lines, name, lines.len() as int);
    assert(lines.subrange(0, lines.len() as int) =~= lines);
}

/// LAW: every parsed row's keys are exactly the header list active when the
/// row was captured: the row stems from a contributing line, and its keys
/// are the headers in effect at that line — no other key, none missing.
pub proof fn lemma_row_keys_are_captured_headers(lines: Seq<Seq<char>>, name: Seq<char>, j: int)
    requires
        parse_tbe_spec(lines).contains_key(name),
        0 <= j < parse_tbe_spec(lines)[name].rows.len(),
    ensures
        exists|i: int|
            contributes_row(lines, i, name) && row_keys(parse_tbe_spec(lines)[name].rows[j])
                == state_before(lines, i).headers,
{
    lemma_rows_are_the_matching_lines(lines, name);
    lemma_rows_from_index(lines, name, lines.len() as int, j);
    let i = choose|i: int|
        0 <= i < lines.len() && contributes_row(lines, i, name) && rows_from(
            lines,
            name,
            lines.len() as int,
        )[j] == row_of(state_before(lines, i).headers, split_commas(trim_spec(lines[i])));
    assert(row_keys(row_of(state_before(lines, i).headers, split_commas(trim_spec(lines[i]))))
        =~= state_before(lines, i).headers);
    assert(contributes_row(lines, i, name) && row_keys(parse_tbe_spec(lines)[name].rows[j])
        == state_before(lines, i).headers);
}

/// LAW: for every input, the number of rows recorded for a table equals the
/// number of lines that contribute a row to it: the lines between a
/// `BGN`/`EOT` pair, matching no marker, whose comma field count equals the
/// header count in effect at that point while that table is selected.
pub proof fn lemma_rows_equal_matching_lines(lines: Seq<Seq<char>>, name: Seq<char>)
    requires
        parse_tbe_spec(lines).contains_key(name),
    ensures
        parse_tbe_spec(lines)[name].rows.len() == row_count(lines, name, lines.len() as int),
{
    lemma_row_count_invariant(lines, name, lines.len() as int);
    assert(lines.subrange(0, lines.len() as int) =~= lines);
}

/// LAW: a step never rewrites or drops a captured row, and every row it
/// appends carries as its keys exactly the header list active when the row
/// is parsed — no more and no fewer.
pub proof fn lemma_row_keys_match_active_headers(s: StateModel, line: Seq<char>, name: Seq<char>)
    ensures
        ({
            let s2 = step_line(s, line);
            let before = if s.tables.contains_key(name) {
                s.tables[name].rows
            } else {
                Seq::<Seq<(Seq<char>, Seq<char>)>>::empty()
            };
            s2.tables.contains_key(name) ==> {
                let after = s2.tables[name].rows;
                &&& before.len() <= after.len()
                &&& after.subrange(0, before.len() as int) == before
                &&& forall|j: int|
                    before.len() <= j < after.len() ==> row_keys(after[j]) == s.headers
            }
        }),
{
    let s2 = step_line(s, line);
    let t = trim_spec(line);
    let parts = split_commas(t);
    if s2.tables.contains_key(name) {
        let after = s2.tables[name].rows;
        if s.tables.contains_key(name) {
            let before = s.tables[name].rows;
            if after == before.push(row_of(s.headers, parts)) {
                assert(after.subrange(0, before.len() as int) =~= before);
                assert(row_keys(row_of(s.headers, parts)) =~= s.headers);
            } else {
                assert(after == before);
                assert(after.subrange(0, before.len() as int) =~= before);
            }
        } else {
            assert(after.len() == 0);
            assert(after.subrange(0, 0) =~= Seq::<Seq<(Seq<char>, Seq<char>)>>::empty());
        }
    }
}

/// LAW: attribute entries overwrite by name. Parsing two effective `ATT`
/// lines that carry the same name, for the same selected table, leaves a
/// single entry holding only the second line's values.
pub proof fn lemma_att_overwrite(s: StateModel, l1: Seq<char>, l2: Seq<char>)
    requires
        is_att_line(trim_spec(l1)),
        is_att_line(trim_spec(l2)),
        split_commas(trim_spec(l1)).len() > 2,
        split_commas(trim_spec(l2)).len() > 2,
        trim_spec(split_commas(trim_spec(l1))[1]) == trim_spec(split_commas(trim_spec(l2))[1]),
        s.tables.contains_key(s.current),
    ensures
        ({
            let s2 = step_line(step_line(s, l1), l2);
            let key = trim_spec(split_commas(trim_spec(l2))[1]);
            &&& s2.tables[s.current].att.contains_key(key)
            &&& s2.tables[s.current].att[key] == meta_values(split_commas(trim_spec(l2)))
        }),
{
}

/// LAW: a line that matches no marker changes nothing while the scan is not
/// capturing, whatever its field count.
pub proof fn lemma_ignored_outside_capture(s: StateModel, line: Seq<char>)
    requires
        !s.capturing,
        is_plain_line(trim_spec(line)),
    ensures
        step_line(s, line) == s,
{
}

/// LAW: a malformed row — a line that matches no marker whose field count
/// differs from the active header count — changes nothing at all: no row
/// appears, and headers, capture flag and tables stay as they were.
pub proof fn lemma_malformed_row_skipped(s: StateModel, line: Seq<char>)
    requires
        is_plain_line(trim_spec(line)),
        split_commas(trim_spec(line)).len() != s.headers.len(),
    ensures
        step_line(s, line) == s,
{
}

/// LAW: no line removes a table: a name present in the mapping stays
/// present through every later line.
pub proof fn lemma_tables_never_removed(s: StateModel, lines: Seq<Seq<char>>, name: Seq<char>)
    requires
        s.tables.contains_key(name),
    ensures
        run_lines(s, lines).tables.contains_key(name),
    decreases lines.len(),
{
    if lines.len() > 0 {
        lemma_tables_never_removed(s, lines.drop_last(), name);
    }
}

/// LAW: a `TBL` line that re-declares an existing table name preserves that
/// table's captured rows, attributes and comments exactly; only the selected
/// name and the active headers change.
pub proof fn lemma_redeclare_preserves_table(s: StateModel, line: Seq<char>)
    requires
        is_tbl_line(trim_spec(line)),
        split_commas(trim_spec(line)).len() > 1,
        s.tables.contains_key(second_token_spec(split_commas(trim_spec(line))[0])),
    ensures
        ({
            let parts = split_commas(trim_spec(line));
            let name = second_token_spec(parts[0]);
            let s2 = step_line(s, line);
            &&& s2.tables == s.tables
            &&& s2.tables[name] == s.tables[name]
            &&& s2.current == name
            &&& s2.headers == headers_of(parts)
            &&& s2.capturing == s.capturing
        }),
{
}

} // verus!
