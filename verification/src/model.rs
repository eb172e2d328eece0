//! The mathematical model of the TBE parse: a ghost state holding the table
//! mapping built so far together with the scan context (selected table name,
//! active headers, capture flag), and a transition function `step_line` that
//! says exactly what one input line does to that state. A whole parse is the
//! fold `run_lines` of the transition over the input lines.

use vstd::prelude::*;
use crate::text::{second_token_spec, split_commas, trim_spec};

verus! {

/// The model of one named table: the captured rows in file order, each an
/// ordered list of header/value pairs, and the attribute and comment maps.
#[verifier::ext_equal]
pub struct TableModel {
    pub rows: Seq<Seq<(Seq<char>, Seq<char>)>>,
    pub att: Map<Seq<char>, Seq<Seq<char>>>,
    pub cmt: Map<Seq<char>, Seq<Seq<char>>>,
}

/// The model of the parse state: the tables built so far, the name selected
/// by the last effective `TBL` line, the active headers, and whether the scan
/// stands between a `BGN` and the next `EOT`.
#[verifier::ext_equal]
pub struct StateModel {
    pub tables: Map<Seq<char>, TableModel>,
    pub current: Seq<char>,
    pub headers: Seq<Seq<char>>,
    pub capturing: bool,
}

pub open spec fn empty_table_model() -> TableModel {
    TableModel { rows: Seq::empty(), att: Map::empty(), cmt: Map::empty() }
}

/// The state before any line is read: no tables, no selected name, no
/// headers, not capturing.
pub open spec fn init_state() -> StateModel {
    StateModel {
        tables: Map::empty(),
        current: Seq::empty(),
        headers: Seq::empty(),
        capturing: false,
    }
}

/// A trimmed line beginning with the three marker characters.
pub open spec fn has_marker(t: Seq<char>, c0: char, c1: char, c2: char) -> bool {
    t.len() >= 3 && t[0] == c0 && t[1] == c1 && t[2] == c2
}

pub open spec fn is_tbl_line(t: Seq<char>) -> bool {
    has_marker(t, 'T', 'B', 'L')
}

pub open spec fn is_bgn_line(t: Seq<char>) -> bool {
    has_marker(t, 'B', 'G', 'N')
}

pub open spec fn is_eot_line(t: Seq<char>) -> bool {
    has_marker(t, 'E', 'O', 'T')
}

pub open spec fn is_att_line(t: Seq<char>) -> bool {
    has_marker(t, 'A', 'T', 'T')
}

pub open spec fn is_cmt_line(t: Seq<char>) -> bool {
    has_marker(t, 'C', 'M', 'T')
}

/// A line that matches none of the five markers once trimmed: a data row
/// while capturing, ignored otherwise.
pub open spec fn is_plain_line(t: Seq<char>) -> bool {
    !is_tbl_line(t) && !is_bgn_line(t) && !is_eot_line(t) && !is_att_line(t) && !is_cmt_line(t)
}

/// The headers declared by a `TBL` line: every comma field after the first,
/// trimmed.
pub open spec fn headers_of(parts: Seq<Seq<char>>) -> Seq<Seq<char>> {
    Seq::new((parts.len() - 1) as nat, |i: int| trim_spec(parts[i + 1]))
}

/// The values of an `ATT` or `CMT` line: every comma field after the second,
/// trimmed.
pub open spec fn meta_values(parts: Seq<Seq<char>>) -> Seq<Seq<char>> {
    Seq::new((parts.len() - 2) as nat, |i: int| trim_spec(parts[i + 2]))
}

/// A captured row: the active headers zipped with the trimmed fields.
pub open spec fn row_of(headers: Seq<Seq<char>>, parts: Seq<Seq<char>>) -> Seq<
    (Seq<char>, Seq<char>),
> {
    Seq::new(headers.len(), |i: int| (headers[i], trim_spec(parts[i])))
}

/// The key list of a row record.
pub open spec fn row_keys(row: Seq<(Seq<char>, Seq<char>)>) -> Seq<Seq<char>> {
    row.map(|i: int, p: (Seq<char>, Seq<char>)| p.0)
}

/// The table with one attribute entry overwritten.
pub open spec fn with_att(tb: TableModel, name: Seq<char>, vals: Seq<Seq<char>>) -> TableModel {
    TableModel { att: tb.att.insert(name, vals), ..tb }
}

/// The table with one comment entry overwritten.
pub open spec fn with_cmt(tb: TableModel, name: Seq<char>, vals: Seq<Seq<char>>) -> TableModel {
    TableModel { cmt: tb.cmt.insert(name, vals), ..tb }
}

/// The table with one row appended.
pub open spec fn with_row(tb: TableModel, row: Seq<(Seq<char>, Seq<char>)>) -> TableModel {
    TableModel { rows: tb.rows.push(row), ..tb }
}

/// A `TBL` line with at least one comma selects the table named by the second
/// whitespace token of the first field, creating it empty if it is new, and
/// replaces the active headers; without a comma it changes nothing.
pub open spec fn step_tbl(s: StateModel, t: Seq<char>) -> StateModel {
    let parts = split_commas(t);
    if parts.len() > 1 {
        let name = second_token_spec(parts[0]);
        let tables = if s.tables.contains_key(name) {
            s.tables
        } else {
            s.tables.insert(name, empty_table_model())
        };
        StateModel { tables, current: name, headers: headers_of(parts), capturing: s.capturing }
    } else {
        s
    }
}

/// An `ATT` or `CMT` line with at least three fields stores its trimmed
/// values under its trimmed name in the selected table, overwriting any
/// earlier entry of that name; with fewer fields, or while no selected table
/// exists, it changes nothing.
pub open spec fn step_meta(s: StateModel, t: Seq<char>, att: bool) -> StateModel {
    let parts = split_commas(t);
    if parts.len() > 2 && s.tables.contains_key(s.current) {
        let name = trim_spec(parts[1]);
        let tb = s.tables[s.current];
        let tb2 = if att {
            with_att(tb, name, meta_values(parts))
        } else {
            with_cmt(tb, name, meta_values(parts))
        };
        StateModel { tables: s.tables.insert(s.current, tb2), ..s }
    } else {
        s
    }
}

/// A plain line while capturing is appended to the selected table as a row
/// when its field count equals the header count; on a mismatch, or while no
/// selected table exists, it changes nothing.
pub open spec fn step_row(s: StateModel, t: Seq<char>) -> StateModel {
    let parts = split_commas(t);
    if parts.len() == s.headers.len() && s.tables.contains_key(s.current) {
        let tb = s.tables[s.current];
        let tb2 = with_row(tb, row_of(s.headers, parts));
        StateModel { tables: s.tables.insert(s.current, tb2), ..s }
    } else {
        s
    }
}

/// What one raw input line does to the parse state. The line is trimmed and
/// then the first matching marker rule wins; a plain line is a data row only
/// while capturing, and is ignored otherwise.
pub open spec fn step_line(s: StateModel, line: Seq<char>) -> StateModel {
    let t = trim_spec(line);
    if is_tbl_line(t) {
        step_tbl(s, t)
    } else if is_bgn_line(t) {
        StateModel { capturing: true, ..s }
    } else if is_eot_line(t) {
        StateModel { capturing: false, ..s }
    } else if is_att_line(t) {
        step_meta(s, t, true)
    } else if is_cmt_line(t) {
        step_meta(s, t, false)
    } else if s.capturing {
        step_row(s, t)
    } else {
        s
    }
}

/// The state after feeding every line of `lines`, in order, to `step_line`,
/// starting from `s`.
pub open spec fn run_lines(s: StateModel, lines: Seq<Seq<char>>) -> StateModel
    decreases lines.len(),
{
    if lines.len() == 0 {
        s
    } else {
        step_line(run_lines(s, lines.drop_last()), lines.last())
    }
}

/// The table mapping that parsing `lines` produces.
pub open spec fn parse_tbe_spec(lines: Seq<Seq<char>>) -> Map<Seq<char>, TableModel> {
    run_lines(init_state(), lines).tables
}

} // verus!
