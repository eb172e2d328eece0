use tbe_parser::parse_tbe;
use tbe_parser::Table;

fn lines(xs: &[&str]) -> Vec<String> {
    let mut v: Vec<String> = Vec::new();
    for x in xs {
        v.push(x.to_string());
    }
    v
}

fn att_of<'a>(t: &'a Table, name: &str) -> Option<&'a Vec<String>> {
    for (k, vs) in t.att.iter() {
        if k == name {
            return Some(vs);
        }
    }
    None
}

fn cmt_of<'a>(t: &'a Table, name: &str) -> Option<&'a Vec<String>> {
    for (k, vs) in t.cmt.iter() {
        if k == name {
            return Some(vs);
        }
    }
    None
}

#[test]
fn one_table_one_row() {
    let input = lines(&["TBL A, x, y", "BGN", "1, 2", "EOT"]);
    let tables = parse_tbe(&input);
    assert_eq!(tables.len(), 1);
    let t = tables.get("A").expect("table A");
    assert_eq!(t.data.len(), 1);
    let row = &t.data[0];
    assert_eq!(row.len(), 2);
    assert_eq!(row[0].0, "x");
    assert_eq!(row[0].1, "1");
    assert_eq!(row[1].0, "y");
    assert_eq!(row[1].1, "2");
    assert_eq!(t.att.len(), 0);
    assert_eq!(t.cmt.len(), 0);
}

#[test]
fn field_count_mismatch_drops_row() {
    let input = lines(&["TBL A, x, y", "BGN", "1, 2, 3", "EOT"]);
    let tables = parse_tbe(&input);
    let t = tables.get("A").expect("table A");
    assert_eq!(t.data.len(), 0);
}

#[test]
fn att_before_any_table_is_dropped() {
    let input = lines(&["ATT foo, bar", "TBL A, x", "BGN", "1", "EOT"]);
    let tables = parse_tbe(&input);
    let t = tables.get("A").expect("table A");
    assert_eq!(t.att.len(), 0);
    assert_eq!(t.data.len(), 1);
    assert_eq!(t.data[0][0].0, "x");
    assert_eq!(t.data[0][0].1, "1");
}

#[test]
fn att_name_is_second_comma_field() {
    let input = lines(&["TBL A, x", "ATT foo, bar, baz", "BGN", "1", "EOT"]);
    let tables = parse_tbe(&input);
    let t = tables.get("A").expect("table A");
    assert_eq!(t.att.len(), 1);
    let vs = att_of(t, "bar").expect("attribute bar");
    assert_eq!(vs, &vec!["baz".to_string()]);
    assert_eq!(t.data.len(), 1);
    assert_eq!(t.data[0][0].0, "x");
    assert_eq!(t.data[0][0].1, "1");
}

#[test]
fn att_on_selected_table_is_recorded() {
    let input = lines(&["TBL A, x", "ATT, foo, bar, baz", "BGN", "1", "EOT"]);
    let tables = parse_tbe(&input);
    let t = tables.get("A").expect("table A");
    assert_eq!(t.att.len(), 1);
    let vs = att_of(t, "foo").expect("attribute foo");
    assert_eq!(vs, &vec!["bar".to_string(), "baz".to_string()]);
    assert_eq!(t.data.len(), 1);
}

#[test]
fn att_with_same_name_overwrites() {
    let input = lines(&["TBL A, x", "ATT, foo, one, two", "ATT, foo, three", "BGN", "EOT"]);
    let tables = parse_tbe(&input);
    let t = tables.get("A").expect("table A");
    assert_eq!(t.att.len(), 1);
    let vs = att_of(t, "foo").expect("attribute foo");
    assert_eq!(vs, &vec!["three".to_string()]);
}

#[test]
fn effective_att_before_any_table_is_dropped() {
    let input = lines(&["ATT, foo, bar", "TBL A, x"]);
    let tables = parse_tbe(&input);
    let t = tables.get("A").expect("table A");
    assert_eq!(t.att.len(), 0);
}

#[test]
fn att_with_too_few_fields_is_ignored() {
    let input = lines(&["TBL A, x", "ATT foo", "ATT bar, only-two", "EOT"]);
    let tables = parse_tbe(&input);
    let t = tables.get("A").expect("table A");
    assert_eq!(t.att.len(), 0);
}

#[test]
fn cmt_behaves_like_att() {
    let input = lines(&["TBL A, x", "CMT note, first", "CMT, note, second, third"]);
    let tables = parse_tbe(&input);
    let t = tables.get("A").expect("table A");
    assert_eq!(t.att.len(), 0);
    assert_eq!(t.cmt.len(), 1);
    let vs = cmt_of(t, "note").expect("comment note");
    assert_eq!(vs, &vec!["second".to_string(), "third".to_string()]);
}

#[test]
fn rows_outside_capture_are_ignored() {
    let input = lines(&["TBL A, x, y", "1, 2", "BGN", "3, 4", "EOT", "5, 6"]);
    let tables = parse_tbe(&input);
    let t = tables.get("A").expect("table A");
    assert_eq!(t.data.len(), 1);
    assert_eq!(t.data[0][0].1, "3");
    assert_eq!(t.data[0][1].1, "4");
}

#[test]
fn capture_resumes_after_second_bgn() {
    let input = lines(&["TBL A, x", "BGN", "1", "EOT", "skipped", "BGN", "2", "EOT"]);
    let tables = parse_tbe(&input);
    let t = tables.get("A").expect("table A");
    assert_eq!(t.data.len(), 2);
    assert_eq!(t.data[0][0].1, "1");
    assert_eq!(t.data[1][0].1, "2");
}

#[test]
fn tbl_without_comma_is_ignored() {
    let input = lines(&["TBL Lonely", "BGN", "1", "EOT"]);
    let tables = parse_tbe(&input);
    assert_eq!(tables.len(), 0);
}

#[test]
fn redeclaring_a_table_keeps_its_data() {
    let input = lines(&[
        "TBL A, x",
        "ATT, unit, ppm",
        "BGN",
        "1",
        "EOT",
        "TBL A, y, z",
        "BGN",
        "2, 3",
        "EOT",
    ]);
    let tables = parse_tbe(&input);
    assert_eq!(tables.len(), 1);
    let t = tables.get("A").expect("table A");
    assert_eq!(t.data.len(), 2);
    assert_eq!(t.data[0].len(), 1);
    assert_eq!(t.data[0][0].0, "x");
    assert_eq!(t.data[0][0].1, "1");
    assert_eq!(t.data[1].len(), 2);
    assert_eq!(t.data[1][0].0, "y");
    assert_eq!(t.data[1][0].1, "2");
    assert_eq!(t.data[1][1].0, "z");
    assert_eq!(t.data[1][1].1, "3");
    let vs = att_of(t, "unit").expect("attribute unit");
    assert_eq!(vs, &vec!["ppm".to_string()]);
}

#[test]
fn tokens_are_trimmed() {
    let input = lines(&["  TBL   A  ,  x ,  y ", "BGN", "  1 , 2  ", "EOT"]);
    let tables = parse_tbe(&input);
    let t = tables.get("A").expect("table A");
    assert_eq!(t.data.len(), 1);
    assert_eq!(t.data[0][0].0, "x");
    assert_eq!(t.data[0][0].1, "1");
    assert_eq!(t.data[0][1].0, "y");
    assert_eq!(t.data[0][1].1, "2");
}

#[test]
fn table_name_is_second_whitespace_token() {
    let input = lines(&["TBL One Two, x", "BGN", "9", "EOT"]);
    let tables = parse_tbe(&input);
    assert_eq!(tables.len(), 1);
    let t = tables.get("One").expect("table One");
    assert_eq!(t.data.len(), 1);
    assert_eq!(t.data[0][0].1, "9");
}

#[test]
fn tbl_with_comma_but_no_name_selects_empty_name() {
    let input = lines(&["TBL , x", "BGN", "7", "EOT"]);
    let tables = parse_tbe(&input);
    assert_eq!(tables.len(), 1);
    let t = tables.get("").expect("nameless table");
    assert_eq!(t.data.len(), 1);
    assert_eq!(t.data[0][0].0, "x");
    assert_eq!(t.data[0][0].1, "7");
}

#[test]
fn blank_line_while_capturing_matches_single_header() {
    let input = lines(&["TBL A, x", "BGN", "", "EOT"]);
    let tables = parse_tbe(&input);
    let t = tables.get("A").expect("table A");
    assert_eq!(t.data.len(), 1);
    assert_eq!(t.data[0][0].0, "x");
    assert_eq!(t.data[0][0].1, "");
}

#[test]
fn blank_lines_outside_capture_are_ignored() {
    let input = lines(&["", "TBL A, x", "", "BGN", "1", "EOT", ""]);
    let tables = parse_tbe(&input);
    let t = tables.get("A").expect("table A");
    assert_eq!(t.data.len(), 1);
}

#[test]
fn empty_input_yields_no_tables() {
    let input: Vec<String> = Vec::new();
    let tables = parse_tbe(&input);
    assert_eq!(tables.len(), 0);
}

#[test]
fn two_tables_collect_their_own_rows() {
    let input = lines(&[
        "TBL A, x",
        "BGN",
        "1",
        "EOT",
        "TBL B, u, v",
        "ATT, kind, raw",
        "BGN",
        "2, 3",
        "4, 5",
        "EOT",
    ]);
    let tables = parse_tbe(&input);
    assert_eq!(tables.len(), 2);
    let a = tables.get("A").expect("table A");
    assert_eq!(a.data.len(), 1);
    assert_eq!(a.att.len(), 0);
    let b = tables.get("B").expect("table B");
    assert_eq!(b.data.len(), 2);
    assert_eq!(b.data[1][1].1, "5");
    let vs = att_of(b, "kind").expect("attribute kind");
    assert_eq!(vs, &vec!["raw".to_string()]);
}

#[test]
fn marker_matches_as_a_prefix_of_the_first_word() {
    let input = lines(&["TBLish A, x", "BGN", "1", "EOT"]);
    let tables = parse_tbe(&input);
    assert_eq!(tables.len(), 1);
    let t = tables.get("A").expect("table A");
    assert_eq!(t.data.len(), 1);
    assert_eq!(t.data[0][0].0, "x");
}

#[test]
fn empty_header_fields_are_kept() {
    let input = lines(&["TBL A, x, , y", "BGN", "1, 2, 3", "EOT"]);
    let tables = parse_tbe(&input);
    let t = tables.get("A").expect("table A");
    assert_eq!(t.data.len(), 1);
    let row = &t.data[0];
    assert_eq!(row.len(), 3);
    assert_eq!(row[1].0, "");
    assert_eq!(row[1].1, "2");
    assert_eq!(row[2].0, "y");
    assert_eq!(row[2].1, "3");
}

#[test]
fn rows_between_tbl_lines_follow_the_active_table() {
    let input = lines(&["TBL A, x", "BGN", "1", "TBL B, y", "2", "EOT"]);
    let tables = parse_tbe(&input);
    let a = tables.get("A").expect("table A");
    let b = tables.get("B").expect("table B");
    assert_eq!(a.data.len(), 1);
    assert_eq!(a.data[0][0].0, "x");
    assert_eq!(a.data[0][0].1, "1");
    assert_eq!(b.data.len(), 1);
    assert_eq!(b.data[0][0].0, "y");
    assert_eq!(b.data[0][0].1, "2");
}
