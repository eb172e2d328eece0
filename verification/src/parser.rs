//! The TBE parser: a single-pass, stateful line scanner. `ParseContext`
//! carries the table mapping under construction together with the scan
//! context, and `step` is proved to perform exactly the model transition
//! `step_line`; `parse_tbe` folds `step` over the input lines.

use vstd::prelude::*;
use vstd::string::StrSliceExecFns;
use crate::model::{
    headers_of, init_state, meta_values, parse_tbe_spec, row_of, run_lines, step_line, StateModel,
};
use crate::tables::{row_view, TableMap};
use crate::text::{split_commas, split_commas_str, strs_view, second_token_str, trim_spec, trim_str};

verus! {

/// The working state of one parse call: the result mapping built so far,
/// the table name selected by the last effective `TBL` line, the active
/// headers, and whether the scan stands between a `BGN` and the next `EOT`.
pub struct ParseContext {
    pub tables: TableMap,
    pub current: String,
    pub headers: Vec<String>,
    pub capturing: bool,
}

impl View for ParseContext {
    type V = StateModel;

    open spec fn view(&self) -> StateModel {
        StateModel {
            tables: self.tables@,
            current: self.current@,
            headers: strs_view(self.headers@),
            capturing: self.capturing,
        }
    }
}

impl ParseContext {
    pub open spec fn wf(&self) -> bool {
        self.tables.wf()
    }

    /// The state before any line is read.
    pub fn new() -> (r: ParseContext)
        ensures
            r@ == init_state(),
            r.wf(),
    {
        let r = ParseContext {
            tables: TableMap::new(),
            current: String::new(),
            headers: Vec::new(),
            capturing: false,
        };
        proof {
            assert(strs_view(r.headers@) =~= Seq::<Seq<char>>::empty());
            assert(r@ =~= init_state());
        }
        r
    }

    /// Consumes one input line, performing the model transition `step_line`.
    pub fn step(&mut self, line: &str)
        requires
            old(self).wf(),
        ensures
            final(self).wf(),
            final(self)@ == step_line(old(self)@, line@),
    {
        let t = trim_str(line);
        let n = t.unicode_len();
        if starts_with_marker(t, n, 'T', 'B', 'L') {
            let parts = split_commas_str(t);
            if parts.len() > 1 {
                let name = second_token_str(parts[0].as_str());
                let mut hs: Vec<String> = Vec::new();
                let mut i: usize = 1;
                while i < parts.len()
                    invariant
                        1 <= i <= parts.len(),
                        hs.len() == i - 1,
                        forall|k: int| 0 <= k < i - 1 ==> hs@[k]@ == trim_spec(
                            strs_view(parts@)[k + 1],
                        ),
                    decreases parts.len() - i,
                {
                    hs.push(trim_str(parts[i].as_str()).to_owned());
                    i = i + 1;
                }
                proof {
                    assert(strs_view(hs@) =~= headers_of(split_commas(t@)));
                }
                self.tables.ensure_table(name.as_str());
                self.current = name;
                self.headers = hs;
                proof {
                    assert(self@ =~= step_line(old(self)@, line@));
                }
            } else {
                proof {
                    assert(self@ =~= step_line(old(self)@, line@));
                }
            }
        } else if starts_with_marker(t, n, 'B', 'G', 'N') {
            self.capturing = true;
            proof {
                assert(self@ =~= step_line(old(self)@, line@));
            }
        } else if starts_with_marker(t, n, 'E', 'O', 'T') {
            self.capturing = false;
            proof {
                assert(self@ =~= step_line(old(self)@, line@));
            }
        } else if starts_with_marker(t, n, 'A', 'T', 'T') {
            self.step_meta(t, true);
            proof {
                assert(self@ =~= step_line(old(self)@, line@));
            }
        } else if starts_with_marker(t, n, 'C', 'M', 'T') {
            self.step_meta(t, false);
            proof {
                assert(self@ =~= step_line(old(self)@, line@));
            }
        } else if self.capturing {
            let parts = split_commas_str(t);
            if parts.len() == self.headers.len() {
                let mut row: Vec<(String, String)> = Vec::new();
                let mut i: usize = 0;
                while i < parts.len()
                    invariant
                        0 <= i <= parts.len(),
                        parts.len() == self.headers.len(),
                        self == old(self),
                        row.len() == i,
                        forall|k: int| 0 <= k < i ==> (#[trigger] row@[k]).0@
                            == self.headers@[k]@ && row@[k].1@ == trim_spec(strs_view(parts@)[k]),
                    decreases parts.len() - i,
                {
                    let h = self.headers[i].clone();
                    let v = trim_str(parts[i].as_str()).to_owned();
                    proof {
                        assert(h@ == self.headers@[i as int]@);
                        assert(v@ == trim_spec(strs_view(parts@)[i as int]));
                    }
                    let ghost old_row = row@;
                    row.push((h, v));
                    proof {
                        assert(row@[i as int] == (h, v));
                        assert forall|k: int| 0 <= k < i + 1 implies (#[trigger] row@[k]).0@
                            == self.headers@[k]@ && row@[k].1@ == trim_spec(
                            strs_view(parts@)[k],
                        ) by {
                            if k < i as int {
                                assert(row@[k] == old_row[k]);
                                assert(old_row[k].0@ == self.headers@[k]@ && old_row[k].1@
                                    == trim_spec(strs_view(parts@)[k]));
                            }
                        }
                    }
                    i = i + 1;
                }
                proof {
                    assert(row_view(row@) =~= row_of(strs_view(self.headers@), split_commas(t@)));
                }
                let name = self.current.clone();
                self.tables.push_row(name.as_str(), row);
                proof {
                    assert(self@ =~= step_line(old(self)@, line@));
                }
            } else {
                proof {
                    assert(self@ =~= step_line(old(self)@, line@));
                }
            }
        } else {
            proof {
                assert(self@ =~= step_line(old(self)@, line@));
            }
        }
    }

    /// Handles an `ATT` or `CMT` line once its marker has matched.
    fn step_meta(&mut self, t: &str, att: bool)
        requires
            old(self).wf(),
        ensures
            final(self).wf(),
            final(self)@ == crate::model::step_meta(old(self)@, t@, att),
            final(self).current == old(self).current,
            final(self).headers == old(self).headers,
            final(self).capturing == old(self).capturing,
    {
        let parts = split_commas_str(t);
        if parts.len() > 2 {
            let key = trim_str(parts[1].as_str()).to_owned();
            let mut vals: Vec<String> = Vec::new();
            let mut i: usize = 2;
            while i < parts.len()
                invariant
                    2 <= i <= parts.len(),
                    vals.len() == i - 2,
                    forall|k: int| 0 <= k < i - 2 ==> vals@[k]@ == trim_spec(
                        strs_view(parts@)[k + 2],
                    ),
                decreases parts.len() - i,
            {
                vals.push(trim_str(parts[i].as_str()).to_owned());
                i = i + 1;
            }
            proof {
                assert(strs_view(vals@) =~= meta_values(split_commas(t@)));
            }
            let name = self.current.clone();
            self.tables.set_meta(name.as_str(), att, key, vals);
            proof {
                assert(self@ =~= crate::model::step_meta(old(self)@, t@, att));
            }
        } else {
            proof {
                assert(self@ =~= crate::model::step_meta(old(self)@, t@, att));
            }
        }
    }
}

/// Tests whether the trimmed line begins with the given three-character
/// marker; `n` is the line's character count.
fn starts_with_marker(t: &str, n: usize, c0: char, c1: char, c2: char) -> (b: bool)
    requires
        n == t@.len(),
    ensures
        b == crate::model::has_marker(t@, c0, c1, c2),
{
    n >= 3 && t.get_char(0) == c0 && t.get_char(1) == c1 && t.get_char(2) == c2
}

/// Parses a sequence of TBE text lines into the mapping from table name to
/// table, exactly as the model's `parse_tbe_spec` describes.
pub fn parse_tbe(lines: &Vec<String>) -> (r: TableMap)
    ensures
        r.wf(),
        r@ == parse_tbe_spec(strs_view(lines@)),
{
    let mut ctx = ParseContext::new();
    let n = lines.len();
    let mut i: usize = 0;
    while i < n
        invariant
            n == lines.len(),
            0 <= i <= n,
            ctx.wf(),
            ctx@ == run_lines(init_state(), strs_view(lines@).subrange(0, i as int)),
        decreases n - i,
    {
        ctx.step(lines[i].as_str());
        proof {
            let lv = strs_view(lines@);
            assert(lv.subrange(0, i + 1).drop_last() =~= lv.subrange(0, i as int));
            assert(lv.subrange(0, i + 1).last() == lv[i as int]);
        }
        i = i + 1;
    }
    proof {
        assert(strs_view(lines@).subrange(0, n as int) =~= strs_view(lines@));
    }
    ctx.tables
}

} // verus!
