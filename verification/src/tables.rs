//! The executable table collection. A table's attribute and comment maps and
//! the mapping from table name to table are association lists whose keys are
//! kept distinct; their view is the mathematical map read off by
//! `assoc_map`, so that later insertions of a key overwrite earlier ones.

use vstd::prelude::*;
use crate::model::{empty_table_model, with_att, with_cmt, with_row, TableModel};
use crate::text::{str_eq, strs_view};

verus! {

/// The map read off an association list: entries nearer the end win.
pub open spec fn assoc_map<V>(es: Seq<(Seq<char>, V)>) -> Map<Seq<char>, V>
    decreases es.len(),
{
    if es.len() == 0 {
        Map::empty()
    } else {
        assoc_map(es.drop_last()).insert(es.last().0, es.last().1)
    }
}

/// No key occurs twice in the association list.
pub open spec fn assoc_distinct<V>(es: Seq<(Seq<char>, V)>) -> bool {
    forall|i: int, j: int| 0 <= i < j < es.len() ==> es[i].0 != es[j].0
}

pub proof fn lemma_assoc_contains<V>(es: Seq<(Seq<char>, V)>, k: Seq<char>)
    ensures
        assoc_map(es).contains_key(k) <==> exists|i: int| 0 <= i < es.len() && es[i].0 == k,
    decreases es.len(),
{
    if es.len() > 0 {
        lemma_assoc_contains(es.drop_last(), k);
        if assoc_map(es).contains_key(k) {
            if es.last().0 == k {
                assert(es[es.len() - 1].0 == k);
            } else {
                let i = choose|i: int| 0 <= i < es.drop_last().len() && es.drop_last()[i].0 == k;
                assert(es[i].0 == k);
            }
        }
        if exists|i: int| 0 <= i < es.len() && es[i].0 == k {
            let i = choose|i: int| 0 <= i < es.len() && es[i].0 == k;
            if i < es.len() - 1 {
                assert(es.drop_last()[i].0 == k);
            }
        }
    }
}

pub proof fn lemma_assoc_index<V>(es: Seq<(Seq<char>, V)>, i: int)
    requires
        assoc_distinct(es),
        0 <= i < es.len(),
    ensures
        assoc_map(es).contains_key(es[i].0),
        assoc_map(es)[es[i].0] == es[i].1,
    decreases es.len(),
{
    if i == es.len() - 1 {
    } else {
        assert(assoc_distinct(es.drop_last())) by {
            assert(forall|p: int, q: int|
                0 <= p < q < es.drop_last().len() ==> es.drop_last()[p] == es[p]
                    && es.drop_last()[q] == es[q]);
        }
        lemma_assoc_index(es.drop_last(), i);
        assert(es.drop_last()[i] == es[i]);
        assert(es[i].0 != es.last().0);
    }
}

pub proof fn lemma_assoc_update<V>(es: Seq<(Seq<char>, V)>, i: int, p: (Seq<char>, V))
    requires
        assoc_distinct(es),
        0 <= i < es.len(),
        p.0 == es[i].0,
    ensures
        assoc_map(es.update(i, p)) == assoc_map(es).insert(p.0, p.1),
        assoc_distinct(es.update(i, p)),
    decreases es.len(),
{
    let up = es.update(i, p);
    assert(forall|q: int| 0 <= q < es.len() && q != i ==> up[q] == es[q]);
    if i == es.len() - 1 {
        assert(up.drop_last() =~= es.drop_last());
        assert(up.last() == p);
        assert(assoc_map(es.drop_last()).insert(p.0, p.1) =~= assoc_map(es.drop_last()).insert(
            es.last().0,
            es.last().1,
        ).insert(p.0, p.1));
    } else {
        assert(assoc_distinct(es.drop_last())) by {
            assert(forall|a: int, b: int|
                0 <= a < b < es.drop_last().len() ==> es.drop_last()[a] == es[a]
                    && es.drop_last()[b] == es[b]);
        }
        assert(es.drop_last()[i] == es[i]);
        lemma_assoc_update(es.drop_last(), i, p);
        assert(up.drop_last() =~= es.drop_last().update(i, p));
        assert(up.last() == es.last());
        assert(p.0 != es.last().0);
        assert(assoc_map(es.drop_last()).insert(p.0, p.1).insert(es.last().0, es.last().1)
            =~= assoc_map(es.drop_last()).insert(es.last().0, es.last().1).insert(p.0, p.1));
    }
}

pub proof fn lemma_assoc_push<V>(es: Seq<(Seq<char>, V)>, p: (Seq<char>, V))
    ensures
        assoc_map(es.push(p)) == assoc_map(es).insert(p.0, p.1),
{
    assert(es.push(p).drop_last() =~= es);
    assert(es.push(p).last() == p);
}

/// One named dataset block: the captured data rows in file order, and the
/// attribute and comment entries attached to the table.
pub struct Table {
    pub data: Vec<Vec<(String, String)>>,
    pub att: Vec<(String, Vec<String>)>,
    pub cmt: Vec<(String, Vec<String>)>,
}

/// The view of one stored row: its header/value pairs, in column order.
pub open spec fn row_view(r: Seq<(String, String)>) -> Seq<(Seq<char>, Seq<char>)> {
    r.map(|i: int, p: (String, String)| (p.0@, p.1@))
}

/// The view of the stored row list.
pub open spec fn rows_view(rs: Seq<Vec<(String, String)>>) -> Seq<Seq<(Seq<char>, Seq<char>)>> {
    rs.map(|i: int, r: Vec<(String, String)>| row_view(r@))
}

/// The viewed entries of an attribute or comment list.
pub open spec fn meta_pairs(es: Seq<(String, Vec<String>)>) -> Seq<(Seq<char>, Seq<Seq<char>>)> {
    es.map(|i: int, p: (String, Vec<String>)| (p.0@, strs_view(p.1@)))
}

impl View for Table {
    type V = TableModel;

    open spec fn view(&self) -> TableModel {
        TableModel {
            rows: rows_view(self.data@),
            att: assoc_map(meta_pairs(self.att@)),
            cmt: assoc_map(meta_pairs(self.cmt@)),
        }
    }
}

impl Table {
    /// The attribute and comment lists never hold a name twice.
    pub open spec fn wf(&self) -> bool {
        assoc_distinct(meta_pairs(self.att@)) && assoc_distinct(meta_pairs(self.cmt@))
    }

    /// An empty table: no rows, no attributes, no comments.
    pub fn empty() -> (r: Table)
        ensures
            r@ == empty_table_model(),
            r.wf(),
            r.data.len() == 0,
            r.att.len() == 0,
            r.cmt.len() == 0,
    {
        let r = Table { data: Vec::new(), att: Vec::new(), cmt: Vec::new() };
        proof {
            assert(rows_view(r.data@) =~= Seq::<Seq<(Seq<char>, Seq<char>)>>::empty());
            assert(r@ =~= empty_table_model()) by {
                assert(r@.rows =~= empty_table_model().rows);
            }
        }
        r
    }
}

/// Overwrites the entry named `key`, or appends it when the name is new.
fn meta_insert(es: &mut Vec<(String, Vec<String>)>, key: String, vals: Vec<String>)
    requires
        assoc_distinct(meta_pairs(old(es)@)),
    ensures
        assoc_distinct(meta_pairs(final(es)@)),
        assoc_map(meta_pairs(final(es)@)) == assoc_map(meta_pairs(old(es)@)).insert(
            key@,
            strs_view(vals@),
        ),
{
    let n = es.len();
    let mut i: usize = 0;
    while i < n && !str_eq(es[i].0.as_str(), key.as_str())
        invariant
            n == es.len(),
            0 <= i <= n,
            es == old(es),
            forall|k: int| 0 <= k < i ==> es@[k].0@ != key@,
        decreases n - i,
    {
        i = i + 1;
    }
    if i < n {
        let ghost old_pairs = meta_pairs(es@);
        let _ = es.remove(i);
        es.insert(i, (key, vals));
        proof {
            assert(es@ =~= old(es)@.update(i as int, es@[i as int]));
            assert(meta_pairs(es@) =~= old_pairs.update(i as int, (key@, strs_view(vals@))));
            lemma_assoc_update(old_pairs, i as int, (key@, strs_view(vals@)));
        }
    } else {
        let ghost old_pairs = meta_pairs(es@);
        es.push((key, vals));
        proof {
            assert(meta_pairs(es@) =~= old_pairs.push((key@, strs_view(vals@))));
            lemma_assoc_push(old_pairs, (key@, strs_view(vals@)));
            assert(assoc_distinct(meta_pairs(es@))) by {
                assert(forall|k: int|
                    0 <= k < old_pairs.len() ==> meta_pairs(es@)[k] == old_pairs[k]);
            }
        }
    }
}

/// The result mapping from table name to table, built as an association
/// list with distinct names; a name, once present, is never removed.
pub struct TableMap {
    pub entries: Vec<(String, Table)>,
}

/// The viewed entries of the table list.
pub open spec fn table_pairs(es: Seq<(String, Table)>) -> Seq<(Seq<char>, TableModel)> {
    es.map(|i: int, p: (String, Table)| (p.0@, p.1@))
}

impl View for TableMap {
    type V = Map<Seq<char>, TableModel>;

    open spec fn view(&self) -> Map<Seq<char>, TableModel> {
        assoc_map(table_pairs(self.entries@))
    }
}

impl TableMap {
    /// Table names are distinct and every held table is well formed.
    pub open spec fn wf(&self) -> bool {
        assoc_distinct(table_pairs(self.entries@)) && (forall|i: int|
            0 <= i < self.entries@.len() ==> self.entries@[i].1.wf())
    }

    /// An empty mapping.
    pub fn new() -> (r: TableMap)
        ensures
            r@ == Map::<Seq<char>, TableModel>::empty(),
            r.wf(),
    {
        TableMap { entries: Vec::new() }
    }

    fn find(&self, name: &str) -> (r: Option<usize>)
        requires
            self.wf(),
        ensures
            (match r {
                Some(i) => 0 <= i < self.entries@.len() && self.entries@[i as int].0@ == name@
                    && self@.contains_key(name@) && self@[name@] == self.entries@[i as int].1@,
                None => !self@.contains_key(name@) && (forall|k: int|
                    0 <= k < self.entries@.len() ==> self.entries@[k].0@ != name@),
            }),
    {
        let n = self.entries.len();
        let mut i: usize = 0;
        while i < n && !str_eq(self.entries[i].0.as_str(), name)
            invariant
                n == self.entries.len(),
                0 <= i <= n,
                forall|k: int| 0 <= k < i ==> self.entries@[k].0@ != name@,
            decreases n - i,
        {
            i = i + 1;
        }
        if i < n {
            proof {
                assert(table_pairs(self.entries@)[i as int].0 == name@);
                lemma_assoc_index(table_pairs(self.entries@), i as int);
            }
            Some(i)
        } else {
            proof {
                lemma_assoc_contains(table_pairs(self.entries@), name@);
            }
            None
        }
    }

    /// Looks a table up by name.
    pub fn get(&self, name: &str) -> (r: Option<&Table>)
        requires
            self.wf(),
        ensures
            (match r {
                Some(t) => self@.contains_key(name@) && t@ == self@[name@] && t.wf(),
                None => !self@.contains_key(name@),
            }),
    {
        match self.find(name) {
            Some(i) => Some(&self.entries[i].1),
            None => None,
        }
    }

    /// How many tables the mapping holds.
    pub fn len(&self) -> (n: usize)
        ensures
            n == self.entries@.len(),
    {
        self.entries.len()
    }

    /// Inserts an empty table under `name` when the name is new; an existing
    /// table is left exactly as it stands.
    pub fn ensure_table(&mut self, name: &str)
        requires
            old(self).wf(),
        ensures
            final(self).wf(),
            old(self)@.contains_key(name@) ==> final(self)@ == old(self)@,
            !old(self)@.contains_key(name@) ==> final(self)@ == old(self)@.insert(
                name@,
                empty_table_model(),
            ),
            final(self)@.contains_key(name@),
    {
        let found = self.find(name);
        match found {
            Some(_) => (),
            None => {
                let ghost old_pairs = table_pairs(self.entries@);
                let t = Table::empty();
                self.entries.push((name.to_owned(), t));
                proof {
                    assert(table_pairs(self.entries@) =~= old_pairs.push(
                        (name@, empty_table_model()),
                    ));
                    lemma_assoc_push(old_pairs, (name@, empty_table_model()));
                    assert(assoc_distinct(table_pairs(self.entries@))) by {
                        assert(forall|k: int|
                            0 <= k < old_pairs.len() ==> table_pairs(self.entries@)[k]
                                == old_pairs[k]);
                    }
                }
            },
        }
    }

    /// Stores an attribute or comment entry on the table named `name`,
    /// overwriting an earlier entry of the same key; a no-op when no such
    /// table exists.
    pub fn set_meta(&mut self, name: &str, att: bool, key: String, vals: Vec<String>)
        requires
            old(self).wf(),
        ensures
            final(self).wf(),
            old(self)@.contains_key(name@) && att ==> final(self)@ == old(self)@.insert(
                name@,
                with_att(old(self)@[name@], key@, strs_view(vals@)),
            ),
            old(self)@.contains_key(name@) && !att ==> final(self)@ == old(self)@.insert(
                name@,
                with_cmt(old(self)@[name@], key@, strs_view(vals@)),
            ),
            !old(self)@.contains_key(name@) ==> final(self)@ == old(self)@,
    {
        let found = self.find(name);
        match found {
            None => (),
            Some(i) => {
                let ghost old_pairs = table_pairs(self.entries@);
                let mut pair = self.entries.remove(i);
                if att {
                    meta_insert(&mut pair.1.att, key, vals);
                } else {
                    meta_insert(&mut pair.1.cmt, key, vals);
                }
                self.entries.insert(i, pair);
                proof {
                    assert(self.entries@ =~= old(self).entries@.update(
                        i as int,
                        self.entries@[i as int],
                    ));
                    let newpair = (name@, self.entries@[i as int].1@);
                    assert(meta_pairs(self.entries@[i as int].1.att@) =~= meta_pairs(
                        self.entries@[i as int].1.att@,
                    ));
                    assert(table_pairs(self.entries@) =~= old_pairs.update(i as int, newpair));
                    lemma_assoc_update(old_pairs, i as int, newpair);
                }
            },
        }
    }

    /// Appends a data row to the table named `name`; a no-op when no such
    /// table exists.
    pub fn push_row(&mut self, name: &str, row: Vec<(String, String)>)
        requires
            old(self).wf(),
        ensures
            final(self).wf(),
            old(self)@.contains_key(name@) ==> final(self)@ == old(self)@.insert(
                name@,
                with_row(old(self)@[name@], row_view(row@)),
            ),
            !old(self)@.contains_key(name@) ==> final(self)@ == old(self)@,
    {
        let found = self.find(name);
        match found {
            None => (),
            Some(i) => {
                let ghost old_pairs = table_pairs(self.entries@);
                let ghost old_data = self.entries@[i as int].1.data@;
                let mut pair = self.entries.remove(i);
                pair.1.data.push(row);
                self.entries.insert(i, pair);
                proof {
                    assert(self.entries@ =~= old(self).entries@.update(
                        i as int,
                        self.entries@[i as int],
                    ));
                    assert(rows_view(self.entries@[i as int].1.data@) =~= rows_view(
                        old_data,
                    ).push(row_view(row@)));
                    let newpair = (name@, self.entries@[i as int].1@);
                    assert(table_pairs(self.entries@) =~= old_pairs.update(i as int, newpair));
                    lemma_assoc_update(old_pairs, i as int, newpair);
                }
            },
        }
    }
}

} // verus!
