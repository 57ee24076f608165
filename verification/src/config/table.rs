//! A table of a configuration file: values under names.

use vstd::prelude::*;
use crate::find::last_where;
use crate::text::same_text;

verus! {

/// One line of a table.
#[derive(Debug)]
pub struct TableRow<V> {
    pub key: String,
    pub value: V,
}

/// The lines of a table in the order in which they were written. Where a
/// name stands twice the later line counts.
#[derive(Debug)]
pub struct StringTable<V> {
    pub rows: Vec<TableRow<V>>,
}

/// The index of the line that counts for `key`.
pub open spec fn row_of<V>(rows: Seq<TableRow<V>>, key: Seq<char>) -> Option<int> {
    last_where(rows, |x: TableRow<V>| x.key@ =~= key)
}

impl<V> StringTable<V> {
    /// The value under `key`, if the table has one.
    pub open spec fn value_of(self, key: Seq<char>) -> Option<V> {
        match row_of(self.rows@, key) {
            Some(i) => Some(self.rows@[i].value),
            None => None,
        }
    }

    /// A table without lines.
    pub fn new() -> (table: StringTable<V>)
        ensures
            table.rows@.len() == 0,
    {
        StringTable { rows: Vec::new() }
    }

    /// Adds a line at the end.
    pub fn insert(&mut self, key: String, value: V)
        ensures
            final(self).rows@ == old(self).rows@.push(TableRow { key, value }),
            final(self).value_of(key@) == Some(value),
    {
        let ghost before = self.rows@;
        self.rows.push(TableRow { key, value });
        assert(self.rows@.drop_last() =~= before);
    }

    /// The value under `key`.
    pub fn get(&self, key: &str) -> (r: Option<&V>)
        ensures
            match r {
                Some(v) => self.value_of(key@) == Some(*v),
                None => self.value_of(key@) is None,
            },
    {
        let mut i: usize = self.rows.len();
        assert(self.rows@.subrange(0, i as int) =~= self.rows@);
        while i > 0
            invariant
                i <= self.rows.len(),
                row_of(self.rows@, key@) == row_of(self.rows@.subrange(0, i as int), key@),
            decreases i,
        {
            proof {
                let t = self.rows@.subrange(0, i as int);
                assert(t.last() == self.rows@[i - 1]);
                assert(t.drop_last() =~= self.rows@.subrange(0, i - 1));
            }
            if same_text(self.rows[i - 1].key.as_str(), key) {
                return Some(&self.rows[i - 1].value);
            }
            i -= 1;
        }
        None
    }
}

} // verus!
