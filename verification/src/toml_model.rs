//! The shape of a parsed configuration document.
//!
//! A document is a tree of tables whose values are scalars or nested tables.
//! The tree is held as an arena: `TomlDoc` owns every table, and a nested
//! table appears in its parent as a handle (an index into the arena).  A
//! well-formed document was built bottom-up, so every handle points strictly
//! below the table that holds it; recursion over handles therefore
//! terminates.
//!
//! Only the value shapes the tree builder reads are distinguished: strings,
//! booleans and nested tables.  Every other scalar (integer, float, date,
//! array) is `ScalarOther`.

use vstd::prelude::*;

verus! {

/// One value in a configuration table.
#[derive(Debug, Clone, PartialEq, Eq)]
pub enum TomlValue {
    /// A string scalar.
    ScalarString(String),
    /// A boolean scalar.
    ScalarBool(bool),
    /// Any other scalar (integer, float, date, array): the tree builder never
    /// reads its contents.
    ScalarOther,
    /// A nested table, as a handle into [`TomlDoc::tables`].
    SubTable(usize),
}

/// One key-value pair of a table.
#[derive(Debug, Clone, PartialEq, Eq)]
pub struct TomlEntry {
    pub key: String,
    pub value: TomlValue,
}

/// One table: its entries in document order.
#[derive(Debug, Clone, PartialEq, Eq)]
pub struct TomlTable {
    pub entries: Vec<TomlEntry>,
}

/// A whole parsed document: an arena of tables and the handle of the
/// top-level table.
#[derive(Debug, Clone, PartialEq, Eq)]
pub struct TomlDoc {
    pub tables: Vec<TomlTable>,
    pub root: usize,
}

/// The value of the first entry named `key`, if any.
pub open spec fn lookup_entries(es: Seq<TomlEntry>, key: Seq<char>) -> Option<TomlValue>
    decreases es.len(),
{
    if es.len() == 0 {
        None
    } else if es[0].key@ == key {
        Some(es[0].value)
    } else {
        lookup_entries(es.drop_first(), key)
    }
}

/// The handles of the nested tables among `es`, in entry order.
pub open spec fn sub_handles(es: Seq<TomlEntry>) -> Seq<int>
    decreases es.len(),
{
    if es.len() == 0 {
        Seq::empty()
    } else {
        let prefix = sub_handles(es.drop_last());
        match es.last().value {
            TomlValue::SubTable(h) => prefix.push(h as int),
            _ => prefix,
        }
    }
}

impl TomlTable {
    /// The value of the first entry named `key`, if any.
    pub open spec fn lookup(self, key: Seq<char>) -> Option<TomlValue> {
        lookup_entries(self.entries@, key)
    }

    /// Looks a key up in this table.
    pub fn get<'a>(&'a self, key: &String) -> (r: Option<&'a TomlValue>)
        ensures
            match r {
                Some(v) => self.lookup(key@) == Some(*v),
                None => self.lookup(key@) is None,
            },
    {
        let n = self.entries.len();
        let mut i: usize = 0;
        proof {
            assert(self.entries@.skip(0) =~= self.entries@);
        }
        while i < n
            invariant
                n == self.entries@.len(),
                i <= n,
                lookup_entries(self.entries@.skip(i as int), key@) == self.lookup(key@),
            decreases n - i,
        {
            if self.entries[i].key.eq(key) {
                proof {
                    assert(self.entries@.skip(i as int)[0] == self.entries@[i as int]);
                }
                return Some(&self.entries[i].value);
            }
            proof {
                assert(self.entries@.skip(i as int).drop_first() =~= self.entries@.skip(
                    i as int + 1,
                ));
                assert(self.entries@.skip(i as int)[0] == self.entries@[i as int]);
            }
            i = i + 1;
        }
        proof {
            assert(self.entries@.skip(n as int) =~= Seq::<TomlEntry>::empty());
        }
        None
    }
}

/// A found value is the value of some entry with that key.
pub proof fn lemma_lookup_is_entry(es: Seq<TomlEntry>, key: Seq<char>)
    requires
        lookup_entries(es, key) is Some,
    ensures
        exists|i: int|
            0 <= i < es.len() && (#[trigger] es[i]).key@ == key && es[i].value == lookup_entries(
                es,
                key,
            )->Some_0,
    decreases es.len(),
{
    if es.len() > 0 && es[0].key@ != key {
        lemma_lookup_is_entry(es.drop_first(), key);
        let i = choose|i: int|
            0 <= i < es.drop_first().len() && (#[trigger] es.drop_first()[i]).key@ == key
                && es.drop_first()[i].value == lookup_entries(es.drop_first(), key)->Some_0;
        assert(es[i + 1] == es.drop_first()[i]);
    }
}

impl TomlDoc {
    /// Every nested-table handle of table `i` points strictly below `i`.
    pub open spec fn table_wf(self, i: int) -> bool {
        forall|j: int|
            0 <= j < self.tables@[i].entries@.len() ==> match #[trigger] self.tables@[i].entries@[j].value {
                TomlValue::SubTable(h) => (h as int) < i,
                _ => true,
            }
    }

    /// The document was built bottom-up: handles point below their table, and
    /// the root handle is in range.
    pub open spec fn wf(self) -> bool {
        &&& (self.root as int) < self.tables@.len()
        &&& forall|i: int| 0 <= i < self.tables@.len() ==> self.table_wf(i)
    }
}

} // verus!
