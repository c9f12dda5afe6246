//! Loosely typed configuration values, as a configuration document holds them.

use crate::text::same_text;
use vstd::prelude::*;

verus! {

/// One value of a configuration document.
pub enum ConfigValue {
    Text(String),
    Integer(i64),
    Boolean(bool),
    List(Vec<ConfigValue>),
    Table(ConfigTable),
    /// A value of a kind that no option reads.
    Other,
}

/// A key of a table together with its value.
pub struct ConfigEntry {
    pub key: String,
    pub value: ConfigValue,
}

/// A table of a configuration document, in the document's key order.
pub struct ConfigTable {
    pub entries: Vec<ConfigEntry>,
}

/// A `ConfigValue` as a mathematical value.
pub ghost enum ValueView {
    Text(Seq<char>),
    Integer(i64),
    Boolean(bool),
    List(Seq<ValueView>),
    Table(Seq<EntryView>),
    Other,
}

/// A `ConfigEntry` as a mathematical value.
pub ghost struct EntryView {
    pub key: Seq<char>,
    pub value: ValueView,
}

/// What a value holds.
pub open spec fn value_view(value: ConfigValue) -> ValueView
    decreases value,
{
    match value {
        ConfigValue::Text(s) => ValueView::Text(s@),
        ConfigValue::Integer(i) => ValueView::Integer(i),
        ConfigValue::Boolean(b) => ValueView::Boolean(b),
        ConfigValue::List(items) => ValueView::List(
            Seq::new(
                items@.len(),
                |i: int|
                    if 0 <= i < items@.len() {
                        value_view(items@[i])
                    } else {
                        ValueView::Other
                    },
            ),
        ),
        ConfigValue::Table(table) => ValueView::Table(
            Seq::new(
                table.entries@.len(),
                |i: int|
                    if 0 <= i < table.entries@.len() {
                        EntryView {
                            key: table.entries@[i].key@,
                            value: value_view(table.entries@[i].value),
                        }
                    } else {
                        EntryView { key: Seq::<char>::empty(), value: ValueView::Other }
                    },
            ),
        ),
        ConfigValue::Other => ValueView::Other,
    }
}

/// What the items of a list hold.
pub open spec fn list_view(items: Seq<ConfigValue>) -> Seq<ValueView> {
    Seq::new(items.len(), |i: int| value_view(items[i]))
}

/// What the entries of a table hold.
pub open spec fn entries_view(entries: Seq<ConfigEntry>) -> Seq<EntryView> {
    Seq::new(
        entries.len(),
        |i: int| EntryView { key: entries[i].key@, value: value_view(entries[i].value) },
    )
}

impl View for ConfigValue {
    type V = ValueView;

    open spec fn view(&self) -> ValueView {
        value_view(*self)
    }
}

impl View for ConfigEntry {
    type V = EntryView;

    open spec fn view(&self) -> EntryView {
        EntryView { key: self.key@, value: self.value@ }
    }
}

impl View for ConfigTable {
    type V = Seq<EntryView>;

    open spec fn view(&self) -> Seq<EntryView> {
        entries_view(self.entries@)
    }
}

/// A list holds what its items hold.
pub proof fn lemma_list_view(items: Vec<ConfigValue>)
    ensures
        (ConfigValue::List(items))@ == ValueView::List(list_view(items@)),
{
    assert((ConfigValue::List(items))@->List_0 =~= list_view(items@));
}

/// A table as a value holds what its entries hold.
pub proof fn lemma_table_view(table: ConfigTable)
    ensures
        (ConfigValue::Table(table))@ == ValueView::Table(table@),
{
    assert((ConfigValue::Table(table))@->Table_0 =~= table@);
}

/// The value that the latest entry under `key` holds, if there is such an entry.
pub open spec fn lookup(table: Seq<EntryView>, key: Seq<char>) -> Option<ValueView>
    decreases table.len(),
{
    if table.len() == 0 {
        None
    } else if table.last().key == key {
        Some(table.last().value)
    } else {
        lookup(table.drop_last(), key)
    }
}

/// The text under `key`, where the value there is a text.
pub open spec fn text_at(table: Seq<EntryView>, key: Seq<char>) -> Option<Seq<char>> {
    match lookup(table, key) {
        Some(ValueView::Text(s)) => Some(s),
        _ => None,
    }
}

/// The table read as a map from keys to the texts under them; keys with
/// values of another kind are left out.
pub open spec fn texts_by_key(table: Seq<EntryView>) -> Map<Seq<char>, Seq<char>> {
    Map::new(|key: Seq<char>| text_at(table, key) is Some, |key: Seq<char>| text_at(table, key)->0)
}

/// A value that may be missing, as a mathematical value.
pub open spec fn maybe_value(found: Option<&ConfigValue>) -> Option<ValueView> {
    match found {
        Some(value) => Some(value@),
        None => None,
    }
}

impl ConfigTable {
    /// A table without entries.
    pub fn new() -> (table: ConfigTable)
        ensures
            table@ == Seq::<EntryView>::empty(),
    {
        let table = ConfigTable { entries: Vec::new() };
        assert(table@ =~= Seq::<EntryView>::empty());
        table
    }

    /// The value under `key`; of several, the last.
    pub fn get(&self, key: &str) -> (found: Option<&ConfigValue>)
        ensures
            maybe_value(found) == lookup(self@, key@),
    {
        let mut i: usize = self.entries.len();
        assert(self@.subrange(0, i as int) =~= self@);
        while i > 0
            invariant
                i <= self.entries.len(),
                lookup(self@, key@) == lookup(self@.subrange(0, i as int), key@),
            decreases i,
        {
            i -= 1;
            assert(self@.subrange(0, i + 1).drop_last() =~= self@.subrange(0, i as int));
            assert(self@.subrange(0, i + 1).last() == self.entries@[i as int]@);
            if same_text(self.entries[i].key.as_str(), key) {
                return Some(&self.entries[i].value);
            }
        }
        None
    }

    /// The text under `key`, or the empty text where there is none.
    pub fn get_str(&self, key: &str) -> (text: &str)
        ensures
            text@ == match text_at(self@, key@) {
                Some(s) => s,
                None => Seq::<char>::empty(),
            },
    {
        match self.get(key) {
            Some(ConfigValue::Text(s)) => s.as_str(),
            _ => {
                proof {
                    reveal_strlit("");
                    assert(""@ =~= Seq::<char>::empty());
                }
                ""
            },
        }
    }
}

/// Display settings that hold for every game of a catalog.
#[derive(Clone, Copy, Debug, PartialEq, Eq)]
pub struct Settings {
    pub width: u32,
    pub height: u32,
    pub use_gamescope: bool,
}

} // verus!
