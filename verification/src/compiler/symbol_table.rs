//! The symbol table: an append-only list of entries, searched in insertion order.

use vstd::prelude::*;
use super::table_entry::{TableEntry, TableEntryType};

verus! {

/// The entry for `(symbol, entry_type)` that was inserted first, if there is one.
pub open spec fn lookup(entries: Seq<TableEntry>, symbol: i32, entry_type: TableEntryType) -> Option<
    TableEntry,
>
    decreases entries.len(),
{
    if entries.len() == 0 {
        None
    } else {
        match lookup(entries.drop_last(), symbol, entry_type) {
            Some(e) => Some(e),
            None => if entries.last().names(symbol, entry_type) {
                Some(entries.last())
            } else {
                None
            },
        }
    }
}

/// No two entries share a symbol and a kind.
pub open spec fn distinct(entries: Seq<TableEntry>) -> bool {
    forall|i: int, j: int|
        0 <= i < j < entries.len() ==> !(#[trigger] entries[i]).names(
            (#[trigger] entries[j]).symbol,
            entries[j].entry_type,
        )
}

/// What `lookup` finds is an entry of the table with the key asked for; it finds
/// nothing exactly when no entry has that key.
pub proof fn lemma_lookup(entries: Seq<TableEntry>, symbol: i32, entry_type: TableEntryType)
    ensures
        match lookup(entries, symbol, entry_type) {
            Some(e) => e.names(symbol, entry_type) && entries.contains(e),
            None => forall|i: int|
                0 <= i < entries.len() ==> !(#[trigger] entries[i]).names(symbol, entry_type),
        },
    decreases entries.len(),
{
    if entries.len() > 0 {
        let init = entries.drop_last();
        lemma_lookup(init, symbol, entry_type);
        match lookup(init, symbol, entry_type) {
            Some(e) => {
                let i = choose|i: int| 0 <= i < init.len() && init[i] == e;
                assert(entries[i] == e);
            },
            None => {
                if entries.last().names(symbol, entry_type) {
                    assert(entries[entries.len() - 1] == entries.last());
                } else {
                    assert forall|i: int| 0 <= i < entries.len() implies !(
                    #[trigger] entries[i]).names(symbol, entry_type) by {
                        if i < init.len() {
                            assert(init[i] == entries[i]);
                        }
                    }
                }
            },
        }
    }
}

/// Entries are never changed or removed: what a table finds, every table that
/// extends it finds too.
pub proof fn lemma_lookup_extends(
    entries: Seq<TableEntry>,
    more: Seq<TableEntry>,
    symbol: i32,
    entry_type: TableEntryType,
)
    requires
        lookup(entries, symbol, entry_type) is Some,
    ensures
        lookup(entries + more, symbol, entry_type) == lookup(entries, symbol, entry_type),
    decreases more.len(),
{
    if more.len() == 0 {
        assert(entries + more =~= entries);
    } else {
        lemma_lookup_extends(entries, more.drop_last(), symbol, entry_type);
        assert((entries + more).drop_last() =~= entries + more.drop_last());
    }
}

/// In a table without duplicates, the entry at any index is the one `lookup` finds for its key.
pub proof fn lemma_lookup_at(entries: Seq<TableEntry>, i: int)
    requires
        distinct(entries),
        0 <= i < entries.len(),
    ensures
        lookup(entries, entries[i].symbol, entries[i].entry_type) == Some(entries[i]),
    decreases entries.len(),
{
    let init = entries.drop_last();
    if i < entries.len() - 1 {
        assert(distinct(init)) by {
            assert forall|a: int, b: int| 0 <= a < b < init.len() implies !(#[trigger] init[a]).names(
                (#[trigger] init[b]).symbol,
                init[b].entry_type,
            ) by {
                assert(init[a] == entries[a] && init[b] == entries[b]);
            }
        }
        assert(init[i] == entries[i]);
        lemma_lookup_at(init, i);
    } else {
        lemma_lookup(init, entries[i].symbol, entries[i].entry_type);
        if lookup(init, entries[i].symbol, entries[i].entry_type) is Some {
            let e = lookup(init, entries[i].symbol, entries[i].entry_type)->Some_0;
            let k = choose|k: int| 0 <= k < init.len() && init[k] == e;
            assert(entries[k] == e);
        }
    }
}

/// Appending an entry whose key is new keeps a table free of duplicates.
pub proof fn lemma_distinct_push(entries: Seq<TableEntry>, entry: TableEntry)
    requires
        distinct(entries),
        lookup(entries, entry.symbol, entry.entry_type) is None,
    ensures
        distinct(entries.push(entry)),
{
    lemma_lookup(entries, entry.symbol, entry.entry_type);
    let next = entries.push(entry);
    assert forall|i: int, j: int| 0 <= i < j < next.len() implies !(#[trigger] next[i]).names(
        (#[trigger] next[j]).symbol,
        next[j].entry_type,
    ) by {
        assert(next[i] == entries[i]);
        if j < entries.len() {
            assert(next[j] == entries[j]);
        }
    }
}

/// The symbol table. Entries are written once: there is no update and no removal.
pub struct SymbolTable {
    pub data: Vec<TableEntry>,
}

impl View for SymbolTable {
    type V = Seq<TableEntry>;

    open spec fn view(&self) -> Seq<TableEntry> {
        self.data@
    }
}

impl SymbolTable {
    /// An empty table.
    pub fn new() -> (table: SymbolTable)
        ensures
            table@ == Seq::<TableEntry>::empty(),
    {
        SymbolTable { data: Vec::new() }
    }

    /// Appends `table_entry`. The caller sees to it that its key is not in the table yet.
    pub fn insert(&mut self, table_entry: TableEntry)
        requires
            lookup(old(self)@, table_entry.symbol, table_entry.entry_type) is None,
        ensures
            final(self)@ == old(self)@.push(table_entry),
    {
        self.data.push(table_entry);
    }

    /// A copy of the entry for `(symbol, entry_type)`, found by a scan in insertion order.
    pub fn find(&self, symbol: i32, entry_type: TableEntryType) -> (found: Option<TableEntry>)
        ensures
            found == lookup(self@, symbol, entry_type),
    {
        let mut i: usize = 0;
        while i < self.data.len()
            invariant
                i <= self.data.len(),
                lookup(self@.take(i as int), symbol, entry_type) is None,
            decreases self.data.len() - i,
        {
            let entry = self.data[i];
            let is_symbol = entry.symbol == symbol;
            let is_kind = entry.entry_type == entry_type;
            proof {
                assert(self@.take(i + 1).drop_last() =~= self@.take(i as int));
                assert(self@.take(i + 1).last() == entry);
            }
            if is_symbol && is_kind {
                proof {
                    lemma_lookup_extends(self@.take(i + 1), self@.skip(i + 1), symbol, entry_type);
                    assert(self@.take(i + 1) + self@.skip(i + 1) =~= self@);
                }
                return Some(entry);
            }
            i += 1;
        }
        proof {
            assert(self@.take(i as int) =~= self@);
        }
        None
    }
}

} // verus!
