//! Entries of the symbol table.

use vstd::prelude::*;

verus! {

/// What a symbol stands for. A symbol's value is unique only together with its kind:
/// the constant `10` and the line number `10` are two entries.
#[derive(Clone, Copy, Debug, PartialEq, Eq, Structural)]
pub enum TableEntryType {
    Constant,
    LineNumber,
    Variable,
}

/// One symbol and where it lives: a data address for a constant or a variable,
/// the address of the line's first instruction for a line number.
#[derive(Clone, Copy, Debug, PartialEq, Eq, Structural)]
pub struct TableEntry {
    pub symbol: i32,
    pub entry_type: TableEntryType,
    pub location: u32,
}

impl TableEntry {
    /// Whether this entry is the one for `symbol` of kind `entry_type`.
    pub open spec fn names(self, symbol: i32, entry_type: TableEntryType) -> bool {
        self.symbol == symbol && self.entry_type == entry_type
    }
}

} // verus!
