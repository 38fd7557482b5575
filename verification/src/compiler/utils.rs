//! Operands: how a token names a variable or a constant.

use vstd::prelude::*;
use vstd::string::StrSliceExecFns;
use super::table_entry::TableEntryType;
use super::Compiler;
use crate::text::{alphabetic, is_alphabetic, parse_i32, parsed_i32};
use crate::types::{agrees, error_of, ErrorKind, ErrorView, MyError};

verus! {

/// The symbol that `token` names, where `letter` says whether its first character is
/// alphabetic. A single alphabetic character is a variable, named by the
/// character's code. Any other token is a constant if it reads as a signed decimal
/// integer, and names nothing if it does not.
pub open spec fn symbol_of(token: Seq<char>, letter: bool) -> Option<(i32, TableEntryType)> {
    if token.len() == 1 && letter {
        Some((token[0] as i32, TableEntryType::Variable))
    } else {
        match parsed_i32(token, 10) {
            Some(number) => Some((number, TableEntryType::Constant)),
            None => None,
        }
    }
}

/// The symbol that `token` names.
pub open spec fn symbol(token: Seq<char>) -> Option<(i32, TableEntryType)> {
    symbol_of(token, token.len() == 1 && alphabetic(token[0]))
}

/// The symbol that `token` names, or the error for a token that names none.
pub open spec fn symbol_or_error(token: Seq<char>) -> Result<(i32, TableEntryType), ErrorView> {
    match symbol(token) {
        Some(s) => Ok(s),
        None => Err(error_of(ErrorKind::Syntax, "Invalid symbol"@)),
    }
}

/// The symbol that `token` names, given whether its first character is alphabetic.
pub fn classify(token: &str, letter: bool) -> (named: Option<(i32, TableEntryType)>)
    ensures
        named == symbol_of(token@, letter),
{
    if token.unicode_len() == 1 && letter {
        let c = token.get_char(0);
        Some((c as u32 as i32, TableEntryType::Variable))
    } else {
        match parse_i32(token, 10) {
            Some(number) => Some((number, TableEntryType::Constant)),
            None => None,
        }
    }
}

/// The symbol that `token` names.
pub fn read_symbol(token: &str) -> (named: Option<(i32, TableEntryType)>)
    ensures
        named == symbol(token@),
{
    let letter = token.unicode_len() == 1 && is_alphabetic(token.get_char(0));
    classify(token, letter)
}

/// The symbol that `token` names and its kind; an error for a token that is neither
/// a variable nor a constant.
pub fn to_symbol(token: String) -> (named: Result<(i32, TableEntryType), MyError>)
    ensures
        agrees(named, symbol_or_error(token@)),
{
    match read_symbol(token.as_str()) {
        Some(s) => Ok(s),
        None => Err(MyError::new(ErrorKind::Syntax, "Invalid symbol")),
    }
}

impl Compiler {
    /// The symbol that `token` names and its kind. See [`to_symbol`].
    pub fn to_symbol(&self, token: String) -> (named: Result<(i32, TableEntryType), MyError>)
        ensures
            agrees(named, symbol_or_error(token@)),
    {
        to_symbol(token)
    }
}

} // verus!
