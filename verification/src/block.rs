//! A block of code, held as the token stream the scanner produced for it.

use vstd::prelude::*;
use crate::lex::Token;

verus! {

/// A block of code.  Until the parser exists, a block owns the positioned
/// tokens of its body as the scanner produced them.
pub struct Block {
    /// The tokens of the block's body, in input order.
    pub code: Vec<Token>,
}

} // verus!
