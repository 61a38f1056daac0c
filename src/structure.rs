//! The tokens of the structure block.

use vstd::prelude::*;

verus! {

/// The five tokens that the structure block is made of.
#[derive(Debug, Clone, Copy, PartialEq, Eq, Structural)]
pub enum StructureToken {
    /// Opens a node; its name follows.
    BeginNode,
    /// Closes the innermost open node.
    EndNode,
    /// A property; its length, name offset and value follow.
    Property,
    /// Nothing; skipped.
    Nop,
    /// Ends the structure block.
    End,
}

/// Word of the token that opens a node.
pub const TOKEN_BEGIN_NODE: u32 = 1;

/// Word of the token that closes a node.
pub const TOKEN_END_NODE: u32 = 2;

/// Word of the token that introduces a property.
pub const TOKEN_PROPERTY: u32 = 3;

/// Word of the token that stands for nothing.
pub const TOKEN_NOP: u32 = 4;

/// Word of the token that ends the structure block.
pub const TOKEN_END: u32 = 9;

/// The token that a word stands for, if any.
pub open spec fn token_of(word: u32) -> Option<StructureToken> {
    if word == TOKEN_BEGIN_NODE {
        Some(StructureToken::BeginNode)
    } else if word == TOKEN_END_NODE {
        Some(StructureToken::EndNode)
    } else if word == TOKEN_PROPERTY {
        Some(StructureToken::Property)
    } else if word == TOKEN_NOP {
        Some(StructureToken::Nop)
    } else if word == TOKEN_END {
        Some(StructureToken::End)
    } else {
        None
    }
}

impl StructureToken {
    /// Classifies a structure word; any other value is no token.
    pub fn from_u32(word: u32) -> (r: Option<StructureToken>)
        ensures
            r == token_of(word),
    {
        if word == TOKEN_BEGIN_NODE {
            Some(StructureToken::BeginNode)
        } else if word == TOKEN_END_NODE {
            Some(StructureToken::EndNode)
        } else if word == TOKEN_PROPERTY {
            Some(StructureToken::Property)
        } else if word == TOKEN_NOP {
            Some(StructureToken::Nop)
        } else if word == TOKEN_END {
            Some(StructureToken::End)
        } else {
            None
        }
    }
}

} // verus!
