//! Syntax definitions and the state carried between lines.

use vstd::prelude::*;

verus! {

/// The carry-state of a highlighting pass: what multi-line construct, if any,
/// the previous line left open.
#[derive(Clone, Copy, PartialEq, Eq, Structural, Debug)]
pub enum HighlightState {
    /// No multi-line construct is open.
    Top,
    /// The previous line left a block comment unterminated.
    InBlockComment,
}

/// The lexical rules of one language, identified by a file-extension-like key.
///
/// Empty `line_comment`, `block_start` or `block_end` fields mean the language
/// has no such construct; an empty `keywords`, `operators` or `string_delims`
/// field likewise switches that rule off.
#[derive(Debug)]
pub struct SyntaxDefinition {
    /// The lookup key, e.g. `rs`.
    pub key: Vec<u8>,
    /// Words colored as keywords.
    pub keywords: Vec<Vec<u8>>,
    /// Prefix that starts a comment reaching to the end of the line.
    pub line_comment: Vec<u8>,
    /// Opening delimiter of a block comment, which may span lines.
    pub block_start: Vec<u8>,
    /// Closing delimiter of a block comment.
    pub block_end: Vec<u8>,
    /// Single bytes colored as operators.
    pub operators: Vec<u8>,
    /// Single bytes that open and close a string literal within one line.
    pub string_delims: Vec<u8>,
}

/// The mathematical value of a [`SyntaxDefinition`].
pub ghost struct SyntaxModel {
    pub key: Seq<u8>,
    pub keywords: Seq<Seq<u8>>,
    pub line_comment: Seq<u8>,
    pub block_start: Seq<u8>,
    pub block_end: Seq<u8>,
    pub operators: Seq<u8>,
    pub string_delims: Seq<u8>,
}

impl View for SyntaxDefinition {
    type V = SyntaxModel;

    open spec fn view(&self) -> SyntaxModel {
        SyntaxModel {
            key: self.key@,
            keywords: self.keywords@.map_values(|k: Vec<u8>| k@),
            line_comment: self.line_comment@,
            block_start: self.block_start@,
            block_end: self.block_end@,
            operators: self.operators@,
            string_delims: self.string_delims@,
        }
    }
}

/// Whether a word is one of the syntax's keywords.
pub open spec fn is_keyword(syn: SyntaxModel, w: Seq<u8>) -> bool {
    syn.keywords.contains(w)
}

impl SyntaxDefinition {
    /// Whether a word is one of this syntax's keywords.
    pub fn contains_keyword(&self, w: &[u8]) -> (r: bool)
        ensures
            r == is_keyword(self@, w@),
    {
        let mut k: usize = 0;
        while k < self.keywords.len()
            invariant
                k <= self.keywords@.len(),
                forall|j: int| 0 <= j < k ==> self@.keywords[j] != w@,
            decreases self.keywords@.len() - k,
        {
            if crate::scan::bytes_eq(self.keywords[k].as_slice(), w) {
                assert(self@.keywords[k as int] == w@);
                return true;
            }
            k = k + 1;
        }
        false
    }
}

} // verus!
