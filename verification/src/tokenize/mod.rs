//! Tokens, engines that produce them, and the character classes they scan by.

use vstd::prelude::*;

use crate::tokenize::text::byte_len;

pub mod classify;
pub mod jieba;
pub mod laws;
pub mod order;
pub mod segmenter;
pub mod simple;
pub mod text;

pub use jieba::JiebaEngine;
pub use simple::{Porter, Simple};

verus! {

/// One indexable unit of a text. `start` and `end` are byte offsets into the
/// text that was scanned; `text` is what the index stores for that span, and
/// need not be the span's own characters.
#[derive(Debug)]
pub struct Token {
    pub text: String,
    pub start: usize,
    pub end: usize,
    pub colocated: bool,
}

/// A token as a mathematical value.
pub struct TokenView {
    pub text: Seq<char>,
    pub start: int,
    pub end: int,
    pub colocated: bool,
}

impl View for Token {
    type V = TokenView;

    open spec fn view(&self) -> TokenView {
        TokenView {
            text: self.text@,
            start: self.start as int,
            end: self.end as int,
            colocated: self.colocated,
        }
    }
}

/// The tokens of a vector as mathematical values.
pub open spec fn token_views(tokens: Seq<Token>) -> Seq<TokenView> {
    tokens.map_values(|t: Token| t@)
}

/// Every span is a range of the text: `0 <= start <= end <= text_len`.
pub open spec fn spans_within(tokens: Seq<TokenView>, text_len: nat) -> bool {
    forall|i: int|
        0 <= i < tokens.len() ==> 0 <= (#[trigger] tokens[i]).start <= tokens[i].end <= text_len
}

/// Two spans are the same or overlap.
pub open spec fn shares_position(anchor: TokenView, other: TokenView) -> bool {
    ||| anchor.start == other.start && anchor.end == other.end
    ||| anchor.start < other.end && other.start < anchor.end
}

/// The tokens come in the order of their starts, and each colocated token
/// stands directly behind a token whose position it shares.
pub open spec fn in_order(tokens: Seq<TokenView>) -> bool {
    &&& forall|i: int|
        0 <= i && i + 1 < tokens.len() ==> (#[trigger] tokens[i]).start <= tokens[i + 1].start
    &&& forall|i: int|
        0 <= i < tokens.len() && (#[trigger] tokens[i]).colocated ==> i > 0 && shares_position(
            tokens[i - 1],
            tokens[i],
        )
}

/// A status that reports a failure: any code but zero.
#[derive(Clone, Copy, Debug)]
pub struct ErrorCode {
    code: i32,
}

impl ErrorCode {
    #[verifier::type_invariant]
    spec fn is_failure(self) -> bool {
        self.code != 0
    }

    /// The code as a number.
    pub closed spec fn value(self) -> int {
        self.code as int
    }

    /// The error with the given code; none for zero, which reports success.
    pub fn new(code: i32) -> (r: Option<ErrorCode>)
        ensures
            code == 0 <==> r is None,
            r matches Some(e) ==> e.value() == code,
    {
        if code == 0 {
            None
        } else {
            Some(ErrorCode { code })
        }
    }

    /// The code, which is never zero.
    pub fn get(&self) -> (code: i32)
        ensures
            code == self.value(),
            code != 0,
    {
        proof {
            use_type_invariant(self);
        }
        self.code
    }
}

/// An engine that splits a text into tokens.
pub trait TokenizerImpl: Sized {
    /// An engine configured by the host's arguments, or the status that
    /// reports why none can be made from them.
    fn new(args: &[&[u8]]) -> (r: Result<Self, ErrorCode>);

    /// The tokens of `text`. `flags` tells indexing a document from parsing a
    /// query, for engines that treat them differently. Whatever the engine,
    /// every token's span lies within the text, the tokens come in the order
    /// of their starts, and each colocated token stands directly behind a
    /// token whose position it shares.
    fn tokenize(&self, text: &str, flags: i32) -> (r: Result<Vec<Token>, ErrorCode>)
        ensures
            r matches Ok(tokens) ==> spans_within(token_views(tokens@), byte_len(text@)),
            r matches Ok(tokens) ==> in_order(token_views(tokens@)),
    ;
}

} // verus!
