//! The engine for scripts that put no space between words: it hands the text
//! to a dictionary segmenter and reports the words that come back, in the
//! order of their starts.

use vstd::prelude::*;
use vstd::utf8::{encode_utf8, is_char_boundary};

use crate::host::{FTS5_TOKENIZE_DOCUMENT, SQLITE_ERROR};
use crate::tokenize::order::{
    by_start, lemma_by_start_holds_only_given, lemma_by_start_in_order, sort_by_start,
};
use crate::tokenize::segmenter::{
    dictionary, is_slice_of, segment, segment_views, segmentation, token_of, tokens_of_segments,
    with_default_dictionary, with_empty_dictionary, Segment, SegmentView, MAX_TEXT_LEN,
};
use crate::tokenize::simple::spanning;
use crate::tokenize::text::{
    byte_len, lemma_encode_concat, lemma_offset_is_char_boundary, lemma_offset_monotonic,
};
use crate::tokenize::{token_views, ErrorCode, Token, TokenView, TokenizerImpl};

verus! {

/// Whether the flags say that a document is being indexed.
pub fn is_document(flags: i32) -> (document: bool)
    ensures
        document == (flags & FTS5_TOKENIZE_DOCUMENT != 0),
{
    flags & FTS5_TOKENIZE_DOCUMENT != 0
}

/// The mode in which the segmenter is asked: while a document is indexed,
/// the one that also reports the shorter words inside a long one, which
/// favours recall; while a query is parsed, the one that reports each
/// stretch of text once.
pub fn mode_for(flags: i32) -> (mode: jieba_rs::TokenizeMode)
    ensures
        mode == if flags & FTS5_TOKENIZE_DOCUMENT != 0 {
            jieba_rs::TokenizeMode::Search
        } else {
            jieba_rs::TokenizeMode::Default
        },
{
    if is_document(flags) {
        jieba_rs::TokenizeMode::Search
    } else {
        jieba_rs::TokenizeMode::Default
    }
}

/// The tokens that report the segments, one for each and in their order.
pub fn tokens_from_segments(segments: Vec<Segment>) -> (tokens: Vec<Token>)
    ensures
        token_views(tokens@) == tokens_of_segments(segment_views(segments@)),
{
    let mut tokens: Vec<Token> = Vec::new();
    let ghost all = segments@;
    for segment in it: segments
        invariant
            all == it.seq(),
            tokens.len() == it.index(),
            forall|i: int| 0 <= i < tokens.len() ==> (#[trigger] tokens[i])@ == token_of(all[i]@),
    {
        tokens.push(
            Token { text: segment.word, start: segment.start, end: segment.end, colocated: false },
        );
    }
    proof {
        assert(token_views(tokens@) =~= tokens_of_segments(segment_views(all)));
    }
    tokens
}

/// A slice of a text lies within the text, its span is as long as its text,
/// both ends of the span are character boundaries, and its text is encoded
/// by the bytes of the text at its span. It is not colocated.
pub proof fn lemma_slice_is_the_texts_bytes(text: Seq<char>, token: TokenView)
    requires
        is_slice_of(text, token),
    ensures
        0 <= token.start <= token.end <= byte_len(text),
        token.start + byte_len(token.text) == token.end,
        encode_utf8(token.text) == encode_utf8(text).subrange(token.start, token.end),
        is_char_boundary(encode_utf8(text), token.start),
        is_char_boundary(encode_utf8(text), token.end),
        !token.colocated,
{
    let (from, to) = choose|from: int, to: int|
        0 <= from <= to <= text.len() && token == #[trigger] spanning(
            text,
            from,
            to,
            text.subrange(from, to),
        );
    let before = text.subrange(0, from);
    let run = text.subrange(from, to);
    let behind = text.subrange(to, text.len() as int);
    lemma_offset_monotonic(text, from, to);
    lemma_offset_is_char_boundary(text, from);
    lemma_offset_is_char_boundary(text, to);
    assert(text.subrange(0, to) =~= before + run);
    assert(text =~= (before + run) + behind);
    lemma_encode_concat(before, run);
    lemma_encode_concat(before + run, behind);
    assert(encode_utf8(run) =~= encode_utf8(text).subrange(token.start, token.end));
}

/// The engine that segments by dictionary.
pub struct JiebaEngine {
    jieba: jieba_rs::Jieba,
}

impl JiebaEngine {
    /// The words of the engine's dictionary.
    pub closed spec fn words(&self) -> Set<Seq<char>> {
        dictionary(self.jieba)
    }

    /// Whether the engine is in its degraded form, with a dictionary that
    /// holds no word.
    pub open spec fn is_degraded(&self) -> bool {
        self.words() == Set::<Seq<char>>::empty()
    }

    /// What the engine's segmenter makes of a text: with `search` set, in
    /// the mode that also reports the shorter words inside a long one; else
    /// in the mode that reports each stretch of text once.
    pub closed spec fn cut(&self, text: Seq<char>, search: bool) -> Seq<SegmentView> {
        segmentation(self.jieba, text, search)
    }

    /// The tokens of a text: one for each word that the segmenter finds, in
    /// the order of their starts.
    pub open spec fn tokens_for(&self, text: Seq<char>, search: bool) -> Seq<TokenView> {
        by_start(tokens_of_segments(self.cut(text, search)))
    }

    /// The engine in its degraded form, with a dictionary that holds no word.
    pub fn empty() -> (engine: JiebaEngine)
        ensures
            engine.is_degraded(),
    {
        JiebaEngine { jieba: with_empty_dictionary() }
    }
}

impl TokenizerImpl for JiebaEngine {
    /// The engine with the dictionary that the segmenter carries, whatever
    /// the arguments: a dictionary that holds words, so that the engine is
    /// not the degraded one.
    fn new(_args: &[&[u8]]) -> (r: Result<Self, ErrorCode>)
        ensures
            r is Ok,
            !r->Ok_0.is_degraded(),
    {
        Ok(JiebaEngine { jieba: with_default_dictionary() })
    }

    /// The words of `text` as the segmenter finds them, in the order of
    /// their starts. The segmenter is asked once: while a document is
    /// indexed, in the mode that also reports the shorter words inside a
    /// long one; while a query is parsed, in the mode that reports each
    /// stretch of text once. Every token is a slice of the text, and none is
    /// colocated. A text too long for the segmenter is refused with the
    /// general failure status.
    fn tokenize(&self, text: &str, flags: i32) -> (r: Result<Vec<Token>, ErrorCode>)
        ensures
            r is Ok <==> byte_len(text@) <= MAX_TEXT_LEN,
            r matches Err(e) ==> e.value() == SQLITE_ERROR,
            r matches Ok(tokens) ==> token_views(tokens@) == self.tokens_for(
                text@,
                flags & FTS5_TOKENIZE_DOCUMENT != 0,
            ),
            r matches Ok(tokens) ==> forall|i: int|
                0 <= i < tokens.len() ==> is_slice_of(text@, (#[trigger] tokens[i])@),
    {
        if text.as_bytes().len() > MAX_TEXT_LEN {
            return Err(ErrorCode::new(SQLITE_ERROR).unwrap());
        }
        let segments = segment(&self.jieba, text, mode_for(flags));
        let ghost found = segment_views(segments@);
        let tokens = sort_by_start(tokens_from_segments(segments));
        proof {
            let given = tokens_of_segments(found);
            lemma_by_start_in_order(given);
            assert forall|i: int| 0 <= i < tokens.len() implies is_slice_of(
                text@,
                (#[trigger] tokens[i])@,
            ) by {
                lemma_by_start_holds_only_given(given, i);
                let k = choose|k: int| 0 <= k < given.len() && given[k] == tokens[i]@;
                assert(given[k] == token_of(segments[k]@));
            }
            assert forall|i: int| 0 <= i < tokens.len() implies 0 <= (#[trigger] token_views(
                tokens@,
            )[i]).start <= token_views(tokens@)[i].end <= byte_len(text@) by {
                lemma_slice_is_the_texts_bytes(text@, tokens[i]@);
            }
        }
        Ok(tokens)
    }
}

/// Two calls of the dictionary engine on one text, with flags that agree in
/// the document bit, give the same answer.
pub proof fn lemma_jieba_is_deterministic(
    engine: &JiebaEngine,
    text: &str,
    flags: i32,
    other_flags: i32,
    first: Result<Vec<Token>, ErrorCode>,
    second: Result<Vec<Token>, ErrorCode>,
)
    requires
        (flags & FTS5_TOKENIZE_DOCUMENT != 0) == (other_flags & FTS5_TOKENIZE_DOCUMENT != 0),
        call_ensures(<JiebaEngine as TokenizerImpl>::tokenize, (engine, text, flags), first),
        call_ensures(<JiebaEngine as TokenizerImpl>::tokenize, (engine, text, other_flags), second),
    ensures
        first is Ok <==> second is Ok,
        first is Ok ==> token_views(first->Ok_0@) == token_views(second->Ok_0@),
        first is Err ==> first->Err_0.value() == second->Err_0.value(),
{
}

} // verus!
