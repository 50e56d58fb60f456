//! The dictionary segmenter, as far as the engine relies on it: what it is
//! made with, and what it answers.

use vstd::prelude::*;

use crate::tokenize::simple::spanning;
use crate::tokenize::text::byte_len;
use crate::tokenize::TokenView;

verus! {

/// `jieba_rs::Jieba`, the segmenter with its dictionary.
#[verifier::external_type_specification]
#[verifier::external_body]
pub struct ExSegmenter(jieba_rs::Jieba);

/// `jieba_rs::TokenizeMode`, the two ways in which the segmenter cuts a
/// text: `Default` reports each stretch of text once, `Search` also reports
/// the shorter words inside a long one.
#[verifier::external_type_specification]
pub struct ExTokenizeMode(jieba_rs::TokenizeMode);

/// A word that the segmenter found, with the byte span it was found at.
pub struct Segment {
    pub word: String,
    pub start: usize,
    pub end: usize,
}

/// A segment as a mathematical value.
pub struct SegmentView {
    pub word: Seq<char>,
    pub start: int,
    pub end: int,
}

impl View for Segment {
    type V = SegmentView;

    open spec fn view(&self) -> SegmentView {
        SegmentView { word: self.word@, start: self.start as int, end: self.end as int }
    }
}

/// The segments of a vector as mathematical values.
pub open spec fn segment_views(segments: Seq<Segment>) -> Seq<SegmentView> {
    segments.map_values(|s: Segment| s@)
}

/// The token that reports a segment: its word and span, never colocated.
pub open spec fn token_of(segment: SegmentView) -> TokenView {
    TokenView { text: segment.word, start: segment.start, end: segment.end, colocated: false }
}

/// The tokens that report the segments, one for each and in their order.
pub open spec fn tokens_of_segments(segments: Seq<SegmentView>) -> Seq<TokenView> {
    segments.map_values(|s: SegmentView| token_of(s))
}

/// Whether `token` is a slice of `text`: its text is a run of the text's
/// characters, and its span is the place of that run in the text's encoding.
pub open spec fn is_slice_of(text: Seq<char>, token: TokenView) -> bool {
    exists|from: int, to: int|
        0 <= from <= to <= text.len() && token == #[trigger] spanning(
            text,
            from,
            to,
            text.subrange(from, to),
        )
}

/// The longest text, in bytes, that the segmenter is handed: it keeps byte
/// offsets in 32 bits.
pub const MAX_TEXT_LEN: usize = 0xFFFF_FFFF;

/// The words of a segmenter's dictionary: those that
/// `jieba_rs::Jieba::has_word` finds in it.
pub uninterp spec fn dictionary(segmenter: jieba_rs::Jieba) -> Set<Seq<char>>;

/// What `jieba_rs::Jieba::tokenize`, without its hidden Markov model, makes
/// of a text: in search mode if `search` is set, in default mode if not.
pub uninterp spec fn segmentation(
    segmenter: jieba_rs::Jieba,
    text: Seq<char>,
    search: bool,
) -> Seq<SegmentView>;

/// `jieba_rs::Jieba::new` builds a segmenter and loads the dictionary that
/// the crate carries. Of that dictionary only this is claimed: it holds the
/// word `我们`, as the crate's documentation shows.
#[verifier::external_body]
pub(crate) fn with_default_dictionary() -> (segmenter: jieba_rs::Jieba)
    ensures
        dictionary(segmenter).contains("我们"@),
{
    jieba_rs::Jieba::new()
}

/// `jieba_rs::Jieba::empty` builds a segmenter whose dictionary holds no
/// word.
#[verifier::external_body]
pub(crate) fn with_empty_dictionary() -> (segmenter: jieba_rs::Jieba)
    ensures
        dictionary(segmenter) == Set::<Seq<char>>::empty(),
{
    jieba_rs::Jieba::empty()
}

/// `jieba_rs::Jieba::tokenize`, without its hidden Markov model, cuts the
/// text into words by the dictionary. What it answers depends on the
/// segmenter, the text and the mode alone, and is only named here. Each
/// word of the answer is a slice of the text, and the byte span reported
/// with it is that slice's place. The segmenter counts bytes in 32 bits, so
/// longer texts are kept from it.
#[verifier::external_body]
pub(crate) fn segment(
    segmenter: &jieba_rs::Jieba,
    text: &str,
    mode: jieba_rs::TokenizeMode,
) -> (segments: Vec<Segment>)
    requires
        byte_len(text@) <= MAX_TEXT_LEN,
    ensures
        segment_views(segments@) == segmentation(
            *segmenter,
            text@,
            mode == jieba_rs::TokenizeMode::Search,
        ),
        forall|i: int|
            0 <= i < segments.len() ==> is_slice_of(text@, token_of(#[trigger] segments[i]@)),
{
    segmenter
        .tokenize(text, mode, false)
        .into_iter()
        .map(|t| Segment { word: t.word.to_string(), start: t.byte_start, end: t.byte_end })
        .collect()
}

} // verus!
