//! What holds of the tokens that the simple engine finds in any text.

use vstd::prelude::*;

use crate::tokenize::classify::{classify, TokenType};
use crate::tokenize::simple::{
    lemma_next_index_bounds, lemma_without_commas_push, lowercase, next_index,
    number_continues, number_end, run_end, spanning, token_at, tokens_from, tokens_of,
    without_commas, word_text, Porter, Simple,
};
use crate::tokenize::text::{
    ascii_lower, byte_len, lemma_byte_len_push, lemma_byte_len_single, lemma_offset_monotonic,
    offset_of,
};
use crate::tokenize::{
    in_order, spans_within, token_views, ErrorCode, Token, TokenView, TokenizerImpl,
};

verus! {

/// Every token found from index `i` on starts at or behind that index's
/// offset and ends within the text, none is colocated, and each ends before
/// the next starts.
proof fn lemma_tokens_from_shape(text: Seq<char>, i: int, stemming: bool)
    requires
        0 <= i <= text.len(),
    ensures
        forall|k: int|
            0 <= k < tokens_from(text, i, stemming).len() ==> {
                let token = #[trigger] tokens_from(text, i, stemming)[k];
                &&& offset_of(text, i) <= token.start <= token.end <= byte_len(text)
                &&& !token.colocated
            },
        forall|k: int|
            0 <= k && k + 1 < tokens_from(text, i, stemming).len() ==> (
            #[trigger] tokens_from(text, i, stemming)[k]).end <= tokens_from(
                text,
                i,
                stemming,
            )[k + 1].start,
    decreases text.len() - i,
{
    if i < text.len() {
        let to = next_index(text, i);
        lemma_next_index_bounds(text, i);
        lemma_tokens_from_shape(text, to, stemming);
        lemma_offset_monotonic(text, i, to);
        let rest = tokens_from(text, to, stemming);
        let all = tokens_from(text, i, stemming);
        if token_at(text, i, stemming) is Some {
            assert forall|k: int| 0 < k < all.len() implies all[k] == rest[k - 1] by {}
        }
    }
}

/// Every token's span is a range of the text.
pub proof fn lemma_spans_within(text: Seq<char>, stemming: bool)
    ensures
        spans_within(tokens_of(text, stemming), byte_len(text)),
{
    lemma_tokens_from_shape(text, 0, stemming);
}

/// The tokens come in the order of their starts, and none is colocated.
pub proof fn lemma_in_order(text: Seq<char>, stemming: bool)
    ensures
        in_order(tokens_of(text, stemming)),
        forall|k: int|
            0 <= k < tokens_of(text, stemming).len() ==> !(#[trigger] tokens_of(
                text,
                stemming,
            )[k]).colocated,
{
    lemma_tokens_from_shape(text, 0, stemming);
}

/// No two tokens overlap: each ends before the next starts.
pub proof fn lemma_spans_do_not_overlap(text: Seq<char>, stemming: bool)
    ensures
        forall|k: int|
            0 <= k && k + 1 < tokens_of(text, stemming).len() ==> (#[trigger] tokens_of(
                text,
                stemming,
            )[k]).end <= tokens_of(text, stemming)[k + 1].start,
{
    lemma_tokens_from_shape(text, 0, stemming);
}

/// A text of whitespace and delimiters alone has no tokens.
pub proof fn lemma_delimiters_yield_nothing(text: Seq<char>, stemming: bool)
    requires
        forall|i: int|
            0 <= i < text.len() ==> classify(#[trigger] text[i]) == TokenType::WhiteSpace
                || classify(text[i]) == TokenType::Delimiter,
    ensures
        tokens_of(text, stemming) == Seq::<TokenView>::empty(),
{
    lemma_nothing_from(text, 0, stemming);
}

proof fn lemma_nothing_from(text: Seq<char>, i: int, stemming: bool)
    requires
        0 <= i <= text.len(),
        forall|k: int|
            0 <= k < text.len() ==> classify(#[trigger] text[k]) == TokenType::WhiteSpace
                || classify(text[k]) == TokenType::Delimiter,
    ensures
        tokens_from(text, i, stemming) == Seq::<TokenView>::empty(),
    decreases text.len() - i,
{
    if i < text.len() {
        assert(classify(text[i]) == TokenType::WhiteSpace || classify(text[i])
            == TokenType::Delimiter);
        lemma_nothing_from(text, i + 1, stemming);
    }
}

/// Whether a scan that stands at index `i` comes to stand at index `j`.
pub open spec fn reaches(text: Seq<char>, i: int, j: int) -> bool
    decreases text.len() - i,
{
    if i == j {
        true
    } else if 0 <= i < j && i < text.len() {
        proof {
            lemma_next_index_bounds(text, i);
        }
        reaches(text, next_index(text, i), j)
    } else {
        false
    }
}

/// A run of one class ends at or before any later character of another.
proof fn lemma_run_end_stops(text: Seq<char>, kind: TokenType, from: int, at: int)
    requires
        0 <= from <= at < text.len(),
        classify(text[at]) != kind,
    ensures
        run_end(text, kind, from) <= at,
    decreases at - from,
{
    if from < at && classify(text[from]) == kind {
        lemma_run_end_stops(text, kind, from + 1, at);
    }
}

/// A number ends at or before any later character that it does not take.
proof fn lemma_number_end_stops(text: Seq<char>, from: int, at: int)
    requires
        0 <= from <= at < text.len(),
        !number_continues(text, at),
    ensures
        number_end(text, from) <= at,
    decreases at - from,
{
    if from < at && number_continues(text, from) {
        lemma_number_end_stops(text, from + 1, at);
    }
}

/// The scan comes to stand at every character that neither a word nor a
/// number before it takes in.
proof fn lemma_reaches(text: Seq<char>, i: int, j: int)
    requires
        0 <= i <= j < text.len(),
        !number_continues(text, j),
        classify(text[j]) != TokenType::Alpha || j == 0 || classify(text[j - 1])
            != TokenType::Alpha,
    ensures
        reaches(text, i, j),
    decreases j - i,
{
    if i < j {
        lemma_next_index_bounds(text, i);
        match classify(text[i]) {
            TokenType::Numeric => {
                lemma_number_end_stops(text, i + 1, j);
            },
            TokenType::Alpha => {
                if classify(text[j]) != TokenType::Alpha {
                    lemma_run_end_stops(text, TokenType::Alpha, i + 1, j);
                } else {
                    lemma_run_end_stops(text, TokenType::Alpha, i + 1, j - 1);
                }
            },
            _ => {},
        }
        lemma_reaches(text, next_index(text, i), j);
    }
}

/// The token that the scan finds where it comes to stand is among the
/// tokens.
proof fn lemma_found_where_reached(text: Seq<char>, i: int, j: int, stemming: bool)
    requires
        0 <= i <= j < text.len(),
        reaches(text, i, j),
        token_at(text, j, stemming) is Some,
    ensures
        tokens_from(text, i, stemming).contains(token_at(text, j, stemming)->Some_0),
    decreases text.len() - i,
{
    let sought = token_at(text, j, stemming)->Some_0;
    let all = tokens_from(text, i, stemming);
    if i == j {
        assert(all[0] == sought);
    } else {
        let to = next_index(text, i);
        lemma_next_index_bounds(text, i);
        assert(reaches(text, to, j));
        lemma_found_where_reached(text, to, j, stemming);
        let rest = tokens_from(text, to, stemming);
        let k = choose|k: int| 0 <= k < rest.len() && rest[k] == sought;
        if token_at(text, i, stemming) is Some {
            assert(all[k + 1] == sought);
        }
    }
}

/// Every token from index `i` on is the one that the scan finds at some
/// index where it comes to stand.
proof fn lemma_tokens_are_found(text: Seq<char>, i: int, stemming: bool, k: int)
    requires
        0 <= i <= text.len(),
        0 <= k < tokens_from(text, i, stemming).len(),
    ensures
        exists|j: int|
            i <= j < text.len() && reaches(text, i, j) && #[trigger] token_at(text, j, stemming)
                == Some(tokens_from(text, i, stemming)[k]),
    decreases text.len() - i,
{
    let to = next_index(text, i);
    lemma_next_index_bounds(text, i);
    if token_at(text, i, stemming) is None {
        lemma_tokens_are_found(text, to, stemming, k);
    } else if k > 0 {
        lemma_tokens_are_found(text, to, stemming, k - 1);
    }
}

/// Whitespace and delimiters start no token: every token is the one that
/// the scan finds at some character of another class.
pub proof fn lemma_tokens_start_at_kept_characters(text: Seq<char>, stemming: bool, k: int)
    requires
        0 <= k < tokens_of(text, stemming).len(),
    ensures
        exists|j: int|
            0 <= j < text.len() && #[trigger] token_at(text, j, stemming) == Some(
                tokens_of(text, stemming)[k],
            ) && classify(text[j]) != TokenType::WhiteSpace && classify(text[j])
                != TokenType::Delimiter,
{
    lemma_tokens_are_found(text, 0, stemming, k);
}

/// Every character of class `Other` is a token of its own.
pub proof fn lemma_other_characters_stand_alone(text: Seq<char>, j: int, stemming: bool)
    requires
        0 <= j < text.len(),
        classify(text[j]) == TokenType::Other,
    ensures
        tokens_of(text, stemming).contains(spanning(text, j, j + 1, seq![text[j]])),
{
    lemma_reaches(text, 0, j);
    lemma_found_where_reached(text, 0, j, stemming);
}

/// Every run of letters is one token: where a letter stands first in the
/// text or behind a character that is no letter, a token starts that spans
/// the letters up to the next character that is none.
pub proof fn lemma_words_are_tokens(text: Seq<char>, j: int, stemming: bool)
    requires
        0 <= j < text.len(),
        classify(text[j]) == TokenType::Alpha,
        j == 0 || classify(text[j - 1]) != TokenType::Alpha,
    ensures
        tokens_of(text, stemming).contains(
            spanning(
                text,
                j,
                run_end(text, TokenType::Alpha, j + 1),
                word_text(text.subrange(j, run_end(text, TokenType::Alpha, j + 1)), stemming),
            ),
        ),
{
    lemma_reaches(text, 0, j);
    lemma_found_where_reached(text, 0, j, stemming);
}

/// The tokens of a text from index `i` on, if every character from there on
/// is of class `Other`: one token for each character.
pub open spec fn single_tokens(text: Seq<char>, i: int) -> Seq<TokenView> {
    Seq::new((text.len() - i) as nat, |k: int| spanning(text, i + k, i + k + 1, seq![text[i + k]]))
}

proof fn lemma_single_tokens_from(text: Seq<char>, i: int, stemming: bool)
    requires
        0 <= i <= text.len(),
        forall|k: int| 0 <= k < text.len() ==> classify(#[trigger] text[k]) == TokenType::Other,
    ensures
        tokens_from(text, i, stemming) == single_tokens(text, i),
    decreases text.len() - i,
{
    if i < text.len() {
        assert(classify(text[i]) == TokenType::Other);
        lemma_single_tokens_from(text, i + 1, stemming);
        assert(seq![spanning(text, i, i + 1, seq![text[i]])] + single_tokens(text, i + 1)
            =~= single_tokens(text, i));
    } else {
        assert(single_tokens(text, i) =~= Seq::<TokenView>::empty());
    }
}

/// A text whose characters are all of class `Other` has one token for each
/// character, in their order.
pub proof fn lemma_other_text_is_split_by_character(text: Seq<char>, stemming: bool)
    requires
        forall|k: int| 0 <= k < text.len() ==> classify(#[trigger] text[k]) == TokenType::Other,
    ensures
        tokens_of(text, stemming) == single_tokens(text, 0),
{
    lemma_single_tokens_from(text, 0, stemming);
}

proof fn lemma_number_takes_all(text: Seq<char>, from: int)
    requires
        0 <= from <= text.len(),
        forall|k: int| from <= k < text.len() ==> number_continues(text, k),
    ensures
        number_end(text, from) == text.len(),
    decreases text.len() - from,
{
    if from < text.len() {
        lemma_number_takes_all(text, from + 1);
    }
}

/// A text that starts with a digit and goes on with digits and with
/// separators that each have a digit directly behind them is one token,
/// however many separators it holds: the text without its commas.
pub proof fn lemma_grouped_number_is_one_token(text: Seq<char>, stemming: bool)
    requires
        text.len() > 0,
        classify(text[0]) == TokenType::Numeric,
        forall|k: int| 1 <= k < text.len() ==> number_continues(text, k),
    ensures
        tokens_of(text, stemming) == seq![
            spanning(text, 0, text.len() as int, without_commas(text)),
        ],
{
    lemma_number_takes_all(text, 1);
    assert(text.subrange(0, text.len() as int) =~= text);
    assert(tokens_from(text, text.len() as int, stemming) =~= Seq::<TokenView>::empty());
}

proof fn lemma_run_takes_all(text: Seq<char>, kind: TokenType, from: int)
    requires
        0 <= from <= text.len(),
        forall|k: int| from <= k < text.len() ==> classify(#[trigger] text[k]) == kind,
    ensures
        run_end(text, kind, from) == text.len(),
    decreases text.len() - from,
{
    if from < text.len() {
        lemma_run_takes_all(text, kind, from + 1);
    }
}

/// A text of letters alone is one token: its lower-case form, or the stem of
/// that form.
pub proof fn lemma_word_is_one_token(text: Seq<char>, stemming: bool)
    requires
        text.len() > 0,
        forall|k: int| 0 <= k < text.len() ==> classify(#[trigger] text[k]) == TokenType::Alpha,
    ensures
        tokens_of(text, stemming) == seq![
            spanning(text, 0, text.len() as int, word_text(text, stemming)),
        ],
{
    lemma_run_takes_all(text, TokenType::Alpha, 1);
    assert(text.subrange(0, text.len() as int) =~= text);
    assert(tokens_from(text, text.len() as int, stemming) =~= Seq::<TokenView>::empty());
}

/// Lower case takes as many bytes as the text it was made from.
pub proof fn lemma_lowercase_byte_len(s: Seq<char>)
    ensures
        byte_len(lowercase(s)) == byte_len(s),
    decreases s.len(),
{
    if s.len() > 0 {
        let front = s.drop_last();
        let c = s.last();
        lemma_lowercase_byte_len(front);
        assert(s =~= front.push(c));
        assert(lowercase(s) =~= lowercase(front).push(ascii_lower(c)));
        lemma_byte_len_push(front, c);
        lemma_byte_len_push(lowercase(front), ascii_lower(c));
    }
}

/// Without its commas a text takes no more bytes than with them.
pub proof fn lemma_without_commas_byte_len(s: Seq<char>)
    ensures
        byte_len(without_commas(s)) <= byte_len(s),
    decreases s.len(),
{
    if s.len() > 0 {
        let front = s.drop_last();
        let c = s.last();
        lemma_without_commas_byte_len(front);
        assert(s =~= front.push(c));
        lemma_without_commas_push(front, c);
        lemma_byte_len_push(front, c);
        lemma_byte_len_push(without_commas(front), c);
    }
}

proof fn lemma_texts_fit_from(text: Seq<char>, i: int)
    requires
        0 <= i <= text.len(),
    ensures
        forall|k: int|
            0 <= k < tokens_from(text, i, false).len() ==> {
                let token = #[trigger] tokens_from(text, i, false)[k];
                byte_len(token.text) <= token.end - token.start
            },
    decreases text.len() - i,
{
    if i < text.len() {
        let to = next_index(text, i);
        lemma_next_index_bounds(text, i);
        lemma_texts_fit_from(text, to);
        lemma_offset_monotonic(text, i, to);
        let run = text.subrange(i, to);
        lemma_without_commas_byte_len(run);
        lemma_lowercase_byte_len(run);
        lemma_byte_len_single(text[i]);
        let rest = tokens_from(text, to, false);
        let all = tokens_from(text, i, false);
        if token_at(text, i, false) is Some {
            assert forall|k: int| 0 < k < all.len() implies all[k] == rest[k - 1] by {}
        }
    }
}

/// Without stemming, what is stored for a token takes no more bytes than the
/// span it was read from.
pub proof fn lemma_texts_fit_spans(text: Seq<char>)
    ensures
        forall|k: int|
            0 <= k < tokens_of(text, false).len() ==> {
                let token = #[trigger] tokens_of(text, false)[k];
                byte_len(token.text) <= token.end - token.start
            },
{
    lemma_texts_fit_from(text, 0);
}

/// Two calls of the simple engine on one text give the same tokens, whatever
/// the flags of each.
pub proof fn lemma_simple_is_deterministic(
    engine: &Simple,
    text: &str,
    flags: i32,
    other_flags: i32,
    first: Result<Vec<Token>, ErrorCode>,
    second: Result<Vec<Token>, ErrorCode>,
)
    requires
        call_ensures(<Simple as TokenizerImpl>::tokenize, (engine, text, flags), first),
        call_ensures(<Simple as TokenizerImpl>::tokenize, (engine, text, other_flags), second),
    ensures
        first is Ok,
        second is Ok,
        token_views(first->Ok_0@) == token_views(second->Ok_0@),
{
}

/// Two calls of the stemming engine on one text give the same tokens,
/// whatever the flags of each.
pub proof fn lemma_porter_is_deterministic(
    engine: &Porter,
    text: &str,
    flags: i32,
    other_flags: i32,
    first: Result<Vec<Token>, ErrorCode>,
    second: Result<Vec<Token>, ErrorCode>,
)
    requires
        call_ensures(<Porter as TokenizerImpl>::tokenize, (engine, text, flags), first),
        call_ensures(<Porter as TokenizerImpl>::tokenize, (engine, text, other_flags), second),
    ensures
        first is Ok,
        second is Ok,
        token_views(first->Ok_0@) == token_views(second->Ok_0@),
{
}

} // verus!
