//! The simple engine: one pass over the characters of a text, grouping them
//! by class. Letters form words, digits form numbers that may hold `.` and
//! `,` between digits, every other non-delimiter character stands alone.

use vstd::prelude::*;

use crate::tokenize::classify::{classify, TokenType};
use crate::tokenize::laws::{lemma_in_order, lemma_spans_within};
use crate::tokenize::text::{
    ascii_lower, byte_len, chars_of, lemma_offset_monotonic, lemma_offset_step, offset_of,
};
use crate::tokenize::{in_order, token_views, ErrorCode, Token, TokenView, TokenizerImpl};

verus! {

/// The stem that Porter's algorithm gives for a word.
pub uninterp spec fn porter_stem(word: Seq<char>) -> Seq<char>;

/// `porter_stemmer::stem` splits the word into grapheme clusters, applies the
/// steps of Porter's algorithm to them and joins what is left. The result
/// depends on the word alone and is only named here.
#[verifier::external_body]
fn stem(word: &str) -> (stemmed: String)
    ensures
        stemmed@ == porter_stem(word@),
{
    porter_stemmer::stem(word)
}

/// The index at which the run of characters of class `kind` that holds
/// `from` ends: the first index from `from` on whose character is of another
/// class, or the length of the text.
pub open spec fn run_end(text: Seq<char>, kind: TokenType, from: int) -> int
    decreases text.len() - from,
{
    if 0 <= from < text.len() && classify(text[from]) == kind {
        run_end(text, kind, from + 1)
    } else {
        from
    }
}

/// `.` and `,`, which may stand between the digits of a number.
pub open spec fn is_separator(c: char) -> bool {
    c == '.' || c == ','
}

/// Whether a number that has reached index `at` takes the character there: a
/// digit always, a separator only if a digit follows it directly.
pub open spec fn number_continues(text: Seq<char>, at: int) -> bool {
    &&& 0 <= at < text.len()
    &&& {
        ||| classify(text[at]) == TokenType::Numeric
        ||| is_separator(text[at]) && at + 1 < text.len() && classify(text[at + 1])
            == TokenType::Numeric
    }
}

/// The index at which a number that has reached index `from` ends.
pub open spec fn number_end(text: Seq<char>, from: int) -> int
    decreases text.len() - from,
{
    if number_continues(text, from) {
        number_end(text, from + 1)
    } else {
        from
    }
}

/// The characters of `s` with every ASCII capital in lower case.
pub open spec fn lowercase(s: Seq<char>) -> Seq<char> {
    s.map_values(|c: char| ascii_lower(c))
}

/// The characters of `s` but the commas.
pub open spec fn without_commas(s: Seq<char>) -> Seq<char> {
    s.filter(|c: char| c != ',')
}

/// What is stored for a run of letters: its lower-case form, or the stem of
/// that form.
pub open spec fn word_text(run: Seq<char>, stemming: bool) -> Seq<char> {
    if stemming {
        porter_stem(lowercase(run))
    } else {
        lowercase(run)
    }
}

/// The token with the given content that spans the characters `from..to`.
pub open spec fn spanning(text: Seq<char>, from: int, to: int, content: Seq<char>) -> TokenView {
    TokenView {
        text: content,
        start: offset_of(text, from) as int,
        end: offset_of(text, to) as int,
        colocated: false,
    }
}

/// The index at which the scan goes on after it has dealt with the character
/// at index `i`.
pub open spec fn next_index(text: Seq<char>, i: int) -> int {
    match classify(text[i]) {
        TokenType::Numeric => number_end(text, i + 1),
        TokenType::Alpha => run_end(text, TokenType::Alpha, i + 1),
        _ => i + 1,
    }
}

/// The token that starts at index `i`, if the scan finds one there.
pub open spec fn token_at(text: Seq<char>, i: int, stemming: bool) -> Option<TokenView> {
    let to = next_index(text, i);
    match classify(text[i]) {
        TokenType::WhiteSpace | TokenType::Delimiter => None,
        TokenType::Numeric => Some(spanning(text, i, to, without_commas(text.subrange(i, to)))),
        TokenType::Other => Some(spanning(text, i, to, seq![text[i]])),
        TokenType::Alpha => Some(spanning(text, i, to, word_text(text.subrange(i, to), stemming))),
    }
}

/// The tokens that a scan finds from index `i` on.
pub open spec fn tokens_from(text: Seq<char>, i: int, stemming: bool) -> Seq<TokenView>
    decreases text.len() - i,
{
    if 0 <= i < text.len() {
        proof {
            lemma_next_index_bounds(text, i);
        }
        let rest = tokens_from(text, next_index(text, i), stemming);
        match token_at(text, i, stemming) {
            Some(token) => seq![token] + rest,
            None => rest,
        }
    } else {
        Seq::empty()
    }
}

/// The tokens of a text.
pub open spec fn tokens_of(text: Seq<char>, stemming: bool) -> Seq<TokenView> {
    tokens_from(text, 0, stemming)
}

/// A run ends at or behind the index it was asked from, and within the text.
pub proof fn lemma_run_end_bounds(text: Seq<char>, kind: TokenType, from: int)
    requires
        0 <= from <= text.len(),
    ensures
        from <= run_end(text, kind, from) <= text.len(),
    decreases text.len() - from,
{
    if from < text.len() && classify(text[from]) == kind {
        lemma_run_end_bounds(text, kind, from + 1);
    }
}

/// A number ends at or behind the index it was asked from, and within the
/// text.
pub proof fn lemma_number_end_bounds(text: Seq<char>, from: int)
    requires
        0 <= from <= text.len(),
    ensures
        from <= number_end(text, from) <= text.len(),
    decreases text.len() - from,
{
    if number_continues(text, from) {
        lemma_number_end_bounds(text, from + 1);
    }
}

/// The scan always moves on, and never beyond the text.
pub proof fn lemma_next_index_bounds(text: Seq<char>, i: int)
    requires
        0 <= i < text.len(),
    ensures
        i < next_index(text, i) <= text.len(),
{
    lemma_run_end_bounds(text, TokenType::Alpha, i + 1);
    lemma_number_end_bounds(text, i + 1);
}

/// Taking the commas out of a text with one more character at its end.
pub proof fn lemma_without_commas_push(s: Seq<char>, c: char)
    ensures
        without_commas(s.push(c)) == if c == ',' {
            without_commas(s)
        } else {
            without_commas(s).push(c)
        },
{
    reveal(Seq::filter);
    assert(s.push(c).drop_last() =~= s);
}

proof fn lemma_without_commas_single(c: char)
    requires
        c != ',',
    ensures
        without_commas(seq![c]) == seq![c],
{
    lemma_without_commas_push(Seq::empty(), c);
}

/// Whether the number that has reached index `at` takes the character there.
fn continues_number(chars: &Vec<char>, at: usize) -> (b: bool)
    ensures
        b == number_continues(chars@, at as int),
{
    if at >= chars.len() {
        return false;
    }
    let c = chars[at];
    if TokenType::from(c) == TokenType::Numeric {
        return true;
    }
    (c == '.' || c == ',') && at + 1 < chars.len() && TokenType::from(chars[at + 1])
        == TokenType::Numeric
}

/// Scans `text` once from left to right.
fn scan(text: &str, stemming: bool) -> (tokens: Vec<Token>)
    ensures
        token_views(tokens@) == tokens_of(text@, stemming),
{
    let chars = chars_of(text);
    let n = chars.len();
    // The length of the encoding bounds every offset into it.
    let total = text.as_bytes().len();
    let mut tokens: Vec<Token> = Vec::new();
    let mut i: usize = 0;
    let mut pos: usize = 0;
    proof {
        assert(token_views(tokens@) + tokens_from(text@, 0, stemming) =~= tokens_of(
            text@,
            stemming,
        ));
    }
    while i < n
        invariant
            chars@ == text@,
            n == chars.len(),
            i <= n,
            total == byte_len(text@),
            pos == offset_of(text@, i as int),
            token_views(tokens@) + tokens_from(text@, i as int, stemming) == tokens_of(
                text@,
                stemming,
            ),
        decreases n - i,
    {
        let c = chars[i];
        let kind = TokenType::from(c);
        proof {
            lemma_offset_step(text@, i as int);
            lemma_offset_monotonic(text@, i as int + 1, n as int);
        }
        let start = pos;
        let mut end: usize = pos + c.len_utf8();
        let mut j: usize = i + 1;
        match kind {
            TokenType::WhiteSpace | TokenType::Delimiter => {},
            TokenType::Numeric => {
                let mut digits = String::new();
                digits.push(c);
                proof {
                    lemma_without_commas_single(c);
                    assert(text@.subrange(i as int, j as int) =~= seq![c]);
                }
                while continues_number(&chars, j)
                    invariant
                        chars@ == text@,
                        n == chars.len(),
                        i < j <= n,
                        total == byte_len(text@),
                        end == offset_of(text@, j as int),
                        number_end(text@, j as int) == number_end(text@, i as int + 1),
                        digits@ == without_commas(text@.subrange(i as int, j as int)),
                    decreases n - j,
                {
                    let d = chars[j];
                    proof {
                        lemma_offset_step(text@, j as int);
                        lemma_offset_monotonic(text@, j as int + 1, n as int);
                        lemma_without_commas_push(text@.subrange(i as int, j as int), d);
                        assert(text@.subrange(i as int, j as int + 1) =~= text@.subrange(
                            i as int,
                            j as int,
                        ).push(d));
                    }
                    if d != ',' {
                        digits.push(d);
                    }
                    end = end + d.len_utf8();
                    j = j + 1;
                }
                tokens.push(Token { text: digits, start, end, colocated: false });
            },
            TokenType::Other => {
                let mut single = String::new();
                single.push(c);
                tokens.push(Token { text: single, start, end, colocated: false });
            },
            TokenType::Alpha => {
                let mut word = String::new();
                word.push(c.to_ascii_lowercase());
                while j < n && TokenType::from(chars[j]) == TokenType::Alpha
                    invariant
                        chars@ == text@,
                        n == chars.len(),
                        i < j <= n,
                        total == byte_len(text@),
                        end == offset_of(text@, j as int),
                        run_end(text@, TokenType::Alpha, j as int) == run_end(
                            text@,
                            TokenType::Alpha,
                            i as int + 1,
                        ),
                        word@ == lowercase(text@.subrange(i as int, j as int)),
                    decreases n - j,
                {
                    let d = chars[j];
                    proof {
                        lemma_offset_step(text@, j as int);
                        lemma_offset_monotonic(text@, j as int + 1, n as int);
                        assert(text@.subrange(i as int, j as int + 1) =~= text@.subrange(
                            i as int,
                            j as int,
                        ).push(d));
                        assert(lowercase(text@.subrange(i as int, j as int).push(d))
                            =~= lowercase(text@.subrange(i as int, j as int)).push(
                            ascii_lower(d),
                        ));
                    }
                    word.push(d.to_ascii_lowercase());
                    end = end + d.len_utf8();
                    j = j + 1;
                }
                let content = if stemming {
                    stem(word.as_str())
                } else {
                    word
                };
                tokens.push(Token { text: content, start, end, colocated: false });
            },
        }
        i = j;
        pos = end;
    }
    proof {
        assert(token_views(tokens@) + tokens_from(text@, n as int, stemming) =~= token_views(
            tokens@,
        ));
    }
    tokens
}

/// The engine that stores words in lower case.
pub struct Simple {}

impl TokenizerImpl for Simple {
    /// The engine takes no configuration: whatever the arguments, there is
    /// one.
    fn new(_args: &[&[u8]]) -> (r: Result<Self, ErrorCode>)
        ensures
            r is Ok,
    {
        Ok(Simple {  })
    }

    /// The tokens of `text`, whatever the flags: one for each run of letters,
    /// in lower case; one for each number, without its commas; one for each
    /// other character that is neither whitespace nor a delimiter.
    fn tokenize(&self, text: &str, _flags: i32) -> (r: Result<Vec<Token>, ErrorCode>)
        ensures
            r is Ok,
            token_views(r->Ok_0@) == tokens_of(text@, false),
            in_order(token_views(r->Ok_0@)),
    {
        proof {
            lemma_spans_within(text@, false);
            lemma_in_order(text@, false);
        }
        Ok(scan(text, false))
    }
}

/// The engine that stores the Porter stem of each word.
pub struct Porter {}

impl TokenizerImpl for Porter {
    /// The engine takes no configuration: whatever the arguments, there is
    /// one.
    fn new(_args: &[&[u8]]) -> (r: Result<Self, ErrorCode>)
        ensures
            r is Ok,
    {
        Ok(Porter {  })
    }

    /// The tokens of `text`, whatever the flags: as the simple engine finds
    /// them, but with each word replaced by the stem of its lower-case form.
    fn tokenize(&self, text: &str, _flags: i32) -> (r: Result<Vec<Token>, ErrorCode>)
        ensures
            r is Ok,
            token_views(r->Ok_0@) == tokens_of(text@, true),
            in_order(token_views(r->Ok_0@)),
    {
        proof {
            lemma_spans_within(text@, true);
            lemma_in_order(text@, true);
        }
        Ok(scan(text, true))
    }
}

} // verus!
