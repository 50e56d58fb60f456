//! The decisions of the bridge between an engine and the host's tokenizer
//! protocol: what `create` and `tokenize` answer, what is handed to the
//! host's callback for each token, and when the hand-over stops.
//!
//! The bridge itself, which owns the instances and calls the callback, is
//! the caller's: it performs each action that is decided here and reports
//! back what came of it.

use vstd::prelude::*;
use vstd::utf8::{decode_utf8, encode_utf8_decode_utf8, valid_utf8};

use crate::tokenize::laws::{lemma_spans_within, lemma_texts_fit_spans};
use crate::tokenize::simple::tokens_of;
use crate::tokenize::text::byte_len;
use crate::tokenize::{spans_within, token_views, ErrorCode, Token, TokenView, TokenizerImpl};

verus! {

/// The status that reports success.
pub const SQLITE_OK: i32 = 0;

/// The status that reports a failure without saying which.
pub const SQLITE_ERROR: i32 = 1;

/// The bit of the mode flags that is set while a document is indexed, and
/// clear while a query is parsed.
pub const FTS5_TOKENIZE_DOCUMENT: i32 = 0x0004;

/// The bit of a token's flags that marks it as colocated.
pub const FTS5_TOKEN_COLOCATED: i32 = 0x0001;

/// What `create` answers: the engine that the host is to own, or the status
/// with which the engine refused the arguments. Nothing is decided here but
/// by the engine: the answer is one that `T::new` may give on these
/// arguments.
pub fn create<T: TokenizerImpl>(args: &[&[u8]]) -> (r: Result<T, i32>)
    ensures
        match r {
            Ok(engine) => call_ensures(T::new, (args,), Ok(engine)),
            Err(status) => status != SQLITE_OK && exists|e: ErrorCode|
                e.value() == status && call_ensures(T::new, (args,), Err(e)),
        },
{
    match T::new(args) {
        Ok(engine) => Ok(engine),
        Err(e) => Err(e.get()),
    }
}

/// What the host's callback is handed for one token: the token's flags, its
/// text with the text's length in bytes, and its span.
pub struct Emission {
    pub flags: i32,
    pub text: String,
    pub len: i32,
    pub start: i32,
    pub end: i32,
}

/// An emission as a mathematical value.
pub struct EmissionView {
    pub flags: int,
    pub text: Seq<char>,
    pub len: int,
    pub start: int,
    pub end: int,
}

impl View for Emission {
    type V = EmissionView;

    open spec fn view(&self) -> EmissionView {
        EmissionView {
            flags: self.flags as int,
            text: self.text@,
            len: self.len as int,
            start: self.start as int,
            end: self.end as int,
        }
    }
}

/// The emissions of a vector as mathematical values.
pub open spec fn emission_views(plan: Seq<Emission>) -> Seq<EmissionView> {
    plan.map_values(|e: Emission| e@)
}

/// Whether the host's integers can hold the token's numbers.
pub open spec fn representable(token: TokenView) -> bool {
    &&& byte_len(token.text) <= i32::MAX
    &&& 0 <= token.start <= i32::MAX
    &&& 0 <= token.end <= i32::MAX
}

/// The emission that hands over `token`.
pub open spec fn emission_of(token: TokenView) -> EmissionView {
    EmissionView {
        flags: if token.colocated {
            FTS5_TOKEN_COLOCATED as int
        } else {
            0
        },
        text: token.text,
        len: byte_len(token.text) as int,
        start: token.start,
        end: token.end,
    }
}

/// What is to be done with an engine's tokens: hand each over, in their
/// order; or, if the host's integers cannot hold the numbers of one of them,
/// hand nothing over and report the general failure.
pub open spec fn plan_for(tokens: Seq<TokenView>) -> Result<Seq<EmissionView>, int> {
    if forall|i: int| 0 <= i < tokens.len() ==> representable(#[trigger] tokens[i]) {
        Ok(tokens.map_values(|t: TokenView| emission_of(t)))
    } else {
        Err(SQLITE_ERROR as int)
    }
}

/// What is to be done with an engine's answer: its status is passed on, its
/// tokens are planned.
pub open spec fn plan_after(answer: Result<Seq<TokenView>, int>) -> Result<Seq<EmissionView>, int> {
    match answer {
        Ok(tokens) => plan_for(tokens),
        Err(status) => Err(status),
    }
}

/// A planned hand-over, or the status to return at once, as a mathematical
/// value.
pub open spec fn plan_view(plan: Result<Vec<Emission>, i32>) -> Result<Seq<EmissionView>, int> {
    match plan {
        Ok(emissions) => Ok(emission_views(emissions@)),
        Err(status) => Err(status as int),
    }
}

/// An engine's answer as a mathematical value.
pub open spec fn answer_view(answer: Result<Vec<Token>, ErrorCode>) -> Result<
    Seq<TokenView>,
    int,
> {
    match answer {
        Ok(tokens) => Ok(token_views(tokens@)),
        Err(e) => Err(e.value()),
    }
}

/// The plan for an engine's tokens.
pub fn emissions(tokens: Vec<Token>) -> (plan: Result<Vec<Emission>, i32>)
    ensures
        plan_view(plan) == plan_for(token_views(tokens@)),
{
    let ghost all = tokens@;
    let mut plan: Vec<Emission> = Vec::new();
    for token in it: tokens
        invariant
            all == it.seq(),
            plan.len() == it.index(),
            forall|i: int| 0 <= i < plan.len() ==> representable(#[trigger] all[i]@),
            forall|i: int| 0 <= i < plan.len() ==> (#[trigger] plan[i])@ == emission_of(all[i]@),
    {
        let len = token.text.as_str().as_bytes().len();
        if len > 0x7FFF_FFFF || token.start > 0x7FFF_FFFF || token.end > 0x7FFF_FFFF {
            proof {
                let k = it.index() as int;
                assert(!representable(token_views(all)[k]));
            }
            return Err(SQLITE_ERROR);
        }
        let flags = if token.colocated {
            FTS5_TOKEN_COLOCATED
        } else {
            0
        };
        plan.push(
            Emission {
                flags,
                text: token.text,
                len: len as i32,
                start: token.start as i32,
                end: token.end as i32,
            },
        );
    }
    proof {
        assert(emission_views(plan@) =~= token_views(all).map_values(
            |t: TokenView| emission_of(t),
        ));
    }
    Ok(plan)
}

/// What `tokenize` decides before anything is handed over. Bytes that are no
/// well-formed UTF-8 are answered with the general failure status. Any other
/// text goes to the engine, and the result is the plan for what the engine
/// answered: the answer is one that `T::tokenize` may give on this text and
/// these flags.
pub fn tokenize<T: TokenizerImpl>(engine: &T, flags: i32, text: &[u8]) -> (plan: Result<
    Vec<Emission>,
    i32,
>)
    ensures
        !valid_utf8(text@) ==> plan == Err::<Vec<Emission>, i32>(SQLITE_ERROR),
        valid_utf8(text@) ==> exists|s: &str, answer: Result<Vec<Token>, ErrorCode>|
            s@ == decode_utf8(text@) && call_ensures(T::tokenize, (engine, s, flags), answer)
                && plan_view(plan) == plan_after(answer_view(answer)),
{
    let s = match std::str::from_utf8(text) {
        Ok(s) => s,
        Err(_) => {
            return Err(SQLITE_ERROR);
        },
    };
    proof {
        encode_utf8_decode_utf8(s@);
    }
    match engine.tokenize(s, flags) {
        Ok(tokens) => emissions(tokens),
        Err(e) => Err(e.get()),
    }
}

/// The tokens of a text that the host can hold, each with a text that takes
/// no more bytes than its span, can all be handed over.
pub proof fn lemma_plan_is_owed(tokens: Seq<TokenView>, text_len: nat)
    requires
        text_len <= i32::MAX,
        spans_within(tokens, text_len),
        forall|i: int|
            0 <= i < tokens.len() ==> byte_len((#[trigger] tokens[i]).text) <= tokens[i].end
                - tokens[i].start,
    ensures
        plan_for(tokens) is Ok,
{
    assert forall|i: int| 0 <= i < tokens.len() implies representable(#[trigger] tokens[i]) by {}
}

/// What the simple engine finds in a text that the host can hold can always
/// be handed over.
pub proof fn lemma_simple_plan_is_owed(text: Seq<char>)
    requires
        byte_len(text) <= i32::MAX,
    ensures
        plan_for(tokens_of(text, false)) is Ok,
{
    lemma_spans_within(text, false);
    lemma_texts_fit_spans(text);
    lemma_plan_is_owed(tokens_of(text, false), byte_len(text));
}

/// What the bridge does next while it hands a plan over.
#[derive(Clone, Copy, Debug, PartialEq, Eq, Structural)]
pub enum Action {
    /// Hand the emission with this index to the callback.
    Emit(usize),
    /// Hand nothing more over and return this status to the host.
    Return(i32),
}

/// The next action when `sent` emissions of a plan of `planned` have been
/// handed over and the callback answered the last of them with `last`: a
/// status other than success ends the hand-over and is returned as it is;
/// else the next emission is due; after the last one, success is returned.
/// Before anything has been handed over there is no answer, and `last` is
/// not looked at.
pub open spec fn action_after(planned: nat, sent: nat, last: i32) -> Action {
    if sent > 0 && last != SQLITE_OK {
        Action::Return(last)
    } else if sent < planned {
        Action::Emit(sent as usize)
    } else {
        Action::Return(SQLITE_OK)
    }
}

/// The next action of the bridge. The bridge starts with `sent == 0`, hands
/// over the emission of each `Emit` it gets, counts it, and asks again with
/// the callback's answer, until it gets a `Return`.
pub fn next_action(plan: &Vec<Emission>, sent: usize, last: i32) -> (action: Action)
    ensures
        action == action_after(plan.len() as nat, sent as nat, last),
        action matches Action::Emit(i) ==> i == sent && i < plan.len(),
{
    if sent > 0 && last != SQLITE_OK {
        Action::Return(last)
    } else if sent < plan.len() {
        Action::Emit(sent)
    } else {
        Action::Return(SQLITE_OK)
    }
}

/// How a hand-over ends when the callback answers the emission with index
/// `i` with `answers[i]`: the number of emissions handed over, and the
/// status returned to the host.
pub open spec fn hand_over(planned: nat, answers: Seq<i32>, sent: nat, last: i32) -> (nat, i32)
    decreases planned - sent,
{
    match action_after(planned, sent, last) {
        Action::Emit(_) => hand_over(planned, answers, sent + 1, answers[sent as int]),
        Action::Return(status) => (sent, status),
    }
}

/// The index of the first answer in `answers` that is not success, or the
/// length of `answers` if all are.
pub open spec fn first_refusal(answers: Seq<i32>) -> nat
    decreases answers.len(),
{
    if answers.len() == 0 {
        0
    } else if answers[0] != SQLITE_OK {
        0
    } else {
        1 + first_refusal(answers.drop_first())
    }
}

/// The emissions are handed over in their order, one by one from the first.
/// If the callback answers each with success, all are handed over and
/// success is returned. Else the one that the callback refused is the last
/// to be handed over, and the callback's status is returned as it is.
pub proof fn lemma_hand_over_stops_at_first_refusal(answers: Seq<i32>)
    ensures
        first_refusal(answers) <= answers.len(),
        forall|i: int| 0 <= i < first_refusal(answers) ==> answers[i] == SQLITE_OK,
        first_refusal(answers) < answers.len() ==> answers[first_refusal(answers) as int]
            != SQLITE_OK && hand_over(answers.len(), answers, 0, SQLITE_OK) == (
            (first_refusal(answers) + 1) as nat,
            answers[first_refusal(answers) as int],
        ),
        first_refusal(answers) == answers.len() ==> hand_over(
            answers.len(),
            answers,
            0,
            SQLITE_OK,
        ) == (answers.len(), SQLITE_OK),
{
    lemma_first_refusal(answers);
    lemma_hand_over_from(answers, 0, SQLITE_OK);
}

proof fn lemma_first_refusal(answers: Seq<i32>)
    ensures
        first_refusal(answers) <= answers.len(),
        forall|i: int| 0 <= i < first_refusal(answers) ==> answers[i] == SQLITE_OK,
        first_refusal(answers) < answers.len() ==> answers[first_refusal(answers) as int]
            != SQLITE_OK,
    decreases answers.len(),
{
    if answers.len() > 0 && answers[0] == SQLITE_OK {
        let rest = answers.drop_first();
        lemma_first_refusal(rest);
        assert forall|i: int| 0 <= i < first_refusal(answers) implies answers[i]
            == SQLITE_OK by {
            if i > 0 {
                assert(answers[i] == rest[i - 1]);
            }
        }
    }
}

proof fn lemma_hand_over_from(answers: Seq<i32>, sent: nat, last: i32)
    requires
        sent <= first_refusal(answers),
        sent <= answers.len(),
        sent > 0 ==> last == answers[sent - 1],
        sent == 0 ==> last == SQLITE_OK,
    ensures
        first_refusal(answers) < answers.len() ==> hand_over(answers.len(), answers, sent, last)
            == ((first_refusal(answers) + 1) as nat, answers[first_refusal(answers) as int]),
        first_refusal(answers) == answers.len() ==> hand_over(answers.len(), answers, sent, last)
            == (answers.len(), SQLITE_OK),
    decreases answers.len() - sent,
{
    lemma_first_refusal(answers);
    if sent < answers.len() {
        if sent < first_refusal(answers) {
            lemma_hand_over_from(answers, sent + 1, answers[sent as int]);
        } else {
            assert(hand_over(answers.len(), answers, sent + 1, answers[sent as int]) == (
                sent + 1,
                answers[sent as int],
            ));
        }
    }
}

} // verus!
