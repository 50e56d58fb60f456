//! Tokens in the order of their starts.

use vstd::prelude::*;

use crate::tokenize::{in_order, token_views, Token, TokenView};

verus! {

/// The index at which a token that starts at `start` goes into `sorted`:
/// behind every token that starts no later, and so behind those that start
/// with it.
pub open spec fn place_for(sorted: Seq<TokenView>, start: int) -> int
    decreases sorted.len(),
{
    if sorted.len() > 0 && sorted.last().start > start {
        place_for(sorted.drop_last(), start)
    } else {
        sorted.len() as int
    }
}

/// The tokens in the order of their starts; tokens that start together keep
/// the order they came in.
pub open spec fn by_start(tokens: Seq<TokenView>) -> Seq<TokenView>
    decreases tokens.len(),
{
    if tokens.len() == 0 {
        Seq::empty()
    } else {
        let front = by_start(tokens.drop_last());
        front.insert(place_for(front, tokens.last().start), tokens.last())
    }
}

/// The starts never decrease.
pub open spec fn starts_ascend(tokens: Seq<TokenView>) -> bool {
    forall|i: int, j: int| 0 <= i <= j < tokens.len() ==> tokens[i].start <= tokens[j].start
}

/// The place for a token lies within the sequence; the tokens from it on
/// start later than the token, and the one before it does not.
pub proof fn lemma_place_for(sorted: Seq<TokenView>, start: int)
    ensures
        0 <= place_for(sorted, start) <= sorted.len(),
        forall|k: int| place_for(sorted, start) <= k < sorted.len() ==> sorted[k].start > start,
        place_for(sorted, start) > 0 ==> sorted[place_for(sorted, start) - 1].start <= start,
    decreases sorted.len(),
{
    if sorted.len() > 0 && sorted.last().start > start {
        let front = sorted.drop_last();
        lemma_place_for(front, start);
        assert forall|k: int| place_for(sorted, start) <= k < sorted.len() implies sorted[k].start
            > start by {
            if k < front.len() {
                assert(sorted[k] == front[k]);
            }
        }
    }
}

/// Ordering keeps every token, as often as it came, and adds none.
pub proof fn lemma_by_start_permutes(tokens: Seq<TokenView>)
    ensures
        by_start(tokens).len() == tokens.len(),
        by_start(tokens).to_multiset() == tokens.to_multiset(),
    decreases tokens.len(),
{
    broadcast use vstd::seq_lib::group_to_multiset_ensures;

    if tokens.len() > 0 {
        let front = by_start(tokens.drop_last());
        let last = tokens.last();
        let at = place_for(front, last.start);
        lemma_by_start_permutes(tokens.drop_last());
        lemma_place_for(front, last.start);
        assert(tokens =~= tokens.drop_last().push(last));
        vstd::seq_lib::to_multiset_insert(front, at, last);
    }
}

/// Every token of the ordered sequence is one of those that came.
pub proof fn lemma_by_start_holds_only_given(tokens: Seq<TokenView>, k: int)
    requires
        0 <= k < by_start(tokens).len(),
    ensures
        tokens.contains(by_start(tokens)[k]),
{
    lemma_by_start_permutes(tokens);
    by_start(tokens).to_multiset_ensures();
    tokens.to_multiset_ensures();
    let token = by_start(tokens)[k];
    assert(by_start(tokens).contains(token));
    assert(by_start(tokens).to_multiset().count(token) > 0);
    assert(tokens.to_multiset().count(token) > 0);
}

/// The ordered sequence is in the order of its starts.
pub proof fn lemma_by_start_ascends(tokens: Seq<TokenView>)
    ensures
        starts_ascend(by_start(tokens)),
    decreases tokens.len(),
{
    if tokens.len() > 0 {
        let front = by_start(tokens.drop_last());
        let last = tokens.last();
        let at = place_for(front, last.start);
        lemma_by_start_ascends(tokens.drop_last());
        lemma_place_for(front, last.start);
        let all = front.insert(at, last);
        assert forall|i: int, j: int| 0 <= i <= j < all.len() implies all[i].start
            <= all[j].start by {
            if at > 0 {
                assert(front[at - 1].start <= last.start);
            }
            if i < at && j > at {
                assert(all[i] == front[i]);
                assert(all[j] == front[j - 1]);
            }
        }
    }
}

/// Tokens of which none is colocated are, once ordered, in order.
pub proof fn lemma_by_start_in_order(tokens: Seq<TokenView>)
    requires
        forall|i: int| 0 <= i < tokens.len() ==> !(#[trigger] tokens[i]).colocated,
    ensures
        in_order(by_start(tokens)),
{
    lemma_by_start_ascends(tokens);
    let sorted = by_start(tokens);
    assert forall|k: int| 0 <= k < sorted.len() implies !(#[trigger] sorted[k]).colocated by {
        lemma_by_start_holds_only_given(tokens, k);
    }
}

/// Tokens that come in the order of their starts stay as they are.
pub proof fn lemma_by_start_keeps_ordered(tokens: Seq<TokenView>)
    requires
        starts_ascend(tokens),
    ensures
        by_start(tokens) == tokens,
    decreases tokens.len(),
{
    if tokens.len() > 0 {
        let front = tokens.drop_last();
        lemma_by_start_keeps_ordered(front);
        if front.len() > 0 {
            assert(front.last() == tokens[tokens.len() - 2]);
        }
        assert(front.insert(front.len() as int, tokens.last()) =~= tokens);
    }
}

/// Puts the tokens in the order of their starts. Each token is moved back
/// past the tokens that start later, so tokens that are nearly in order
/// take little work.
pub fn sort_by_start(tokens: Vec<Token>) -> (sorted: Vec<Token>)
    ensures
        token_views(sorted@) == by_start(token_views(tokens@)),
{
    let ghost all = token_views(tokens@);
    let mut sorted: Vec<Token> = Vec::new();
    for token in it: tokens
        invariant
            all == token_views(it.seq()),
            token_views(sorted@) == by_start(all.take(it.index() as int)),
    {
        let ghost before = token_views(sorted@);
        let mut at: usize = sorted.len();
        assert(before.take(at as int) =~= before);
        while at > 0 && sorted[at - 1].start > token.start
            invariant
                at <= sorted.len(),
                before == token_views(sorted@),
                place_for(before, token@.start) == place_for(before.take(at as int), token@.start),
            decreases at,
        {
            assert(before.take(at as int).drop_last() =~= before.take(at as int - 1));
            at = at - 1;
        }
        proof {
            let taken = all.take(it.index() as int + 1);
            assert(taken.drop_last() =~= all.take(it.index() as int));
            assert(taken.last() == token@);
        }
        sorted.insert(at, token);
        proof {
            assert(token_views(sorted@) =~= before.insert(at as int, token@));
        }
    }
    proof {
        assert(all.take(all.len() as int) =~= all);
    }
    sorted
}

} // verus!
