//! The order in which a deck's cards come up in a review session.
//!
//! The cards are first put youngest first, by the instant of their last
//! change. Each card id is then given a weight, by the first of four rules
//! that applies to it, and an id that has a weight keeps it:
//!
//! - cards graded as known and changed since the deck was last opened
//!   weigh `DUE_WEIGHT`;
//! - cards never graded weigh `FRONT_WEIGHT`;
//! - while fewer than the daily quota of ids have a weight, the next card
//!   weighs `FRONT_WEIGHT` too;
//! - every other card weighs its grade plus its staleness.
//!
//! The session shows the cards heaviest first; cards of equal weight stay
//! youngest first.

use crate::card::{Card, RATING_KNOWN, RATING_UNRATED};
use crate::recency::{recency_weight, recency_weight_of};
use crate::stable_sort::{
    is_desc, lemma_sort_desc_descends, lemma_sort_desc_permutes, sort_by_keys, sort_desc,
};
use std::collections::HashMap;
use vstd::prelude::*;

verus! {

/// The weight of a card that is known but was changed after the deck was
/// last opened.
pub const DUE_WEIGHT: i64 = 1_000_000;

/// The weight of the cards at the front of the queue: those never graded,
/// and those that fill the daily quota.
pub const FRONT_WEIGHT: i64 = 100_000;

/// The number of cards that a session puts at the front of the queue at
/// least, where the deck has that many.
pub const DAILY_REVIEW_COUNT: usize = 9;

/// The weights given so far, by card id.
pub type Weights = Map<i32, i64>;

/// The card is graded as known and was changed after the deck was last
/// opened.
pub open spec fn is_due(card: Card, deck_seen_at: int) -> bool {
    card.rating == RATING_KNOWN && deck_seen_at < card.updated_at
}

/// The card was never graded.
pub open spec fn is_unrated(card: Card) -> bool {
    card.rating == RATING_UNRATED
}

/// The key by which cards are put youngest first.
pub open spec fn recency_key() -> spec_fn(Card) -> int {
    |card: Card| card.updated_at as int
}

/// The key by which cards are put heaviest first.
pub open spec fn weight_key(weights: Weights) -> spec_fn(Card) -> int {
    |card: Card| weights[card.id] as int
}

/// The cards youngest first; cards changed at the same instant stay in the
/// order in which they came.
pub open spec fn by_recency(cards: Seq<Card>) -> Seq<Card> {
    sort_desc(cards, recency_key())
}

/// The time between the oldest and the youngest change, for cards that
/// stand youngest first.
pub open spec fn span_of(recent: Seq<Card>) -> int {
    if recent.len() == 0 {
        0
    } else {
        recent.first().updated_at - recent.last().updated_at
    }
}

/// The time between the card's last change and the youngest one.
pub open spec fn age_of(recent: Seq<Card>, card: Card) -> int {
    if recent.len() == 0 {
        0
    } else {
        recent.first().updated_at - card.updated_at
    }
}

/// The weight under the last rule: the grade plus the staleness.
pub open spec fn graded_weight(recent: Seq<Card>, card: Card) -> int {
    card.rating + recency_weight(age_of(recent, card), span_of(recent))
}

/// The first rule, for one card.
pub open spec fn weigh_due(weights: Weights, card: Card, deck_seen_at: int) -> Weights {
    if is_due(card, deck_seen_at) && !weights.contains_key(card.id) {
        weights.insert(card.id, DUE_WEIGHT)
    } else {
        weights
    }
}

/// The second rule, for one card.
pub open spec fn weigh_unrated(weights: Weights, card: Card) -> Weights {
    if is_unrated(card) && !weights.contains_key(card.id) {
        weights.insert(card.id, FRONT_WEIGHT)
    } else {
        weights
    }
}

/// The third and the fourth rule, for one card of `recent`.
pub open spec fn weigh_rest(weights: Weights, card: Card, quota: nat, recent: Seq<Card>) -> Weights {
    if weights.contains_key(card.id) {
        weights
    } else if weights.len() < quota {
        weights.insert(card.id, FRONT_WEIGHT)
    } else {
        weights.insert(card.id, graded_weight(recent, card) as i64)
    }
}

/// The first rule, for `cards` one after the other.
pub open spec fn due_pass(cards: Seq<Card>, deck_seen_at: int) -> Weights
    decreases cards.len(),
{
    if cards.len() == 0 {
        Map::empty()
    } else {
        weigh_due(due_pass(cards.drop_last(), deck_seen_at), cards.last(), deck_seen_at)
    }
}

/// The second rule, for `cards` one after the other, on top of `weights`.
pub open spec fn unrated_pass(cards: Seq<Card>, weights: Weights) -> Weights
    decreases cards.len(),
{
    if cards.len() == 0 {
        weights
    } else {
        weigh_unrated(unrated_pass(cards.drop_last(), weights), cards.last())
    }
}

/// The third and the fourth rule, for `cards` one after the other, on top
/// of `weights`. `cards` is `recent` or the head of it.
pub open spec fn rest_pass(cards: Seq<Card>, weights: Weights, quota: nat, recent: Seq<Card>) -> Weights
    decreases cards.len(),
{
    if cards.len() == 0 {
        weights
    } else {
        weigh_rest(rest_pass(cards.drop_last(), weights, quota, recent), cards.last(), quota, recent)
    }
}

/// The weight of every card id of `recent`, which stands youngest first.
pub open spec fn session_weights(recent: Seq<Card>, deck_seen_at: int, quota: nat) -> Weights {
    rest_pass(recent, unrated_pass(recent, due_pass(recent, deck_seen_at)), quota, recent)
}

/// The order of a review session: youngest first, then heaviest first.
pub open spec fn schedule(cards: Seq<Card>, deck_seen_at: int, quota: nat) -> Seq<Card> {
    let recent = by_recency(cards);
    sort_desc(recent, weight_key(session_weights(recent, deck_seen_at, quota)))
}

/// Puts `cards` youngest first.
pub fn sort_by_recency(cards: Vec<Card>) -> (recent: Vec<Card>)
    ensures
        recent@ == by_recency(cards@),
{
    let mut keys: Vec<i64> = Vec::new();
    let mut i: usize = 0;
    while i < cards.len()
        invariant
            i <= cards.len(),
            keys.len() == i,
            forall|j: int| 0 <= j < i ==> keys[j] == (#[trigger] cards[j]).updated_at,
        decreases cards.len() - i,
    {
        keys.push(cards[i].updated_at);
        i += 1;
    }
    sort_by_keys(cards, keys, Ghost(recency_key()))
}

/// Gives every card id of `recent` its weight.
pub fn weigh(recent: &Vec<Card>, deck_seen_at: i64, daily_quota: usize) -> (weights: HashMap<
    i32,
    i64,
>)
    requires
        is_desc(recent@, recency_key()),
    ensures
        weights@ == session_weights(recent@, deck_seen_at as int, daily_quota as nat),
        forall|i: int| 0 <= i < recent.len() ==> weights@.contains_key((#[trigger] recent[i]).id),
{
    let mut weights: HashMap<i32, i64> = HashMap::new();
    let n = recent.len();
    let mut i: usize = 0;
    while i < n
        invariant
            n == recent.len(),
            i <= n,
            weights@ == due_pass(recent@.take(i as int), deck_seen_at as int),
        decreases n - i,
    {
        proof {
            assert(recent@.take(i + 1).drop_last() =~= recent@.take(i as int));
        }
        let card = &recent[i];
        if card.rating == RATING_KNOWN && deck_seen_at < card.updated_at && !weights.contains_key(
            &card.id,
        ) {
            weights.insert(card.id, DUE_WEIGHT);
        }
        i += 1;
    }
    proof {
        assert(recent@.take(n as int) =~= recent@);
    }
    let ghost due = weights@;
    i = 0;
    while i < n
        invariant
            n == recent.len(),
            i <= n,
            weights@ == unrated_pass(recent@.take(i as int), due),
        decreases n - i,
    {
        proof {
            assert(recent@.take(i + 1).drop_last() =~= recent@.take(i as int));
        }
        let card = &recent[i];
        if card.rating == RATING_UNRATED && !weights.contains_key(&card.id) {
            weights.insert(card.id, FRONT_WEIGHT);
        }
        i += 1;
    }
    proof {
        assert(recent@.take(n as int) =~= recent@);
    }
    let ghost front = weights@;
    i = 0;
    while i < n
        invariant
            n == recent.len(),
            i <= n,
            is_desc(recent@, recency_key()),
            weights@ == rest_pass(recent@.take(i as int), front, daily_quota as nat, recent@),
            forall|j: int| 0 <= j < i ==> weights@.contains_key((#[trigger] recent[j]).id),
        decreases n - i,
    {
        proof {
            assert(recent@.take(i + 1).drop_last() =~= recent@.take(i as int));
        }
        let card = &recent[i];
        if !weights.contains_key(&card.id) {
            if weights.len() < daily_quota {
                weights.insert(card.id, FRONT_WEIGHT);
            } else {
                let youngest = recent[0].updated_at;
                let oldest = recent[n - 1].updated_at;
                proof {
                    let key = recency_key();
                    if 0 < i {
                        assert(key(recent@[0]) >= key(recent@[i as int]));
                    }
                    if i < n - 1 {
                        assert(key(recent@[i as int]) >= key(recent@[n - 1]));
                    }
                }
                let span: i128 = youngest as i128 - oldest as i128;
                let age: i128 = youngest as i128 - card.updated_at as i128;
                let staleness = recency_weight_of(age, span);
                weights.insert(card.id, card.rating as i64 + staleness);
            }
        }
        i += 1;
    }
    proof {
        assert(recent@.take(n as int) =~= recent@);
    }
    weights
}

/// Puts `recent` heaviest first.
pub fn sort_by_weight(recent: Vec<Card>, weights: &HashMap<i32, i64>) -> (order: Vec<Card>)
    requires
        forall|i: int| 0 <= i < recent.len() ==> weights@.contains_key((#[trigger] recent[i]).id),
    ensures
        order@ == sort_desc(recent@, weight_key(weights@)),
{
    let mut keys: Vec<i64> = Vec::new();
    let mut i: usize = 0;
    while i < recent.len()
        invariant
            i <= recent.len(),
            keys.len() == i,
            forall|j: int| 0 <= j < recent.len() ==> weights@.contains_key((#[trigger] recent[j]).id),
            forall|j: int| 0 <= j < i ==> keys[j] == weights@[(#[trigger] recent[j]).id],
        decreases recent.len() - i,
    {
        let weight = weights.get(&recent[i].id);
        assert(weights@.contains_key(recent[i as int].id));
        keys.push(*weight.unwrap());
        i += 1;
    }
    sort_by_keys(recent, keys, Ghost(weight_key(weights@)))
}

/// Computes the order in which a session shows `cards`. `deck_seen_at` is
/// the instant at which the deck was last opened, before this session.
pub fn compute_order(cards: Vec<Card>, deck_seen_at: i64, daily_quota: usize) -> (order: Vec<Card>)
    ensures
        order@ == schedule(cards@, deck_seen_at as int, daily_quota as nat),
        order@.to_multiset() == cards@.to_multiset(),
        order@.len() == cards@.len(),
{
    let recent = sort_by_recency(cards);
    proof {
        lemma_sort_desc_descends(cards@, recency_key());
        lemma_sort_desc_permutes(cards@, recency_key());
    }
    let weights = weigh(&recent, deck_seen_at, daily_quota);
    proof {
        lemma_sort_desc_permutes(recent@, weight_key(weights@));
    }
    sort_by_weight(recent, &weights)
}

} // verus!
