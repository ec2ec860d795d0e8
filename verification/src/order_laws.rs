//! What holds of every session order.
//!
//! The weights are defined rule by rule over a map of card ids. For a deck
//! whose cards have ids of their own, this module says what each card
//! weighs by looking at the card alone and at the cards in front of it, and
//! draws from that who comes up before whom.

use crate::card::Card;
use crate::recency::{lemma_recency_weight_bounds, recency_weight};
use crate::scheduler::{
    age_of, by_recency, due_pass, graded_weight, is_due, is_unrated, recency_key, rest_pass,
    schedule, session_weights, span_of, unrated_pass, weigh_due, weigh_rest, weight_key, Weights,
    DUE_WEIGHT, FRONT_WEIGHT,
};
use crate::stable_sort::{
    distinct_by, is_desc, lemma_sort_desc_descends, lemma_sort_desc_keeps_distinct,
    lemma_sort_desc_permutes, lemma_sort_desc_same_items, lemma_sort_desc_stable, sort_desc,
    with_key,
};
use vstd::prelude::*;

verus! {

/// The tag by which cards are told apart.
pub open spec fn card_id() -> spec_fn(Card) -> int {
    |card: Card| card.id as int
}

/// No two of the cards share an id.
pub open spec fn distinct_ids(cards: Seq<Card>) -> bool {
    distinct_by(cards, card_id())
}

/// Every card has one of the five grades.
pub open spec fn valid_ratings(cards: Seq<Card>) -> bool {
    forall|i: int| 0 <= i < cards.len() ==> (#[trigger] cards[i]).has_valid_rating()
}

/// Neither of the first two rules applies to the card.
pub open spec fn is_plain(card: Card, deck_seen_at: int) -> bool {
    !is_due(card, deck_seen_at) && !is_unrated(card)
}

/// `is_due` as a test on cards.
pub open spec fn due_test(deck_seen_at: int) -> spec_fn(Card) -> bool {
    |card: Card| is_due(card, deck_seen_at)
}

/// `is_unrated` as a test on cards.
pub open spec fn unrated_test() -> spec_fn(Card) -> bool {
    |card: Card| is_unrated(card)
}

/// `is_plain` as a test on cards.
pub open spec fn plain_test(deck_seen_at: int) -> spec_fn(Card) -> bool {
    |card: Card| is_plain(card, deck_seen_at)
}

/// The number of cards that the first two rules weigh.
pub open spec fn priority_count(recent: Seq<Card>, deck_seen_at: int) -> int {
    (recent.filter(due_test(deck_seen_at)).len() + recent.filter(unrated_test()).len()) as int
}

/// The number of plain cards in front of position `i`.
pub open spec fn plain_before(recent: Seq<Card>, i: int, deck_seen_at: int) -> int {
    recent.take(i).filter(plain_test(deck_seen_at)).len() as int
}

/// The card at position `i` is plain and finds the quota not yet filled.
pub open spec fn fills_quota(recent: Seq<Card>, i: int, deck_seen_at: int, quota: nat) -> bool {
    &&& is_plain(recent[i], deck_seen_at)
    &&& priority_count(recent, deck_seen_at) + plain_before(recent, i, deck_seen_at) < quota
}

/// The card at position `i` is left to the last rule: it is plain, and the
/// quota was filled before its turn.
pub open spec fn weighed_by_grade(recent: Seq<Card>, i: int, deck_seen_at: int, quota: nat) -> bool {
    &&& is_plain(recent[i], deck_seen_at)
    &&& priority_count(recent, deck_seen_at) + plain_before(recent, i, deck_seen_at) >= quota
}

/// What the card at position `i` of `recent` weighs, told from the card and
/// from the cards in front of it.
pub open spec fn rule_weight(recent: Seq<Card>, i: int, deck_seen_at: int, quota: nat) -> int {
    if is_due(recent[i], deck_seen_at) {
        DUE_WEIGHT as int
    } else if is_unrated(recent[i]) {
        FRONT_WEIGHT as int
    } else if fills_quota(recent, i, deck_seen_at, quota) {
        FRONT_WEIGHT as int
    } else {
        graded_weight(recent, recent[i])
    }
}

/// Some card with this id passes the test.
pub open spec fn some_card(cards: Seq<Card>, id: i32, test: spec_fn(Card) -> bool) -> bool {
    exists|i: int| 0 <= i < cards.len() && (#[trigger] cards[i]).id == id && test(cards[i])
}

/// Without its last card, a deck of distinct ids has distinct ids still,
/// and none of them is the id of the card taken away.
proof fn lemma_distinct_front(cards: Seq<Card>)
    requires
        distinct_ids(cards),
        cards.len() > 0,
    ensures
        distinct_ids(cards.drop_last()),
        forall|i: int|
            0 <= i < cards.len() - 1 ==> (#[trigger] cards.drop_last()[i]).id != cards.last().id,
{
    let front = cards.drop_last();
    let tag = card_id();
    assert forall|i: int, j: int| 0 <= i < j < front.len() implies tag(#[trigger] front[i]) != tag(
        #[trigger] front[j],
    ) by {
        assert(front[i] == cards[i] && front[j] == cards[j]);
    }
    assert forall|i: int| 0 <= i < cards.len() - 1 implies (#[trigger] front[i]).id
        != cards.last().id by {
        assert(front[i] == cards[i]);
        assert(tag(cards[i]) != tag(cards[cards.len() - 1]));
    }
}

/// A card that passes the test is the last card or one in front of it.
proof fn lemma_some_card_step(cards: Seq<Card>, test: spec_fn(Card) -> bool)
    requires
        cards.len() > 0,
    ensures
        forall|id: i32|
            some_card(cards, id, test) <==> (#[trigger] some_card(cards.drop_last(), id, test) || (
            cards.last().id == id && test(cards.last()))),
{
    let front = cards.drop_last();
    let last = cards.last();
    assert forall|id: i32|
        some_card(cards, id, test) <==> (#[trigger] some_card(front, id, test) || (last.id == id
            && test(last))) by {
        if some_card(cards, id, test) {
            let i = choose|i: int| 0 <= i < cards.len() && (#[trigger] cards[i]).id == id && test(
                cards[i],
            );
            if i < front.len() {
                assert(front[i] == cards[i]);
            }
        }
        if some_card(front, id, test) {
            let i = choose|i: int| 0 <= i < front.len() && (#[trigger] front[i]).id == id && test(
                front[i],
            );
            assert(cards[i] == front[i]);
        }
        if last.id == id && test(last) {
            assert(cards[cards.len() - 1] == last);
        }
    }
}

/// What the first rule leaves behind.
proof fn lemma_due_pass(cards: Seq<Card>, deck_seen_at: int)
    requires
        distinct_ids(cards),
    ensures
        due_pass(cards, deck_seen_at).dom().finite(),
        due_pass(cards, deck_seen_at).len() == cards.filter(due_test(deck_seen_at)).len(),
        forall|id: i32| #[trigger]
            due_pass(cards, deck_seen_at).contains_key(id) <==> some_card(
                cards,
                id,
                due_test(deck_seen_at),
            ),
        forall|id: i32| #[trigger]
            due_pass(cards, deck_seen_at).contains_key(id) ==> due_pass(cards, deck_seen_at)[id]
                == DUE_WEIGHT,
    decreases cards.len(),
{
    let test = due_test(deck_seen_at);
    if cards.len() == 0 {
        cards.lemma_filter_len(test);
    } else {
        let front = cards.drop_last();
        let last = cards.last();
        lemma_distinct_front(cards);
        lemma_due_pass(front, deck_seen_at);
        lemma_some_card_step(cards, test);
        assert(cards =~= front.push(last));
        front.lemma_filter_len_push(test, last);
        let before = due_pass(front, deck_seen_at);
        if before.contains_key(last.id) {
            assert(some_card(front, last.id, test));
            let i = choose|i: int| 0 <= i < front.len() && (#[trigger] front[i]).id == last.id
                && test(front[i]);
            assert(false);
        }
    }
}

/// What the second rule adds to `base`.
proof fn lemma_unrated_pass(cards: Seq<Card>, base: Weights)
    requires
        distinct_ids(cards),
        base.dom().finite(),
        forall|i: int|
            0 <= i < cards.len() && is_unrated(#[trigger] cards[i]) ==> !base.contains_key(
                cards[i].id,
            ),
    ensures
        unrated_pass(cards, base).dom().finite(),
        unrated_pass(cards, base).len() == base.len() + cards.filter(unrated_test()).len(),
        forall|id: i32| #[trigger]
            unrated_pass(cards, base).contains_key(id) <==> (base.contains_key(id) || some_card(
                cards,
                id,
                unrated_test(),
            )),
        forall|id: i32| #[trigger]
            base.contains_key(id) ==> unrated_pass(cards, base)[id] == base[id],
        forall|id: i32| #[trigger]
            unrated_pass(cards, base).contains_key(id) && !base.contains_key(id) ==> unrated_pass(
                cards,
                base,
            )[id] == FRONT_WEIGHT,
    decreases cards.len(),
{
    let test = unrated_test();
    if cards.len() == 0 {
        cards.lemma_filter_len(test);
    } else {
        let front = cards.drop_last();
        let last = cards.last();
        lemma_distinct_front(cards);
        assert forall|i: int| 0 <= i < front.len() && is_unrated(#[trigger] front[i]) implies
            !base.contains_key(front[i].id) by {
            assert(front[i] == cards[i]);
        }
        lemma_unrated_pass(front, base);
        lemma_some_card_step(cards, test);
        assert(cards =~= front.push(last));
        front.lemma_filter_len_push(test, last);
        let before = unrated_pass(front, base);
        if is_unrated(last) {
            assert(cards[cards.len() - 1] == last);
            assert(!base.contains_key(last.id));
            if before.contains_key(last.id) {
                assert(some_card(front, last.id, test));
                let i = choose|i: int| 0 <= i < front.len() && (#[trigger] front[i]).id == last.id
                    && test(front[i]);
                assert(false);
            }
        }
    }
}

/// What the last two rules add to `base`, which holds the ids of the cards
/// that are not plain.
proof fn lemma_rest_pass(recent: Seq<Card>, k: int, base: Weights, deck_seen_at: int, quota: nat)
    requires
        distinct_ids(recent),
        0 <= k <= recent.len(),
        base.dom().finite(),
        forall|i: int|
            0 <= i < recent.len() ==> (base.contains_key((#[trigger] recent[i]).id) <==> !is_plain(
                recent[i],
                deck_seen_at,
            )),
    ensures
        rest_pass(recent.take(k), base, quota, recent).dom().finite(),
        rest_pass(recent.take(k), base, quota, recent).len() == base.len() + plain_before(
            recent,
            k,
            deck_seen_at,
        ),
        forall|id: i32| #[trigger]
            base.contains_key(id) ==> rest_pass(recent.take(k), base, quota, recent).contains_key(id)
                && rest_pass(recent.take(k), base, quota, recent)[id] == base[id],
        forall|i: int|
            0 <= i < k ==> rest_pass(recent.take(k), base, quota, recent).contains_key(
                (#[trigger] recent[i]).id,
            ),
        forall|i: int|
            k <= i < recent.len() && is_plain(#[trigger] recent[i], deck_seen_at) ==> !rest_pass(
                recent.take(k),
                base,
                quota,
                recent,
            ).contains_key(recent[i].id),
        forall|i: int|
            0 <= i < k && is_plain(#[trigger] recent[i], deck_seen_at) ==> rest_pass(
                recent.take(k),
                base,
                quota,
                recent,
            )[recent[i].id] == (if base.len() + plain_before(recent, i, deck_seen_at) < quota {
                FRONT_WEIGHT
            } else {
                graded_weight(recent, recent[i]) as i64
            }),
    decreases k,
{
    let test = plain_test(deck_seen_at);
    if k == 0 {
        recent.take(0).lemma_filter_len(test);
    } else {
        let cards = recent.take(k);
        let front = recent.take(k - 1);
        let last = recent[k - 1];
        assert(cards.drop_last() =~= front);
        assert(cards.last() == last);
        assert(cards =~= front.push(last));
        front.lemma_filter_len_push(test, last);
        lemma_rest_pass(recent, k - 1, base, deck_seen_at, quota);
        let before = rest_pass(front, base, quota, recent);
        let after = rest_pass(cards, base, quota, recent);
        assert(after == weigh_rest(before, last, quota, recent));
        let tag = card_id();
        assert forall|i: int| 0 <= i < recent.len() && i != k - 1 implies (#[trigger] recent[i]).id
            != last.id by {
            if i < k - 1 {
                assert(tag(recent[i]) != tag(recent[k - 1]));
            } else {
                assert(tag(recent[k - 1]) != tag(recent[i]));
            }
        }
        if is_plain(last, deck_seen_at) {
            assert(!before.contains_key(last.id));
            assert(before.len() == base.len() + plain_before(recent, k - 1, deck_seen_at));
        } else {
            assert(base.contains_key(last.id));
            assert(after == before);
        }
    }
}

/// The cards stand youngest first, so no card is older than the span.
proof fn lemma_age_within_span(recent: Seq<Card>, i: int)
    requires
        is_desc(recent, recency_key()),
        0 <= i < recent.len(),
    ensures
        0 <= age_of(recent, recent[i]) <= span_of(recent),
        0 <= recency_weight(age_of(recent, recent[i]), span_of(recent)) <= 4,
        i64::MIN <= graded_weight(recent, recent[i]) <= i64::MAX,
{
    let key = recency_key();
    if 0 < i {
        assert(key(recent[0]) >= key(recent[i]));
    }
    if i < recent.len() - 1 {
        assert(key(recent[i]) >= key(recent[recent.len() - 1]));
    }
    lemma_recency_weight_bounds(age_of(recent, recent[i]), span_of(recent));
}

/// Each card's weight is the weight of the first rule that applies to it:
/// here for cards that stand youngest first already.
pub proof fn lemma_weights_follow_rules(recent: Seq<Card>, deck_seen_at: int, quota: nat)
    requires
        distinct_ids(recent),
        is_desc(recent, recency_key()),
    ensures
        forall|i: int|
            0 <= i < recent.len() ==> session_weights(recent, deck_seen_at, quota).contains_key(
                (#[trigger] recent[i]).id,
            ) && session_weights(recent, deck_seen_at, quota)[recent[i].id] == rule_weight(
                recent,
                i,
                deck_seen_at,
                quota,
            ),
{
    let due = due_pass(recent, deck_seen_at);
    lemma_due_pass(recent, deck_seen_at);
    let tag = card_id();
    // A card's id is in a pass's map only by that card's own doing.
    assert forall|i: int, test: spec_fn(Card) -> bool|
        0 <= i < recent.len() && some_card(recent, (#[trigger] recent[i]).id, test) implies #[trigger] test(
        recent[i],
    ) by {
        let j = choose|j: int| 0 <= j < recent.len() && (#[trigger] recent[j]).id == recent[i].id
            && test(recent[j]);
        if j < i {
            assert(tag(recent[j]) != tag(recent[i]));
        } else if i < j {
            assert(tag(recent[i]) != tag(recent[j]));
        }
    }
    assert forall|i: int| 0 <= i < recent.len() implies (due.contains_key(
        (#[trigger] recent[i]).id,
    ) <==> is_due(recent[i], deck_seen_at)) by {
        let test = due_test(deck_seen_at);
        if is_due(recent[i], deck_seen_at) {
            assert(test(recent[i]));
            assert(some_card(recent, recent[i].id, test));
        }
        if due.contains_key(recent[i].id) {
            assert(some_card(recent, recent[i].id, test));
            assert(test(recent[i]));
        }
    }
    let front = unrated_pass(recent, due);
    lemma_unrated_pass(recent, due);
    assert forall|i: int| 0 <= i < recent.len() implies (front.contains_key(
        (#[trigger] recent[i]).id,
    ) <==> !is_plain(recent[i], deck_seen_at)) by {
        let test = unrated_test();
        if is_unrated(recent[i]) {
            assert(test(recent[i]));
            assert(some_card(recent, recent[i].id, test));
        }
        if front.contains_key(recent[i].id) && !due.contains_key(recent[i].id) {
            assert(some_card(recent, recent[i].id, test));
            assert(test(recent[i]));
        }
    }
    let all = session_weights(recent, deck_seen_at, quota);
    lemma_rest_pass(recent, recent.len() as int, front, deck_seen_at, quota);
    assert(recent.take(recent.len() as int) =~= recent);
    assert(all == rest_pass(recent, front, quota, recent));
    assert forall|i: int| 0 <= i < recent.len() implies all.contains_key((#[trigger] recent[i]).id)
        && all[recent[i].id] == rule_weight(recent, i, deck_seen_at, quota) by {
        lemma_age_within_span(recent, i);
        if is_due(recent[i], deck_seen_at) {
            assert(due.contains_key(recent[i].id));
            assert(front[recent[i].id] == due[recent[i].id]);
        } else if is_unrated(recent[i]) {
            assert(front.contains_key(recent[i].id));
            assert(all[recent[i].id] == front[recent[i].id]);
        } else {
            assert(is_plain(recent[i], deck_seen_at));
        }
    }
}

/// A session shows the cards of the deck and no others: none is added,
/// none is dropped, none comes twice.
pub proof fn lemma_schedule_permutes(cards: Seq<Card>, deck_seen_at: int, quota: nat)
    ensures
        schedule(cards, deck_seen_at, quota).to_multiset() == cards.to_multiset(),
        schedule(cards, deck_seen_at, quota).len() == cards.len(),
{
    let recent = by_recency(cards);
    lemma_sort_desc_permutes(cards, recency_key());
    lemma_sort_desc_permutes(recent, weight_key(session_weights(recent, deck_seen_at, quota)));
}

/// A session shows the cards heaviest first.
pub proof fn lemma_schedule_descends(cards: Seq<Card>, deck_seen_at: int, quota: nat)
    ensures
        is_desc(
            schedule(cards, deck_seen_at, quota),
            weight_key(session_weights(by_recency(cards), deck_seen_at, quota)),
        ),
{
    let recent = by_recency(cards);
    lemma_sort_desc_descends(recent, weight_key(session_weights(recent, deck_seen_at, quota)));
}

/// In a deck whose cards have ids of their own, each card's weight is the
/// weight of the first rule that applies to it.
pub proof fn lemma_schedule_weights(cards: Seq<Card>, deck_seen_at: int, quota: nat)
    requires
        distinct_ids(cards),
    ensures
        distinct_ids(by_recency(cards)),
        is_desc(by_recency(cards), recency_key()),
        forall|i: int|
            0 <= i < by_recency(cards).len() ==> session_weights(
                by_recency(cards),
                deck_seen_at,
                quota,
            ).contains_key((#[trigger] by_recency(cards)[i]).id) && session_weights(
                by_recency(cards),
                deck_seen_at,
                quota,
            )[by_recency(cards)[i].id] == rule_weight(by_recency(cards), i, deck_seen_at, quota),
{
    lemma_sort_desc_keeps_distinct(cards, recency_key(), card_id());
    lemma_sort_desc_descends(cards, recency_key());
    lemma_weights_follow_rules(by_recency(cards), deck_seen_at, quota);
}

/// Sorting keeps the grades valid.
proof fn lemma_sorted_ratings_valid(cards: Seq<Card>, key: spec_fn(Card) -> int)
    requires
        valid_ratings(cards),
    ensures
        valid_ratings(sort_desc(cards, key)),
{
    let sorted = sort_desc(cards, key);
    lemma_sort_desc_same_items(cards, key);
    assert forall|i: int| 0 <= i < sorted.len() implies (#[trigger] sorted[i]).has_valid_rating() by {
        assert(cards.contains(sorted[i]));
        let j = choose|j: int| 0 <= j < cards.len() && cards[j] == sorted[i];
        assert(cards[j].has_valid_rating());
    }
}

/// With valid grades, what the last rule gives stays below the front of
/// the queue.
proof fn lemma_graded_weight_is_small(recent: Seq<Card>, i: int)
    requires
        is_desc(recent, recency_key()),
        valid_ratings(recent),
        0 <= i < recent.len(),
    ensures
        0 <= graded_weight(recent, recent[i]) <= 8,
{
    lemma_age_within_span(recent, i);
    assert(recent[i].has_valid_rating());
}

/// A card that is known but was changed since the deck was last opened
/// comes up before every card that is left to the last rule.
pub proof fn lemma_due_cards_come_first(cards: Seq<Card>, deck_seen_at: int, quota: nat)
    requires
        distinct_ids(cards),
        valid_ratings(cards),
    ensures
        ({
            let recent = by_recency(cards);
            let order = schedule(cards, deck_seen_at, quota);
            forall|a: int, b: int, j: int|
                #![trigger order[a], order[b], recent[j]]
                0 <= a < order.len() && 0 <= b < order.len() && 0 <= j < recent.len() && is_due(
                    order[a],
                    deck_seen_at,
                ) && order[b] == recent[j] && weighed_by_grade(recent, j, deck_seen_at, quota)
                    ==> a < b
        }),
{
    let recent = by_recency(cards);
    let weights = session_weights(recent, deck_seen_at, quota);
    let key = weight_key(weights);
    let order = schedule(cards, deck_seen_at, quota);
    lemma_schedule_weights(cards, deck_seen_at, quota);
    lemma_schedule_descends(cards, deck_seen_at, quota);
    lemma_sorted_ratings_valid(cards, recency_key());
    lemma_sort_desc_same_items(recent, key);
    assert forall|a: int, b: int, j: int|
        #![trigger order[a], order[b], recent[j]]
        0 <= a < order.len() && 0 <= b < order.len() && 0 <= j < recent.len() && is_due(
            order[a],
            deck_seen_at,
        ) && order[b] == recent[j] && weighed_by_grade(recent, j, deck_seen_at, quota) implies a
        < b by {
        assert(recent.contains(order[a]));
        let a2 = choose|i: int| 0 <= i < recent.len() && recent[i] == order[a];
        assert(weights[recent[a2].id] == rule_weight(recent, a2, deck_seen_at, quota));
        assert(weights[recent[j].id] == rule_weight(recent, j, deck_seen_at, quota));
        lemma_graded_weight_is_small(recent, j);
        assert(key(order[a]) == DUE_WEIGHT);
        assert(key(order[b]) <= 8);
        if b < a {
            assert(key(order[b]) >= key(order[a]));
        }
    }
}

/// A card that was never graded comes up before every card that is left
/// to the last rule.
pub proof fn lemma_unrated_cards_come_ahead(cards: Seq<Card>, deck_seen_at: int, quota: nat)
    requires
        distinct_ids(cards),
        valid_ratings(cards),
    ensures
        ({
            let recent = by_recency(cards);
            let order = schedule(cards, deck_seen_at, quota);
            forall|a: int, b: int, j: int|
                #![trigger order[a], order[b], recent[j]]
                0 <= a < order.len() && 0 <= b < order.len() && 0 <= j < recent.len()
                    && is_unrated(order[a]) && order[b] == recent[j] && weighed_by_grade(
                    recent,
                    j,
                    deck_seen_at,
                    quota,
                ) ==> a < b
        }),
{
    let recent = by_recency(cards);
    let weights = session_weights(recent, deck_seen_at, quota);
    let key = weight_key(weights);
    let order = schedule(cards, deck_seen_at, quota);
    lemma_schedule_weights(cards, deck_seen_at, quota);
    lemma_schedule_descends(cards, deck_seen_at, quota);
    lemma_sorted_ratings_valid(cards, recency_key());
    lemma_sort_desc_same_items(recent, key);
    assert forall|a: int, b: int, j: int|
        #![trigger order[a], order[b], recent[j]]
        0 <= a < order.len() && 0 <= b < order.len() && 0 <= j < recent.len() && is_unrated(
            order[a],
        ) && order[b] == recent[j] && weighed_by_grade(recent, j, deck_seen_at, quota) implies a
        < b by {
        assert(recent.contains(order[a]));
        let a2 = choose|i: int| 0 <= i < recent.len() && recent[i] == order[a];
        assert(weights[recent[a2].id] == rule_weight(recent, a2, deck_seen_at, quota));
        assert(weights[recent[j].id] == rule_weight(recent, j, deck_seen_at, quota));
        lemma_graded_weight_is_small(recent, j);
        assert(key(order[a]) == FRONT_WEIGHT);
        assert(key(order[b]) <= 8);
        if b < a {
            assert(key(order[b]) >= key(order[a]));
        }
    }
}

/// All the cards were changed at one instant.
pub open spec fn one_instant(cards: Seq<Card>) -> bool {
    forall|i: int, j: int|
        0 <= i < cards.len() && 0 <= j < cards.len() ==> (#[trigger] cards[i]).updated_at == (
        #[trigger] cards[j]).updated_at
}

/// In a deck whose cards were all changed at one instant there is no span
/// to measure staleness by: no age is stale, and the last rule gives a card
/// its grade and no more.
pub proof fn lemma_no_span_no_staleness(cards: Seq<Card>)
    requires
        one_instant(cards),
    ensures
        span_of(by_recency(cards)) == 0,
        forall|age: int| recency_weight(age, span_of(by_recency(cards))) == 0,
        forall|card: Card| #[trigger] graded_weight(by_recency(cards), card) == card.rating,
{
    let recent = by_recency(cards);
    lemma_sort_desc_same_items(cards, recency_key());
    lemma_sort_desc_permutes(cards, recency_key());
    if recent.len() > 0 {
        let first = recent[0];
        let last = recent[recent.len() - 1];
        assert(cards.contains(first) && cards.contains(last));
        let a = choose|i: int| 0 <= i < cards.len() && cards[i] == first;
        let b = choose|i: int| 0 <= i < cards.len() && cards[i] == last;
        assert(cards[a].updated_at == cards[b].updated_at);
    }
}

/// In a deck whose cards were all changed at one instant and have ids of
/// their own, a card that is left to the last rule weighs its grade.
pub proof fn lemma_no_span_weight_is_rating(cards: Seq<Card>, deck_seen_at: int, quota: nat)
    requires
        distinct_ids(cards),
        one_instant(cards),
    ensures
        forall|j: int|
            0 <= j < by_recency(cards).len() && weighed_by_grade(
                by_recency(cards),
                j,
                deck_seen_at,
                quota,
            ) ==> session_weights(by_recency(cards), deck_seen_at, quota)[(
            #[trigger] by_recency(cards)[j]).id] == by_recency(cards)[j].rating,
{
    lemma_schedule_weights(cards, deck_seen_at, quota);
    lemma_no_span_no_staleness(cards);
}

/// What the first rule gives, whatever the ids are.
proof fn lemma_due_pass_marks(cards: Seq<Card>, deck_seen_at: int)
    ensures
        forall|i: int|
            0 <= i < cards.len() && is_due(#[trigger] cards[i], deck_seen_at) ==> due_pass(
                cards,
                deck_seen_at,
            ).contains_key(cards[i].id),
        forall|id: i32| #[trigger]
            due_pass(cards, deck_seen_at).contains_key(id) ==> due_pass(cards, deck_seen_at)[id]
                == DUE_WEIGHT,
    decreases cards.len(),
{
    if cards.len() > 0 {
        let front = cards.drop_last();
        lemma_due_pass_marks(front, deck_seen_at);
        let before = due_pass(front, deck_seen_at);
        let after = due_pass(cards, deck_seen_at);
        assert(after == weigh_due(before, cards.last(), deck_seen_at));
        assert forall|i: int|
            0 <= i < cards.len() && is_due(#[trigger] cards[i], deck_seen_at) implies after.contains_key(
            cards[i].id,
        ) by {
            if i < front.len() {
                assert(front[i] == cards[i]);
            }
        }
        assert forall|id: i32| #[trigger] after.contains_key(id) implies after[id] == DUE_WEIGHT by {
            if id != cards.last().id {
                assert(before.contains_key(id));
            }
        }
    }
}

/// What the second rule gives, whatever the ids are.
proof fn lemma_unrated_pass_marks(cards: Seq<Card>, base: Weights)
    ensures
        forall|id: i32| #[trigger]
            base.contains_key(id) ==> unrated_pass(cards, base).contains_key(id) && unrated_pass(
                cards,
                base,
            )[id] == base[id],
        forall|i: int|
            0 <= i < cards.len() && is_unrated(#[trigger] cards[i]) ==> unrated_pass(
                cards,
                base,
            ).contains_key(cards[i].id),
        forall|id: i32| #[trigger]
            unrated_pass(cards, base).contains_key(id) && !base.contains_key(id) ==> unrated_pass(
                cards,
                base,
            )[id] == FRONT_WEIGHT,
    decreases cards.len(),
{
    if cards.len() > 0 {
        let front = cards.drop_last();
        lemma_unrated_pass_marks(front, base);
        assert forall|i: int|
            0 <= i < cards.len() && is_unrated(#[trigger] cards[i]) implies unrated_pass(
            cards,
            base,
        ).contains_key(cards[i].id) by {
            if i < front.len() {
                assert(front[i] == cards[i]);
            }
        }
    }
}

/// What the last two rules leave as it was, and what they cover, whatever
/// the ids are.
proof fn lemma_rest_pass_marks(cards: Seq<Card>, base: Weights, quota: nat, recent: Seq<Card>)
    ensures
        forall|id: i32| #[trigger]
            base.contains_key(id) ==> rest_pass(cards, base, quota, recent).contains_key(id)
                && rest_pass(cards, base, quota, recent)[id] == base[id],
        forall|i: int|
            0 <= i < cards.len() ==> rest_pass(cards, base, quota, recent).contains_key(
                (#[trigger] cards[i]).id,
            ),
    decreases cards.len(),
{
    if cards.len() > 0 {
        let front = cards.drop_last();
        lemma_rest_pass_marks(front, base, quota, recent);
        assert forall|i: int| 0 <= i < cards.len() implies rest_pass(
            cards,
            base,
            quota,
            recent,
        ).contains_key((#[trigger] cards[i]).id) by {
            if i < front.len() {
                assert(front[i] == cards[i]);
            }
        }
    }
}

/// Whatever the cards are: every card's id has a weight, a card that is
/// known but was changed since the deck was last opened weighs
/// `DUE_WEIGHT`, and a card that was never graded weighs `FRONT_WEIGHT` at
/// least.
pub proof fn lemma_first_rules_hold(recent: Seq<Card>, deck_seen_at: int, quota: nat)
    ensures
        forall|i: int|
            0 <= i < recent.len() ==> session_weights(recent, deck_seen_at, quota).contains_key(
                (#[trigger] recent[i]).id,
            ),
        forall|i: int|
            0 <= i < recent.len() && is_due(#[trigger] recent[i], deck_seen_at) ==> session_weights(
                recent,
                deck_seen_at,
                quota,
            )[recent[i].id] == DUE_WEIGHT,
        forall|i: int|
            0 <= i < recent.len() && is_unrated(#[trigger] recent[i]) ==> session_weights(
                recent,
                deck_seen_at,
                quota,
            )[recent[i].id] >= FRONT_WEIGHT,
{
    let due = due_pass(recent, deck_seen_at);
    let front = unrated_pass(recent, due);
    let all = session_weights(recent, deck_seen_at, quota);
    lemma_due_pass_marks(recent, deck_seen_at);
    lemma_unrated_pass_marks(recent, due);
    lemma_rest_pass_marks(recent, front, quota, recent);
    assert forall|i: int|
        0 <= i < recent.len() && is_due(#[trigger] recent[i], deck_seen_at) implies all[recent[i].id]
        == DUE_WEIGHT by {
        assert(due.contains_key(recent[i].id));
        assert(front.contains_key(recent[i].id));
    }
    assert forall|i: int| 0 <= i < recent.len() && is_unrated(#[trigger] recent[i]) implies all[
        recent[i].id
    ] >= FRONT_WEIGHT by {
        assert(front.contains_key(recent[i].id));
        if due.contains_key(recent[i].id) {
            assert(front[recent[i].id] == due[recent[i].id]);
        }
    }
}

/// Whatever the cards are: a card that is known but was changed since the
/// deck was last opened, and a card that was never graded, come up before
/// every card whose id weighs less than the front of the queue.
pub proof fn lemma_first_rules_come_first(cards: Seq<Card>, deck_seen_at: int, quota: nat)
    ensures
        ({
            let weights = session_weights(by_recency(cards), deck_seen_at, quota);
            let order = schedule(cards, deck_seen_at, quota);
            forall|a: int, b: int|
                #![trigger order[a], order[b]]
                0 <= a < order.len() && 0 <= b < order.len() && (is_due(order[a], deck_seen_at)
                    || is_unrated(order[a])) && weights[order[b].id] < FRONT_WEIGHT ==> a < b
        }),
{
    let recent = by_recency(cards);
    let weights = session_weights(recent, deck_seen_at, quota);
    let key = weight_key(weights);
    let order = schedule(cards, deck_seen_at, quota);
    lemma_first_rules_hold(recent, deck_seen_at, quota);
    lemma_schedule_descends(cards, deck_seen_at, quota);
    lemma_sort_desc_same_items(recent, key);
    assert forall|a: int, b: int|
        #![trigger order[a], order[b]]
        0 <= a < order.len() && 0 <= b < order.len() && (is_due(order[a], deck_seen_at)
            || is_unrated(order[a])) && weights[order[b].id] < FRONT_WEIGHT implies a < b by {
        assert(recent.contains(order[a]));
        let a2 = choose|i: int| 0 <= i < recent.len() && recent[i] == order[a];
        assert(is_due(recent[a2], deck_seen_at) || is_unrated(recent[a2]));
        assert(key(order[a]) >= FRONT_WEIGHT);
        if b < a {
            assert(key(order[b]) >= key(order[a]));
        }
    }
}

/// Every card is due, never graded or plain, and never two of these.
proof fn lemma_kinds_add_up(cards: Seq<Card>, deck_seen_at: int)
    ensures
        cards.filter(due_test(deck_seen_at)).len() + cards.filter(unrated_test()).len()
            + cards.filter(plain_test(deck_seen_at)).len() == cards.len(),
    decreases cards.len(),
{
    if cards.len() == 0 {
        cards.lemma_filter_len(due_test(deck_seen_at));
        cards.lemma_filter_len(unrated_test());
        cards.lemma_filter_len(plain_test(deck_seen_at));
    } else {
        let front = cards.drop_last();
        let last = cards.last();
        lemma_kinds_add_up(front, deck_seen_at);
        assert(cards =~= front.push(last));
        front.lemma_filter_len_push(due_test(deck_seen_at), last);
        front.lemma_filter_len_push(unrated_test(), last);
        front.lemma_filter_len_push(plain_test(deck_seen_at), last);
    }
}

/// Where the quota is not below the number of cards, every card is at the
/// front of the queue or ahead of it.
pub proof fn lemma_wide_quota_puts_all_in_front(cards: Seq<Card>, deck_seen_at: int, quota: nat)
    requires
        distinct_ids(cards),
        quota >= cards.len(),
    ensures
        forall|i: int|
            0 <= i < by_recency(cards).len() ==> session_weights(
                by_recency(cards),
                deck_seen_at,
                quota,
            )[(#[trigger] by_recency(cards)[i]).id] >= FRONT_WEIGHT,
{
    let recent = by_recency(cards);
    let weights = session_weights(recent, deck_seen_at, quota);
    let plain = plain_test(deck_seen_at);
    lemma_schedule_weights(cards, deck_seen_at, quota);
    lemma_sort_desc_permutes(cards, recency_key());
    lemma_kinds_add_up(recent, deck_seen_at);
    assert forall|i: int| 0 <= i < recent.len() implies weights[(#[trigger] recent[i]).id]
        >= FRONT_WEIGHT by {
        assert(weights[recent[i].id] == rule_weight(recent, i, deck_seen_at, quota));
        if is_plain(recent[i], deck_seen_at) {
            assert(recent.take(i + 1) =~= recent.take(i).push(recent[i]));
            recent.take(i).lemma_filter_len_push(plain, recent[i]);
            recent.lemma_filter_take_len(plain, i + 1);
            assert(fills_quota(recent, i, deck_seen_at, quota));
        }
    }
}

/// Cards of one weight come up youngest first, and cards changed at one
/// instant in the order in which the deck was handed in.
pub proof fn lemma_schedule_keeps_ties(
    cards: Seq<Card>,
    deck_seen_at: int,
    quota: nat,
    weight: int,
    instant: int,
)
    ensures
        ({
            let recent = by_recency(cards);
            let by_weight = weight_key(session_weights(recent, deck_seen_at, quota));
            &&& with_key(schedule(cards, deck_seen_at, quota), weight, by_weight) == with_key(
                recent,
                weight,
                by_weight,
            )
            &&& with_key(recent, instant, recency_key()) == with_key(cards, instant, recency_key())
        }),
{
    let recent = by_recency(cards);
    lemma_sort_desc_stable(
        recent,
        weight_key(session_weights(recent, deck_seen_at, quota)),
        weight,
    );
    lemma_sort_desc_stable(cards, recency_key(), instant);
}

/// The test for a card at the front of the queue or ahead of it.
pub open spec fn front_test(weights: Weights) -> spec_fn(Card) -> bool {
    |card: Card| weights[card.id] >= FRONT_WEIGHT
}

/// The smaller of two numbers.
pub open spec fn smaller(a: int, b: int) -> int {
    if a <= b {
        a
    } else {
        b
    }
}

/// Among the first `k` cards, those at the front of the queue are no fewer
/// than the cards of the first two rules and the plain cards that found
/// the quota open.
proof fn lemma_front_count(recent: Seq<Card>, k: int, deck_seen_at: int, quota: nat, weights: Weights)
    requires
        0 <= k <= recent.len(),
        forall|i: int|
            0 <= i < recent.len() ==> weights[(#[trigger] recent[i]).id] == rule_weight(
                recent,
                i,
                deck_seen_at,
                quota,
            ),
    ensures
        recent.take(k).filter(front_test(weights)).len() >= recent.take(k).filter(
            due_test(deck_seen_at),
        ).len() + recent.take(k).filter(unrated_test()).len() + smaller(
            plain_before(recent, k, deck_seen_at),
            quota - priority_count(recent, deck_seen_at),
        ),
        priority_count(recent, deck_seen_at) >= 0,
    decreases k,
{
    let front = front_test(weights);
    let due = due_test(deck_seen_at);
    let unrated = unrated_test();
    let plain = plain_test(deck_seen_at);
    if k == 0 {
        recent.take(0).lemma_filter_len(front);
        recent.take(0).lemma_filter_len(due);
        recent.take(0).lemma_filter_len(unrated);
        recent.take(0).lemma_filter_len(plain);
    } else {
        lemma_front_count(recent, k - 1, deck_seen_at, quota, weights);
        let before = recent.take(k - 1);
        let card = recent[k - 1];
        assert(recent.take(k) =~= before.push(card));
        before.lemma_filter_len_push(front, card);
        before.lemma_filter_len_push(due, card);
        before.lemma_filter_len_push(unrated, card);
        before.lemma_filter_len_push(plain, card);
        assert(weights[card.id] == rule_weight(recent, k - 1, deck_seen_at, quota));
    }
}

/// The front of the queue is as long as the quota asks, where the deck has
/// that many cards, and holds the whole deck where it has not.
pub proof fn lemma_front_of_queue_is_filled(cards: Seq<Card>, deck_seen_at: int, quota: nat)
    requires
        distinct_ids(cards),
    ensures
        by_recency(cards).filter(
            front_test(session_weights(by_recency(cards), deck_seen_at, quota)),
        ).len() >= smaller(quota as int, cards.len() as int),
{
    let recent = by_recency(cards);
    let weights = session_weights(recent, deck_seen_at, quota);
    lemma_schedule_weights(cards, deck_seen_at, quota);
    lemma_sort_desc_permutes(cards, recency_key());
    lemma_kinds_add_up(recent, deck_seen_at);
    lemma_front_count(recent, recent.len() as int, deck_seen_at, quota, weights);
    assert(recent.take(recent.len() as int) =~= recent);
}

} // verus!
