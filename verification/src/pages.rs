//! What the pages show: the decks of the signed-in user, and the deck and
//! the card of an editing form, or what stands in for them where they
//! cannot be shown.

use crate::card::{missing_card, missing_deck, Card, CardView, Deck, DeckView};
use crate::stable_sort::{
    lemma_sort_desc_descends, lemma_sort_desc_permutes, sort_by_keys, sort_desc,
};
use vstd::prelude::*;

verus! {

/// The key that puts decks in rising order of their ids.
pub open spec fn deck_key() -> spec_fn(Deck) -> int {
    |deck: Deck| -(deck.id as int)
}

/// The decks in rising order of their ids.
pub open spec fn by_id(decks: Seq<Deck>) -> Seq<Deck> {
    sort_desc(decks, deck_key())
}

/// The decks on the home page: those read, in rising order of their ids,
/// for a caller that may see them; none for any other caller, and none
/// where the decks could not be read.
pub open spec fn home_page(allowed: bool, decks: Option<Vec<Deck>>) -> Seq<Deck> {
    match decks {
        Some(read) if allowed => by_id(read@),
        _ => Seq::empty(),
    }
}

/// Puts `decks` in rising order of their ids.
pub fn sort_decks(decks: Vec<Deck>) -> (sorted: Vec<Deck>)
    ensures
        sorted@ == by_id(decks@),
        sorted@.to_multiset() == decks@.to_multiset(),
        forall|i: int, j: int|
            #![trigger sorted[i], sorted[j]]
            0 <= i < j < sorted.len() ==> sorted[i].id <= sorted[j].id,
{
    let mut keys: Vec<i64> = Vec::new();
    let mut i: usize = 0;
    while i < decks.len()
        invariant
            i <= decks.len(),
            keys.len() == i,
            forall|j: int| 0 <= j < i ==> keys[j] == -((#[trigger] decks[j]).id as int),
        decreases decks.len() - i,
    {
        let id: i64 = decks[i].id as i64;
        keys.push(-id);
        i += 1;
    }
    proof {
        lemma_sort_desc_permutes(decks@, deck_key());
        lemma_sort_desc_descends(decks@, deck_key());
        let sorted = by_id(decks@);
        let key = deck_key();
        assert forall|i: int, j: int|
            #![trigger sorted[i], sorted[j]]
            0 <= i < j < sorted.len() implies sorted[i].id <= sorted[j].id by {
            assert(key(sorted[i]) >= key(sorted[j]));
        }
    }
    sort_by_keys(decks, keys, Ghost(deck_key()))
}

/// Picks the decks that the home page shows.
pub fn home_decks(allowed: bool, decks: Option<Vec<Deck>>) -> (shown: Vec<Deck>)
    ensures
        shown@ == home_page(allowed, decks),
{
    match decks {
        Some(read) => {
            if allowed {
                sort_decks(read)
            } else {
                Vec::new()
            }
        },
        None => Vec::new(),
    }
}

/// The deck of the form that adds a card: the deck read, or what stands in
/// for a deck that the store does not have.
pub fn deck_or_missing(deck: Option<Deck>) -> (shown: Deck)
    ensures
        match deck {
            Some(read) => shown == read,
            None => shown@ == missing_deck(),
        },
{
    match deck {
        Some(read) => read,
        None => Deck::missing(),
    }
}

/// The deck and the card of the form that edits a card, as plain values:
/// those read, for a caller that may see them and where both were read;
/// what stands in for them in every other case.
pub open spec fn edit_page(allowed: bool, deck: Option<Deck>, card: Option<Card>) -> (DeckView, CardView) {
    match (deck, card) {
        (Some(deck_read), Some(card_read)) if allowed => (deck_read@, card_read@),
        _ => (missing_deck(), missing_card()),
    }
}

/// Picks the deck and the card that the form that edits a card shows.
pub fn edit_card_view(allowed: bool, deck: Option<Deck>, card: Option<Card>) -> (shown: (Deck, Card))
    ensures
        (shown.0@, shown.1@) == edit_page(allowed, deck, card),
{
    match (deck, card) {
        (Some(deck_read), Some(card_read)) => {
            if allowed {
                (deck_read, card_read)
            } else {
                (Deck::missing(), Card::missing())
            }
        },
        _ => (Deck::missing(), Card::missing()),
    }
}

} // verus!
