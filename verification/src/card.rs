//! Decks and cards as the record store keeps them.
//!
//! An instant is a count of microseconds since the Unix epoch, the
//! precision in which the store keeps its timestamps.

use vstd::prelude::*;

verus! {

/// The instant carried by the cards and decks that stand in for a missing
/// row: 2016-07-08 09:10:11 UTC.
pub const PLACEHOLDER_INSTANT: i64 = 1_467_969_011_000_000;

/// The lowest grade there is: the card was never graded.
pub const RATING_UNRATED: i32 = 0;

/// The highest grade there is: the card is known.
pub const RATING_KNOWN: i32 = 4;

/// One review item of a deck.
#[derive(Debug)]
pub struct Card {
    pub id: i32,
    pub deck_id: i32,
    pub related_card_ids: Vec<i32>,
    pub from_text: String,
    pub to_text_primary: String,
    pub to_text_secondary: Option<String>,
    pub example_text: Option<String>,
    pub audio_url: Option<String>,
    pub seen_at: i64,
    pub seen_for: Option<i32>,
    pub rating: i32,
    pub prev_rating: i32,
    pub created_at: i64,
    pub updated_at: i64,
}

/// What a card holds, as plain values.
pub struct CardView {
    pub id: i32,
    pub deck_id: i32,
    pub related_card_ids: Seq<i32>,
    pub from_text: Seq<char>,
    pub to_text_primary: Seq<char>,
    pub to_text_secondary: Option<Seq<char>>,
    pub example_text: Option<Seq<char>>,
    pub audio_url: Option<Seq<char>>,
    pub seen_at: i64,
    pub seen_for: Option<i32>,
    pub rating: i32,
    pub prev_rating: i32,
    pub created_at: i64,
    pub updated_at: i64,
}

/// The characters of an optional text.
pub open spec fn text_view(text: Option<String>) -> Option<Seq<char>> {
    match text {
        Some(t) => Some(t@),
        None => None,
    }
}

impl View for Card {
    type V = CardView;

    open spec fn view(&self) -> CardView {
        CardView {
            id: self.id,
            deck_id: self.deck_id,
            related_card_ids: self.related_card_ids@,
            from_text: self.from_text@,
            to_text_primary: self.to_text_primary@,
            to_text_secondary: text_view(self.to_text_secondary),
            example_text: text_view(self.example_text),
            audio_url: text_view(self.audio_url),
            seen_at: self.seen_at,
            seen_for: self.seen_for,
            rating: self.rating,
            prev_rating: self.prev_rating,
            created_at: self.created_at,
            updated_at: self.updated_at,
        }
    }
}

/// The card that stands in for one that cannot be shown: no deck, no
/// grades, and `text` on both of its sides.
pub open spec fn placeholder_card(text: Seq<char>) -> CardView {
    CardView {
        id: 0,
        deck_id: 0,
        related_card_ids: Seq::empty(),
        from_text: text,
        to_text_primary: text,
        to_text_secondary: None,
        example_text: None,
        audio_url: None,
        seen_at: PLACEHOLDER_INSTANT,
        seen_for: None,
        rating: 0,
        prev_rating: 0,
        created_at: PLACEHOLDER_INSTANT,
        updated_at: PLACEHOLDER_INSTANT,
    }
}

/// The card shown when a session has no card left to show.
pub open spec fn end_card() -> CardView {
    placeholder_card("The End"@)
}

/// The card shown in place of one that the store does not have.
pub open spec fn missing_card() -> CardView {
    placeholder_card("Not found"@)
}

impl Card {
    /// The grade is one of the five there are.
    pub open spec fn has_valid_rating(&self) -> bool {
        RATING_UNRATED <= self.rating <= RATING_KNOWN
    }

    /// Builds the card that says `text` on both sides and belongs nowhere.
    pub fn placeholder(text: &str) -> (card: Card)
        ensures
            card@ == placeholder_card(text@),
            card.has_valid_rating(),
    {
        Card {
            id: 0,
            deck_id: 0,
            related_card_ids: Vec::new(),
            from_text: text.to_owned(),
            to_text_primary: text.to_owned(),
            to_text_secondary: None,
            example_text: None,
            audio_url: None,
            seen_at: PLACEHOLDER_INSTANT,
            seen_for: None,
            rating: 0,
            prev_rating: 0,
            created_at: PLACEHOLDER_INSTANT,
            updated_at: PLACEHOLDER_INSTANT,
        }
    }

    /// Builds the card that ends a session.
    pub fn end() -> (card: Card)
        ensures
            card@ == end_card(),
    {
        Card::placeholder("The End")
    }

    /// Builds the card that stands in for one the store does not have.
    pub fn missing() -> (card: Card)
        ensures
            card@ == missing_card(),
    {
        Card::placeholder("Not found")
    }
}

impl Clone for Card {
    fn clone(&self) -> (copy: Card)
        ensures
            copy@ == self@,
    {
        Card {
            id: self.id,
            deck_id: self.deck_id,
            related_card_ids: self.related_card_ids.clone(),
            from_text: self.from_text.clone(),
            to_text_primary: self.to_text_primary.clone(),
            to_text_secondary: self.to_text_secondary.clone(),
            example_text: self.example_text.clone(),
            audio_url: self.audio_url.clone(),
            seen_at: self.seen_at,
            seen_for: self.seen_for,
            rating: self.rating,
            prev_rating: self.prev_rating,
            created_at: self.created_at,
            updated_at: self.updated_at,
        }
    }
}

/// A collection of cards for one pair of languages.
#[derive(Debug)]
pub struct Deck {
    pub id: i32,
    pub user_id: i32,
    pub from_language: String,
    pub to_language_primary: String,
    pub to_language_secondary: Option<String>,
    pub design_key: Option<String>,
    pub seen_at: i64,
    pub created_at: i64,
    pub updated_at: i64,
}

/// What a deck holds, as plain values.
pub struct DeckView {
    pub id: i32,
    pub user_id: i32,
    pub from_language: Seq<char>,
    pub to_language_primary: Seq<char>,
    pub to_language_secondary: Option<Seq<char>>,
    pub design_key: Option<Seq<char>>,
    pub seen_at: i64,
    pub created_at: i64,
    pub updated_at: i64,
}

impl View for Deck {
    type V = DeckView;

    open spec fn view(&self) -> DeckView {
        DeckView {
            id: self.id,
            user_id: self.user_id,
            from_language: self.from_language@,
            to_language_primary: self.to_language_primary@,
            to_language_secondary: text_view(self.to_language_secondary),
            design_key: text_view(self.design_key),
            seen_at: self.seen_at,
            created_at: self.created_at,
            updated_at: self.updated_at,
        }
    }
}

/// The deck shown in place of one that the store does not have.
pub open spec fn missing_deck() -> DeckView {
    DeckView {
        id: 0,
        user_id: 0,
        from_language: "Not found"@,
        to_language_primary: "Not found"@,
        to_language_secondary: None,
        design_key: None,
        seen_at: PLACEHOLDER_INSTANT,
        created_at: PLACEHOLDER_INSTANT,
        updated_at: PLACEHOLDER_INSTANT,
    }
}

impl Deck {
    /// Builds the deck that stands in for one the store does not have.
    pub fn missing() -> (deck: Deck)
        ensures
            deck@ == missing_deck(),
    {
        Deck {
            id: 0,
            user_id: 0,
            from_language: "Not found".to_owned(),
            to_language_primary: "Not found".to_owned(),
            to_language_secondary: None,
            design_key: None,
            seen_at: PLACEHOLDER_INSTANT,
            created_at: PLACEHOLDER_INSTANT,
            updated_at: PLACEHOLDER_INSTANT,
        }
    }
}

impl Clone for Deck {
    fn clone(&self) -> (copy: Deck)
        ensures
            copy@ == self@,
    {
        Deck {
            id: self.id,
            user_id: self.user_id,
            from_language: self.from_language.clone(),
            to_language_primary: self.to_language_primary.clone(),
            to_language_secondary: self.to_language_secondary.clone(),
            design_key: self.design_key.clone(),
            seen_at: self.seen_at,
            created_at: self.created_at,
            updated_at: self.updated_at,
        }
    }
}

} // verus!
