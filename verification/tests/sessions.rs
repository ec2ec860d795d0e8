use flashcards::card::{Card, PLACEHOLDER_INSTANT};
use flashcards::chance::Side;
use flashcards::forms::{DeckColumn, DeckForm};
use flashcards::session::{
    ActiveDecks, Pending, PositionRequest, Presentation, Query, Reply, Stage, Step,
};

fn deck_card(id: i32, rating: i32, updated_at: i64) -> Card {
    Card {
        id,
        deck_id: 5,
        related_card_ids: vec![id + 100],
        from_text: format!("front {}", id),
        to_text_primary: format!("back {}", id),
        to_text_secondary: Some(format!("other {}", id)),
        example_text: None,
        audio_url: None,
        seen_at: 1,
        seen_for: Some(3),
        rating,
        prev_rating: 1,
        created_at: 2,
        updated_at,
    }
}

fn three_cards() -> Vec<Card> {
    vec![deck_card(1, 0, 1_000), deck_card(2, 4, 3_000), deck_card(3, 2, 2_000)]
}

fn request(deck_id: i32, position: usize, side: Side) -> PositionRequest {
    PositionRequest { deck_id, position, side }
}

fn assert_is_end(shown: &Presentation, deck_id: i32) {
    assert_eq!(shown.card.id, 0);
    assert_eq!(shown.card.deck_id, 0);
    assert!(shown.card.related_card_ids.is_empty());
    assert_eq!(shown.card.from_text, "The End");
    assert_eq!(shown.card.to_text_primary, "The End");
    assert_eq!(shown.card.to_text_secondary, None);
    assert_eq!(shown.card.example_text, None);
    assert_eq!(shown.card.audio_url, None);
    assert_eq!(shown.card.seen_at, PLACEHOLDER_INSTANT);
    assert_eq!(shown.card.seen_for, None);
    assert_eq!(shown.card.rating, 0);
    assert_eq!(shown.card.prev_rating, 0);
    assert_eq!(shown.card.created_at, PLACEHOLDER_INSTANT);
    assert_eq!(shown.card.updated_at, PLACEHOLDER_INSTANT);
    assert_eq!(shown.num_cards, 0);
    assert_eq!(shown.deck_id, deck_id);
    assert_eq!(shown.index, 0);
    assert_eq!(shown.side, Side::From);
    assert_eq!(shown.random, Side::From);
}

fn shown(step: Step) -> Presentation {
    match step {
        Step::Show { presentation } => presentation,
        Step::Ask { .. } => panic!("the store is asked where an answer was due"),
    }
}

fn asked(step: Step) -> (Pending, Query) {
    match step {
        Step::Ask { pending, query } => (pending, query),
        Step::Show { .. } => panic!("an answer came where the store was to be asked"),
    }
}

#[test]
fn first_position_after_start_is_the_head() {
    let mut decks = ActiveDecks::new();
    decks.start_session(5, three_cards(), 1_000);
    let head = decks.get_at(5, 0).expect("a started session has a head");
    assert_eq!(head.id, 2);
    assert_eq!(decks.get_at(5, 1).map(|c| c.id), Some(3));
    assert_eq!(decks.get_at(5, 2).map(|c| c.id), Some(1));
    assert_eq!(decks.session_len(5), Some(3));
}

#[test]
fn position_behind_the_end_has_no_card() {
    let mut decks = ActiveDecks::new();
    decks.start_session(5, three_cards(), 1_000);
    assert!(decks.get_at(5, 3).is_none());
    assert!(decks.get_at(5, 4).is_none());
    assert!(decks.get_at(5, usize::MAX).is_none());
    assert_is_end(&decks.present(request(5, 3, Side::To), Side::To), 5);
    assert_is_end(&decks.present(request(5, usize::MAX, Side::From), Side::To), 5);
}

#[test]
fn unknown_deck_has_no_card() {
    let mut decks = ActiveDecks::new();
    assert!(decks.get_at(5, 0).is_none());
    assert_eq!(decks.session_len(5), None);
    decks.start_session(5, three_cards(), 1_000);
    assert!(decks.get_at(6, 0).is_none());
    assert!(decks.get_at(-5, 0).is_none());
    assert_eq!(decks.session_len(6), None);
    assert_is_end(&decks.present(request(6, 0, Side::To), Side::To), 6);
}

#[test]
fn empty_deck_shows_the_end_everywhere() {
    let mut decks = ActiveDecks::new();
    decks.start_session(5, Vec::new(), 0);
    assert_eq!(decks.session_len(5), Some(0));
    for position in [0usize, 1, 2, 100] {
        assert!(decks.get_at(5, position).is_none());
        assert_is_end(&decks.present(request(5, position, Side::From), Side::To), 5);
        assert_is_end(&decks.present(request(5, position, Side::To), Side::From), 5);
    }
}

#[test]
fn presentation_carries_the_card_and_the_sides() {
    let mut decks = ActiveDecks::new();
    decks.start_session(5, three_cards(), 1_000);
    let p = decks.present(request(5, 1, Side::To), Side::From);
    assert_eq!(p.card.id, 3);
    assert_eq!(p.card.deck_id, 5);
    assert_eq!(p.card.related_card_ids, vec![103]);
    assert_eq!(p.card.from_text, "front 3");
    assert_eq!(p.card.to_text_primary, "back 3");
    assert_eq!(p.card.to_text_secondary, Some(String::from("other 3")));
    assert_eq!(p.card.seen_for, Some(3));
    assert_eq!(p.card.rating, 2);
    assert_eq!(p.card.updated_at, 2_000);
    assert_eq!(p.num_cards, 3);
    assert_eq!(p.deck_id, 5);
    assert_eq!(p.index, 1);
    assert_eq!(p.side, Side::To);
    assert_eq!(p.random, Side::From);
}

#[test]
fn later_changes_do_not_reorder_a_session() {
    let mut cards = three_cards();
    let mut decks = ActiveDecks::new();
    decks.start_session(5, cards.clone(), 1_000);
    cards[0].rating = 4;
    cards[0].updated_at = 9_000;
    assert_eq!(decks.get_at(5, 0).map(|c| c.id), Some(2));
    assert_eq!(decks.get_at(5, 2).map(|c| (c.id, c.rating)), Some((1, 0)));
}

#[test]
fn restart_replaces_the_order() {
    let mut decks = ActiveDecks::new();
    decks.start_session(5, three_cards(), 1_000);
    decks.start_session(6, vec![deck_card(9, 1, 1)], 0);
    decks.start_session(5, vec![deck_card(4, 1, 10), deck_card(5, 0, 5)], 0);
    assert_eq!(decks.session_len(5), Some(2));
    assert_eq!(decks.get_at(5, 0).map(|c| c.id), Some(4));
    assert_eq!(decks.get_at(5, 1).map(|c| c.id), Some(5));
    assert!(decks.get_at(5, 2).is_none());
    assert_eq!(decks.get_at(6, 0).map(|c| c.id), Some(9));
}

#[test]
fn only_first_position_from_starts_a_session() {
    assert!(request(1, 0, Side::From).is_start());
    assert!(!request(1, 0, Side::To).is_start());
    assert!(!request(1, 1, Side::From).is_start());
    assert!(!request(1, 1, Side::To).is_start());
}

#[test]
fn start_asks_for_the_deck_first() {
    let decks = ActiveDecks::new();
    let (pending, query) = asked(decks.handle_with_draw(request(5, 0, Side::From), Side::To));
    assert_eq!(query, Query::Deck { deck_id: 5 });
    assert_eq!(
        pending,
        Pending { request: request(5, 0, Side::From), stage: Stage::Deck, draw: Side::To }
    );
}

#[test]
fn start_runs_deck_then_stamp_then_cards() {
    let mut decks = ActiveDecks::new();
    let (pending, query) = asked(decks.handle_with_draw(request(5, 0, Side::From), Side::To));
    assert_eq!(query, Query::Deck { deck_id: 5 });

    let (pending, query) = asked(decks.resume_at(pending, Reply::Deck { seen_at: 1_000 }, 77_777));
    assert_eq!(query, Query::Stamp { deck_id: 5, seen_at: 77_777 });
    assert_eq!(pending.stage, Stage::Stamp { deck_seen_at: 1_000 });
    assert_eq!(pending.request, request(5, 0, Side::From));
    assert_eq!(pending.draw, Side::To);
    assert_eq!(decks.session_len(5), None);

    let (pending, query) = asked(decks.resume_at(pending, Reply::Stamped, 88_888));
    assert_eq!(query, Query::Cards { deck_id: 5 });
    assert_eq!(pending.stage, Stage::Cards { deck_seen_at: 1_000 });
    assert_eq!(decks.session_len(5), None);

    let p = shown(decks.resume_at(pending, Reply::Cards { cards: three_cards() }, 99_999));
    assert_eq!(p.card.id, 2);
    assert_eq!(p.num_cards, 3);
    assert_eq!(p.deck_id, 5);
    assert_eq!(p.index, 0);
    assert_eq!(p.side, Side::From);
    assert_eq!(p.random, Side::To);
    assert_eq!(decks.get_at(5, 0).map(|c| c.id), Some(2));
    assert_eq!(decks.get_at(5, 1).map(|c| c.id), Some(3));
    assert_eq!(decks.get_at(5, 2).map(|c| c.id), Some(1));
}

#[test]
fn order_goes_by_the_instant_read_before_the_stamp() {
    // One known card, changed at 2_000. Against the instant read with the
    // deck (1_000) it is due; against the stamp (9_000) it would not be.
    let cards = vec![deck_card(1, 0, 3_000), deck_card(2, 4, 2_000)];
    let mut decks = ActiveDecks::new();
    let (pending, _) = asked(decks.handle_with_draw(request(5, 0, Side::From), Side::From));
    let (pending, query) = asked(decks.resume_at(pending, Reply::Deck { seen_at: 1_000 }, 9_000));
    assert_eq!(query, Query::Stamp { deck_id: 5, seen_at: 9_000 });
    let (pending, _) = asked(decks.resume_at(pending, Reply::Stamped, 9_001));
    let p = shown(decks.resume_at(pending, Reply::Cards { cards }, 9_002));
    assert_eq!(p.card.id, 2);
}

#[test]
fn other_positions_are_answered_at_once() {
    let mut decks = ActiveDecks::new();
    decks.start_session(5, three_cards(), 1_000);
    let p = shown(decks.handle_with_draw(request(5, 1, Side::From), Side::To));
    assert_eq!(p.card.id, 3);
    assert_eq!(p.index, 1);
    assert_eq!(p.side, Side::From);
    assert_eq!(p.random, Side::To);
    let p = shown(decks.handle_with_draw(request(5, 0, Side::To), Side::From));
    assert_eq!(p.card.id, 2);
    assert_eq!(p.side, Side::To);
    assert_eq!(p.random, Side::From);
    assert_is_end(&shown(decks.handle_with_draw(request(5, 3, Side::To), Side::To)), 5);
    assert_is_end(&shown(decks.handle_with_draw(request(8, 1, Side::From), Side::To)), 8);
}

#[test]
fn missing_deck_ends_the_session() {
    let mut decks = ActiveDecks::new();
    decks.start_session(5, three_cards(), 1_000);
    let (pending, _) = asked(decks.handle_with_draw(request(5, 0, Side::From), Side::To));
    assert_is_end(&shown(decks.resume_at(pending, Reply::NoDeck, 1)), 5);
    // The order that was there stays.
    assert_eq!(decks.get_at(5, 0).map(|c| c.id), Some(2));
}

#[test]
fn failed_store_leaves_the_old_order_and_serves_it() {
    for failing in 0..3 {
        let mut decks = ActiveDecks::new();
        decks.start_session(5, three_cards(), 1_000);
        let (mut pending, _) = asked(decks.handle_with_draw(request(5, 0, Side::From), Side::To));
        if failing >= 1 {
            pending = asked(decks.resume_at(pending, Reply::Deck { seen_at: 0 }, 1)).0;
        }
        if failing >= 2 {
            pending = asked(decks.resume_at(pending, Reply::Stamped, 1)).0;
        }
        let p = shown(decks.resume_at(pending, Reply::Failed, 1));
        assert_eq!(p.card.id, 2);
        assert_eq!(p.num_cards, 3);
        assert_eq!(p.index, 0);
        assert_eq!(p.side, Side::From);
        assert_eq!(p.random, Side::To);
        assert_eq!(decks.session_len(5), Some(3));
    }
}

#[test]
fn failed_store_without_an_order_shows_the_end() {
    for failing in 0..3 {
        let mut decks = ActiveDecks::new();
        let (mut pending, _) = asked(decks.handle_with_draw(request(5, 0, Side::From), Side::To));
        if failing >= 1 {
            pending = asked(decks.resume_at(pending, Reply::Deck { seen_at: 0 }, 1)).0;
        }
        if failing >= 2 {
            pending = asked(decks.resume_at(pending, Reply::Stamped, 1)).0;
        }
        assert_is_end(&shown(decks.resume_at(pending, Reply::Failed, 1)), 5);
        assert_eq!(decks.session_len(5), None);
    }
}

#[test]
fn answer_out_of_turn_gives_the_start_up() {
    let start = request(5, 0, Side::From);
    let waiting_for_deck = Pending { request: start, stage: Stage::Deck, draw: Side::To };
    let waiting_for_stamp =
        Pending { request: start, stage: Stage::Stamp { deck_seen_at: 0 }, draw: Side::To };
    let waiting_for_cards =
        Pending { request: start, stage: Stage::Cards { deck_seen_at: 0 }, draw: Side::To };

    let mut decks = ActiveDecks::new();
    assert_is_end(&shown(decks.resume_at(waiting_for_deck, Reply::Stamped, 1)), 5);
    assert_is_end(
        &shown(decks.resume_at(waiting_for_deck, Reply::Cards { cards: three_cards() }, 1)),
        5,
    );
    assert_is_end(&shown(decks.resume_at(waiting_for_stamp, Reply::Deck { seen_at: 3 }, 1)), 5);
    assert_is_end(&shown(decks.resume_at(waiting_for_stamp, Reply::NoDeck, 1)), 5);
    assert_is_end(
        &shown(decks.resume_at(waiting_for_stamp, Reply::Cards { cards: three_cards() }, 1)),
        5,
    );
    assert_is_end(&shown(decks.resume_at(waiting_for_cards, Reply::Stamped, 1)), 5);
    assert_is_end(&shown(decks.resume_at(waiting_for_cards, Reply::NoDeck, 1)), 5);
    assert_is_end(&shown(decks.resume_at(waiting_for_cards, Reply::Deck { seen_at: 3 }, 1)), 5);
    assert_eq!(decks.session_len(5), None);
}

#[test]
fn empty_deck_starts_an_empty_session() {
    let mut decks = ActiveDecks::new();
    decks.start_session(5, three_cards(), 1_000);
    let pending =
        Pending { request: request(5, 0, Side::From), stage: Stage::Cards { deck_seen_at: 0 }, draw: Side::To };
    assert_is_end(&shown(decks.resume_at(pending, Reply::Cards { cards: Vec::new() }, 1)), 5);
    assert_eq!(decks.session_len(5), Some(0));
    assert_is_end(&shown(decks.handle_with_draw(request(5, 0, Side::To), Side::To)), 5);
    assert_is_end(&shown(decks.handle_with_draw(request(5, 1, Side::From), Side::To)), 5);
}

#[test]
fn stamp_is_the_present_instant() {
    let mut decks = ActiveDecks::new();
    let (pending, _) = asked(decks.handle_with_draw(request(5, 0, Side::From), Side::To));
    let before = chrono::Utc::now().timestamp_micros();
    let (pending, query) = asked(decks.resume(pending, Reply::Deck { seen_at: 12 }));
    let after = chrono::Utc::now().timestamp_micros();
    assert_eq!(pending.stage, Stage::Stamp { deck_seen_at: 12 });
    match query {
        Query::Stamp { deck_id, seen_at } => {
            assert_eq!(deck_id, 5);
            assert!(before <= seen_at && seen_at <= after);
            assert!(seen_at > 1_600_000_000_000_000);
        }
        other => panic!("the deck was to be marked, not {:?}", other),
    }
}

#[test]
fn resume_without_the_clock_goes_as_resume_at() {
    let mut decks = ActiveDecks::new();
    let pending =
        Pending { request: request(5, 0, Side::From), stage: Stage::Stamp { deck_seen_at: 1_000 }, draw: Side::From };
    let (pending, query) = asked(decks.resume(pending, Reply::Stamped));
    assert_eq!(query, Query::Cards { deck_id: 5 });
    let p = shown(decks.resume(pending, Reply::Cards { cards: three_cards() }));
    assert_eq!(p.card.id, 2);
    assert_eq!(p.random, Side::From);
    let pending = Pending { request: request(5, 0, Side::From), stage: Stage::Deck, draw: Side::From };
    assert_is_end(&shown(decks.resume(pending, Reply::NoDeck)), 5);
    let pending = Pending { request: request(5, 0, Side::From), stage: Stage::Deck, draw: Side::From };
    assert_eq!(shown(decks.resume(pending, Reply::Failed)).card.id, 2);
}

#[test]
fn stamp_form_changes_the_instant_only() {
    let form = DeckForm::stamp(42);
    assert_eq!(form.from_language, None);
    assert_eq!(form.to_language_primary, None);
    assert_eq!(form.to_language_secondary, None);
    assert_eq!(form.design_key, None);
    assert_eq!(form.seen_at, Some(42));
    assert_eq!(form.update_plan(), Ok(vec![DeckColumn::SeenAt]));
}

#[test]
fn chance_shows_both_sides() {
    let mut decks = ActiveDecks::new();
    decks.start_session(5, three_cards(), 1_000);
    let mut from = 0;
    let mut to = 0;
    for _ in 0..400 {
        let p = shown(decks.handle_session_position(request(5, 1, Side::To)));
        assert_eq!(p.card.id, 3);
        assert_eq!(p.side, Side::To);
        match p.random {
            Side::From => from += 1,
            Side::To => to += 1,
        }
    }
    assert!(from > 100, "the text asked came first {} times of 400", from);
    assert!(to > 100, "the text asked for came first {} times of 400", to);
}

#[test]
fn start_by_chance_asks_for_the_deck() {
    let decks = ActiveDecks::new();
    let (pending, query) = asked(decks.handle_session_position(request(5, 0, Side::From)));
    assert_eq!(query, Query::Deck { deck_id: 5 });
    assert_eq!(pending.stage, Stage::Deck);
    assert_eq!(pending.request, request(5, 0, Side::From));
}
