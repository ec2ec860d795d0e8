use flashcards::access::authorized;
use flashcards::card::{Card, Deck, PLACEHOLDER_INSTANT, RATING_KNOWN, RATING_UNRATED};
use flashcards::chance::{Side, HIGHEST_DRAW};
use flashcards::forms::{
    CardColumn, CardForm, DatabaseQueryResult, DeckColumn, DeckForm, FormError, UserColumn,
    UserForm,
};
use flashcards::pages::{deck_or_missing, edit_card_view, home_decks, sort_decks};

fn text(s: &str) -> Option<String> {
    Some(String::from(s))
}

fn deck(id: i32, from_language: &str) -> Deck {
    Deck {
        id,
        user_id: 1,
        from_language: String::from(from_language),
        to_language_primary: String::from("de"),
        to_language_secondary: text("fr"),
        design_key: None,
        seen_at: 10,
        created_at: 5,
        updated_at: 7,
    }
}

fn some_card() -> Card {
    Card {
        id: 11,
        deck_id: 3,
        related_card_ids: vec![1, 2, 3],
        from_text: String::from("house"),
        to_text_primary: String::from("Haus"),
        to_text_secondary: text("maison"),
        example_text: text("a house on a hill"),
        audio_url: None,
        seen_at: 9,
        seen_for: Some(12),
        rating: 3,
        prev_rating: 2,
        created_at: 1,
        updated_at: 8,
    }
}

fn empty_card_form() -> CardForm {
    CardForm {
        related_card_ids: None,
        from_text: None,
        to_text_primary: None,
        to_text_secondary: None,
        example_text: None,
        audio_url: None,
        seen_at: None,
        seen_for: None,
        rating: None,
    }
}

fn empty_deck_form() -> DeckForm {
    DeckForm {
        from_language: None,
        to_language_primary: None,
        to_language_secondary: None,
        design_key: None,
        seen_at: None,
    }
}

#[test]
fn placeholder_instant_is_the_eighth_of_july_2016() {
    let instant = chrono::NaiveDate::from_ymd_opt(2016, 7, 8)
        .unwrap()
        .and_hms_opt(9, 10, 11)
        .unwrap()
        .and_utc()
        .timestamp_micros();
    assert_eq!(PLACEHOLDER_INSTANT, instant);
}

#[test]
fn end_card_is_a_fixed_placeholder() {
    let end = Card::end();
    assert_eq!(end.id, 0);
    assert_eq!(end.deck_id, 0);
    assert!(end.related_card_ids.is_empty());
    assert_eq!(end.from_text, "The End");
    assert_eq!(end.to_text_primary, "The End");
    assert_eq!(end.to_text_secondary, None);
    assert_eq!(end.example_text, None);
    assert_eq!(end.audio_url, None);
    assert_eq!(end.seen_at, PLACEHOLDER_INSTANT);
    assert_eq!(end.seen_for, None);
    assert_eq!(end.rating, 0);
    assert_eq!(end.prev_rating, 0);
    assert_eq!(end.created_at, PLACEHOLDER_INSTANT);
    assert_eq!(end.updated_at, PLACEHOLDER_INSTANT);
}

#[test]
fn missing_card_and_deck_say_not_found() {
    let card = Card::missing();
    assert_eq!(card.id, 0);
    assert_eq!(card.from_text, "Not found");
    assert_eq!(card.to_text_primary, "Not found");
    assert_eq!(card.updated_at, PLACEHOLDER_INSTANT);
    let deck = Deck::missing();
    assert_eq!(deck.id, 0);
    assert_eq!(deck.user_id, 0);
    assert_eq!(deck.from_language, "Not found");
    assert_eq!(deck.to_language_primary, "Not found");
    assert_eq!(deck.to_language_secondary, None);
    assert_eq!(deck.design_key, None);
    assert_eq!(deck.seen_at, PLACEHOLDER_INSTANT);
    assert_eq!(deck.created_at, PLACEHOLDER_INSTANT);
    assert_eq!(deck.updated_at, PLACEHOLDER_INSTANT);
}

#[test]
fn placeholder_says_its_text_on_both_sides() {
    let card = Card::placeholder("nothing here");
    assert_eq!(card.from_text, "nothing here");
    assert_eq!(card.to_text_primary, "nothing here");
    assert_eq!(card.rating, RATING_UNRATED);
    assert_eq!(RATING_KNOWN, 4);
}

#[test]
fn clone_keeps_every_field() {
    let card = some_card();
    let copy = card.clone();
    assert_eq!(copy.id, 11);
    assert_eq!(copy.deck_id, 3);
    assert_eq!(copy.related_card_ids, vec![1, 2, 3]);
    assert_eq!(copy.from_text, "house");
    assert_eq!(copy.to_text_primary, "Haus");
    assert_eq!(copy.to_text_secondary, text("maison"));
    assert_eq!(copy.example_text, text("a house on a hill"));
    assert_eq!(copy.audio_url, None);
    assert_eq!(copy.seen_at, 9);
    assert_eq!(copy.seen_for, Some(12));
    assert_eq!(copy.rating, 3);
    assert_eq!(copy.prev_rating, 2);
    assert_eq!(copy.created_at, 1);
    assert_eq!(copy.updated_at, 8);
    let d = deck(4, "en").clone();
    assert_eq!(d.id, 4);
    assert_eq!(d.user_id, 1);
    assert_eq!(d.from_language, "en");
    assert_eq!(d.to_language_primary, "de");
    assert_eq!(d.to_language_secondary, text("fr"));
    assert_eq!(d.design_key, None);
    assert_eq!((d.seen_at, d.created_at, d.updated_at), (10, 5, 7));
}

#[test]
fn sides_by_name() {
    assert_eq!(Side::parse("from"), Side::From);
    assert_eq!(Side::parse("to"), Side::To);
    assert_eq!(Side::parse(""), Side::To);
    assert_eq!(Side::parse("From"), Side::To);
    assert_eq!(Side::parse("from "), Side::To);
    assert_eq!(Side::From.as_text(), "from");
    assert_eq!(Side::To.as_text(), "to");
}

#[test]
fn sides_by_draw() {
    assert_eq!(Side::from_draw(0), Side::To);
    assert_eq!(Side::from_draw(1), Side::From);
    assert_eq!(Side::from_draw(2), Side::From);
    assert_eq!(Side::from_draw(255), Side::From);
    assert_eq!(HIGHEST_DRAW, 1);
}

#[test]
fn random_side_is_either_side() {
    let mut from = 0;
    let mut to = 0;
    for _ in 0..400 {
        match Side::random() {
            Side::From => from += 1,
            Side::To => to += 1,
        }
    }
    assert_eq!(from + to, 400);
    assert!(from > 100 && to > 100, "from {} and to {} of 400", from, to);
}

#[test]
fn token_opens_the_store() {
    let secret = String::from("s3cret");
    let same = String::from("s3cret");
    let other = String::from("s3cre");
    let empty = String::new();
    assert!(authorized(true, Some(&same), &secret));
    assert!(!authorized(false, Some(&same), &secret));
    assert!(!authorized(true, None, &secret));
    assert!(!authorized(false, None, &secret));
    assert!(!authorized(true, Some(&other), &secret));
    assert!(!authorized(true, Some(&empty), &secret));
    assert!(authorized(true, Some(&empty), &empty));
}

#[test]
fn user_needs_name_and_email() {
    let full = UserForm { name: text("ann"), email: text("ann@example.org") };
    assert_eq!(full.insert_plan(), Ok(()));
    assert_eq!(full.update_plan(), Ok(vec![UserColumn::Name, UserColumn::Email]));
    let name_only = UserForm { name: text("ann"), email: None };
    assert_eq!(name_only.insert_plan(), Err(FormError::MissingField));
    assert_eq!(name_only.update_plan(), Ok(vec![UserColumn::Name]));
    let email_only = UserForm { name: None, email: text("ann@example.org") };
    assert_eq!(email_only.insert_plan(), Err(FormError::MissingField));
    assert_eq!(email_only.update_plan(), Ok(vec![UserColumn::Email]));
    let none = UserForm { name: None, email: None };
    assert_eq!(none.insert_plan(), Err(FormError::MissingField));
    assert_eq!(none.update_plan(), Err(FormError::NothingToChange));
}

#[test]
fn deck_needs_both_languages() {
    let mut form = empty_deck_form();
    assert_eq!(form.insert_plan(), Err(FormError::MissingField));
    assert_eq!(form.update_plan(), Err(FormError::NothingToChange));
    form.from_language = text("en");
    assert_eq!(form.insert_plan(), Err(FormError::MissingField));
    assert_eq!(form.update_plan(), Ok(vec![DeckColumn::FromLanguage]));
    form.to_language_primary = text("de");
    assert_eq!(form.insert_plan(), Ok(()));
    form.from_language = None;
    assert_eq!(form.insert_plan(), Err(FormError::MissingField));
    form.design_key = text("dark");
    form.seen_at = Some(3);
    assert_eq!(
        form.update_plan(),
        Ok(vec![DeckColumn::ToLanguagePrimary, DeckColumn::DesignKey, DeckColumn::SeenAt])
    );
    form.from_language = text("en");
    form.to_language_secondary = text("fr");
    assert_eq!(
        form.update_plan(),
        Ok(vec![
            DeckColumn::FromLanguage,
            DeckColumn::ToLanguagePrimary,
            DeckColumn::ToLanguageSecondary,
            DeckColumn::DesignKey,
            DeckColumn::SeenAt
        ])
    );
}

#[test]
fn card_needs_both_texts() {
    let mut form = empty_card_form();
    assert_eq!(form.insert_plan(), Err(FormError::MissingField));
    assert_eq!(form.update_plan(), Err(FormError::NothingToChange));
    form.to_text_primary = text("Haus");
    assert_eq!(form.insert_plan(), Err(FormError::MissingField));
    form.from_text = text("house");
    assert_eq!(form.insert_plan(), Ok(()));
    assert_eq!(form.update_plan(), Ok(vec![CardColumn::FromText, CardColumn::ToTextPrimary]));
}

#[test]
fn card_changes_are_listed_in_order() {
    let mut form = empty_card_form();
    form.rating = Some(4);
    assert_eq!(form.update_plan(), Ok(vec![CardColumn::Rating]));
    form.related_card_ids = Some(vec![]);
    form.seen_for = Some(0);
    assert_eq!(
        form.update_plan(),
        Ok(vec![CardColumn::RelatedCardIds, CardColumn::SeenFor, CardColumn::Rating])
    );
    form.from_text = text("a");
    form.to_text_primary = text("b");
    form.to_text_secondary = text("c");
    form.example_text = text("d");
    form.audio_url = text("e");
    form.seen_at = Some(1);
    assert_eq!(
        form.update_plan(),
        Ok(vec![
            CardColumn::RelatedCardIds,
            CardColumn::FromText,
            CardColumn::ToTextPrimary,
            CardColumn::ToTextSecondary,
            CardColumn::ExampleText,
            CardColumn::AudioUrl,
            CardColumn::SeenAt,
            CardColumn::SeenFor,
            CardColumn::Rating
        ])
    );
}

#[test]
fn query_result_counts_rows() {
    let result = DatabaseQueryResult { rows_affected: 3 };
    assert_eq!(result.rows_affected, 3);
}

#[test]
fn decks_come_in_rising_order_of_id() {
    let sorted = sort_decks(vec![deck(3, "a"), deck(1, "b"), deck(2, "c"), deck(1, "d"), deck(-4, "e")]);
    assert_eq!(
        sorted.iter().map(|d| (d.id, d.from_language.as_str())).collect::<Vec<_>>(),
        vec![(-4, "e"), (1, "b"), (1, "d"), (2, "c"), (3, "a")]
    );
    let sorted = sort_decks(vec![deck(i32::MAX, "a"), deck(i32::MIN, "b"), deck(0, "c")]);
    assert_eq!(sorted.iter().map(|d| d.id).collect::<Vec<_>>(), vec![i32::MIN, 0, i32::MAX]);
    assert!(sort_decks(Vec::new()).is_empty());
}

#[test]
fn home_shows_decks_to_the_signed_in_only() {
    let shown = home_decks(true, Some(vec![deck(2, "a"), deck(1, "b")]));
    assert_eq!(shown.iter().map(|d| d.id).collect::<Vec<_>>(), vec![1, 2]);
    assert!(home_decks(false, Some(vec![deck(2, "a"), deck(1, "b")])).is_empty());
    assert!(home_decks(true, None).is_empty());
    assert!(home_decks(false, None).is_empty());
}

#[test]
fn add_form_shows_the_deck_or_its_stand_in() {
    assert_eq!(deck_or_missing(Some(deck(2, "en"))).id, 2);
    let missing = deck_or_missing(None);
    assert_eq!(missing.id, 0);
    assert_eq!(missing.from_language, "Not found");
}

#[test]
fn edit_form_shows_what_was_read_or_stand_ins() {
    let (d, c) = edit_card_view(true, Some(deck(2, "en")), Some(some_card()));
    assert_eq!((d.id, c.id), (2, 11));
    assert_eq!(c.from_text, "house");
    for (allowed, has_deck, has_card) in [
        (false, true, true),
        (true, false, true),
        (true, true, false),
        (true, false, false),
        (false, false, false),
    ] {
        let (d, c) = edit_card_view(
            allowed,
            if has_deck { Some(deck(2, "en")) } else { None },
            if has_card { Some(some_card()) } else { None },
        );
        assert_eq!(d.id, 0);
        assert_eq!(d.from_language, "Not found");
        assert_eq!(c.id, 0);
        assert_eq!(c.from_text, "Not found");
    }
}
