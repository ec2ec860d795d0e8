//! What a caller may hand to the record store to add a row or to change
//! one, and what the store is asked to do with it.
//!
//! A form names the fields to write. A row is added only from a form that
//! has the fields a row cannot do without; a row is changed only by a form
//! that names a field.

use vstd::prelude::*;

verus! {

/// What the record store reports of a statement that changed rows.
#[derive(Debug)]
pub struct DatabaseQueryResult {
    pub rows_affected: u64,
}

/// Why a form is not taken to the record store.
#[derive(Clone, Copy, Debug, PartialEq, Eq, Structural)]
pub enum FormError {
    /// A field that a new row cannot do without is not in the form.
    MissingField,
    /// The form names no field to change.
    NothingToChange,
}

/// `item` where `present` holds, nothing where it does not.
pub open spec fn when<T>(present: bool, item: T) -> Seq<T> {
    if present {
        seq![item]
    } else {
        Seq::empty()
    }
}

/// The fields of a user that a form can change.
#[derive(Clone, Copy, Debug, PartialEq, Eq, Structural)]
pub enum UserColumn {
    Name,
    Email,
}

/// The fields of a deck that a form can change.
#[derive(Clone, Copy, Debug, PartialEq, Eq, Structural)]
pub enum DeckColumn {
    FromLanguage,
    ToLanguagePrimary,
    ToLanguageSecondary,
    DesignKey,
    SeenAt,
}

/// The fields of a card that a form can change.
#[derive(Clone, Copy, Debug, PartialEq, Eq, Structural)]
pub enum CardColumn {
    RelatedCardIds,
    FromText,
    ToTextPrimary,
    ToTextSecondary,
    ExampleText,
    AudioUrl,
    SeenAt,
    SeenFor,
    Rating,
}

/// The fields of a user to write.
#[derive(Debug)]
pub struct UserForm {
    pub name: Option<String>,
    pub email: Option<String>,
}

/// The fields of a deck to write.
#[derive(Debug)]
pub struct DeckForm {
    pub from_language: Option<String>,
    pub to_language_primary: Option<String>,
    pub to_language_secondary: Option<String>,
    pub design_key: Option<String>,
    pub seen_at: Option<i64>,
}

/// The fields of a card to write.
#[derive(Debug)]
pub struct CardForm {
    pub related_card_ids: Option<Vec<i32>>,
    pub from_text: Option<String>,
    pub to_text_primary: Option<String>,
    pub to_text_secondary: Option<String>,
    pub example_text: Option<String>,
    pub audio_url: Option<String>,
    pub seen_at: Option<i64>,
    pub seen_for: Option<i32>,
    pub rating: Option<i32>,
}

/// Puts `column` behind `columns` where `present` holds.
fn note<T>(columns: &mut Vec<T>, present: bool, column: T)
    ensures
        final(columns)@ == old(columns)@ + when(present, column),
{
    if present {
        columns.push(column);
    }
}

impl UserForm {
    /// The form has what a new user cannot do without: a name and an
    /// e-mail address.
    pub open spec fn is_complete(&self) -> bool {
        self.name is Some && self.email is Some
    }

    /// The columns that the form changes, in the order in which a
    /// statement names them.
    pub open spec fn changes(&self) -> Seq<UserColumn> {
        when(self.name is Some, UserColumn::Name) + when(self.email is Some, UserColumn::Email)
    }

    /// Decides whether a user can be added from the form.
    pub fn insert_plan(&self) -> (plan: Result<(), FormError>)
        ensures
            plan is Ok <==> self.is_complete(),
            plan is Err ==> plan == Err::<(), FormError>(FormError::MissingField),
    {
        if self.name.is_some() && self.email.is_some() {
            Ok(())
        } else {
            Err(FormError::MissingField)
        }
    }

    /// Lists the columns that the form changes, or refuses a form that
    /// changes none.
    pub fn update_plan(&self) -> (plan: Result<Vec<UserColumn>, FormError>)
        ensures
            plan is Ok <==> self.changes().len() > 0,
            plan matches Ok(columns) ==> columns@ == self.changes(),
            plan matches Err(refusal) ==> refusal == FormError::NothingToChange,
    {
        let mut columns: Vec<UserColumn> = Vec::new();
        note(&mut columns, self.name.is_some(), UserColumn::Name);
        note(&mut columns, self.email.is_some(), UserColumn::Email);
        if columns.len() == 0 {
            Err(FormError::NothingToChange)
        } else {
            Ok(columns)
        }
    }
}

impl DeckForm {
    /// The form has what a new deck cannot do without: the language asked
    /// from and the first language asked for.
    pub open spec fn is_complete(&self) -> bool {
        self.from_language is Some && self.to_language_primary is Some
    }

    /// The columns that the form changes, in the order in which a
    /// statement names them.
    pub open spec fn changes(&self) -> Seq<DeckColumn> {
        when(self.from_language is Some, DeckColumn::FromLanguage) + when(
            self.to_language_primary is Some,
            DeckColumn::ToLanguagePrimary,
        ) + when(self.to_language_secondary is Some, DeckColumn::ToLanguageSecondary) + when(
            self.design_key is Some,
            DeckColumn::DesignKey,
        ) + when(self.seen_at is Some, DeckColumn::SeenAt)
    }

    /// The form changes the instant at which the deck was last opened to
    /// `instant`, and nothing else.
    pub open spec fn is_stamp(&self, instant: i64) -> bool {
        &&& self.from_language is None
        &&& self.to_language_primary is None
        &&& self.to_language_secondary is None
        &&& self.design_key is None
        &&& self.seen_at == Some(instant)
    }

    /// Builds the form that marks a deck as opened at `instant`.
    pub fn stamp(instant: i64) -> (form: DeckForm)
        ensures
            form.is_stamp(instant),
            form.changes() == seq![DeckColumn::SeenAt],
    {
        let form = DeckForm {
            from_language: None,
            to_language_primary: None,
            to_language_secondary: None,
            design_key: None,
            seen_at: Some(instant),
        };
        assert(form.changes() =~= seq![DeckColumn::SeenAt]);
        form
    }

    /// Decides whether a deck can be added from the form.
    pub fn insert_plan(&self) -> (plan: Result<(), FormError>)
        ensures
            plan is Ok <==> self.is_complete(),
            plan is Err ==> plan == Err::<(), FormError>(FormError::MissingField),
    {
        if self.from_language.is_some() && self.to_language_primary.is_some() {
            Ok(())
        } else {
            Err(FormError::MissingField)
        }
    }

    /// Lists the columns that the form changes, or refuses a form that
    /// changes none.
    pub fn update_plan(&self) -> (plan: Result<Vec<DeckColumn>, FormError>)
        ensures
            plan is Ok <==> self.changes().len() > 0,
            plan matches Ok(columns) ==> columns@ == self.changes(),
            plan matches Err(refusal) ==> refusal == FormError::NothingToChange,
    {
        let mut columns: Vec<DeckColumn> = Vec::new();
        note(&mut columns, self.from_language.is_some(), DeckColumn::FromLanguage);
        note(&mut columns, self.to_language_primary.is_some(), DeckColumn::ToLanguagePrimary);
        note(&mut columns, self.to_language_secondary.is_some(), DeckColumn::ToLanguageSecondary);
        note(&mut columns, self.design_key.is_some(), DeckColumn::DesignKey);
        note(&mut columns, self.seen_at.is_some(), DeckColumn::SeenAt);
        if columns.len() == 0 {
            Err(FormError::NothingToChange)
        } else {
            Ok(columns)
        }
    }
}

impl CardForm {
    /// The form has what a new card cannot do without: the text asked and
    /// the first text asked for.
    pub open spec fn is_complete(&self) -> bool {
        self.from_text is Some && self.to_text_primary is Some
    }

    /// The columns that the form changes, in the order in which a
    /// statement names them.
    pub open spec fn changes(&self) -> Seq<CardColumn> {
        when(self.related_card_ids is Some, CardColumn::RelatedCardIds) + when(
            self.from_text is Some,
            CardColumn::FromText,
        ) + when(self.to_text_primary is Some, CardColumn::ToTextPrimary) + when(
            self.to_text_secondary is Some,
            CardColumn::ToTextSecondary,
        ) + when(self.example_text is Some, CardColumn::ExampleText) + when(
            self.audio_url is Some,
            CardColumn::AudioUrl,
        ) + when(self.seen_at is Some, CardColumn::SeenAt) + when(
            self.seen_for is Some,
            CardColumn::SeenFor,
        ) + when(self.rating is Some, CardColumn::Rating)
    }

    /// Decides whether a card can be added from the form.
    pub fn insert_plan(&self) -> (plan: Result<(), FormError>)
        ensures
            plan is Ok <==> self.is_complete(),
            plan is Err ==> plan == Err::<(), FormError>(FormError::MissingField),
    {
        if self.from_text.is_some() && self.to_text_primary.is_some() {
            Ok(())
        } else {
            Err(FormError::MissingField)
        }
    }

    /// Lists the columns that the form changes, or refuses a form that
    /// changes none.
    pub fn update_plan(&self) -> (plan: Result<Vec<CardColumn>, FormError>)
        ensures
            plan is Ok <==> self.changes().len() > 0,
            plan matches Ok(columns) ==> columns@ == self.changes(),
            plan matches Err(refusal) ==> refusal == FormError::NothingToChange,
    {
        let mut columns: Vec<CardColumn> = Vec::new();
        note(&mut columns, self.related_card_ids.is_some(), CardColumn::RelatedCardIds);
        note(&mut columns, self.from_text.is_some(), CardColumn::FromText);
        note(&mut columns, self.to_text_primary.is_some(), CardColumn::ToTextPrimary);
        note(&mut columns, self.to_text_secondary.is_some(), CardColumn::ToTextSecondary);
        note(&mut columns, self.example_text.is_some(), CardColumn::ExampleText);
        note(&mut columns, self.audio_url.is_some(), CardColumn::AudioUrl);
        note(&mut columns, self.seen_at.is_some(), CardColumn::SeenAt);
        note(&mut columns, self.seen_for.is_some(), CardColumn::SeenFor);
        note(&mut columns, self.rating.is_some(), CardColumn::Rating);
        if columns.len() == 0 {
            Err(FormError::NothingToChange)
        } else {
            Ok(columns)
        }
    }
}

} // verus!
