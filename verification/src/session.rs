//! Review sessions: the orders of the decks in review, and the steps by
//! which a request for a position in a deck is answered.
//!
//! A request for the first position, text asked first, starts the deck's
//! session anew. That takes three turns with the record store, in this
//! order: the deck is read, the deck is marked as opened now, the cards are
//! read. The order of the session is computed from the instant that the deck
//! carried when it was read, before the mark. Every other request is
//! answered from the order that the deck's last start left behind. Whatever
//! goes wrong, the answer is a card to show: the card in reach, or the card
//! that ends a session.

use crate::card::{end_card, Card, CardView};
use crate::chance::Side;
use crate::clock::utc_now_micros;
use crate::order_laws::lemma_schedule_permutes;
use crate::scheduler::{compute_order, schedule, DAILY_REVIEW_COUNT};
use std::collections::HashMap;
use vstd::prelude::*;

verus! {

/// The session orders, by deck id.
pub type Orders = Map<i32, Seq<Card>>;

/// The card at `position` of the deck's session, where the deck has a
/// session and the session reaches that far.
pub open spec fn card_at(orders: Orders, deck_id: i32, position: int) -> Option<Card> {
    if orders.contains_key(deck_id) && 0 <= position < orders[deck_id].len() {
        Some(orders[deck_id][position])
    } else {
        None
    }
}

/// Where a deck's session stands for a request.
#[derive(Clone, Copy, Debug, PartialEq, Eq, Structural)]
pub enum SessionState {
    /// The deck's session was never started.
    Uninitialized,
    /// The session has a card at the position asked for.
    Active,
    /// The session ends before the position asked for.
    Exhausted,
}

/// Where the deck's session stands for a request for `position`.
pub open spec fn state_at(orders: Orders, deck_id: i32, position: int) -> SessionState {
    if !orders.contains_key(deck_id) {
        SessionState::Uninitialized
    } else if 0 <= position < orders[deck_id].len() {
        SessionState::Active
    } else {
        SessionState::Exhausted
    }
}

/// The order that a deck's session has when it starts from `cards`.
pub open spec fn session_order(cards: Seq<Card>, deck_seen_at: i64) -> Seq<Card> {
    schedule(cards, deck_seen_at as int, DAILY_REVIEW_COUNT as nat)
}

/// A request for the card at one position of a deck's session.
#[derive(Clone, Copy, Debug, PartialEq, Eq, Structural)]
pub struct PositionRequest {
    pub deck_id: i32,
    pub position: usize,
    pub side: Side,
}

impl PositionRequest {
    /// The request starts the deck's session anew.
    pub open spec fn starts_session(&self) -> bool {
        self.position == 0 && self.side == Side::From
    }

    /// Tells whether the request starts the deck's session anew.
    pub fn is_start(&self) -> (start: bool)
        ensures
            start == self.starts_session(),
    {
        self.position == 0 && self.side == Side::From
    }
}

/// What is shown in answer to a request.
#[derive(Debug)]
pub struct Presentation {
    pub card: Card,
    pub num_cards: usize,
    pub deck_id: i32,
    pub index: usize,
    pub side: Side,
    pub random: Side,
}

/// What a presentation holds, as plain values.
pub struct PresentationView {
    pub card: CardView,
    pub num_cards: nat,
    pub deck_id: i32,
    pub index: nat,
    pub side: Side,
    pub random: Side,
}

impl View for Presentation {
    type V = PresentationView;

    open spec fn view(&self) -> PresentationView {
        PresentationView {
            card: self.card@,
            num_cards: self.num_cards as nat,
            deck_id: self.deck_id,
            index: self.index as nat,
            side: self.side,
            random: self.random,
        }
    }
}

/// What is shown when there is no card to show: the card that ends a
/// session, in a deck without cards.
pub open spec fn end_presentation(deck_id: i32) -> PresentationView {
    PresentationView {
        card: end_card(),
        num_cards: 0,
        deck_id,
        index: 0,
        side: Side::From,
        random: Side::From,
    }
}

/// What is shown in answer to `request` from the orders at hand: the card at
/// the position asked for, with the side that was drawn, or the end.
pub open spec fn presentation_of(orders: Orders, request: PositionRequest, draw: Side) -> PresentationView {
    match card_at(orders, request.deck_id, request.position as int) {
        Some(card) => PresentationView {
            card: card@,
            num_cards: orders[request.deck_id].len(),
            deck_id: request.deck_id,
            index: request.position as nat,
            side: request.side,
            random: draw,
        },
        None => end_presentation(request.deck_id),
    }
}

impl Presentation {
    /// Builds what is shown when there is no card to show.
    pub fn end(deck_id: i32) -> (shown: Presentation)
        ensures
            shown@ == end_presentation(deck_id),
    {
        Presentation {
            card: Card::end(),
            num_cards: 0,
            deck_id,
            index: 0,
            side: Side::From,
            random: Side::From,
        }
    }
}

/// How far the start of a session has come.
#[derive(Clone, Copy, Debug, PartialEq, Eq, Structural)]
pub enum Stage {
    /// The deck was asked for.
    Deck,
    /// The deck was read, with the instant at which it was last opened,
    /// and its mark was asked for.
    Stamp { deck_seen_at: i64 },
    /// The deck was marked, and its cards were asked for.
    Cards { deck_seen_at: i64 },
}

/// A request whose answer waits for the record store.
#[derive(Clone, Copy, Debug, PartialEq, Eq, Structural)]
pub struct Pending {
    pub request: PositionRequest,
    pub stage: Stage,
    pub draw: Side,
}

/// What the record store is asked.
#[derive(Clone, Copy, Debug, PartialEq, Eq, Structural)]
pub enum Query {
    /// Read the deck.
    Deck { deck_id: i32 },
    /// Mark the deck as opened at `seen_at`.
    Stamp { deck_id: i32, seen_at: i64 },
    /// Read the cards of the deck.
    Cards { deck_id: i32 },
}

/// What the record store answers.
#[derive(Debug)]
pub enum Reply {
    /// The deck, by the instant at which it was last opened.
    Deck { seen_at: i64 },
    /// There is no such deck.
    NoDeck,
    /// The deck is marked.
    Stamped,
    /// The cards of the deck.
    Cards { cards: Vec<Card> },
    /// The store could not be reached.
    Failed,
}

/// What comes next in answering a request.
#[derive(Debug)]
pub enum Step {
    /// The record store is to be asked, and its answer handed to `resume`
    /// together with `pending`.
    Ask { pending: Pending, query: Query },
    /// The request is answered.
    Show { presentation: Presentation },
}

/// A step, as plain values.
pub enum StepView {
    Ask { pending: Pending, query: Query },
    Show { presentation: PresentationView },
}

impl View for Step {
    type V = StepView;

    open spec fn view(&self) -> StepView {
        match *self {
            Step::Ask { pending, query } => StepView::Ask { pending, query },
            Step::Show { presentation } => StepView::Show { presentation: presentation@ },
        }
    }
}

/// The first step in answering `request`: a request that starts a session
/// has the deck read, any other is answered at once.
pub open spec fn first_step(orders: Orders, request: PositionRequest, draw: Side) -> StepView {
    if request.starts_session() {
        StepView::Ask {
            pending: Pending { request, stage: Stage::Deck, draw },
            query: Query::Deck { deck_id: request.deck_id },
        }
    } else {
        StepView::Show { presentation: presentation_of(orders, request, draw) }
    }
}

/// The orders after the record store's answer: the cards, when they come
/// in their turn, start the deck's session anew, and nothing else changes
/// an order.
pub open spec fn orders_after(orders: Orders, pending: Pending, reply: Reply) -> Orders {
    match (pending.stage, reply) {
        (Stage::Cards { deck_seen_at }, Reply::Cards { cards }) => orders.insert(
            pending.request.deck_id,
            session_order(cards@, deck_seen_at),
        ),
        _ => orders,
    }
}

/// The step after the record store's answer, at the instant `now`. An
/// answer in its turn leads on; a missing deck ends the session; any other
/// answer gives the start up, and the request is answered from the orders
/// as they are.
pub open spec fn step_after(orders: Orders, pending: Pending, reply: Reply, now: i64) -> StepView {
    let deck_id = pending.request.deck_id;
    match (pending.stage, reply) {
        (Stage::Deck, Reply::Deck { seen_at }) => StepView::Ask {
            pending: Pending {
                request: pending.request,
                stage: Stage::Stamp { deck_seen_at: seen_at },
                draw: pending.draw,
            },
            query: Query::Stamp { deck_id, seen_at: now },
        },
        (Stage::Deck, Reply::NoDeck) => StepView::Show { presentation: end_presentation(deck_id) },
        (Stage::Stamp { deck_seen_at }, Reply::Stamped) => StepView::Ask {
            pending: Pending {
                request: pending.request,
                stage: Stage::Cards { deck_seen_at },
                draw: pending.draw,
            },
            query: Query::Cards { deck_id },
        },
        _ => StepView::Show {
            presentation: presentation_of(
                orders_after(orders, pending, reply),
                pending.request,
                pending.draw,
            ),
        },
    }
}

/// The answer leads to the mark, for which the clock is read. No other step
/// depends on the instant at which it is taken.
pub open spec fn reads_clock(pending: Pending, reply: Reply) -> bool {
    pending.stage is Deck && reply is Deck
}

/// The view of one order.
pub open spec fn order_view() -> spec_fn(Vec<Card>) -> Seq<Card> {
    |order: Vec<Card>| order@
}

/// The orders of the sessions that were started, one for each deck. A deck's
/// order stays as it is until the deck's session is started anew: what
/// happens to the cards in between does not reach it.
///
/// The start of a session is the only change there is, and it takes the
/// orders for itself alone, so that no reader sees an order half written.
/// Where two starts of one deck's session meet, the later one stands. No
/// order is ever dropped: the orders take up room for every deck that was
/// opened since the service came up.
pub struct ActiveDecks {
    orders: HashMap<i32, Vec<Card>>,
}

impl View for ActiveDecks {
    type V = Orders;

    closed spec fn view(&self) -> Orders {
        self.orders@.map_values(order_view())
    }
}

impl ActiveDecks {
    /// No session was started yet.
    pub fn new() -> (decks: ActiveDecks)
        ensures
            decks@ == Map::<i32, Seq<Card>>::empty(),
    {
        let decks = ActiveDecks { orders: HashMap::new() };
        assert(decks@ =~= Map::<i32, Seq<Card>>::empty());
        decks
    }

    /// Starts the deck's session anew from `cards`, the cards of the deck,
    /// and from the instant at which the deck was last opened before this
    /// start. The order that the deck had is gone.
    pub fn start_session(&mut self, deck_id: i32, cards: Vec<Card>, deck_seen_at: i64)
        ensures
            final(self)@ == old(self)@.insert(deck_id, session_order(cards@, deck_seen_at)),
    {
        let order = compute_order(cards, deck_seen_at, DAILY_REVIEW_COUNT);
        self.orders.insert(deck_id, order);
        assert(self@ =~= old(self)@.insert(deck_id, session_order(cards@, deck_seen_at)));
    }

    /// Looks up the card at `position` of the deck's session. There is none
    /// where the deck has no session or the session ends before `position`.
    pub fn get_at(&self, deck_id: i32, position: usize) -> (card: Option<&Card>)
        ensures
            card is Some <==> self@.contains_key(deck_id) && position < self@[deck_id].len(),
            match card {
                Some(found) => card_at(self@, deck_id, position as int) == Some(*found),
                None => card_at(self@, deck_id, position as int) is None,
            },
    {
        match self.orders.get(&deck_id) {
            Some(order) => {
                if position < order.len() {
                    Some(&order[position])
                } else {
                    None
                }
            },
            None => None,
        }
    }

    /// Tells where the deck's session stands for a request for `position`.
    /// There is a card to show in an active session, and in no other.
    pub fn state(&self, deck_id: i32, position: usize) -> (state: SessionState)
        ensures
            state == state_at(self@, deck_id, position as int),
            state is Active <==> card_at(self@, deck_id, position as int) is Some,
    {
        match self.orders.get(&deck_id) {
            Some(order) => {
                if position < order.len() {
                    SessionState::Active
                } else {
                    SessionState::Exhausted
                }
            },
            None => SessionState::Uninitialized,
        }
    }

    /// Counts the cards of the deck's session, where the deck has one.
    pub fn session_len(&self, deck_id: i32) -> (len: Option<usize>)
        ensures
            len is Some <==> self@.contains_key(deck_id),
            len matches Some(n) ==> n == self@[deck_id].len(),
    {
        match self.orders.get(&deck_id) {
            Some(order) => Some(order.len()),
            None => None,
        }
    }

    /// Answers `request` from the orders at hand, with `draw` as the side
    /// that chance picked.
    pub fn present(&self, request: PositionRequest, draw: Side) -> (shown: Presentation)
        ensures
            shown@ == presentation_of(self@, request, draw),
    {
        match self.orders.get(&request.deck_id) {
            Some(order) => {
                if request.position < order.len() {
                    Presentation {
                        card: order[request.position].clone(),
                        num_cards: order.len(),
                        deck_id: request.deck_id,
                        index: request.position,
                        side: request.side,
                        random: draw,
                    }
                } else {
                    Presentation::end(request.deck_id)
                }
            },
            None => Presentation::end(request.deck_id),
        }
    }

    /// Takes the first step in answering `request`, with `draw` as the side
    /// that chance picked.
    pub fn handle_with_draw(&self, request: PositionRequest, draw: Side) -> (step: Step)
        ensures
            step@ == first_step(self@, request, draw),
    {
        if request.is_start() {
            Step::Ask {
                pending: Pending { request, stage: Stage::Deck, draw },
                query: Query::Deck { deck_id: request.deck_id },
            }
        } else {
            Step::Show { presentation: self.present(request, draw) }
        }
    }

    /// Takes the first step in answering `request`. The side that is shown
    /// first is left to chance.
    pub fn handle_session_position(&self, request: PositionRequest) -> (step: Step)
        ensures
            exists|draw: Side| step@ == first_step(self@, request, draw),
    {
        let draw = Side::random();
        self.handle_with_draw(request, draw)
    }

    /// Takes the step that follows the record store's answer, at the
    /// instant `now`.
    pub fn resume_at(&mut self, pending: Pending, reply: Reply, now: i64) -> (step: Step)
        ensures
            final(self)@ == orders_after(old(self)@, pending, reply),
            step@ == step_after(old(self)@, pending, reply, now),
    {
        let request = pending.request;
        let deck_id = request.deck_id;
        match (pending.stage, reply) {
            (Stage::Deck, Reply::Deck { seen_at }) => Step::Ask {
                pending: Pending {
                    request,
                    stage: Stage::Stamp { deck_seen_at: seen_at },
                    draw: pending.draw,
                },
                query: Query::Stamp { deck_id, seen_at: now },
            },
            (Stage::Deck, Reply::NoDeck) => Step::Show { presentation: Presentation::end(deck_id) },
            (Stage::Stamp { deck_seen_at }, Reply::Stamped) => Step::Ask {
                pending: Pending { request, stage: Stage::Cards { deck_seen_at }, draw: pending.draw },
                query: Query::Cards { deck_id },
            },
            (Stage::Cards { deck_seen_at }, Reply::Cards { cards }) => {
                self.start_session(deck_id, cards, deck_seen_at);
                Step::Show { presentation: self.present(request, pending.draw) }
            },
            _ => Step::Show { presentation: self.present(request, pending.draw) },
        }
    }

    /// Takes the step that follows the record store's answer. Where the
    /// deck is to be marked, it is marked with the instant that the clock
    /// shows.
    pub fn resume(&mut self, pending: Pending, reply: Reply) -> (step: Step)
        ensures
            final(self)@ == orders_after(old(self)@, pending, reply),
            exists|now: i64| step@ == step_after(old(self)@, pending, reply, now),
            !reads_clock(pending, reply) ==> forall|now: i64|
                step@ == step_after(old(self)@, pending, reply, now),
    {
        let reads = match (&pending.stage, &reply) {
            (Stage::Deck, Reply::Deck { .. }) => true,
            _ => false,
        };
        let now = if reads {
            utc_now_micros()
        } else {
            0
        };
        self.resume_at(pending, reply, now)
    }
}

/// Right after a session was started, its first position holds the head of
/// the order that was computed, where the deck has a card at all.
pub proof fn lemma_start_shows_head(orders: Orders, deck_id: i32, cards: Seq<Card>, deck_seen_at: i64)
    ensures
        ({
            let started = orders.insert(deck_id, session_order(cards, deck_seen_at));
            &&& cards.len() > 0 ==> card_at(started, deck_id, 0) == Some(
                session_order(cards, deck_seen_at)[0],
            )
            &&& cards.len() == 0 ==> card_at(started, deck_id, 0) is None
        }),
{
    lemma_schedule_permutes(cards, deck_seen_at as int, DAILY_REVIEW_COUNT as nat);
}

/// The cards, when they come in their turn, start the session, and a
/// request for the first position is answered with the head of the new
/// order.
pub proof fn lemma_started_session_shows_head(orders: Orders, pending: Pending, reply: Reply, now: i64)
    requires
        pending.stage is Cards,
        reply is Cards,
        pending.request.position == 0,
        reply->cards.len() > 0,
    ensures
        ({
            let order = session_order(reply->cards@, pending.stage->Cards_deck_seen_at);
            step_after(orders, pending, reply, now) == StepView::Show {
                presentation: PresentationView {
                    card: order[0]@,
                    num_cards: reply->cards.len() as nat,
                    deck_id: pending.request.deck_id,
                    index: 0,
                    side: pending.request.side,
                    random: pending.draw,
                },
            }
        }),
{
    lemma_schedule_permutes(
        reply->cards@,
        pending.stage->Cards_deck_seen_at as int,
        DAILY_REVIEW_COUNT as nat,
    );
}

/// A position behind the end of the deck's session, and any position of a
/// deck without a session, holds no card and is answered with the end.
pub proof fn lemma_out_of_reach_shows_end(orders: Orders, request: PositionRequest, draw: Side)
    requires
        !orders.contains_key(request.deck_id) || request.position >= orders[request.deck_id].len(),
    ensures
        card_at(orders, request.deck_id, request.position as int) is None,
        presentation_of(orders, request, draw) == end_presentation(request.deck_id),
{
}

/// A deck without cards has a session without cards: every position of it
/// is answered with the end.
pub proof fn lemma_empty_deck_shows_end(
    orders: Orders,
    deck_id: i32,
    deck_seen_at: i64,
    request: PositionRequest,
    draw: Side,
)
    requires
        request.deck_id == deck_id,
    ensures
        session_order(Seq::<Card>::empty(), deck_seen_at) == Seq::<Card>::empty(),
        presentation_of(
            orders.insert(deck_id, session_order(Seq::<Card>::empty(), deck_seen_at)),
            request,
            draw,
        ) == end_presentation(deck_id),
{
    lemma_schedule_permutes(Seq::<Card>::empty(), deck_seen_at as int, DAILY_REVIEW_COUNT as nat);
    assert(session_order(Seq::<Card>::empty(), deck_seen_at) =~= Seq::<Card>::empty());
}

} // verus!
