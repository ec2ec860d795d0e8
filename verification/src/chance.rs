//! Which side of a card a session shows first, decided by chance.

use rand::rngs::ThreadRng;
use rand::Rng;
use vstd::prelude::*;

verus! {

/// The two sides of a card: the text asked and the text asked for.
#[derive(Clone, Copy, Debug, PartialEq, Eq, Structural)]
pub enum Side {
    From,
    To,
}

/// `rand::rngs::ThreadRng`, the random number generator that each thread
/// keeps for itself. Nothing is known of what it holds.
#[verifier::external_type_specification]
#[verifier::external_body]
pub struct ExThreadRng(ThreadRng);

/// `rand::thread_rng` hands out the generator of the calling thread. Nothing
/// is claimed of it. It panics where the system has no randomness to seed
/// the generator with.
pub assume_specification[ rand::thread_rng ]() -> (rng: ThreadRng)
;

/// `Rng::gen_range` on the range from 0 to `high`, both included. The range
/// is never empty, so the call does not panic; the claim is that the number
/// drawn lies in the range.
#[verifier::external_body]
fn draw_up_to(rng: &mut ThreadRng, high: u8) -> (drawn: u8)
    ensures
        drawn <= high,
{
    rng.gen_range(0..=high)
}

/// The highest number that is drawn for a side: two outcomes, one for each
/// side, each as likely as the other.
pub const HIGHEST_DRAW: u8 = 1;

/// The side that a number drawn stands for.
pub open spec fn side_for(drawn: u8) -> Side {
    if drawn > 0 {
        Side::From
    } else {
        Side::To
    }
}

impl Side {
    /// The side named by `text`: `"from"` names the text asked, anything
    /// else the text asked for.
    pub open spec fn named(text: Seq<char>) -> Side {
        if text == "from"@ {
            Side::From
        } else {
            Side::To
        }
    }

    /// The name of the side.
    pub open spec fn name(self) -> Seq<char> {
        match self {
            Side::From => "from"@,
            Side::To => "to"@,
        }
    }

    /// Reads a side from its name.
    pub fn parse(text: &str) -> (side: Side)
        ensures
            side == Side::named(text@),
    {
        let from = "from".to_owned();
        let given = text.to_owned();
        if given == from {
            Side::From
        } else {
            Side::To
        }
    }

    /// Writes the name of the side.
    pub fn as_text(self) -> (text: String)
        ensures
            text@ == self.name(),
    {
        match self {
            Side::From => "from".to_owned(),
            Side::To => "to".to_owned(),
        }
    }

    /// Turns a number drawn into a side.
    pub fn from_draw(drawn: u8) -> (side: Side)
        ensures
            side == side_for(drawn),
    {
        if drawn > 0 {
            Side::From
        } else {
            Side::To
        }
    }

    /// Draws a side. Which one comes is left to chance.
    pub fn random() -> (side: Side)
        ensures
            exists|drawn: u8| drawn <= HIGHEST_DRAW && side == side_for(drawn),
    {
        let mut rng = rand::thread_rng();
        let drawn = draw_up_to(&mut rng, HIGHEST_DRAW);
        Side::from_draw(drawn)
    }
}

} // verus!
