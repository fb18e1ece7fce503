//! The supervillain record and its weaponry.

use vstd::prelude::*;

use crate::parsing::{join_two, lemma_format_then_parse, split_on_space, split_tokens, wf_token};

verus! {

/// A supervillain, known by a first and a last name.
pub struct Supervillain {
    pub first_name: String,
    pub last_name: String,
}

/// Why a text could not become a supervillain.
#[derive(Clone, Copy, Debug, PartialEq, Eq, Structural)]
pub enum ParseError {
    /// The text split into fewer than two tokens.
    TooFewTokens,
}

/// Anything a supervillain can attack with: a single trigger, pulled once
/// per attack.
pub trait Megaweapon {
    fn shoot(&self);
}

impl Supervillain {
    /// Both names are usable: non-empty, with no internal spaces.
    pub open spec fn wf(&self) -> bool {
        wf_token(self.first_name@) && wf_token(self.last_name@)
    }

    /// The first two tokens of `name` become a new supervillain's first
    /// and last name; any tokens beyond the second are deliberately
    /// dropped. A text with fewer than two tokens is rejected.
    pub fn try_parse(name: &str) -> (result: Result<Supervillain, ParseError>)
        ensures
            result is Err <==> split_on_space(name@).len() < 2,
            result is Err ==> result == Err::<Supervillain, ParseError>(ParseError::TooFewTokens),
            result matches Ok(villain) ==> {
                &&& villain.first_name@ == split_on_space(name@)[0]
                &&& villain.last_name@ == split_on_space(name@)[1]
            },
    {
        let tokens = split_tokens(name);
        if tokens.len() < 2 {
            Err(ParseError::TooFewTokens)
        } else {
            Ok(
                Supervillain {
                    first_name: tokens[0].clone(),
                    last_name: tokens[1].clone(),
                },
            )
        }
    }

    /// The full name: first name, a single space, last name.
    pub fn full_name(&self) -> (name: String)
        ensures
            name@ == join_two(self.first_name@, self.last_name@),
    {
        let mut name = self.first_name.clone();
        name.append(" ");
        name.append(self.last_name.as_str());
        proof {
            reveal_strlit(" ");
            assert(name@ =~= join_two(self.first_name@, self.last_name@));
        }
        name
    }

    /// Replaces both names with the two tokens of `name`, which must
    /// split into a first and a last name exactly. A caller that cannot
    /// promise that must check first and treat a failure as fatal.
    pub fn set_full_name(&mut self, name: &str)
        requires
            split_on_space(name@).len() == 2,
        ensures
            final(self).first_name@ == split_on_space(name@)[0],
            final(self).last_name@ == split_on_space(name@)[1],
    {
        let tokens = split_tokens(name);
        self.first_name = tokens[0].clone();
        self.last_name = tokens[1].clone();
    }

    /// Fires the weapon, exactly once.
    pub fn attack(&self, weapon: &impl Megaweapon) {
        weapon.shoot();
    }

    /// The plan. It never changes.
    pub fn come_up_with_plan(&self) -> (plan: String)
        ensures
            plan@ == "Take over the world!"@,
    {
        "Take over the world!".to_owned()
    }
}

/// Round trip: the full name of a well-formed supervillain, parsed back,
/// yields exactly the first and the last name it was formatted from.
pub proof fn lemma_full_name_round_trip(villain: Supervillain)
    requires
        villain.wf(),
    ensures
        split_on_space(join_two(villain.first_name@, villain.last_name@)) == seq![
            villain.first_name@,
            villain.last_name@,
        ],
{
    lemma_format_then_parse(villain.first_name@, villain.last_name@);
}

} // verus!
