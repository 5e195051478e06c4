//! An easily reusable game bot for deterministic games.
//!
//! A game describes itself through the [`Game`] trait. The bot in
//! [`alpha_beta`] searches its game tree with alpha-beta pruning and
//! iterative deepening; [`brute`] holds an exhaustive minimax search whose
//! result is the value that the pruned search is proved to reproduce.
use vstd::prelude::*;

pub mod alpha_beta;
pub mod brute;
pub mod condition;
pub mod model;

pub use alpha_beta::Bot;
pub use condition::{
    Deadline, Depth, InnerSteps, IntoRunCondition, RunCondition, Steps, ToCompletion,
};

verus! {

/// An interface required to interact with the bots of this crate.
///
/// The spec functions describe the game mathematically; the executable
/// methods must agree with them. Fitness is an `i64`, higher is better, and
/// always seen from the perspective of the player passed in. It is a fixed
/// integer type rather than any totally ordered type because the bots'
/// proofs compare fitness values, and Verus can reason about the order of
/// integers but not about an arbitrary `Ord` implementation; a game maps
/// its own scores into `i64` preserving their order.
///
/// An implementation written outside of verified code may leave the spec
/// functions out: they then stand for values nothing is known of, and the
/// bots' contracts tell nothing about such a game.
pub trait Game: Sized {
    /// the player type
    type Player;
    /// an executable action
    type Action;

    /// Whether `player` is the one acting in this state.
    closed spec fn acting(&self, player: Self::Player) -> bool {
        arbitrary()
    }

    /// The legal actions in this state, in enumeration order.
    closed spec fn legal(&self, player: Self::Player) -> Seq<Self::Action> {
        arbitrary()
    }

    /// The state reached by executing `action`.
    closed spec fn next(&self, action: Self::Action, player: Self::Player) -> Self {
        arbitrary()
    }

    /// The fitness for `player` after executing `action`.
    closed spec fn fitness(&self, action: Self::Action, player: Self::Player) -> i64 {
        arbitrary()
    }

    /// Returns an identical copy of the state.
    fn duplicate(&self) -> (r: Self)
        ensures
            r == *self,
    ;

    /// Returns all currently possible actions and if they are executed by the given `player`.
    fn actions(&self, player: &Self::Player) -> (r: (bool, Vec<Self::Action>))
        ensures
            r.0 == self.acting(*player),
            r.1@ == self.legal(*player),
    ;

    /// Executes `action`, which must be one of the legal actions for
    /// `player`, returning the new fitness for `player`, even if `player` is
    /// not the one acting.
    fn execute(&mut self, action: &Self::Action, player: &Self::Player) -> (r: i64)
        requires
            old(self).legal(*player).contains(*action),
        ensures
            *final(self) == old(self).next(*action, *player),
            r == old(self).fitness(*action, *player),
    ;

    /// Returns the fitness after `action` is executed, without changing the state.
    fn look_ahead(&self, action: &Self::Action, player: &Self::Player) -> (r: i64)
        requires
            self.legal(*player).contains(*action),
        ensures
            r == self.fitness(*action, *player),
    {
        let mut state = self.duplicate();
        state.execute(action, player)
    }
}

} // verus!
