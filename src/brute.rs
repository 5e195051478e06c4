//! A bot which brute forces every possible action. It is meant for testing:
//! its result is the plain minimax value that other bots are held to.
use vstd::prelude::*;

use crate::model::{action_value, best_of, first_best};
use crate::Game;

verus! {

/// A bot which uses brute force to calculate the optimal move.
pub struct Bot<T: Game> {
    player: T::Player,
}

impl<T: Game> Bot<T> {
    /// The player this bot decides for.
    pub closed spec fn player(&self) -> T::Player {
        self.player
    }

    pub fn new(player: T::Player) -> (r: Self)
        ensures
            r.player() == player,
    {
        Self { player }
    }

    /// Returns the first action, in enumeration order, whose minimax value
    /// `depth` plies below it is the largest; `None` where this bot's player
    /// is not acting or has no action.
    pub fn select(&mut self, state: &T, depth: u32) -> (r: Option<T::Action>)
        ensures
            final(self).player() == old(self).player(),
            r is Some <==> state.acting(old(self).player()) && state.legal(old(self).player()).len()
                > 0,
            r is Some ==> first_best(*state, old(self).player(), r.unwrap(), depth as nat),
    {
        let (active, actions) = state.actions(&self.player);
        if !active {
            return None;
        }
        let n = actions.len();
        if n == 0 {
            return None;
        }
        let ghost p = self.player;
        let ghost acts = actions@;
        let ghost d = depth as nat;
        let mut best_i: usize = 0;
        proof {
            assert(acts.contains(acts[0]));
        }
        let mut best = self.minimax(state, &actions[0], depth);
        proof {
            assert(acts.take(1)[0] == acts[0]);
        }
        let mut i: usize = 1;
        while i < n
            invariant
                p == self.player,
                acts == actions@,
                acts == state.legal(p),
                n == acts.len(),
                d == depth as nat,
                1 <= i <= n,
                best_i < i,
                best == action_value(*state, p, acts[best_i as int], d),
                best == best_of(*state, p, true, acts.take(i as int), d),
                forall|j: int| 0 <= j < best_i ==> action_value(*state, p, #[trigger] acts[j], d) < best,
            decreases n - i,
        {
            proof {
                assert(acts.contains(acts[i as int]));
            }
            let v = self.minimax(state, &actions[i], depth);
            proof {
                crate::model::lemma_best_of_push(*state, p, true, acts, i as int, d);
            }
            if v > best {
                proof {
                    crate::model::lemma_best_of_attained(*state, p, true, acts.take(i as int), d);
                    assert forall|j: int| 0 <= j < i implies action_value(
                        *state,
                        p,
                        #[trigger] acts[j],
                        d,
                    ) < v by {
                        assert(acts.take(i as int)[j] == acts[j]);
                    }
                }
                best = v;
                best_i = i;
            }
            i = i + 1;
        }
        proof {
            assert(acts.take(n as int) =~= acts);
        }
        let mut actions = actions;
        let r = Some(actions.swap_remove(best_i));
        proof {
            assert(acts[best_i as int] == r.unwrap());
        }
        r
    }

    fn minimax(&self, state: &T, action: &T::Action, depth: u32) -> (r: i64)
        requires
            state.legal(self.player).contains(*action),
        ensures
            r == action_value(*state, self.player, *action, depth as nat),
        decreases depth,
    {
        if depth == 0 {
            state.look_ahead(action, &self.player)
        } else {
            let ghost p = self.player;
            let ghost d = (depth - 1) as nat;
            let mut next = state.duplicate();
            let fitness = next.execute(action, &self.player);
            let (active, actions) = next.actions(&self.player);
            let n = actions.len();
            if n == 0 {
                return fitness;
            }
            let ghost acts = actions@;
            proof {
                assert(acts.contains(acts[0]));
            }
            let mut best = self.minimax(&next, &actions[0], depth - 1);
            proof {
                assert(acts.take(1)[0] == acts[0]);
            }
            let mut i: usize = 1;
            while i < n
                invariant
                    p == self.player,
                    acts == actions@,
                    acts == next.legal(p),
                    active == next.acting(p),
                    n == acts.len(),
                    d == (depth - 1) as nat,
                    depth > 0,
                    1 <= i <= n,
                    best == best_of(next, p, active, acts.take(i as int), d),
                decreases n - i,
            {
                proof {
                    assert(acts.contains(acts[i as int]));
                }
                let v = self.minimax(&next, &actions[i], depth - 1);
                proof {
                    crate::model::lemma_best_of_push(next, p, active, acts, i as int, d);
                }
                if active {
                    if v > best {
                        best = v;
                    }
                } else if v < best {
                    best = v;
                }
                i = i + 1;
            }
            proof {
                assert(acts.take(n as int) =~= acts);
            }
            best
        }
    }
}

} // verus!
