//! A bot using fail-soft alpha-beta pruning with iterative deepening.
use vstd::prelude::*;

use crate::condition::{
    admits_all, admits_through, spent_from, used_up, IntoRunCondition, RunCondition,
};
use crate::model::{
    above, action_value, below, best_of, fail_soft, lemma_best_of_attained, lemma_best_of_prefix,
    lemma_best_of_push, node_value, optimal_at, optimal_from, window_ok,
};
use crate::Game;

verus! {

/// A bot which searches the game tree with alpha-beta pruning, deepening the
/// search one ply at a time for as long as its run condition allows.
pub struct Bot<T: Game> {
    player: T::Player,
}

impl<T: Game> Bot<T> {
    /// The player this bot decides for.
    pub closed spec fn player(&self) -> T::Player {
        self.player
    }

    pub fn new(player: T::Player) -> (r: Self)
        ensures
            r.player() == player,
    {
        Self { player }
    }

    /// Selects an action for this bot's player by iterative deepening:
    /// tier after tier, starting with one ply, the whole tree is searched to
    /// the tier's depth, the previous tier's choice looked at first. Before
    /// tier `d` the condition is polled with `d`. The search stops when the
    /// condition refuses a new tier, aborts a running one (whose result is
    /// then dropped), or when a tier met no depth cut-off at all.
    ///
    /// Returns `None` where the player is not acting or has no action, or
    /// where no tier completed. Otherwise the action is one of the legal
    /// ones, and its minimax value at the depth of the last completed tier is
    /// the value of the state at that depth. Where the condition grants every
    /// step and admits the tiers up to `k - 1` but refuses tier `k`, that
    /// depth is `k - 2` plies below the root's actions (or less, with the
    /// action staying optimal at every depth past it). Under a condition that
    /// never stops, an action is always found, and it stays optimal at every
    /// depth from the tier that met no cut-off on; only a tree deeper than
    /// the deepest tier leaves it optimal at that tier's depth alone.
    pub fn select<U: IntoRunCondition>(&mut self, state: &T, condition: U) -> (r: Option<
        T::Action,
    >)
        ensures
            final(self).player() == old(self).player(),
            !state.acting(old(self).player()) || state.legal(old(self).player()).len() == 0
                ==> r is None,
            condition.into_steps_free() && condition.into_depth_answer(1) == Some(true)
                && state.acting(old(self).player()) && state.legal(old(self).player()).len() > 0
                ==> r is Some,
            condition.into_depth_answer(1) == Some(false) ==> r is None,
            r is Some ==> state.acting(old(self).player()),
            r is Some ==> exists|d: nat| optimal_at(*state, old(self).player(), r.unwrap(), d),
            forall|k: u32|
                2 <= k && condition.into_steps_free() && admits_through(condition, (k - 1) as u32)
                    && #[trigger] condition.into_depth_answer(k) == Some(false) && r is Some
                    ==> optimal_at(*state, old(self).player(), r.unwrap(), (k - 2) as nat),
            condition.into_steps_free() && admits_all(condition) && r is Some ==> (exists|d: nat|
                optimal_from(*state, old(self).player(), r.unwrap(), d)) || optimal_at(
                *state,
                old(self).player(),
                r.unwrap(),
                (u32::MAX - 2) as nat,
            ),
    {
        let ghost sf = condition.into_steps_free();
        let mut cond = condition.into_run_condition();
        let (active, actions) = state.actions(&self.player);
        if !active || actions.len() == 0 {
            return None;
        }
        let ghost p = self.player;
        let ghost acts = actions@;
        let n = actions.len();
        let mut best: Option<usize> = None;
        let ghost mut best_depth: nat = 0;
        let ghost mut settled = false;
        let mut done = false;
        let mut depth: u32 = 1;
        while depth < u32::MAX && !done
            invariant
                p == self.player,
                acts == actions@,
                acts == state.legal(p),
                state.acting(p),
                n == acts.len(),
                n > 0,
                1 <= depth,
                sf == condition.into_steps_free(),
                p == old(self).player(),
                sf ==> cond.steps_free(),
                forall|e: u32|
                    condition.into_depth_answer(e) is Some ==> #[trigger] cond.depth_answer(e)
                        == condition.into_depth_answer(e),
                forall|e: u32|
                    1 <= e < depth ==> #[trigger] condition.into_depth_answer(e) != Some(false),
                settled ==> done && best_depth + 1 == depth && condition.into_depth_answer(depth)
                    != Some(false),
                sf && done && !settled ==> condition.into_depth_answer(depth) != Some(true),
                condition.into_depth_answer(1) == Some(false) ==> best is None && depth == 1,
                sf && depth > 1 ==> best is Some,
                best matches Some(i) ==> i < n && action_value(*state, p, acts[i as int], best_depth)
                    == node_value(*state, p, best_depth),
                settled ==> match best {
                    Some(i) => forall|e: nat|
                        e >= best_depth ==> #[trigger] node_value(*state, p, e) == action_value(
                            *state,
                            p,
                            acts[i as int],
                            e,
                        ),
                    None => false,
                },
                sf && depth > 1 && !settled ==> best_depth == depth - 2,
            decreases u32::MAX - depth + if done { 0int } else { 1int },
        {
            if !cond.depth(depth) {
                done = true;
            } else {
                let first = match best {
                    Some(i) => i,
                    None => 0,
                };
                match self.search_root(state, &actions, first, depth - 1, &mut cond) {
                    None => {
                        done = true;
                    },
                    Some((i, _, exhausted)) => {
                        best = Some(i);
                        proof {
                            best_depth = (depth - 1) as nat;
                            settled = exhausted;
                        }
                        if exhausted {
                            done = true;
                        } else {
                            depth = depth + 1;
                        }
                    },
                }
            }
        }
        if let Some(i) = best {
            let mut actions = actions;
            let a = actions.swap_remove(i);
            let r = Some(a);
            proof {
                assert(acts[i as int] == a);
                assert(optimal_at(*state, p, r.unwrap(), best_depth));
                if settled {
                    assert forall|e: nat| e >= best_depth implies #[trigger] optimal_at(
                        *state,
                        p,
                        a,
                        e,
                    ) by {
                        assert(node_value(*state, p, e) == action_value(*state, p, acts[i as int], e));
                    }
                    assert(optimal_from(*state, p, r.unwrap(), best_depth));
                }
            }
            proof {
                assert forall|k: u32|
                    2 <= k && sf && admits_through(condition, (k - 1) as u32)
                        && #[trigger] condition.into_depth_answer(k) == Some(false) implies optimal_at(
                    *state,
                    p,
                    a,
                    (k - 2) as nat,
                ) by {
                    if settled {
                        assert(k > depth);
                        assert(optimal_at(*state, p, a, (k - 2) as nat));
                    } else if done {
                        assert(condition.into_depth_answer(depth) != Some(true));
                        assert(depth >= k);
                        assert(depth == k);
                    } else {
                        assert(depth == u32::MAX);
                        assert(k == depth);
                    }
                }
            }
            r
        } else {
            None
        }
    }

    /// Evaluates `action` in `state` with `depth` plies below it, within the
    /// window `(lo, hi)`. `None` means the run condition stopped the search.
    /// The flag is `true` where no line was cut off by the depth budget.
    fn child<R: RunCondition>(
        &self,
        state: &T,
        action: &T::Action,
        depth: u32,
        lo: Option<i64>,
        hi: Option<i64>,
        cond: &mut R,
    ) -> (r: Option<(i64, bool)>)
        requires
            state.legal(self.player).contains(*action),
            window_ok(lo, hi),
        ensures
            r matches Some((v, _)) ==> fail_soft(
                v,
                action_value(*state, self.player, *action, depth as nat),
                lo,
                hi,
            ),
            r matches Some((v, true)) ==> forall|d: nat|
                d >= depth ==> fail_soft(
                    v,
                    #[trigger] action_value(*state, self.player, *action, d),
                    lo,
                    hi,
                ),
            old(cond).steps_free() ==> r is Some && final(cond).steps_free(),
            forall|e: u32|
                old(cond).depth_answer(e) is Some ==> #[trigger] final(cond).depth_answer(e)
                    == old(cond).depth_answer(e),
            spent_from(old(cond).grants(), final(cond).grants()),
            r is None ==> used_up(old(cond).grants(), final(cond).grants()),
        decreases depth, 0nat,
    {
        if depth == 0 {
            return Some((state.look_ahead(action, &self.player), false));
        }
        let mut next = state.duplicate();
        let fitness = next.execute(action, &self.player);
        let (active, actions) = next.actions(&self.player);
        if actions.len() == 0 {
            return Some((fitness, true));
        }
        let r = self.search(&next, active, &actions, depth - 1, lo, hi, cond);
        proof {
            if let Some((v, true)) = r {
                assert forall|d: nat| d >= depth implies fail_soft(
                    v,
                    #[trigger] action_value(*state, self.player, *action, d),
                    lo,
                    hi,
                ) by {
                    assert(fail_soft(v, node_value(next, self.player, (d - 1) as nat), lo, hi));
                }
            }
        }
        r
    }

    /// Searches a state that has actions (`active` and `actions` being what
    /// `Game::actions` reported for it), each looked at `depth` plies below
    /// it, within the window `(lo, hi)`. The first action sets the running
    /// best; later actions are searched in a window narrowed by it, and the
    /// rest are skipped once the running best leaves the window. The value
    /// is exact strictly inside the window and a bound outside it; `None`
    /// means the run condition stopped the search. The flag is `true` where
    /// no visited line was cut off by the depth budget.
    pub fn search<R: RunCondition>(
        &self,
        state: &T,
        active: bool,
        actions: &Vec<T::Action>,
        depth: u32,
        lo: Option<i64>,
        hi: Option<i64>,
        cond: &mut R,
    ) -> (r: Option<(i64, bool)>)
        requires
            active == state.acting(self.player()),
            actions@ == state.legal(self.player()),
            actions@.len() > 0,
            window_ok(lo, hi),
        ensures
            r matches Some((v, _)) ==> fail_soft(v, node_value(*state, self.player(), depth as nat), lo, hi),
            r matches Some((v, true)) ==> forall|d: nat|
                d >= depth ==> fail_soft(v, #[trigger] node_value(*state, self.player(), d), lo, hi),
            old(cond).steps_free() ==> r is Some && final(cond).steps_free(),
            forall|e: u32|
                old(cond).depth_answer(e) is Some ==> #[trigger] final(cond).depth_answer(e)
                    == old(cond).depth_answer(e),
            spent_from(old(cond).grants(), final(cond).grants()),
            r is None ==> used_up(old(cond).grants(), final(cond).grants()),
        decreases depth, 1nat,
    {
        if !cond.step() {
            return None;
        }
        let ghost p = self.player;
        let ghost acts = actions@;
        let ghost d = depth as nat;
        let ghost unl = old(cond).steps_free();
        let n = actions.len();
        proof {
            assert(acts.contains(acts[0]));
        }
        let (mut best, mut exhausted) = match self.child(state, &actions[0], depth, lo, hi, cond) {
            Some(x) => x,
            None => {
                return None;
            },
        };
        proof {
            assert(acts.take(1)[0] == acts[0]);
            if exhausted {
                assert forall|d2: nat| d2 >= d implies fail_soft(
                    best,
                    #[trigger] best_of(*state, p, active, acts.take(1), d2),
                    lo,
                    hi,
                ) by {
                    assert(fail_soft(best, action_value(*state, p, acts[0], d2), lo, hi));
                }
            }
        }
        let mut cut = false;
        let mut i: usize = 1;
        while i < n && !cut
            invariant
                p == self.player,
                acts == actions@,
                acts == state.legal(p),
                active == state.acting(p),
                n == acts.len(),
                d == depth as nat,
                window_ok(lo, hi),
                1 <= i <= n,
                fail_soft(best, best_of(*state, p, active, acts.take(i as int), d), lo, hi),
                exhausted ==> forall|d2: nat|
                    d2 >= d ==> fail_soft(
                        best,
                        #[trigger] best_of(*state, p, active, acts.take(i as int), d2),
                        lo,
                        hi,
                    ),
                cut ==> if active {
                    !below(best, hi)
                } else {
                    !above(best, lo)
                },
                unl == old(cond).steps_free(),
                unl ==> cond.steps_free(),
                forall|e: u32|
                    old(cond).depth_answer(e) is Some ==> #[trigger] cond.depth_answer(e)
                        == old(cond).depth_answer(e),
                spent_from(old(cond).grants(), cond.grants()),
            decreases n - i + if cut { 0int } else { 1int },
        {
            if active {
                if let Some(h) = hi {
                    if best >= h {
                        cut = true;
                    }
                }
            } else {
                if let Some(l) = lo {
                    if best <= l {
                        cut = true;
                    }
                }
            }
            if !cut {
                let (clo, chi) = if active {
                    (
                        match lo {
                            Some(l) if l >= best => lo,
                            _ => Some(best),
                        },
                        hi,
                    )
                } else {
                    (
                        lo,
                        match hi {
                            Some(h) if h <= best => hi,
                            _ => Some(best),
                        },
                    )
                };
                proof {
                    assert(acts.contains(acts[i as int]));
                }
                let (v, e) = match self.child(state, &actions[i], depth, clo, chi, cond) {
                    Some(x) => x,
                    None => {
                        return None;
                    },
                };
                proof {
                    lemma_best_of_push(*state, p, active, acts, i as int, d);
                }
                let ghost prev = best;
                let ghost was_exhausted = exhausted;
                exhausted = exhausted && e;
                if active {
                    if v > best {
                        best = v;
                    }
                } else if v < best {
                    best = v;
                }
                proof {
                    if exhausted {
                        assert forall|d2: nat| d2 >= d implies fail_soft(
                            best,
                            #[trigger] best_of(*state, p, active, acts.take(i + 1), d2),
                            lo,
                            hi,
                        ) by {
                            lemma_best_of_push(*state, p, active, acts, i as int, d2);
                            assert(fail_soft(prev, best_of(*state, p, active, acts.take(i as int), d2), lo, hi));
                            assert(fail_soft(v, action_value(*state, p, acts[i as int], d2), clo, chi));
                        }
                    }
                }
                i = i + 1;
            }
        }
        proof {
            lemma_best_of_prefix(*state, p, active, acts, i as int, d);
            if i == n {
                assert(acts.take(n as int) =~= acts);
            }
            if exhausted {
                assert forall|d2: nat| d2 >= d implies fail_soft(
                    best,
                    #[trigger] node_value(*state, p, d2),
                    lo,
                    hi,
                ) by {
                    lemma_best_of_prefix(*state, p, active, acts, i as int, d2);
                    assert(fail_soft(best, best_of(*state, p, active, acts.take(i as int), d2), lo, hi));
                }
            }
        }
        Some((best, exhausted))
    }

    /// Searches the root, where this bot's player acts, with an unbounded
    /// window, looking at the action at `first` before the others. Returns
    /// the index of the first action, in that order, with the best value,
    /// that value, and whether no line was cut off by the depth budget.
    fn search_root<R: RunCondition>(
        &self,
        state: &T,
        actions: &Vec<T::Action>,
        first: usize,
        depth: u32,
        cond: &mut R,
    ) -> (r: Option<(usize, i64, bool)>)
        requires
            state.acting(self.player),
            actions@ == state.legal(self.player),
            first < actions@.len(),
        ensures
            r matches Some((i, v, _)) ==> i < actions@.len() && v == node_value(
                *state,
                self.player,
                depth as nat,
            ) && action_value(*state, self.player, actions@[i as int], depth as nat) == v,
            r matches Some((i, v, _)) ==> i != first ==> forall|j: int|
                0 <= j < actions@.len() && (j == first || j < i) ==> action_value(
                    *state,
                    self.player,
                    #[trigger] actions@[j],
                    depth as nat,
                ) < v,
            r matches Some((i, v, true)) ==> forall|d: nat|
                d >= depth ==> #[trigger] node_value(*state, self.player, d) == v && action_value(
                    *state,
                    self.player,
                    actions@[i as int],
                    d,
                ) == v,
            old(cond).steps_free() ==> r is Some && final(cond).steps_free(),
            forall|e: u32|
                old(cond).depth_answer(e) is Some ==> #[trigger] final(cond).depth_answer(e)
                    == old(cond).depth_answer(e),
            spent_from(old(cond).grants(), final(cond).grants()),
            r is None ==> used_up(old(cond).grants(), final(cond).grants()),
    {
        if !cond.step() {
            return None;
        }
        let ghost p = self.player;
        let ghost acts = actions@;
        let ghost d = depth as nat;
        let ghost unl = old(cond).steps_free();
        let n = actions.len();
        proof {
            assert(acts.contains(acts[first as int]));
        }
        let (mut best, mut exhausted) = match self.child(
            state,
            &actions[first],
            depth,
            None,
            None,
            cond,
        ) {
            Some(x) => x,
            None => {
                return None;
            },
        };
        let mut best_i = first;
        let mut i: usize = 0;
        proof {
            if exhausted {
                assert forall|d2: nat| d2 >= d implies #[trigger] action_value(
                    *state,
                    p,
                    acts[first as int],
                    d2,
                ) == best by {
                    assert(fail_soft(best, action_value(*state, p, acts[first as int], d2), None, None));
                }
            }
        }
        while i < n
            invariant
                p == self.player,
                acts == actions@,
                acts == state.legal(p),
                n == acts.len(),
                d == depth as nat,
                first < n,
                i <= n,
                best_i < n,
                best == action_value(*state, p, acts[best_i as int], d),
                forall|j: int|
                    0 <= j < n && (j < i || j == first) ==> action_value(
                        *state,
                        p,
                        #[trigger] acts[j],
                        d,
                    ) <= best,
                unl == old(cond).steps_free(),
                unl ==> cond.steps_free(),
                forall|e: u32|
                    old(cond).depth_answer(e) is Some ==> #[trigger] cond.depth_answer(e)
                        == old(cond).depth_answer(e),
                spent_from(old(cond).grants(), cond.grants()),
                best_i != first ==> forall|j: int|
                    0 <= j < n && (j == first || j < best_i) ==> action_value(
                        *state,
                        p,
                        #[trigger] acts[j],
                        d,
                    ) < best,
                exhausted ==> forall|d2: nat|
                    d2 >= d ==> #[trigger] action_value(*state, p, acts[best_i as int], d2) == best,
                exhausted ==> forall|d2: nat, j: int|
                    d2 >= d && 0 <= j < n && (j < i || j == first) ==> #[trigger] action_value(
                        *state,
                        p,
                        acts[j],
                        d2,
                    ) <= best,
            decreases n - i,
        {
            if i != first {
                proof {
                    assert(acts.contains(acts[i as int]));
                }
                let (v, e) = match self.child(state, &actions[i], depth, Some(best), None, cond) {
                    Some(x) => x,
                    None => {
                        return None;
                    },
                };
                let ghost prev = best;
                let ghost prev_i = best_i;
                exhausted = exhausted && e;
                if v > best {
                    best = v;
                    best_i = i;
                }
                proof {
                    if exhausted {
                        assert forall|d2: nat| d2 >= d implies #[trigger] action_value(
                            *state,
                            p,
                            acts[best_i as int],
                            d2,
                        ) == best by {
                            assert(fail_soft(v, action_value(*state, p, acts[i as int], d2), Some(prev), None));
                        }
                        assert forall|d2: nat, j: int|
                            d2 >= d && 0 <= j < n && (j < i + 1 || j == first) implies #[trigger] action_value(
                            *state,
                            p,
                            acts[j],
                            d2,
                        ) <= best by {
                            assert(fail_soft(v, action_value(*state, p, acts[i as int], d2), Some(prev), None));
                            if j != i {
                                assert(action_value(*state, p, acts[j], d2) <= prev);
                            }
                        }
                    }
                }
            }
            i = i + 1;
        }
        proof {
            lemma_best_of_attained(*state, p, true, acts, d);
            if exhausted {
                assert forall|d2: nat| d2 >= d implies #[trigger] node_value(*state, p, d2) == best
                    && action_value(*state, p, acts[best_i as int], d2) == best by {
                    lemma_best_of_attained(*state, p, true, acts, d2);
                    let k = choose|k: int|
                        0 <= k < acts.len() && action_value(*state, p, #[trigger] acts[k], d2)
                            == best_of(*state, p, true, acts, d2);
                    assert(action_value(*state, p, acts[k], d2) <= best);
                    assert(action_value(*state, p, acts[best_i as int], d2) == best);
                }
            }
        }
        Some((best_i, best, exhausted))
    }
}

} // verus!
