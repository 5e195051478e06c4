//! The mathematical value of a game tree searched to a bounded depth.
use vstd::prelude::*;

use crate::Game;

verus! {

/// The minimax value of executing `a` in `s`, looking `d` further plies
/// ahead: at depth 0 the fitness reported for the action; deeper, the best
/// value among the next state's actions for the side that acts there, or the
/// action's own fitness where the next state has no actions.
pub open spec fn action_value<G: Game>(s: G, p: G::Player, a: G::Action, d: nat) -> i64
    decreases d, 0nat,
{
    let f = s.fitness(a, p);
    if d == 0 {
        f
    } else {
        let t = s.next(a, p);
        let acts = t.legal(p);
        if acts.len() == 0 {
            f
        } else {
            best_of(t, p, t.acting(p), acts, (d - 1) as nat)
        }
    }
}

/// The largest (`maximize`) or smallest action value among `acts`.
pub open spec fn best_of<G: Game>(
    s: G,
    p: G::Player,
    maximize: bool,
    acts: Seq<G::Action>,
    d: nat,
) -> i64
    decreases d, acts.len(),
{
    if acts.len() == 0 {
        0
    } else if acts.len() == 1 {
        action_value(s, p, acts[0], d)
    } else {
        let rest = best_of(s, p, maximize, acts.drop_last(), d);
        let v = action_value(s, p, acts.last(), d);
        if maximize {
            if v > rest { v } else { rest }
        } else {
            if v < rest { v } else { rest }
        }
    }
}

/// The value of a state that has actions, searched `d` plies below its
/// own actions.
pub open spec fn node_value<G: Game>(s: G, p: G::Player, d: nat) -> i64 {
    best_of(s, p, s.acting(p), s.legal(p), d)
}

/// `a` is a legal action of `s` whose minimax value `d` plies below it is
/// the value of `s` at that depth.
pub open spec fn optimal_at<G: Game>(s: G, p: G::Player, a: G::Action, d: nat) -> bool {
    &&& s.legal(p).contains(a)
    &&& action_value(s, p, a, d) == node_value(s, p, d)
}

/// `a` is optimal in the sense of `optimal_at` at every depth from `d` on.
pub open spec fn optimal_from<G: Game>(s: G, p: G::Player, a: G::Action, d: nat) -> bool {
    forall|e: nat| e >= d ==> #[trigger] optimal_at(s, p, a, e)
}

/// Two choices that each stay optimal from some depth on have the same
/// value at every depth past both: two searches run to completion on the
/// same state report the same fitness.
pub proof fn lemma_settled_choices_agree<G: Game>(
    s: G,
    p: G::Player,
    a: G::Action,
    b: G::Action,
    da: nat,
    db: nat,
)
    requires
        optimal_from(s, p, a, da),
        optimal_from(s, p, b, db),
    ensures
        forall|e: nat|
            e >= da && e >= db ==> #[trigger] action_value(s, p, a, e) == action_value(s, p, b, e),
{
    assert forall|e: nat| e >= da && e >= db implies #[trigger] action_value(s, p, a, e)
        == action_value(s, p, b, e) by {
        assert(optimal_at(s, p, a, e));
        assert(optimal_at(s, p, b, e));
    }
}

/// `a` stands at the first position of `s`'s legal actions whose minimax
/// value `d` plies below it is the value of `s` at that depth.
pub open spec fn first_best<G: Game>(s: G, p: G::Player, a: G::Action, d: nat) -> bool {
    let acts = s.legal(p);
    let v = node_value(s, p, d);
    exists|i: int|
        0 <= i < acts.len() && acts[i] == a && action_value(s, p, a, d) == v && forall|j: int|
            0 <= j < i ==> action_value(s, p, #[trigger] acts[j], d) < v
}

/// A search over the unbounded window reports the exact minimax value of
/// the node, and that is the value of the action the brute-force search
/// picks at the same depth.
pub proof fn lemma_oracle_equivalence<G: Game>(s: G, p: G::Player, d: nat, r: i64, a: G::Action)
    requires
        fail_soft(r, node_value(s, p, d), None, None),
        first_best(s, p, a, d),
    ensures
        r == node_value(s, p, d),
        r == action_value(s, p, a, d),
{
}

/// The brute-force choice is determined by the state: two actions that are
/// both the first best one are the same action.
pub proof fn lemma_first_best_unique<G: Game>(
    s: G,
    p: G::Player,
    d: nat,
    a: G::Action,
    b: G::Action,
)
    requires
        first_best(s, p, a, d),
        first_best(s, p, b, d),
    ensures
        a == b,
{
    let acts = s.legal(p);
    let v = node_value(s, p, d);
    let i = choose|i: int|
        0 <= i < acts.len() && acts[i] == a && action_value(s, p, a, d) == v && forall|j: int|
            0 <= j < i ==> action_value(s, p, #[trigger] acts[j], d) < v;
    let k = choose|k: int|
        0 <= k < acts.len() && acts[k] == b && action_value(s, p, b, d) == v && forall|j: int|
            0 <= j < k ==> action_value(s, p, #[trigger] acts[j], d) < v;
    if i < k {
        assert(action_value(s, p, acts[i], d) < v);
    } else if k < i {
        assert(action_value(s, p, acts[k], d) < v);
    }
}

/// `best_of` over a non-empty sequence is reached by one of its actions and
/// bounds all of them on the side that is optimised.
pub proof fn lemma_best_of_attained<G: Game>(
    s: G,
    p: G::Player,
    maximize: bool,
    acts: Seq<G::Action>,
    d: nat,
)
    requires
        acts.len() > 0,
    ensures
        exists|i: int|
            0 <= i < acts.len() && action_value(s, p, #[trigger] acts[i], d) == best_of(
                s,
                p,
                maximize,
                acts,
                d,
            ),
        forall|i: int|
            0 <= i < acts.len() ==> if maximize {
                action_value(s, p, #[trigger] acts[i], d) <= best_of(s, p, maximize, acts, d)
            } else {
                action_value(s, p, acts[i], d) >= best_of(s, p, maximize, acts, d)
            },
    decreases acts.len(),
{
    let b = best_of(s, p, maximize, acts, d);
    if acts.len() == 1 {
        assert(action_value(s, p, acts[0], d) == b);
    } else {
        let init = acts.drop_last();
        let last = acts.len() - 1;
        lemma_best_of_attained(s, p, maximize, init, d);
        assert(acts.last() == acts[last]);
        assert forall|i: int| 0 <= i < last implies init[i] == acts[i] by {}
        let w = choose|i: int|
            0 <= i < init.len() && action_value(s, p, #[trigger] init[i], d) == best_of(
                s,
                p,
                maximize,
                init,
                d,
            );
        assert(init[w] == acts[w]);
        if action_value(s, p, acts[last], d) == b {
        } else {
            assert(action_value(s, p, acts[w], d) == b);
        }
        assert forall|i: int| 0 <= i < acts.len() implies if maximize {
            action_value(s, p, #[trigger] acts[i], d) <= b
        } else {
            action_value(s, p, acts[i], d) >= b
        } by {
            if i < last {
                assert(init[i] == acts[i]);
            }
        }
    }
}

/// Extending a prefix by one action folds that action's value in.
pub proof fn lemma_best_of_push<G: Game>(
    s: G,
    p: G::Player,
    maximize: bool,
    acts: Seq<G::Action>,
    i: int,
    d: nat,
)
    requires
        0 < i < acts.len(),
    ensures
        ({
            let prev = best_of(s, p, maximize, acts.take(i), d);
            let v = action_value(s, p, acts[i], d);
            best_of(s, p, maximize, acts.take(i + 1), d) == if maximize {
                if v > prev { v } else { prev }
            } else {
                if v < prev { v } else { prev }
            }
        }),
{
    assert(acts.take(i + 1).drop_last() =~= acts.take(i));
    assert(acts.take(i + 1).last() == acts[i]);
}

/// A prefix never beats the whole sequence on the side that is optimised.
pub proof fn lemma_best_of_prefix<G: Game>(
    s: G,
    p: G::Player,
    maximize: bool,
    acts: Seq<G::Action>,
    i: int,
    d: nat,
)
    requires
        0 < i <= acts.len(),
    ensures
        maximize ==> best_of(s, p, maximize, acts.take(i), d) <= best_of(s, p, maximize, acts, d),
        !maximize ==> best_of(s, p, maximize, acts.take(i), d) >= best_of(
            s,
            p,
            maximize,
            acts,
            d,
        ),
    decreases acts.len() - i,
{
    if i == acts.len() {
        assert(acts.take(i) =~= acts);
    } else {
        lemma_best_of_prefix(s, p, maximize, acts, i + 1, d);
        lemma_best_of_push(s, p, maximize, acts, i, d);
    }
}

/// Where the fitness reported for an action never exceeds its value one
/// ply deeper, in any state, looking further ahead never lowers an action's
/// value.
pub proof fn lemma_deeper_never_lower<G: Game>(s: G, p: G::Player, a: G::Action, d: nat)
    requires
        forall|t: G, b: G::Action| #[trigger] action_value(t, p, b, 0) <= action_value(t, p, b, 1),
    ensures
        action_value(s, p, a, d) <= action_value(s, p, a, d + 1),
    decreases d, 0nat,
{
    if d > 0 {
        let t = s.next(a, p);
        let acts = t.legal(p);
        if acts.len() > 0 {
            lemma_best_of_deeper(t, p, t.acting(p), acts, (d - 1) as nat);
        }
    }
}

/// The same for the best value among actions, and so for a state's value:
/// looking further ahead never lowers it.
pub proof fn lemma_best_of_deeper<G: Game>(
    s: G,
    p: G::Player,
    maximize: bool,
    acts: Seq<G::Action>,
    d: nat,
)
    requires
        forall|t: G, b: G::Action| #[trigger] action_value(t, p, b, 0) <= action_value(t, p, b, 1),
        acts.len() > 0,
    ensures
        best_of(s, p, maximize, acts, d) <= best_of(s, p, maximize, acts, d + 1),
    decreases d, acts.len(),
{
    lemma_deeper_never_lower(s, p, acts.last(), d);
    if acts.len() == 1 {
        lemma_deeper_never_lower(s, p, acts[0], d);
    } else {
        lemma_best_of_deeper(s, p, maximize, acts.drop_last(), d);
    }
}

/// Every line below `a` reaches a state without actions within `d` plies,
/// so a search to depth `d` sees the whole tree below it.
pub open spec fn settles<G: Game>(s: G, p: G::Player, a: G::Action, d: nat) -> bool
    decreases d, 0nat,
{
    if d == 0 {
        false
    } else {
        let t = s.next(a, p);
        let acts = t.legal(p);
        acts.len() == 0 || all_settle(t, p, acts, (d - 1) as nat)
    }
}

/// Every action of `acts` settles within `d` plies.
pub open spec fn all_settle<G: Game>(s: G, p: G::Player, acts: Seq<G::Action>, d: nat) -> bool
    decreases d, acts.len(),
{
    if acts.len() == 0 {
        true
    } else {
        all_settle(s, p, acts.drop_last(), d) && settles(s, p, acts.last(), d)
    }
}

/// Once the tree below `a` is seen whole, searching deeper leaves its value
/// unchanged.
pub proof fn lemma_settled_value<G: Game>(s: G, p: G::Player, a: G::Action, d: nat, e: nat)
    requires
        settles(s, p, a, d),
        e >= d,
    ensures
        action_value(s, p, a, e) == action_value(s, p, a, d),
    decreases d, 0nat,
{
    let t = s.next(a, p);
    let acts = t.legal(p);
    if acts.len() > 0 {
        lemma_settled_best_of(t, p, t.acting(p), acts, (d - 1) as nat, (e - 1) as nat);
    }
}

/// The same for the best value among actions that all settle.
pub proof fn lemma_settled_best_of<G: Game>(
    s: G,
    p: G::Player,
    maximize: bool,
    acts: Seq<G::Action>,
    d: nat,
    e: nat,
)
    requires
        all_settle(s, p, acts, d),
        e >= d,
    ensures
        best_of(s, p, maximize, acts, e) == best_of(s, p, maximize, acts, d),
        forall|i: int|
            0 <= i < acts.len() ==> #[trigger] action_value(s, p, acts[i], e) == action_value(
                s,
                p,
                acts[i],
                d,
            ),
    decreases d, acts.len(),
{
    if acts.len() > 0 {
        let init = acts.drop_last();
        lemma_settled_value(s, p, acts.last(), d, e);
        lemma_settled_best_of(s, p, maximize, init, d, e);
        assert forall|i: int| 0 <= i < acts.len() implies #[trigger] action_value(
            s,
            p,
            acts[i],
            e,
        ) == action_value(s, p, acts[i], d) by {
            if i < acts.len() - 1 {
                assert(init[i] == acts[i]);
            } else {
                assert(acts.last() == acts[i]);
            }
        }
        if acts.len() == 1 {
            assert(acts[0] == acts.last());
        }
    }
}

/// Once every line from `s` ends within `d` plies, a deeper brute-force
/// search picks the same first best action as the search to depth `d`.
pub proof fn lemma_settled_choice<G: Game>(s: G, p: G::Player, a: G::Action, d: nat, e: nat)
    requires
        all_settle(s, p, s.legal(p), d),
        first_best(s, p, a, d),
        e >= d,
    ensures
        first_best(s, p, a, e),
{
    let acts = s.legal(p);
    let v = node_value(s, p, d);
    lemma_settled_best_of(s, p, s.acting(p), acts, d, e);
    let i = choose|i: int|
        0 <= i < acts.len() && acts[i] == a && action_value(s, p, a, d) == v && forall|j: int|
            0 <= j < i ==> action_value(s, p, #[trigger] acts[j], d) < v;
    assert(action_value(s, p, acts[i], e) == action_value(s, p, acts[i], d));
    assert forall|j: int| 0 <= j < i implies action_value(s, p, #[trigger] acts[j], e) < node_value(
        s,
        p,
        e,
    ) by {
        assert(action_value(s, p, acts[j], e) == action_value(s, p, acts[j], d));
    }
}

/// `r` is what a fail-soft search with window `(lo, hi)` may report for a
/// node whose value is `v`: exact strictly inside the window, an upper bound
/// at or below `lo`, a lower bound at or above `hi`. Absent bounds are
/// unbounded.
pub open spec fn fail_soft(r: i64, v: i64, lo: Option<i64>, hi: Option<i64>) -> bool {
    &&& (match lo {
        Some(l) => r <= l ==> v <= r,
        None => true,
    })
    &&& (match hi {
        Some(h) => r >= h ==> v >= r,
        None => true,
    })
    &&& (above(r, lo) && below(r, hi) ==> r == v)
}

/// `r` lies strictly above the lower bound, if there is one.
pub open spec fn above(r: i64, lo: Option<i64>) -> bool {
    match lo {
        Some(l) => r > l,
        None => true,
    }
}

/// `r` lies strictly below the upper bound, if there is one.
pub open spec fn below(r: i64, hi: Option<i64>) -> bool {
    match hi {
        Some(h) => r < h,
        None => true,
    }
}

/// A window whose bounds, where both are present, leave room between them.
pub open spec fn window_ok(lo: Option<i64>, hi: Option<i64>) -> bool {
    match (lo, hi) {
        (Some(l), Some(h)) => l < h,
        _ => true,
    }
}

} // verus!
