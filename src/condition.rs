//! Conditions that tell a bot whether it may keep on searching.
use std::time::{Duration, Instant};

use vstd::prelude::*;

verus! {

/// A condition which indicates if the bot should keep on running.
///
/// `step` is polled once per expanded node, `depth` once before each new
/// search depth. A condition may promise some of its answers: that every
/// `step` poll is granted (`steps_free`), or what it answers to the poll of
/// a given depth (`depth_answer`). Promises are kept across polls.
pub trait RunCondition: Sized {
    /// This condition answers `true` to every `step` poll from now on.
    closed spec fn steps_free(&self) -> bool {
        false
    }

    /// What this condition answers when polled with `depth`, where it
    /// promises an answer; `None` where it does not.
    closed spec fn depth_answer(&self, depth: u32) -> Option<bool> {
        None
    }

    /// How many more `step` polls this condition answers with `true`, where
    /// it keeps count; `None` where it does not.
    closed spec fn grants(&self) -> Option<nat> {
        None
    }

    fn step(&mut self) -> (r: bool)
        ensures
            old(self).steps_free() ==> r && final(self).steps_free(),
            forall|e: u32|
                old(self).depth_answer(e) is Some ==> #[trigger] final(self).depth_answer(e)
                    == old(self).depth_answer(e),
            match old(self).grants() {
                Some(k) => r == (k > 0) && final(self).grants() == Some(
                    if k > 0 {
                        (k - 1) as nat
                    } else {
                        0nat
                    },
                ),
                None => true,
            },
    ;

    fn depth(&mut self, depth: u32) -> (r: bool)
        ensures
            old(self).steps_free() ==> final(self).steps_free(),
            forall|e: u32|
                old(self).depth_answer(e) is Some ==> #[trigger] final(self).depth_answer(e)
                    == old(self).depth_answer(e),
            match old(self).depth_answer(depth) {
                Some(b) => r == b,
                None => true,
            },
            old(self).grants() is Some ==> final(self).grants() == old(self).grants(),
    ;
}

/// `after` is reached from `before` by polls: where `before` keeps count of
/// its grants, `after` keeps count too and has no more of them.
pub open spec fn spent_from(before: Option<nat>, after: Option<nat>) -> bool {
    match before {
        Some(k) => match after {
            Some(k2) => k2 <= k,
            None => false,
        },
        None => true,
    }
}

/// Where `before` keeps count of its grants, none are left in `after`.
pub open spec fn used_up(before: Option<nat>, after: Option<nat>) -> bool {
    before is Some ==> after == Some(0nat)
}

/// The answers that `m` `step` polls get from a condition keeping count
/// that starts with `k` grants, one poll after the other as `step`'s
/// contract gives them.
pub open spec fn step_answers(k: nat, m: nat) -> Seq<bool>
    decreases m,
{
    if m == 0 {
        Seq::empty()
    } else {
        seq![k > 0] + step_answers(
            if k > 0 {
                (k - 1) as nat
            } else {
                0nat
            },
            (m - 1) as nat,
        )
    }
}

/// A condition keeping count with `k` grants answers `true` to exactly its
/// first `k` polls and `false` to every later one; so a search that polls
/// once before each node expansion and stops at the first refusal expands
/// at most `k` nodes.
pub proof fn lemma_step_answers(k: nat, m: nat)
    ensures
        step_answers(k, m).len() == m,
        forall|j: int| 0 <= j < m ==> #[trigger] step_answers(k, m)[j] == (j < k),
    decreases m,
{
    if m > 0 {
        let k2 = if k > 0 {
            (k - 1) as nat
        } else {
            0nat
        };
        lemma_step_answers(k2, (m - 1) as nat);
        let rest = step_answers(k2, (m - 1) as nat);
        assert forall|j: int| 0 <= j < m implies #[trigger] step_answers(k, m)[j] == (j < k) by {
            if j > 0 {
                assert(step_answers(k, m)[j] == rest[j - 1]);
            }
        }
    }
}

/// The conditions made from `c` admit each of the depths 1 to `k`.
pub open spec fn admits_through<U: IntoRunCondition>(c: U, k: u32) -> bool {
    forall|e: u32| 1 <= e <= k ==> #[trigger] c.into_depth_answer(e) == Some(true)
}

/// The conditions made from `c` admit every depth.
pub open spec fn admits_all<U: IntoRunCondition>(c: U) -> bool {
    forall|e: u32| #[trigger] c.into_depth_answer(e) == Some(true)
}

/// Converts a type into a [`RunCondition`].
pub trait IntoRunCondition: Sized {
    type RunCondition: RunCondition;

    /// Whether the condition made from this value grants every step.
    spec fn into_steps_free(&self) -> bool;

    /// The answer the condition made from this value promises to the poll
    /// of `depth`, if any.
    spec fn into_depth_answer(&self, depth: u32) -> Option<bool>;

    /// consumes `self` and returns a [`RunCondition`].
    fn into_run_condition(self) -> (r: Self::RunCondition)
        ensures
            self.into_steps_free() ==> r.steps_free(),
            forall|e: u32|
                self.into_depth_answer(e) is Some ==> #[trigger] r.depth_answer(e)
                    == self.into_depth_answer(e),
    ;
}

impl<T: RunCondition> IntoRunCondition for T {
    type RunCondition = T;

    open spec fn into_steps_free(&self) -> bool {
        self.steps_free()
    }

    open spec fn into_depth_answer(&self, depth: u32) -> Option<bool> {
        self.depth_answer(depth)
    }

    fn into_run_condition(self) -> (r: T)
        ensures
            r == self,
    {
        self
    }
}

/// Can be converted into a [`RunCondition`] which returns `true` for the
/// first `self.0` steps.
#[derive(Clone, Copy, Debug)]
pub struct Steps(pub u32);

/// The [`RunCondition`] created by `Steps::into_run_condition`: the steps
/// taken so far and the bound.
pub struct InnerSteps(u32, u32);

impl InnerSteps {
    /// The number of steps polled so far.
    pub closed spec fn taken(&self) -> u32 {
        self.0
    }

    /// The bound this condition was made with.
    pub closed spec fn bound(&self) -> u32 {
        self.1
    }
}

impl IntoRunCondition for Steps {
    type RunCondition = InnerSteps;

    open spec fn into_steps_free(&self) -> bool {
        false
    }

    open spec fn into_depth_answer(&self, depth: u32) -> Option<bool> {
        Some(true)
    }

    fn into_run_condition(self) -> (r: InnerSteps)
        ensures
            r.taken() == 0,
            r.bound() == self.0,
            r.grants() == Some(self.0 as nat),
    {
        InnerSteps(0, self.0)
    }
}

impl RunCondition for InnerSteps {
    open spec fn depth_answer(&self, depth: u32) -> Option<bool> {
        Some(true)
    }

    closed spec fn grants(&self) -> Option<nat> {
        Some(
            if self.0 < self.1 {
                (self.1 - self.0) as nat
            } else {
                0nat
            },
        )
    }

    fn step(&mut self) -> (r: bool)
        ensures
            final(self).bound() == old(self).bound(),
            final(self).taken() == if old(self).taken() < u32::MAX {
                old(self).taken() + 1
            } else {
                old(self).taken() as int
            },
            r == (old(self).taken() < old(self).bound()),
    {
        let r = self.0 < self.1;
        if self.0 < u32::MAX {
            self.0 = self.0 + 1;
        }
        r
    }

    fn depth(&mut self, depth: u32) -> (r: bool)
        ensures
            r,
            *final(self) == *old(self),
    {
        true
    }
}

/// A [`RunCondition`] which always returns `true`.
///
/// The bot then runs until the best action was found with certainty.
#[derive(Clone, Copy, Debug)]
pub struct ToCompletion;

impl RunCondition for ToCompletion {
    open spec fn steps_free(&self) -> bool {
        true
    }

    open spec fn depth_answer(&self, depth: u32) -> Option<bool> {
        Some(true)
    }

    fn step(&mut self) -> (r: bool)
        ensures
            r,
            *final(self) == *old(self),
    {
        true
    }

    fn depth(&mut self, depth: u32) -> (r: bool)
        ensures
            r,
            *final(self) == *old(self),
    {
        true
    }
}

/// A [`RunCondition`] returning `false` once the current depth is bigger than `self.0`.
#[derive(Clone, Copy, Debug)]
pub struct Depth(pub u32);

impl RunCondition for Depth {
    open spec fn steps_free(&self) -> bool {
        true
    }

    open spec fn depth_answer(&self, depth: u32) -> Option<bool> {
        Some(depth <= self.0)
    }

    fn step(&mut self) -> (r: bool)
        ensures
            r,
            *final(self) == *old(self),
    {
        true
    }

    fn depth(&mut self, depth: u32) -> (r: bool)
        ensures
            r == (depth <= old(self).0),
            *final(self) == *old(self),
    {
        depth <= self.0
    }
}

/// The monotonic clock's moments, carried through as they are.
#[verifier::external_type_specification]
#[verifier::external_body]
pub struct ExInstant(Instant);

/// Relies on `Instant::now`: the current moment. Nothing is known of it.
#[verifier::external_body]
fn now() -> (r: Instant) {
    Instant::now()
}

/// Relies on `Instant::elapsed`: the time passed since `start` (zero where
/// the clock reads earlier). Nothing is known of it.
#[verifier::external_body]
fn elapsed(start: &Instant) -> (r: Duration) {
    start.elapsed()
}

/// The whole nanoseconds in a duration.
pub uninterp spec fn nanos_of(d: Duration) -> u128;

/// Relies on `Duration::as_nanos`: the whole nanoseconds in `d`, which
/// depend on `d` alone and always fit in a `u128`.
#[verifier::external_body]
fn as_nanos(d: &Duration) -> (r: u128)
    ensures
        r == nanos_of(*d),
{
    d.as_nanos()
}

/// Whether `elapsed` nanoseconds still fall short of a `budget`.
pub fn before_deadline(elapsed: u128, budget: u128) -> (r: bool)
    ensures
        r == (elapsed < budget),
{
    elapsed < budget
}

/// A [`RunCondition`] which returns `true` until a time budget, counted in
/// nanoseconds from the moment it was set, has passed.
pub struct Deadline {
    start: Instant,
    budget: u128,
}

impl Deadline {
    /// The nanoseconds the search may run.
    pub closed spec fn budget(&self) -> u128 {
        self.budget
    }

    /// The moment the deadline was set.
    pub closed spec fn start(&self) -> Instant {
        self.start
    }

    /// A deadline `budget` nanoseconds after `start`.
    pub fn new(start: Instant, budget: u128) -> (r: Deadline)
        ensures
            r.start() == start,
            r.budget() == budget,
    {
        Deadline { start, budget }
    }

    /// Polls the clock: whether the budget has not yet been used up.
    fn poll(&self) -> (r: bool)
        ensures
            self.budget() == 0 ==> !r,
            r ==> self.budget() > 0,
    {
        let e = as_nanos(&elapsed(&self.start));
        before_deadline(e, self.budget)
    }
}

impl RunCondition for Deadline {
    fn step(&mut self) -> (r: bool)
        ensures
            *final(self) == *old(self),
            old(self).budget() == 0 ==> !r,
    {
        self.poll()
    }

    fn depth(&mut self, depth: u32) -> (r: bool)
        ensures
            *final(self) == *old(self),
            old(self).budget() == 0 ==> !r,
    {
        self.poll()
    }
}

/// Creates a [`RunCondition`] which returns `true` until this `Duration`
/// has passed, counted from now.
impl IntoRunCondition for Duration {
    type RunCondition = Deadline;

    closed spec fn into_steps_free(&self) -> bool {
        false
    }

    closed spec fn into_depth_answer(&self, depth: u32) -> Option<bool> {
        None
    }

    fn into_run_condition(self) -> (r: Deadline)
        ensures
            r.budget() == nanos_of(self),
    {
        let budget = as_nanos(&self);
        Deadline::new(now(), budget)
    }
}

} // verus!
