use std::cell::Cell;
use std::rc::Rc;
use std::time::Duration;

use rubot::alpha_beta;
use rubot::brute;
use rubot::condition::before_deadline;
use rubot::{Deadline, Depth, Game, IntoRunCondition, RunCondition, Steps, ToCompletion};

/// A pile of flags; two players alternately take one to three, and whoever
/// takes the last flag wins. Fitness is 1 for a win of the given player.
#[derive(Clone)]
struct Flags {
    flags: u32,
    active: bool,
}

impl Flags {
    fn remove(&mut self, n: u32) {
        self.flags -= n;
        self.active = !self.active;
    }
}

impl Game for Flags {
    type Player = bool;
    type Action = u32;

    fn duplicate(&self) -> Self {
        self.clone()
    }

    fn actions(&self, player: &bool) -> (bool, Vec<u32>) {
        (*player == self.active, (1..=std::cmp::min(self.flags, 3)).collect())
    }

    fn execute(&mut self, action: &u32, player: &bool) -> i64 {
        self.remove(*action);
        if self.flags == 0 && *player == !self.active {
            1
        } else {
            0
        }
    }
}

struct Node {
    children: Vec<usize>,
    fitness: i64,
    max: bool,
}

/// A game given as an explicit tree: the state is a node, an action the
/// index of a child node.
#[derive(Clone)]
struct Tree {
    nodes: Rc<Vec<Node>>,
    at: usize,
    expanded: Rc<Cell<u32>>,
}

impl Game for Tree {
    type Player = ();
    type Action = usize;

    fn duplicate(&self) -> Self {
        self.clone()
    }

    fn actions(&self, _: &()) -> (bool, Vec<usize>) {
        let node = &self.nodes[self.at];
        if self.at != 0 && !node.children.is_empty() {
            // below the root, a node with actions is queried only to be expanded
            self.expanded.set(self.expanded.get() + 1);
        }
        (node.max, node.children.clone())
    }

    fn execute(&mut self, action: &usize, _: &()) -> i64 {
        self.at = *action;
        self.nodes[self.at].fitness
    }
}

fn lcg(seed: &mut u64) -> u64 {
    *seed = seed.wrapping_mul(6364136223846793005).wrapping_add(1442695040888963407);
    *seed >> 33
}

/// A random tree: each node below `depth` levels has one to three children.
fn random_tree(seed: u64, levels: u32) -> Tree {
    let mut seed = seed;
    let mut nodes = vec![Node { children: vec![], fitness: 0, max: true }];
    let mut frontier = vec![(0usize, 0u32)];
    while let Some((at, level)) = frontier.pop() {
        if level == levels {
            continue;
        }
        let k = if level == 0 { 1 + lcg(&mut seed) % 3 } else { lcg(&mut seed) % 4 };
        for _ in 0..k {
            let id = nodes.len();
            nodes.push(Node {
                children: vec![],
                fitness: (lcg(&mut seed) % 21) as i64 - 10,
                max: lcg(&mut seed) % 2 == 0,
            });
            nodes[at].children.push(id);
            frontier.push((id, level + 1));
        }
    }
    Tree { nodes: Rc::new(nodes), at: 0, expanded: Rc::new(Cell::new(0)) }
}

/// Plain minimax of one action, for comparison.
fn minimax<G: Game>(state: &G, player: &G::Player, action: &G::Action, depth: u32) -> i64 {
    if depth == 0 {
        return state.look_ahead(action, player);
    }
    let mut next = state.duplicate();
    let fitness = next.execute(action, player);
    let (active, actions) = next.actions(player);
    let values = actions.iter().map(|a| minimax(&next, player, a, depth - 1));
    if active { values.max() } else { values.min() }.unwrap_or(fitness)
}

fn node_minimax<G: Game>(state: &G, player: &G::Player, depth: u32) -> i64 {
    let (active, actions) = state.actions(player);
    let values = actions.iter().map(|a| minimax(state, player, a, depth));
    if active { values.max() } else { values.min() }.unwrap()
}

#[test]
fn first_mover_takes_one_of_twenty_one_flags() {
    let game = Flags { flags: 21, active: true };
    let mut bot = alpha_beta::Bot::new(true);
    assert_eq!(bot.select(&game, ToCompletion), Some(1));
}

#[test]
fn first_mover_is_guaranteed_winner_of_twenty_one_flags() {
    let game = Flags { flags: 21, active: true };
    let bot = alpha_beta::Bot::<Flags>::new(true);
    let (active, actions) = game.actions(&true);
    let mut cond = ToCompletion;
    let (value, exhausted) = bot.search(&game, active, &actions, 21, None, None, &mut cond).unwrap();
    assert_eq!(value, 1);
    assert!(exhausted);
}

#[test]
fn perfect_play_lets_first_mover_win() {
    let mut player_a = alpha_beta::Bot::new(true);
    let mut player_b = alpha_beta::Bot::new(false);
    let mut game = Flags { flags: 21, active: true };
    let winner;
    loop {
        game.remove(player_a.select(&game, ToCompletion).unwrap());
        if game.flags == 0 {
            winner = true;
            break;
        }
        assert_eq!(game.flags % 4, 0);
        game.remove(player_b.select(&game, ToCompletion).unwrap());
        if game.flags == 0 {
            winner = false;
            break;
        }
    }
    assert!(winner);
}

#[test]
fn brute_force_takes_one_of_twenty_one_flags() {
    let game = Flags { flags: 21, active: true };
    let mut bot = brute::Bot::new(true);
    assert_eq!(bot.select(&game, 6), Some(1));
    let game = Flags { flags: 7, active: true };
    assert_eq!(bot.select(&game, 6), Some(3));
}

#[test]
fn no_actions_gives_none() {
    let game = Flags { flags: 0, active: true };
    let mut bot = alpha_beta::Bot::new(true);
    assert_eq!(bot.select(&game, ToCompletion), None);
    let mut brute = brute::Bot::new(true);
    assert_eq!(brute.select(&game, 3), None);
}

#[test]
fn inactive_player_gives_none() {
    let game = Flags { flags: 10, active: false };
    assert_eq!(game.actions(&true).1.len(), 3);
    let mut bot = alpha_beta::Bot::new(true);
    assert_eq!(bot.select(&game, ToCompletion), None);
    assert_eq!(bot.select(&game, Depth(5)), None);
    let mut brute = brute::Bot::new(true);
    assert_eq!(brute.select(&game, 3), None);
}

#[test]
fn single_action_is_chosen_at_any_depth() {
    let game = Flags { flags: 1, active: true };
    for depth in 0..5 {
        let mut bot = alpha_beta::Bot::new(true);
        assert_eq!(bot.select(&game, Depth(depth + 1)), Some(1));
        assert_eq!(bot.select(&game, Steps(depth + 1)), Some(1));
        let mut brute = brute::Bot::new(true);
        assert_eq!(brute.select(&game, depth), Some(1));
        let (active, actions) = game.actions(&true);
        let (value, _) = alpha_beta::Bot::<Flags>::new(true)
            .search(&game, active, &actions, depth, None, None, &mut ToCompletion)
            .unwrap();
        assert_eq!(value, game.look_ahead(&1, &true));
        assert_eq!(value, 1);
    }
}

#[test]
fn bounded_search_matches_minimax() {
    for seed in 0..60u64 {
        let tree = random_tree(seed, 5);
        for depth in 0..5u32 {
            let (active, actions) = tree.actions(&());
            let bot = alpha_beta::Bot::<Tree>::new(());
            let (value, _) =
                bot.search(&tree, active, &actions, depth, None, None, &mut ToCompletion).unwrap();
            assert_eq!(value, node_minimax(&tree, &(), depth), "seed {} depth {}", seed, depth);
        }
    }
}

#[test]
fn bounded_search_on_flags_matches_minimax() {
    for flags in 1..12u32 {
        for active in [true, false] {
            let game = Flags { flags, active };
            for depth in 0..6u32 {
                let (a, actions) = game.actions(&true);
                let bot = alpha_beta::Bot::<Flags>::new(true);
                let (value, _) =
                    bot.search(&game, a, &actions, depth, None, None, &mut ToCompletion).unwrap();
                assert_eq!(value, node_minimax(&game, &true, depth));
            }
        }
    }
}

#[test]
fn windowed_search_is_fail_soft() {
    for seed in 0..40u64 {
        let tree = random_tree(seed, 4);
        let (active, actions) = tree.actions(&());
        let exact = node_minimax(&tree, &(), 3);
        for (lo, hi) in [(Some(-3), Some(3)), (None, Some(0)), (Some(0), None), (Some(-1), Some(1))] {
            let bot = alpha_beta::Bot::<Tree>::new(());
            let (value, _) = bot.search(&tree, active, &actions, 3, lo, hi, &mut ToCompletion).unwrap();
            if lo.map_or(false, |l| value <= l) {
                assert!(exact <= value);
            } else if hi.map_or(false, |h| value >= h) {
                assert!(exact >= value);
            } else {
                assert_eq!(value, exact);
            }
        }
    }
}

#[test]
fn brute_force_picks_first_best_action() {
    for seed in 0..40u64 {
        let tree = random_tree(seed, 4);
        let (_, actions) = tree.actions(&());
        for depth in 0..4u32 {
            let values: Vec<i64> = actions.iter().map(|a| minimax(&tree, &(), a, depth)).collect();
            let best = *values.iter().max().unwrap();
            let first = values.iter().position(|v| *v == best).unwrap();
            let mut bot = brute::Bot::new(());
            assert_eq!(bot.select(&tree, depth), Some(actions[first]));
        }
    }
}

#[test]
fn selected_action_is_optimal_at_its_depth() {
    for seed in 0..40u64 {
        let tree = random_tree(seed, 4);
        let (_, actions) = tree.actions(&());
        for limit in 1..5u32 {
            let mut bot = alpha_beta::Bot::new(());
            let chosen = bot.select(&tree, Depth(limit)).unwrap();
            let depth = limit - 1;
            let best = actions.iter().map(|a| minimax(&tree, &(), a, depth)).max().unwrap();
            assert!(actions.contains(&chosen));
            assert_eq!(minimax(&tree, &(), &chosen, depth), best);
        }
    }
}

#[test]
fn two_runs_to_completion_agree() {
    for seed in 0..30u64 {
        let tree = random_tree(seed, 5);
        let mut a = alpha_beta::Bot::new(());
        let mut b = alpha_beta::Bot::new(());
        assert_eq!(a.select(&tree, ToCompletion), b.select(&tree, ToCompletion));
    }
    let game = Flags { flags: 13, active: true };
    let mut a = alpha_beta::Bot::new(true);
    let mut b = alpha_beta::Bot::new(true);
    assert_eq!(a.select(&game, ToCompletion), b.select(&game, ToCompletion));
}

#[test]
fn deeper_flag_search_never_loses_value() {
    let game = Flags { flags: 9, active: true };
    let (active, actions) = game.actions(&true);
    let bot = alpha_beta::Bot::<Flags>::new(true);
    let mut last = i64::MIN;
    for depth in 0..10u32 {
        let (value, _) = bot.search(&game, active, &actions, depth, None, None, &mut ToCompletion).unwrap();
        assert!(value >= last);
        last = value;
    }
    assert_eq!(last, 1);
}

/// Counts the polls that allowed a node expansion.
struct Counted<R: RunCondition> {
    inner: R,
    allowed: Rc<Cell<u32>>,
}

impl<R: RunCondition> RunCondition for Counted<R> {
    fn step(&mut self) -> bool {
        let r = self.inner.step();
        if r {
            self.allowed.set(self.allowed.get() + 1);
        }
        r
    }

    fn depth(&mut self, depth: u32) -> bool {
        self.inner.depth(depth)
    }
}

#[test]
fn step_budget_bounds_expansions() {
    for budget in [0u32, 1, 2, 5, 20, 100] {
        let tree = random_tree(7, 6);
        let allowed = Rc::new(Cell::new(0));
        let cond = Counted { inner: Steps(budget).into_run_condition(), allowed: allowed.clone() };
        let mut bot = alpha_beta::Bot::new(());
        let _ = bot.select(&tree, cond);
        assert!(allowed.get() <= budget);
        // the one query that met a refused step counts without an expansion
        assert!(tree.expanded.get() <= budget + 1);
    }
}

#[test]
fn steps_condition_counts_polls() {
    let mut cond = Steps(3).into_run_condition();
    assert!(cond.depth(100));
    assert!(cond.step());
    assert!(cond.step());
    assert!(cond.step());
    assert!(!cond.step());
    assert!(!cond.step());
}

#[test]
fn exhausted_step_budget_gives_none() {
    let game = Flags { flags: 10, active: true };
    let mut bot = alpha_beta::Bot::new(true);
    assert_eq!(bot.select(&game, Steps(0)), None);
    assert_eq!(bot.select(&game, Depth(0)), None);
    assert_eq!(bot.select(&game, Depth(1)), Some(1));
}

#[test]
fn depth_condition_limits_depth() {
    let mut cond = Depth(3);
    assert!(cond.step());
    assert!(cond.depth(3));
    assert!(!cond.depth(4));
    let mut done = ToCompletion;
    assert!(done.step());
    assert!(done.depth(u32::MAX));
}

#[test]
fn deadline_in_the_future_allows_search() {
    let game = Flags { flags: 21, active: true };
    let mut bot = alpha_beta::Bot::new(true);
    assert_eq!(bot.select(&game, Duration::from_secs(30)), Some(1));
    assert_eq!(bot.select(&game, Duration::MAX), Some(1));
}

#[test]
fn deadline_already_reached_gives_none() {
    let game = Flags { flags: 21, active: true };
    let mut bot = alpha_beta::Bot::new(true);
    assert_eq!(bot.select(&game, Duration::from_secs(0)), None);
}

#[test]
fn deeper_search_can_lower_value() {
    // the root's only action scores 5 at once, but the reply scores 0
    let nodes = vec![
        Node { children: vec![1], fitness: 0, max: true },
        Node { children: vec![2], fitness: 5, max: false },
        Node { children: vec![], fitness: 0, max: true },
    ];
    let tree = Tree { nodes: Rc::new(nodes), at: 0, expanded: Rc::new(Cell::new(0)) };
    let (active, actions) = tree.actions(&());
    let bot = alpha_beta::Bot::<Tree>::new(());
    let shallow = bot.search(&tree, active, &actions, 0, None, None, &mut ToCompletion).unwrap();
    let deep = bot.search(&tree, active, &actions, 1, None, None, &mut ToCompletion).unwrap();
    let deeper = bot.search(&tree, active, &actions, 2, None, None, &mut ToCompletion).unwrap();
    assert_eq!(shallow, (5, false));
    assert_eq!(deep, (0, false));
    assert_eq!(deeper, (0, true));
}

#[test]
fn before_deadline_compares_elapsed_time() {
    assert!(before_deadline(0, 1));
    assert!(before_deadline(999, 1000));
    assert!(!before_deadline(1000, 1000));
    assert!(!before_deadline(0, 0));
}

#[test]
fn zero_budget_deadline_refuses_first_poll() {
    let mut deadline = Deadline::new(std::time::Instant::now(), 0);
    assert!(!deadline.step());
    assert!(!deadline.depth(1));
    let mut later = Deadline::new(std::time::Instant::now(), u128::MAX);
    assert!(later.step());
    assert!(later.depth(1));
}
