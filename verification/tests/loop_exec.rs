use ax25_node_core::sdl::loop_exec::LoopHost;
use ax25_node_core::sdl::{run_loop, LoopRange, MAX_ITERATIONS};

struct Walk {
    order: Vec<usize>,
    left: Option<usize>,
}

impl Walk {
    fn new(left: usize) -> Self {
        Walk { order: Vec::new(), left: Some(left) }
    }

    fn endless() -> Self {
        Walk { order: Vec::new(), left: None }
    }
}

impl LoopHost for Walk {
    fn run_action(&mut self, index: usize) {
        self.order.push(index);
    }

    fn predicate_holds(&mut self, _range: &LoopRange) -> bool {
        match self.left {
            None => true,
            Some(0) => false,
            Some(n) => {
                self.left = Some(n - 1);
                true
            }
        }
    }
}

fn lr(start: usize, length: usize, test_at_end: bool) -> LoopRange {
    LoopRange {
        start,
        length,
        predicate: "p",
        test_at_end,
    }
}

#[test]
fn no_loops_runs_actions_in_order() {
    let mut walk = Walk::new(0);
    let n = run_loop(3, &[], &mut walk);
    assert_eq!(walk.order, vec![0, 1, 2]);
    assert_eq!(n, 3);
}

#[test]
fn while_loop_runs_body_zero_times_when_predicate_false() {
    let loops = [lr(1, 1, false)];
    let mut walk = Walk::new(0);
    run_loop(3, &loops, &mut walk);
    assert_eq!(walk.order, vec![0, 2]);
}

#[test]
fn do_while_runs_body_at_least_once() {
    let loops = [lr(1, 1, true)];
    let mut walk = Walk::new(0);
    run_loop(3, &loops, &mut walk);
    assert_eq!(walk.order, vec![0, 1, 2]);
}

#[test]
fn while_loop_repeats_until_predicate_false() {
    let loops = [lr(1, 1, false)];
    let mut walk = Walk::new(3);
    run_loop(3, &loops, &mut walk);
    assert_eq!(walk.order, vec![0, 1, 1, 1, 2]);
}

#[test]
fn multi_action_loop_body() {
    let loops = [lr(1, 2, false)];
    let mut walk = Walk::new(2);
    run_loop(4, &loops, &mut walk);
    assert_eq!(walk.order, vec![0, 1, 2, 1, 2, 3]);
}

#[test]
fn safety_cap_bounds_a_runaway_predicate() {
    let loops = [lr(0, 1, false)];
    let mut walk = Walk::endless();
    run_loop(1, &loops, &mut walk);
    assert_eq!(walk.order.len(), MAX_ITERATIONS);
}

#[test]
fn do_while_safety_cap() {
    let loops = [lr(0, 1, true)];
    let mut walk = Walk::endless();
    run_loop(1, &loops, &mut walk);
    assert_eq!(walk.order.len(), MAX_ITERATIONS);
}
