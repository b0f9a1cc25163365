use kernel_core::config::BIG_STRIDE;
use kernel_core::task::manager::{pass_of, ReadyTask, TaskManager};

fn entry(pid: usize, stride: u64, pass: u64) -> ReadyTask {
    ReadyTask { pid, stride, pass }
}

#[test]
fn fetch_on_empty_queue_is_none() {
    let mut manager = TaskManager::new();
    assert_eq!(manager.len(), 0);
    assert_eq!(manager.fetch(), None);
    assert_eq!(manager.len(), 0);
}

#[test]
fn equal_strides_are_first_in_first_out() {
    let mut manager = TaskManager::new();
    manager.add(entry(3, 0, 10));
    manager.add(entry(1, 0, 10));
    manager.add(entry(2, 0, 10));
    assert_eq!(manager.fetch().map(|t| t.pid), Some(3));
    assert_eq!(manager.fetch().map(|t| t.pid), Some(1));
    assert_eq!(manager.fetch().map(|t| t.pid), Some(2));
    assert_eq!(manager.fetch(), None);
}

#[test]
fn add_keeps_the_queue_in_ascending_order_of_stride() {
    let mut manager = TaskManager::new();
    manager.add(entry(1, 30, 1));
    manager.add(entry(2, 10, 1));
    manager.add(entry(3, 20, 1));
    manager.add(entry(4, 20, 1));
    manager.add(entry(5, 5, 1));
    let order: Vec<usize> = (0..5).map(|_| manager.fetch().unwrap().pid).collect();
    assert_eq!(order, vec![5, 2, 3, 4, 1]);
}

#[test]
fn fetch_charges_one_pass_and_moves_the_origin() {
    let mut manager = TaskManager::new();
    manager.add(entry(1, 7, 4));
    manager.add(entry(2, 9, 6));
    manager.add(entry(3, 15, 2));
    let first = manager.fetch().unwrap();
    assert_eq!(first, entry(1, 4, 4));
    let second = manager.fetch().unwrap();
    assert_eq!(second, entry(2, 6, 6));
    let third = manager.fetch().unwrap();
    assert_eq!(third, entry(3, 2, 2));
}

#[test]
fn a_fetched_task_goes_back_behind_its_equals() {
    let mut manager = TaskManager::new();
    manager.add(entry(1, 0, 5));
    manager.add(entry(2, 5, 5));
    let first = manager.fetch().unwrap();
    assert_eq!(first, entry(1, 5, 5));
    manager.add(first);
    assert_eq!(manager.fetch().map(|t| t.pid), Some(2));
    assert_eq!(manager.fetch().map(|t| t.pid), Some(1));
}

#[test]
fn pass_is_big_stride_over_priority() {
    assert_eq!(pass_of(2), BIG_STRIDE / 2);
    assert_eq!(pass_of(16), BIG_STRIDE / 16);
    assert_eq!(pass_of(32), pass_of(16) / 2);
    assert_eq!(pass_of(0), BIG_STRIDE);
    assert_eq!(BIG_STRIDE, u64::MAX);
}

fn run_rounds(a: ReadyTask, b: ReadyTask, rounds: usize) -> (u64, u64) {
    let mut manager = TaskManager::new();
    manager.add(a);
    manager.add(b);
    let (mut runs_a, mut runs_b) = (0u64, 0u64);
    for _ in 0..rounds {
        let next = manager.fetch().unwrap();
        if next.pid == a.pid {
            runs_a += 1;
        } else {
            runs_b += 1;
        }
        manager.add(next);
    }
    (runs_a, runs_b)
}

#[test]
fn twice_the_priority_runs_twice_as_often() {
    let a = entry(1, 0, 100);
    let b = entry(2, 0, 200);
    for rounds in [1usize, 2, 3, 10, 99, 300, 3000] {
        let (runs_a, runs_b) = run_rounds(a, b, rounds);
        assert_eq!(runs_a + runs_b, rounds as u64);
        let charged_a = (runs_a * a.pass) as i128;
        let charged_b = (runs_b * b.pass) as i128;
        assert!(charged_a - charged_b <= a.pass as i128);
        assert!(charged_b - charged_a <= b.pass as i128);
        let skew = runs_a as i128 - 2 * runs_b as i128;
        assert!((-2..=2).contains(&skew));
    }
    assert_eq!(run_rounds(a, b, 3000), (2000, 1000));
}

#[test]
fn fairness_holds_for_the_passes_of_priorities() {
    let a = entry(1, 0, pass_of(32));
    let b = entry(2, 0, pass_of(16));
    let (runs_a, runs_b) = run_rounds(a, b, 900);
    assert_eq!(runs_a + runs_b, 900);
    let charged_a = runs_a as i128 * a.pass as i128;
    let charged_b = runs_b as i128 * b.pass as i128;
    assert!(charged_a - charged_b <= a.pass as i128);
    assert!(charged_b - charged_a <= b.pass as i128);
    assert_eq!((runs_a, runs_b), (600, 300));
}

#[test]
fn the_order_of_dispatch_is_fixed_by_the_calls() {
    let a = entry(1, 0, 3);
    let b = entry(2, 0, 5);
    let mut first = TaskManager::new();
    let mut second = TaskManager::new();
    for manager in [&mut first, &mut second] {
        manager.add(a);
        manager.add(b);
    }
    for _ in 0..50 {
        let x = first.fetch().unwrap();
        let y = second.fetch().unwrap();
        assert_eq!(x, y);
        first.add(x);
        second.add(y);
    }
}

#[test]
fn a_task_far_behind_gets_its_turn_within_its_bound() {
    let mut manager = TaskManager::new();
    manager.add(entry(1, 0, 3));
    manager.add(entry(2, 1, 2));
    manager.add(entry(3, 4, 5));
    manager.add(entry(9, 40, 7));
    let min_pass = 2;
    let bound = (3 * min_pass + (40 - 0) + (40 - 1) + (40 - 4)) / min_pass;
    let mut rounds = 0;
    loop {
        let next = manager.fetch().unwrap();
        if next.pid == 9 {
            break;
        }
        manager.add(next);
        rounds += 1;
        assert!(rounds <= bound);
    }
    assert_eq!(rounds, 14 + 20 + 8);
}

#[test]
fn rounding_of_the_passes_shows_after_many_rounds() {
    let a = entry(1, 0, 3);
    let b = entry(2, 0, 7);
    let mut within = 0;
    for rounds in 1..=24usize {
        let (runs_a, runs_b) = run_rounds(a, b, rounds);
        if runs_b < 2 * a.pass {
            let skew = runs_a as i128 - 2 * runs_b as i128;
            assert!((-2..=2).contains(&skew), "{rounds}");
            within += 1;
        }
    }
    assert!(within >= 15);
    assert_eq!(run_rounds(a, b, 24), (17, 7));
    let (runs_a, runs_b) = run_rounds(a, b, 24);
    assert!((runs_a * a.pass) as i128 - (runs_b * b.pass) as i128 <= a.pass as i128);
    assert!((runs_b * b.pass) as i128 - (runs_a * a.pass) as i128 <= b.pass as i128);
}
