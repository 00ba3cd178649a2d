use rand::rngs::SmallRng;
use rand::SeedableRng;
use yard_cranes::driver::{attempt, fallback_schedule, keep_best, removal_pattern, schedule_total, simulate};
use yard_cranes::crane::BoardStatus;
use yard_cranes::judge::replays_all;
use yard_cranes::yard::Yard;
use yard_cranes::turn::TurnEnd;

const N: usize = 5;

fn sorted_board() -> Vec<Vec<usize>> {
    (0..N).map(|i| (0..N).map(|k| N * i + k).collect()).collect()
}

fn reversed_board() -> Vec<Vec<usize>> {
    (0..N).map(|i| (0..N).rev().map(|k| N * i + k).collect()).collect()
}

fn mixed_board() -> Vec<Vec<usize>> {
    vec![
        vec![7, 0, 21, 13, 4],
        vec![10, 18, 2, 24, 6],
        vec![15, 1, 12, 9, 22],
        vec![3, 20, 16, 11, 5],
        vec![23, 14, 8, 19, 17],
    ]
}

/// What replaying a schedule under the yard's rules produced.
struct Replay {
    board: Vec<Vec<Option<usize>>>,
    delivered: Vec<Vec<usize>>,
    retired: usize,
    put_down_off_exit: usize,
}

/// Replays `schedule` from the initial board `incoming`, checking every rule
/// of a turn; panics on a broken rule.
fn replay(incoming: &[Vec<usize>], schedule: &[Vec<char>]) -> Replay {
    let mut board: Vec<Vec<Option<usize>>> = vec![vec![None; N]; N];
    let mut next_in = vec![0usize; N];
    let mut pos: Vec<Option<(usize, usize)>> = (0..N).map(|k| Some((k, 0))).collect();
    let mut load: Vec<Option<usize>> = vec![None; N];
    let mut delivered: Vec<Vec<usize>> = vec![vec![]; N];
    let mut retired = 0;
    let mut put_down_off_exit = 0;
    let turns = schedule.iter().map(|s| s.len()).max().unwrap_or(0);
    for t in 0..turns {
        for r in 0..N {
            let held_here = (0..N).any(|k| pos[k] == Some((r, 0)) && load[k].is_some());
            if board[r][0].is_none() && !held_here && next_in[r] < N {
                board[r][0] = Some(incoming[r][next_in[r]]);
                next_in[r] += 1;
            }
        }
        let before = pos.clone();
        for k in 0..N {
            let a = schedule[k].get(t).copied().unwrap_or('.');
            let Some((i, j)) = pos[k] else {
                assert_eq!(a, '.', "retired crane {k} acts at turn {t}");
                continue;
            };
            match a {
                'P' => {
                    assert!(load[k].is_none(), "crane {k} lifts twice at turn {t}");
                    load[k] = Some(board[i][j].take().expect("lift from an empty cell"));
                }
                'Q' => {
                    assert!(board[i][j].is_none(), "crane {k} drops on a container at turn {t}");
                    board[i][j] = Some(load[k].take().expect("drop without a load"));
                    if j != N - 1 {
                        put_down_off_exit += 1;
                    }
                }
                'U' | 'D' | 'L' | 'R' => {
                    let (ni, nj) = match a {
                        'U' => (i.wrapping_sub(1), j),
                        'D' => (i + 1, j),
                        'L' => (i, j.wrapping_sub(1)),
                        _ => (i, j + 1),
                    };
                    assert!(ni < N && nj < N, "crane {k} leaves the board at turn {t}");
                    if k != 0 && load[k].is_some() {
                        assert!(board[ni][nj].is_none(), "loaded small crane {k} onto a container at turn {t}");
                    }
                    pos[k] = Some((ni, nj));
                }
                'B' => {
                    assert!(load[k].is_none(), "crane {k} retires while loaded at turn {t}");
                    pos[k] = None;
                    retired += 1;
                }
                '.' => {}
                other => panic!("unknown action {other}"),
            }
        }
        for a in 0..N {
            for b in 0..N {
                if a != b && pos[a].is_some() {
                    assert_ne!(pos[a], pos[b], "cranes {a} and {b} collide at turn {t}");
                    let swapped = pos[a] == before[b] && pos[b] == before[a] && before[a] != before[b];
                    assert!(!swapped, "cranes {a} and {b} swap at turn {t}");
                }
            }
        }
        for r in 0..N {
            if let Some(c) = board[r][N - 1].take() {
                delivered[r].push(c);
            }
        }
    }
    Replay { board, delivered, retired, put_down_off_exit }
}

fn assert_all_sorted(rep: &Replay) {
    for r in 0..N {
        assert_eq!(rep.delivered[r], (N * r..N * r + N).collect::<Vec<_>>(), "lane {r}");
    }
}

fn best_of(incoming: &[Vec<usize>], tries: u64) -> Option<Vec<Vec<char>>> {
    let mut best = None;
    for seed in 0..tries {
        let mut rng = SmallRng::seed_from_u64(seed);
        best = keep_best(best, attempt(&incoming.to_vec(), &mut rng));
    }
    best
}

#[test]
fn fallback_shuttle_sorts_a_sorted_board() {
    let s = fallback_schedule();
    assert_eq!(s.len(), 5);
    for line in &s {
        assert_eq!(line.iter().collect::<String>(), "PRRRRQLLLLPRRRRQLLLLPRRRRQLLLLPRRRRQLLLLPRRRRQ");
    }
    let rep = replay(&sorted_board(), &s);
    assert_all_sorted(&rep);
}

#[test]
fn search_solves_a_sorted_board() {
    let best = best_of(&sorted_board(), 20).expect("a schedule");
    let rep = replay(&sorted_board(), &best);
    assert_all_sorted(&rep);
}

#[test]
fn search_solves_a_reversed_board_with_recovery() {
    let board = reversed_board();
    let mut found = false;
    let mut recovered = false;
    for seed in 0..60 {
        let mut rng = SmallRng::seed_from_u64(seed);
        if let Some(s) = attempt(&board, &mut rng) {
            let rep = replay(&board, &s);
            assert_all_sorted(&rep);
            found = true;
            if rep.retired > 0 || rep.put_down_off_exit > 0 {
                recovered = true;
            }
        }
    }
    assert!(found, "no attempt sorted the reversed board");
    assert!(recovered, "no attempt used a forced drop or a retirement");
}

#[test]
fn search_solves_a_mixed_board() {
    let board = mixed_board();
    let best = best_of(&board, 40).expect("a schedule");
    let rep = replay(&board, &best);
    assert_all_sorted(&rep);
}

#[test]
fn every_successful_attempt_replays_cleanly() {
    for board in [sorted_board(), reversed_board(), mixed_board()] {
        for seed in 0..15 {
            let mut rng = SmallRng::seed_from_u64(seed);
            if let Some(s) = attempt(&board, &mut rng) {
                let len = s[0].len();
                assert!(s.iter().all(|l| l.len() == len));
                assert!(len <= 350);
                assert_all_sorted(&replay(&board, &s));
            }
        }
    }
}

#[test]
fn replay_reproduces_the_final_board() {
    for board in [sorted_board(), mixed_board()] {
        for seed in 0..10 {
            for sweep in [true, false] {
                let mut rng = SmallRng::seed_from_u64(seed);
                let mut y = Yard::start(board.clone(), sweep);
                let removal = vec![false; 5];
                let ok = y.run(&removal, &mut rng);
                let s = y.schedules();
                let rep = replay(&board, &s);
                let mut driver_board: Vec<Vec<Option<usize>>> = y
                    .board
                    .iter()
                    .map(|row| {
                        row.iter()
                            .map(|c| match c {
                                BoardStatus::Container(id) => Some(*id),
                                BoardStatus::Empty => None,
                            })
                            .collect()
                    })
                    .collect();
                for row in driver_board.iter_mut() {
                    row[4] = None;
                }
                if ok {
                    assert_eq!(rep.board, driver_board);
                    assert_all_sorted(&rep);
                }
            }
        }
    }
}

#[test]
fn same_seed_gives_same_schedule() {
    let board = mixed_board();
    let mut a = SmallRng::seed_from_u64(7);
    let mut b = SmallRng::seed_from_u64(7);
    assert_eq!(attempt(&board, &mut a), attempt(&board, &mut b));
}

#[test]
fn retired_cranes_leave_a_b() {
    let board = sorted_board();
    let removal = vec![false, true, false, false, true];
    let mut hit = false;
    for seed in 0..20 {
        let mut rng = SmallRng::seed_from_u64(seed);
        if let Some(s) = simulate(&board, true, &removal, &mut rng) {
            assert_eq!(s[1].iter().filter(|c| **c == 'B').count(), 1);
            assert_eq!(s[4].iter().filter(|c| **c == 'B').count(), 1);
            assert!(!s[0].contains(&'B'));
            assert_all_sorted(&replay(&board, &s));
            hit = true;
        }
    }
    assert!(hit);
}

#[test]
fn kept_best_never_grows() {
    let board = mixed_board();
    let mut best: Option<Vec<Vec<char>>> = None;
    let mut last = u128::MAX;
    for seed in 0..30 {
        let mut rng = SmallRng::seed_from_u64(seed);
        best = keep_best(best, attempt(&board, &mut rng));
        if let Some(b) = &best {
            let t = schedule_total(b);
            assert!(t <= last);
            last = t;
        }
    }
}

#[test]
fn keep_best_prefers_fewer_actions() {
    let short = vec![vec!['.'; 2]; 5];
    let long = vec![vec!['.'; 3]; 5];
    assert_eq!(schedule_total(&short), 10);
    assert_eq!(keep_best(Some(long.clone()), Some(short.clone())), Some(short.clone()));
    assert_eq!(keep_best(Some(short.clone()), Some(long.clone())), Some(short.clone()));
    assert_eq!(keep_best(None, Some(long.clone())), Some(long.clone()));
    assert_eq!(keep_best(Some(long.clone()), None), Some(long));
}

#[test]
fn start_with_sweep_places_three_per_row() {
    let y = Yard::start(mixed_board(), true);
    assert_eq!(y.turn, 17);
    for r in 0..N {
        assert_eq!(y.ans[r].iter().collect::<String>(), "PRRRQLLLPRRQLLPRQ");
        assert_eq!(y.next_in[r], 3);
    }
    let rep = replay(&mixed_board(), &y.ans);
    assert!(rep.delivered.iter().all(|d| d.is_empty()));
}

#[test]
fn first_turn_receives_and_moves() {
    let mut y = Yard::start(sorted_board(), false);
    let removal = vec![false; 5];
    let mut rng = SmallRng::seed_from_u64(1);
    assert_eq!(y.run_turn(&removal, &mut rng), TurnEnd::Continue);
    assert_eq!(y.turn, 1);
    for r in 0..N {
        assert_eq!(y.next_in[r], 1);
        assert_eq!(y.ans[r].len(), 1);
    }
}

#[test]
fn delivery_of_the_wrong_container_ends_the_run() {
    let mut y = Yard::start(sorted_board(), false);
    y.board[2][4] = BoardStatus::Container(11);
    assert!(!y.collect());
    let mut z = Yard::start(sorted_board(), false);
    z.board[2][4] = BoardStatus::Container(10);
    z.board[4][4] = BoardStatus::Container(20);
    assert!(z.collect());
    assert_eq!(z.goal_want[2], Some(11));
    assert_eq!(z.goal_want[4], Some(21));
    assert_eq!(z.goal_want[0], Some(0));
    assert_eq!(z.board[2][4], BoardStatus::Empty);
    let mut last = Yard::start(sorted_board(), false);
    last.goal_want[1] = Some(9);
    last.board[1][4] = BoardStatus::Container(9);
    assert!(last.collect());
    assert_eq!(last.goal_want[1], None);
}

#[test]
fn arrivals_fill_empty_entry_cells() {
    let mut y = Yard::start(mixed_board(), true);
    y.receive();
    for r in 0..N {
        assert_eq!(y.board[r][0], BoardStatus::Container(mixed_board()[r][3]));
        assert_eq!(y.next_in[r], 4);
    }
    y.receive();
    for r in 0..N {
        assert_eq!(y.next_in[r], 4);
    }
}

#[test]
fn removal_patterns_are_shuffled() {
    let mut seen = std::collections::HashSet::new();
    for seed in 0..30 {
        let mut rng = SmallRng::seed_from_u64(seed);
        let p = removal_pattern(0, &mut rng);
        assert_eq!(p.len(), 5);
        assert!(!p[0]);
        assert_eq!(p.iter().filter(|b| **b).count(), 2);
        seen.insert(p);
    }
    assert!(seen.len() > 1);
    let mut rng = SmallRng::seed_from_u64(3);
    assert_eq!(removal_pattern(2, &mut rng), vec![false; 5]);
    let mut rng = SmallRng::seed_from_u64(3);
    assert_eq!(removal_pattern(1, &mut rng).iter().filter(|b| **b).count(), 1);
}

#[test]
fn attempts_use_both_openings() {
    let board = sorted_board();
    let mut sweep = false;
    let mut other = false;
    for seed in 0..30 {
        let mut rng = SmallRng::seed_from_u64(seed);
        if let Some(s) = attempt(&board, &mut rng) {
            let head: String = s[1].iter().take(17).collect();
            if head == "PRRRQLLLPRRQLLPRQ" {
                sweep = true;
            } else {
                other = true;
            }
        }
    }
    assert!(sweep && other);
}

#[test]
fn verified_replay_accepts_the_shuttle_on_a_sorted_board() {
    let s = fallback_schedule();
    assert!(replays_all(&sorted_board(), &s));
    assert!(!replays_all(&reversed_board(), &s));
    assert!(!replays_all(&mixed_board(), &s));
}

#[test]
fn verified_replay_rejects_broken_schedules() {
    let mut s = fallback_schedule();
    s[0][0] = 'Q';
    assert!(!replays_all(&sorted_board(), &s));
    let mut t = fallback_schedule();
    t[1][1] = 'U';
    assert!(!replays_all(&sorted_board(), &t));
    let short = vec![vec!['P', 'R'], vec![], vec![], vec![], vec![]];
    assert!(!replays_all(&sorted_board(), &short));
}

#[test]
fn every_returned_schedule_passes_the_verified_replay() {
    for board in [sorted_board(), reversed_board(), mixed_board()] {
        for seed in 0..10 {
            let mut rng = SmallRng::seed_from_u64(seed);
            if let Some(s) = attempt(&board, &mut rng) {
                assert!(replays_all(&board, &s));
            }
        }
    }
}
