use yard_cranes::automaton::solve_dumpling;
use yard_cranes::cables::{greedy_ans, Connect};
use yard_cranes::cells::Dir;
use yard_cranes::piles::{_calc_mountains, calc_score};
use yard_cranes::polyominoes::{could_answer_w_possible_map, could_enumerate};
use yard_cranes::projects::Project;
use yard_cranes::tour::{calc_score as tour_score, Segment, Solution};
use yard_cranes::walls::goal_order;

fn seg(from_shop: usize, to_shop: usize, path: Vec<usize>, paint_at: Option<usize>) -> Segment {
    Segment { from_shop, to_shop, path, paint_at }
}

#[test]
fn tour_checks() {
    let sol = Solution {
        segments: vec![seg(0, 1, vec![5, 6], Some(1)), seg(1, 0, vec![7, 6], Some(1)), seg(0, 2, vec![], None)],
    };
    assert!(sol.is_connected());
    assert!(sol.check_no_immediate_return(3));
    // 2 + paint 6 + shop, 2 + (6 already painted) + shop, shop
    assert_eq!(sol.calc_steps(10), 3 + 1 + 3 + 1);
    assert!(sol.is_valid(8, 10, 3));
    assert!(!sol.is_valid(7, 10, 3));

    let broken = Solution { segments: vec![seg(0, 1, vec![5], None), seg(2, 0, vec![6], None)] };
    assert!(!broken.is_connected());
    assert!(!broken.is_valid(100, 10, 3));

    let back = Solution { segments: vec![seg(0, 1, vec![5], None), seg(1, 0, vec![5], None)] };
    assert!(back.is_connected());
    assert!(!back.check_no_immediate_return(3));

    let late_start = Solution { segments: vec![seg(1, 0, vec![5], None)] };
    assert!(!late_start.is_valid(100, 10, 3));
    assert!(Solution { segments: vec![] }.is_valid(0, 10, 3));
}

#[test]
fn pile_heights_and_score() {
    let mut an = vec![0i64; 500];
    let mut dt = vec![0usize; 500];
    an[0] = 10;
    dt[0] = 1;
    an[1] = 5;
    dt[1] = 1;
    an[2] = 7;
    dt[2] = 50;
    an[3] = 1000;
    dt[3] = 0;
    let m = _calc_mountains(&an, &dt);
    assert_eq!(m.len(), 50);
    assert_eq!(m[0], 15);
    assert_eq!(m[49], 7);
    assert_eq!(m[1], 0);
    let mut bm = vec![0i64; 50];
    bm[0] = 20;
    bm[1] = 3;
    bm[49] = 7;
    assert_eq!(calc_score(&an, &bm, &dt), 5 + 3);
}

#[test]
fn project_choice() {
    let p = Project { h: 5, v: 3 };
    assert!(!p.is_good(2));
    assert!(p.is_good(3));
    assert!(Project { h: 5, v: 6 }.is_good(0));
    assert_eq!(p.efficiency(), -2);
    assert_eq!(Project { h: 1, v: 9 }.efficiency(), 8);
}

#[test]
fn enumeration_budget() {
    let one = vec![vec![(0usize, 0usize)]];
    let three = vec![vec![(0usize, 0usize)]; 3];
    assert!(could_enumerate(10, &vec![]));
    // 100^2 = 10^4
    assert!(could_enumerate(10, &one));
    // 100^4 = 10^8
    assert!(could_enumerate(10, &three));
    // 100^5 = 10^10
    assert!(!could_enumerate(10, &vec![vec![(0usize, 0usize)]; 4]));
    assert!(could_enumerate(1, &vec![vec![(0usize, 0usize)]; 40]));
}

#[test]
fn certain_cells() {
    assert!(could_answer_w_possible_map(4, &vec![vec![0, 4], vec![4, 0]]));
    assert!(!could_answer_w_possible_map(4, &vec![vec![0, 3], vec![4, 0]]));
}

#[test]
fn tour_flattening_paints_each_tree_once() {
    let sol = Solution {
        segments: vec![seg(0, 1, vec![5, 6], Some(1)), seg(1, 0, vec![7, 6], Some(1))],
    };
    assert_eq!(
        sol.to_ans(10),
        vec![(5, false), (6, true), (1, false), (7, false), (6, false), (0, false)]
    );
}

#[test]
fn tour_parsing_cuts_at_shops() {
    let ans: Vec<(isize, bool)> = vec![(5, false), (6, true), (1, false), (7, true), (2, false), (8, false)];
    let sol = Solution::from_ans(&ans, 3);
    assert_eq!(sol.segments.len(), 2);
    let a = &sol.segments[0];
    assert_eq!((a.from_shop, a.to_shop, a.path.clone(), a.paint_at), (0, 1, vec![5, 6], Some(1)));
    let b = &sol.segments[1];
    assert_eq!((b.from_shop, b.to_shop, b.path.clone(), b.paint_at), (1, 2, vec![7], Some(0)));
}

#[test]
fn sweep_orders() {
    let o = goal_order((0, 0), (0, 1)).expect("inside");
    assert_eq!(o.len(), 900);
    assert_eq!(o[0], (0, 0));
    assert_eq!(o[29], (0, 29));
    assert_eq!(o[30], (1, 29));
    assert_eq!(o[59], (1, 0));
    let d = goal_order((29, 29), (-1, 0)).expect("inside");
    assert_eq!(d[0], (29, 29));
    assert_eq!(d[1], (28, 29));
    assert_eq!(d[30], (0, 28));
    assert!(goal_order((0, 0), (-1, 0)).is_none());
    assert!(goal_order((29, 5), (1, 0)).is_none());
}

#[test]
fn greedy_cabling() {
    let g: Vec<Vec<char>> = vec!["1010".chars().collect(), "0201".chars().collect(), "1020".chars().collect(), "2222".chars().collect()];
    let all = greedy_ans(100, &g);
    assert_eq!(
        all,
        vec![
            Connect(0, 0, 0, 2),
            Connect(3, 0, 3, 1),
            Connect(3, 1, 3, 2),
            Connect(3, 2, 3, 3),
            Connect(0, 0, 2, 0),
            Connect(1, 1, 3, 1),
            Connect(2, 2, 3, 2),
        ]
    );
    assert_eq!(greedy_ans(2, &g), vec![Connect(0, 0, 0, 2), Connect(3, 0, 3, 1)]);
    assert!(greedy_ans(0, &g).is_empty());
}

#[test]
fn distinct_harvests_per_shop() {
    let ans: Vec<(isize, bool)> = vec![
        (3, true),
        (1, false),
        (3, false),
        (1, false),
        (4, false),
        (0, false),
        (2, false),
        (0, false),
    ];
    assert_eq!(tour_score(&ans, 6, 2), 3);
    assert_eq!(tour_score(&vec![], 6, 2), 0);
}

#[test]
fn automaton_rules_follow_the_path() {
    let sol = solve_dumpling(2, &vec![0, 1, 0, 1]);
    let got: Vec<((usize, usize), usize, usize, Dir)> = sol
        .rules
        .iter()
        .map(|r| (r.in_rule, r.out_rule.new_color, r.out_rule.new_state, r.out_rule.dir))
        .collect();
    assert_eq!(
        got,
        vec![((0, 1), 0, 0, Dir::Right), ((1, 1), 0, 1, Dir::Left), ((0, 0), 0, 1, Dir::Right)]
    );
    assert_eq!(sol.color_num, 2);
    assert_eq!(sol.state_num, 2);
    assert_eq!(sol.init_colors, vec![0, 1, 0, 0]);
    let short = solve_dumpling(2, &vec![0, 1, 3]);
    assert_eq!(short.rules.len(), 2);
    assert_eq!(short.rules[0].out_rule.dir, Dir::Down);
    assert_eq!(short.rules[1].in_rule, (0, 0));
}
