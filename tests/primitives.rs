use std::collections::VecDeque;
use yard_cranes::cards::{choose_side_id, make_pairs_move, next_pos_wo_check, shortest_path, shortest_path_plain};
use yard_cranes::cells::{ith_square_coord, move_dir_from_1d, oned_to_twod, shortest_path as graph_path, twod_to_oned, Dir};
use yard_cranes::crane::{BoardStatus, ContainerStatus, CraneMove, CraneStatus};
use yard_cranes::moves::{could_drop, could_move, min_move, min_move_small_lift, next_pos};
use yard_cranes::plan::{distance, path_cost};
use yard_cranes::tour::{calc_icecream, calc_steps};
use yard_cranes::walls::{could_move as wall_could_move, move_pos, Operation};

fn empty_board() -> Vec<Vec<BoardStatus>> {
    vec![vec![BoardStatus::Empty; 5]; 5]
}

fn idle_cranes() -> Vec<CraneStatus> {
    vec![
        CraneStatus::BigEmpty((0, 0)),
        CraneStatus::SmallEmpty((1, 0)),
        CraneStatus::SmallEmpty((2, 0)),
        CraneStatus::SmallEmpty((3, 0)),
        CraneStatus::SmallEmpty((4, 0)),
    ]
}

#[test]
fn action_characters() {
    let all = [
        CraneMove::Lift,
        CraneMove::Drop,
        CraneMove::Up,
        CraneMove::Down,
        CraneMove::Left,
        CraneMove::Right,
        CraneMove::Wait,
        CraneMove::Remove,
    ];
    let s: String = all.iter().map(|m| m.to_ans()).collect();
    assert_eq!(s, "PQUDLR.B");
}

#[test]
fn crane_accessors() {
    let c = CraneStatus::SmallLift((2, 3), 17);
    assert_eq!(c.pos(), Some((2, 3)));
    assert!(!c.is_empty());
    assert!(!c.is_big());
    assert!(!c.is_removed());
    assert_eq!(c.lifting_cid(), Some(17));
    assert_eq!(c.move_to((2, 4)), CraneStatus::SmallLift((2, 4), 17));
    let b = CraneStatus::BigEmpty((0, 0));
    assert!(b.is_big() && b.is_empty());
    assert_eq!(b.lifting_cid(), None);
    assert_eq!(CraneStatus::Removed.pos(), None);
    assert!(CraneStatus::Removed.is_removed());
    assert!(CraneStatus::Removed.is_empty());
}

#[test]
fn container_owner() {
    assert_eq!(ContainerStatus::Accepted(3).moved_by(), Some(3));
    assert_eq!(ContainerStatus::BeingMoved(1).moved_by(), Some(1));
    assert_eq!(ContainerStatus::Free.moved_by(), None);
    assert_eq!(ContainerStatus::Completed.moved_by(), None);
}

#[test]
fn step_off_the_board_is_illegal() {
    let b = empty_board();
    let c = idle_cranes();
    assert!(!could_move(0, (0, 0), CraneMove::Up, &b, &c, &c));
    assert!(!could_move(0, (0, 0), CraneMove::Left, &b, &c, &c));
    assert!(could_move(0, (0, 0), CraneMove::Right, &b, &c, &c));
    assert!(could_move(0, (0, 0), CraneMove::Lift, &b, &c, &c));
}

#[test]
fn step_onto_another_crane_is_illegal() {
    let b = empty_board();
    let c = idle_cranes();
    assert!(!could_move(0, (0, 0), CraneMove::Down, &b, &c, &c));
    assert!(!could_move(2, (2, 0), CraneMove::Up, &b, &c, &c));
}

#[test]
fn exchanging_cells_is_refused() {
    let b = empty_board();
    // The rule refuses a step onto a cell that another crane held a turn ago
    // when that crane now stands on the mover's cell.
    let mut prev = idle_cranes();
    prev[1] = CraneStatus::SmallEmpty((2, 3));
    prev[2] = CraneStatus::SmallEmpty((2, 2));
    let mut now = prev.clone();
    now[1] = CraneStatus::SmallEmpty((2, 2));
    now[2] = CraneStatus::SmallEmpty((2, 2));
    assert!(!could_move(2, (2, 2), CraneMove::Right, &b, &now, &prev));
    // without the crane having come from (2, 3), the step is fine
    let mut now_b = prev.clone();
    now_b[1] = CraneStatus::SmallEmpty((3, 3));
    assert!(could_move(2, (2, 2), CraneMove::Right, &b, &now_b, &prev));
}

#[test]
fn loaded_small_crane_avoids_containers() {
    let mut b = empty_board();
    b[1][1] = BoardStatus::Container(5);
    let mut c = idle_cranes();
    c[1] = CraneStatus::SmallLift((1, 0), 3);
    assert!(!could_move(1, (1, 0), CraneMove::Right, &b, &c, &c));
    c[1] = CraneStatus::SmallEmpty((1, 0));
    assert!(could_move(1, (1, 0), CraneMove::Right, &b, &c, &c));
    let mut big = idle_cranes();
    big[0] = CraneStatus::BigLift((0, 1), 3);
    assert!(could_move(0, (0, 1), CraneMove::Down, &b, &big, &big));
}

#[test]
fn drop_needs_an_empty_cell() {
    let mut b = empty_board();
    b[2][2] = BoardStatus::Container(0);
    assert!(!could_drop((2, 2), &b));
    assert!(could_drop((2, 3), &b));
}

#[test]
fn next_cell() {
    assert_eq!(next_pos((2, 2), CraneMove::Up), (1, 2));
    assert_eq!(next_pos((2, 2), CraneMove::Down), (3, 2));
    assert_eq!(next_pos((2, 2), CraneMove::Left), (2, 1));
    assert_eq!(next_pos((2, 2), CraneMove::Right), (2, 3));
}

#[test]
fn direct_route_is_vertical_then_horizontal() {
    assert_eq!(
        min_move((3, 4), (1, 1)),
        vec![CraneMove::Up, CraneMove::Up, CraneMove::Left, CraneMove::Left, CraneMove::Left]
    );
    assert_eq!(min_move((0, 0), (2, 1)), vec![CraneMove::Down, CraneMove::Down, CraneMove::Right]);
    assert!(min_move((2, 2), (2, 2)).is_empty());
}

#[test]
fn loaded_small_crane_goes_around() {
    let mut b = empty_board();
    b[2][1] = BoardStatus::Container(7);
    b[2][2] = BoardStatus::Container(8);
    let mut c = idle_cranes();
    c[1] = CraneStatus::SmallEmpty((0, 4));
    c[2] = CraneStatus::SmallLift((2, 0), 9);
    c[3] = CraneStatus::SmallEmpty((4, 4));
    let route = min_move_small_lift(2, (2, 0), (2, 3), &b, &c, &c);
    assert_eq!(route.len(), 5);
    let mut p = (2usize, 0usize);
    for mv in &route {
        p = next_pos(p, *mv);
        assert_eq!(b[p.0][p.1], BoardStatus::Empty);
    }
    assert_eq!(p, (2, 3));
}

#[test]
fn walled_in_loaded_crane_has_no_route() {
    let mut b = empty_board();
    b[1][1] = BoardStatus::Container(7);
    b[2][2] = BoardStatus::Container(8);
    b[3][1] = BoardStatus::Container(6);
    let mut c = idle_cranes();
    c[2] = CraneStatus::SmallLift((2, 1), 9);
    c[1] = CraneStatus::SmallEmpty((4, 4));
    c[3] = CraneStatus::SmallEmpty((4, 3));
    c[4] = CraneStatus::SmallEmpty((4, 2));
    c[0] = CraneStatus::BigEmpty((2, 0));
    assert!(min_move_small_lift(2, (2, 1), (0, 4), &b, &c, &c).is_empty());
    assert!(min_move_small_lift(2, (2, 1), (2, 1), &b, &c, &c).is_empty());
}

#[test]
fn route_score() {
    assert_eq!(distance((0, 4), (3, 1)), 6);
    // container 12 belongs to lane 2; a route of 3 ending at (0, 1)
    assert_eq!(path_cost(12, 3, (0, 1)), 3 + 2 + 3);
    assert_eq!(path_cost(24, 0, (4, 4)), 0);
}

#[test]
fn cell_numbering() {
    assert_eq!(twod_to_oned((2, 3), 5), 13);
    assert_eq!(oned_to_twod(13, 5), (2, 3));
    assert_eq!(move_dir_from_1d(13, 8, 5), Dir::Up);
    assert_eq!(move_dir_from_1d(13, 18, 5), Dir::Down);
    assert_eq!(move_dir_from_1d(13, 12, 5), Dir::Left);
    assert_eq!(move_dir_from_1d(13, 14, 5), Dir::Right);
    assert_eq!(move_dir_from_1d(13, 19, 5), Dir::Stay);
    assert_eq!(move_dir_from_1d(10, 9, 5), Dir::Stay);
}

#[test]
fn square_layers() {
    let got: Vec<(usize, usize)> = (0..9).map(ith_square_coord).collect();
    assert_eq!(got, vec![(0, 0), (0, 1), (1, 1), (1, 0), (0, 2), (1, 2), (2, 2), (2, 0), (2, 1)]);
    assert_eq!(ith_square_coord(99), (9, 8));
}

#[test]
fn card_walks() {
    assert_eq!(next_pos_wo_check((3, 3), 'U'), (2, 3));
    assert_eq!(next_pos_wo_check((0, 3), 'U'), (usize::MAX, 3));
    assert_eq!(next_pos_wo_check((3, 3), 'R'), (3, 4));
    assert_eq!(shortest_path_plain((1, 4), (3, 2)).iter().collect::<String>(), "DDLL");
    let cards = vec![(0, 0), (5, 7)];
    assert_eq!(shortest_path((6, 6), 1, &cards).iter().collect::<String>(), "UR");
    assert_eq!(choose_side_id((0, 0), (1, 1), (0, 2)), 0);
    assert_eq!(choose_side_id((0, 0), (2, 1), (0, 2)), 1);
}

#[test]
fn tour_steps_count_first_paint_only() {
    let ans: Vec<(isize, bool)> = vec![(3, true), (4, false), (3, true), (0, true), (5, true)];
    // vertices below 2 are shops; 3 is painted once, 5 once
    assert_eq!(calc_steps(&ans, 6, 2), 5 + 2);
    assert_eq!(calc_icecream(&vec![2, 0, 2], &vec![true, false, false]), vec![false, true, false]);
}

#[test]
fn walls_block_moves() {
    let mut vn = vec![vec!['0'; 29]; 30];
    let mut hn = vec![vec!['0'; 30]; 29];
    vn[0][0] = '1';
    hn[4][5] = '1';
    assert_eq!(Operation::L.dir(), (0, -1));
    assert_eq!(Operation::D.dir(), (1, 0));
    assert!(!wall_could_move((0, 0), Operation::R.dir(), &vn, &hn));
    assert!(!wall_could_move((0, 0), Operation::U.dir(), &vn, &hn));
    assert!(wall_could_move((0, 0), Operation::D.dir(), &vn, &hn));
    assert_eq!(move_pos((4, 5), Operation::D.dir(), &vn, &hn), (4, 5));
    assert_eq!(move_pos((5, 5), Operation::U.dir(), &vn, &hn), (5, 5));
    assert_eq!(move_pos((5, 5), Operation::L.dir(), &vn, &hn), (5, 4));
    assert_eq!(move_pos((29, 29), Operation::R.dir(), &vn, &hn), (29, 29));
    vn[7][7] = '1';
    assert_eq!(move_pos((7, 8), Operation::L.dir(), &vn, &hn), (7, 8));
}

#[test]
fn pairing_walk_takes_cards_from_the_back() {
    let mut ans = vec!['X'];
    let mut moves = 3usize;
    let mut deck: VecDeque<(usize, (usize, usize))> = VecDeque::new();
    deck.push_back((7, (0, 0)));
    deck.push_back((4, (2, 1)));
    let mut pos = (1usize, 1usize);
    make_pairs_move(&mut ans, &mut moves, &mut deck, &mut pos);
    assert_eq!(ans.iter().collect::<String>(), "XDZUULZ");
    assert_eq!(moves, 3 + 1 + 3);
    assert!(deck.is_empty());
    assert_eq!(pos, (0, 0));
}

#[test]
fn graph_shortest_path() {
    // 0 - 1 - 2 - 3, and 0 - 4 - 3
    let edges = vec![vec![1, 4], vec![0, 2], vec![1, 3], vec![2, 4], vec![0, 3], vec![]];
    assert_eq!(graph_path(0, 3, &edges), vec![0, 4, 3]);
    assert_eq!(graph_path(1, 3, &edges), vec![1, 2, 3]);
    assert_eq!(graph_path(2, 2, &edges), vec![2, 2]);
    assert_eq!(graph_path(0, 5, &edges), vec![5]);
}
