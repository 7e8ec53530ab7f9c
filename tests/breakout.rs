use breakout::ball::Ball;
use breakout::bricks::{life_for, BrickVertex, Bricks};
use breakout::{BoardSize, Breakout, SetupError};

fn unit_board() -> BoardSize {
    BoardSize { width: 10000, height: 10000 }
}

#[test]
fn new_grid_is_empty_and_bounded() {
    let bricks = Bricks::new(20, 30);
    for c in 0..20 {
        for r in 0..30 {
            assert_eq!(bricks.get_life(c, r), Some(0));
        }
    }
    assert_eq!(bricks.get_life(20, 0), None);
    assert_eq!(bricks.get_life(0, 30), None);
    assert_eq!(bricks.get_life(usize::MAX, 0), None);
    assert_eq!(bricks.get_life(0, usize::MAX), None);
}

#[test]
fn new_with_fills_from_generator() {
    let bricks = Bricks::new_with(4, 4, |c, r| c + r);
    assert_eq!(bricks.get_life(2, 3), Some(5));
    assert_eq!(bricks.get_life(0, 0), Some(0));
    assert_eq!(bricks.get_life(3, 3), Some(6));
    assert_eq!(bricks.get_life(4, 0), None);
}

#[test]
fn new_with_calls_row_by_row() {
    let mut order = Vec::new();
    let bricks = Bricks::new_with(3, 2, |c, r| {
        order.push((c, r));
        order.len()
    });
    assert_eq!(order, vec![(0, 0), (1, 0), (2, 0), (0, 1), (1, 1), (2, 1)]);
    assert_eq!(bricks.get_life(0, 1), Some(4));
}

#[test]
fn index_is_row_major() {
    let bricks = Bricks::new(20, 30);
    assert_eq!(bricks.index(0, 0), 0);
    assert_eq!(bricks.index(3, 2), 43);
    assert_eq!(bricks.index(19, 29), 599);
}

#[test]
fn new_random_keeps_open_rows_and_bound() {
    let bricks = Bricks::new_random(20, 30, 4, 2);
    for c in 0..20 {
        for r in 0..30 {
            let life = bricks.get_life(c, r).unwrap();
            if r < 4 {
                assert_eq!(life, 0);
            } else {
                assert!(life < 2);
            }
        }
    }
    let single = Bricks::new_random(5, 5, 0, 1);
    for c in 0..5 {
        for r in 0..5 {
            assert_eq!(single.get_life(c, r), Some(0));
        }
    }
}

#[test]
fn mesh_sizes_and_indices() {
    for &(n, m) in &[(20usize, 30usize), (3, 2), (1, 1), (1, 4)] {
        let bricks = Bricks::new(n, m);
        let (vs, is) = bricks.to_vertices();
        assert_eq!(vs.len(), 4 * n * m);
        assert_eq!(is.len(), 6 * n * m);
        for &i in &is {
            assert!((i as usize) < 4 * n * m);
        }
    }
}

#[test]
fn mesh_quads_and_triangles() {
    let bricks = Bricks::new_with(3, 2, |c, r| 10 * r + c);
    let (vs, is) = bricks.to_vertices();
    // cell (1, 1) is the fifth cell
    let quad = &vs[16..20];
    let expected = [[1, 1], [2, 1], [2, 2], [1, 2]];
    for (v, p) in quad.iter().zip(expected.iter()) {
        assert_eq!(
            *v,
            BrickVertex { position: *p, life: 11, is_active: false }
        );
    }
    assert_eq!(&is[24..30], &[16, 19, 17, 19, 18, 17]);
    assert_eq!(&is[0..6], &[0, 3, 1, 3, 2, 1]);
}

#[test]
fn locate_cells() {
    let bricks = Bricks::new(20, 30);
    let board = BoardSize { width: 100, height: 100 };
    assert_eq!(bricks.in_which(99, 1, &board), Some((19, 0)));
    assert_eq!(bricks.in_which(100, 100, &board), None);
    assert_eq!(bricks.in_which(0, 0, &board), Some((0, 0)));
    assert_eq!(bricks.in_which(50, 50, &board), Some((10, 15)));
    assert_eq!(bricks.in_which(-1, 50, &board), None);
    assert_eq!(bricks.in_which(50, -1, &board), None);
    assert_eq!(bricks.in_which(100, 50, &board), None);
}

#[test]
fn interior_move_is_exact() {
    let mut ball = Ball { position: [5000, 5000], direction: [200, -283], radius: 100 };
    let board = unit_board();
    assert!(ball.can_update(3, &board));
    ball.update(3, &board);
    assert_eq!(ball.position, [5600, 4151]);
    assert_eq!(ball.direction, [200, -283]);
    assert_eq!(ball.radius, 100);
}

#[test]
fn right_edge_bounce() {
    let mut ball = Ball { position: [9500, 5000], direction: [1000, 100], radius: 0 };
    let board = unit_board();
    ball.update(1, &board);
    // next = (10500, 5100)
    assert_eq!(ball.position, [9500, 5100]);
    assert_eq!(ball.direction, [-1000, 100]);
}

#[test]
fn left_and_bottom_bounce_respect_radius() {
    let mut ball = Ball { position: [300, 5000], direction: [-300, 0], radius: 100 };
    let board = unit_board();
    ball.update(1, &board);
    assert_eq!(ball.position, [200, 5000]);
    assert_eq!(ball.direction, [300, 0]);

    let mut low = Ball { position: [5000, 150], direction: [0, -100], radius: 100 };
    low.update(1, &board);
    assert_eq!(low.position, [5000, 150]);
    assert_eq!(low.direction, [0, 100]);
}

#[test]
fn corner_bounce() {
    let mut ball = Ball { position: [9500, 9800], direction: [1000, 400], radius: 0 };
    let board = unit_board();
    ball.update(1, &board);
    // next = (10500, 10200)
    assert_eq!(ball.position, [9500, 9800]);
    assert_eq!(ball.direction, [-1000, -400]);
}

#[test]
fn long_step_bounces_once() {
    // position (0.5, 0.5), direction (0.2, 0.2828) per second, dt = 10 s
    let mut ball = Ball { position: [5000, 5000], direction: [2000, 2828], radius: 0 };
    let board = unit_board();
    ball.update(10, &board);
    // next = (25000, 33280); one mirror at the corner leaves it off the board
    assert_eq!(ball.position, [-5000, -13280]);
    assert_eq!(ball.direction, [-2000, -2828]);
}

#[test]
fn overflowing_update_is_reported() {
    let ball = Ball { position: [5000, 5000], direction: [i64::MAX, 0], radius: 0 };
    let board = unit_board();
    assert!(!ball.can_update(2, &board));
    assert!(ball.can_update(0, &board));
}

#[test]
fn breakout_setup_errors() {
    let ball = Ball { position: [50, 50], direction: [1, 1], radius: 10 };
    assert_eq!(
        Breakout::new(ball, BoardSize { width: 0, height: 100 }, Bricks::new(2, 2)).unwrap_err(),
        SetupError::EmptyBoard
    );
    assert_eq!(
        Breakout::new(ball, BoardSize { width: 100, height: 0 }, Bricks::new(2, 2)).unwrap_err(),
        SetupError::EmptyBoard
    );
    assert_eq!(
        Breakout::new(ball, BoardSize { width: 15, height: 100 }, Bricks::new(2, 2)).unwrap_err(),
        SetupError::BallDoesNotFit
    );
    let negative = Ball { radius: -1, ..ball };
    assert_eq!(
        Breakout::new(negative, BoardSize { width: 100, height: 100 }, Bricks::new(2, 2))
            .unwrap_err(),
        SetupError::BallDoesNotFit
    );
    let game = Breakout::new(ball, BoardSize { width: 20, height: 20 }, Bricks::new(2, 2)).unwrap();
    assert_eq!(game.ball, ball);
}

#[test]
fn breakout_update_moves_ball() {
    let ball = Ball { position: [9500, 5000], direction: [1000, 100], radius: 0 };
    let mut game = Breakout::new(ball, unit_board(), Bricks::new(20, 30)).unwrap();
    assert!(game.can_update(1));
    game.update(1);
    assert_eq!(game.ball.position, [9500, 5100]);
    assert_eq!(game.ball.direction, [-1000, 100]);
    assert_eq!(game.board, unit_board());
}

#[test]
fn breakout_ball_hits_brick() {
    let bricks = Bricks::new_with(10, 10, |_, r| if r == 5 { 2 } else { 0 });
    let ball = Ball { position: [5000, 4000], direction: [0, 1000], radius: 0 };
    let mut game = Breakout::new(ball, unit_board(), bricks).unwrap();
    game.update(1);
    assert_eq!(game.ball.position, [5000, 5000]);
    assert_eq!(game.ball.direction, [0, -1000]);
    assert_eq!(game.bricks.get_life(5, 5), Some(1));
    assert_eq!(game.bricks.get_life(4, 5), Some(2));
    game.update(1);
    assert_eq!(game.ball.position, [5000, 4000]);
    assert_eq!(game.ball.direction, [0, -1000]);
    assert_eq!(game.bricks.get_life(5, 5), Some(1));
}

#[test]
fn breakout_refuses_unnegatable_direction() {
    let ball = Ball { position: [5000, 5000], direction: [0, i64::MIN], radius: 0 };
    let game = Breakout::new(ball, unit_board(), Bricks::new(1, 1)).unwrap();
    assert!(!game.can_update(0));
}

#[test]
fn hit_spends_one_life() {
    let mut bricks = Bricks::new_with(3, 3, |c, _| c);
    assert!(bricks.hit(2, 1));
    assert_eq!(bricks.get_life(2, 1), Some(1));
    assert!(bricks.hit(2, 1));
    assert!(!bricks.hit(2, 1));
    assert_eq!(bricks.get_life(2, 1), Some(0));
    assert!(!bricks.hit(0, 0));
    assert!(!bricks.hit(3, 0));
    assert_eq!(bricks.get_life(1, 1), Some(1));
}

#[test]
fn life_for_keeps_open_rows_empty() {
    assert_eq!(life_for(0, 4, 7), 0);
    assert_eq!(life_for(3, 4, 7), 0);
    assert_eq!(life_for(4, 4, 7), 7);
    assert_eq!(life_for(29, 4, 1), 1);
    assert_eq!(life_for(2, 0, 5), 5);
}
