use puzzles::probe::{run_probe, Probe};

const TARGET: ((i32, i32), (i32, i32)) = ((20, -10), (30, -5));

fn launch(x_vel: i32, y_vel: i32) -> (bool, Vec<(i32, i32)>) {
    run_probe(Probe { x: 0, y: 0, x_vel, y_vel }, &TARGET)
}

#[test]
fn probe_steps() {
    let mut p = Probe { x: 0, y: 0, x_vel: 7, y_vel: 2 };
    assert_eq!(p.next(), ((7, 2), (6, 1)));
    assert_eq!(p.next(), ((13, 3), (5, 0)));
    let mut q = Probe { x: 0, y: 0, x_vel: -2, y_vel: 0 };
    assert_eq!(q.next(), ((-2, 0), (-1, -1)));
    assert_eq!(q.next(), ((-3, -1), (0, -2)));
}

#[test]
fn hits_and_misses() {
    assert!(launch(7, 2).0);
    assert!(launch(6, 3).0);
    assert!(launch(9, 0).0);
    assert!(!launch(17, -4).0);
}

#[test]
fn trajectory_points_in_order() {
    let (hit, points) = launch(7, 2);
    assert!(hit);
    assert_eq!(
        points,
        vec![(7, 2), (13, 3), (18, 3), (22, 2), (25, 0), (27, -3), (28, -7)]
    );
}

#[test]
fn counts_every_hitting_velocity() {
    let mut hits = 0;
    for x_vel in 1..=TARGET.1 .0 {
        for y_vel in -100..100 {
            if launch(x_vel, y_vel).0 {
                hits += 1;
            }
        }
    }
    assert_eq!(hits, 112);
}

#[test]
fn map_of_a_flight() {
    let target = ((2, -3), (3, -2));
    let (hit, points) = run_probe(Probe { x: 0, y: 0, x_vel: 2, y_vel: 0 }, &target);
    assert!(hit);
    assert_eq!(points, vec![(2, 0), (3, -1), (3, -3)]);
    let (rows, corners) = puzzles::probe::probe_map(&points, &target);
    assert_eq!(corners, (0, -3, 3, 0));
    let text: Vec<String> = rows.into_iter().map(|r| String::from_utf8(r).unwrap()).collect();
    assert_eq!(text, vec!["S.#.", "...#", "..TT", "..T#"]);
}
