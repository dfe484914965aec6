use puzzles::bingo::BingoBoard;
use puzzles::burrow::{Hallway, Metapod, Room};
use puzzles::dice::Dice;
use puzzles::image::{EnhancementAlgorithm, Image};
use puzzles::paper::Paper;

fn board() -> BingoBoard {
    let mut cells = [None; 25];
    for i in 0..25 {
        cells[i] = Some(i as u8 + 1);
    }
    BingoBoard(cells)
}

#[test]
fn bingo_rows_and_columns() {
    let b = board();
    assert_eq!(b.row(1), [Some(6), Some(7), Some(8), Some(9), Some(10)]);
    assert_eq!(b.col(2), [Some(3), Some(8), Some(13), Some(18), Some(23)]);
    assert!(!b.bingo());
}

#[test]
fn bingo_by_column() {
    let mut b = board();
    for n in [4, 9, 14, 19] {
        b.remove(n);
        assert!(!b.bingo());
    }
    b.remove(24);
    assert!(b.bingo());
    assert_eq!(b.unmarked_sum(), 325 - (4 + 9 + 14 + 19 + 24));
}

#[test]
fn bingo_by_row() {
    let mut b = board();
    for n in 21..=25 {
        b.remove(n);
    }
    assert!(b.bingo());
    b.remove(99);
    assert_eq!(b.unmarked_sum(), 325 - (21 + 22 + 23 + 24 + 25));
}

#[test]
fn dice_wraps_after_hundred() {
    let (d, v) = Dice::DETERMINISTIC(1).roll();
    assert_eq!(v, 1);
    assert_eq!(d, Dice::DETERMINISTIC(2));
    let (d, v) = Dice::DETERMINISTIC(100).roll();
    assert_eq!(v, 100);
    assert_eq!(d, Dice::DETERMINISTIC(1));
}

#[test]
fn paper_folds() {
    let mut p = Paper::new();
    p.add_point(0, 0);
    p.add_point(6, 1);
    p.add_point(2, 4);
    assert_eq!((p.width, p.height), (7, 5));
    p.fold_x();
    assert_eq!(p.width, 3);
    assert_eq!(p.points, vec![(0, 0), (0, 1), (2, 4)]);
    p.fold_y();
    assert_eq!(p.height, 2);
    assert_eq!(p.points, vec![(0, 0), (0, 1), (2, 0)]);
}

#[test]
fn metapod_properties() {
    assert_eq!(Metapod::COPPER.char(), 'C');
    assert_eq!(Metapod::DESERT.step_cost(), 1000);
    assert_eq!(Metapod::BRONZE.room(), 1);
    assert_eq!(Hallway::room_pos(3), 8);
}

#[test]
fn room_states() {
    let done = Room(Metapod::AMBER, [Some(Metapod::AMBER), Some(Metapod::AMBER)]);
    assert!(done.complete());
    assert_eq!(done.top(), None);
    assert_eq!(done.accept(Metapod::AMBER), None);

    let mixed = Room(Metapod::AMBER, [None, Some(Metapod::BRONZE)]);
    assert!(!mixed.complete());
    assert_eq!(mixed.top(), Some((1, Metapod::BRONZE)));
    assert_eq!(mixed.accept(Metapod::AMBER), None);

    let half = Room(Metapod::COPPER, [None, Some(Metapod::COPPER)]);
    assert_eq!(half.top(), None);
    assert_eq!(half.accept(Metapod::COPPER), Some(0));
    assert_eq!(half.accept(Metapod::AMBER), None);
}

#[test]
fn hallway_paths() {
    let mut cells = [None; 11];
    cells[0] = Some(Metapod::AMBER);
    cells[5] = Some(Metapod::DESERT);
    cells[10] = Some(Metapod::BRONZE);
    let h = Hallway(cells);
    assert!(h.is_clear(0, 2));
    assert!(h.is_clear(5, 8));
    assert!(!h.is_clear(10, 4));
    assert_eq!(h.waiting(), vec![(Metapod::AMBER, 0), (Metapod::DESERT, 5)]);
}

#[test]
fn pixel_window_reads_rows() {
    // ...
    // #..
    // .#.
    let img = Image {
        lit: vec![false, false, false, true, false, false, false, true, false],
        x1: 0,
        x2: 2,
        y1: 0,
        y2: 2,
    };
    assert_eq!(img.pixel_window(1, 1, false), 0b000100010);
    assert_eq!(img.pixel_window(0, 0, true), 0b111100110);
}

#[test]
fn enhance_grows_image() {
    let mut rule = [false; 512];
    rule[0b000010000] = true;
    let alg = EnhancementAlgorithm(rule);
    let img = Image { lit: vec![true], x1: 0, x2: 0, y1: 0, y2: 0 };
    let next = alg.enhance(img, 0);
    assert_eq!((next.x1, next.x2, next.y1, next.y2), (-1, 1, -1, 1));
    assert_eq!(
        next.lit,
        vec![false, false, false, false, true, false, false, false, false]
    );
}

const EXAMPLE_RULE: &str = "..#.#..#####.#.#.#.###.##.....###.##.#..###.####..#####..#....#..#..##..###..######.###...####..#..#####..##..#.#####...##.#.#..#.##..#.#......#.###.######.###.####...#.##.##..#..#..#####.....#.#....###..#.##......#.....#..#..#..##..#...##.######.####.####.#.#...#.......#..#.#.#...####.##.#......#..#...##.#.##..#...##.#.##..###.#......#.#.......#.#.#.####.###.##...#.....####.#..#..#.##.#....##..#.####....##...##..#...#......#.#.......#.......##..####..#...#.#.#...##..#.#..###..#####........#..####......#..#";

fn rows(text: &[&str]) -> Vec<Vec<u8>> {
    text.iter().map(|r| r.as_bytes().to_vec()).collect()
}

#[test]
fn image_reads_bounding_box() {
    let img = Image::from_rows(&rows(&["....", "..#.", ".#..", "...."])).unwrap();
    assert_eq!((img.x1, img.x2, img.y1, img.y2), (1, 2, 1, 2));
    assert_eq!(img.lit, vec![false, true, true, false]);
    assert_eq!(img.lit_count(), 2);
    assert!(Image::from_rows(&rows(&["..", ".."])).is_none());
    assert!(Image::from_rows(&rows(&["#x"])).is_none());
}

#[test]
fn rule_reads_hashes() {
    let alg = EnhancementAlgorithm::parse(EXAMPLE_RULE.as_bytes()).unwrap();
    assert!(!alg.0[0]);
    assert!(alg.0[2]);
    assert!(alg.0[34]);
    assert!(EnhancementAlgorithm::parse(b"#.#").is_none());
    let mut bad = EXAMPLE_RULE.as_bytes().to_vec();
    bad[7] = b'x';
    assert!(EnhancementAlgorithm::parse(&bad).is_none());
}

#[test]
fn enhance_example_twice() {
    let alg = EnhancementAlgorithm::parse(EXAMPLE_RULE.as_bytes()).unwrap();
    let img = Image::from_rows(&rows(&["#..#.", "#....", "##..#", "..#..", "..###"])).unwrap();
    let img = alg.enhance(img, 0);
    assert_eq!(img.lit_count(), 24);
    let img = alg.enhance(img, 1);
    assert_eq!(img.lit_count(), 35);
}

use puzzles::burrow::State;

fn room2(kind: Metapod, top: Option<Metapod>, bottom: Option<Metapod>) -> Room<2> {
    Room(kind, [top, bottom])
}

fn solved_rooms() -> [Room<2>; 4] {
    [
        room2(Metapod::AMBER, Some(Metapod::AMBER), Some(Metapod::AMBER)),
        room2(Metapod::BRONZE, Some(Metapod::BRONZE), Some(Metapod::BRONZE)),
        room2(Metapod::COPPER, Some(Metapod::COPPER), Some(Metapod::COPPER)),
        room2(Metapod::DESERT, Some(Metapod::DESERT), Some(Metapod::DESERT)),
    ]
}

#[test]
fn state_complete() {
    let s = State { hallway: Hallway([None; 11]), rooms: solved_rooms(), cost: 0, prev: None };
    assert!(s.complete());
    assert!(s.next_states().is_empty());
}

#[test]
fn hallway_amphipod_goes_home_first() {
    let mut rooms = solved_rooms();
    rooms[0] = room2(Metapod::AMBER, None, Some(Metapod::AMBER));
    let mut cells = [None; 11];
    cells[0] = Some(Metapod::AMBER);
    let s = State { hallway: Hallway(cells), rooms, cost: 5, prev: None };
    assert!(!s.complete());
    let next = s.next_states();
    assert_eq!(next.len(), 1);
    assert_eq!(next[0].cost, 5 + 3);
    assert!(next[0].complete());
    assert_eq!(next[0].hallway.0[0], None);
    assert_eq!(next[0].prev.as_ref().unwrap().cost, 5);
}

#[test]
fn room_to_room_move() {
    let mut rooms = solved_rooms();
    rooms[0] = room2(Metapod::AMBER, Some(Metapod::BRONZE), Some(Metapod::AMBER));
    rooms[1] = room2(Metapod::BRONZE, None, Some(Metapod::BRONZE));
    let s = State { hallway: Hallway([None; 11]), rooms, cost: 0, prev: None };
    let next = s.next_states();
    assert_eq!(next.len(), 1);
    assert_eq!(next[0].cost, 40);
    assert_eq!(next[0].rooms[0].1, [None, Some(Metapod::AMBER)]);
    assert_eq!(next[0].rooms[1].1, [Some(Metapod::BRONZE), Some(Metapod::BRONZE)]);
}

#[test]
fn moves_out_to_every_free_cell() {
    let mut rooms = solved_rooms();
    rooms[0] = room2(Metapod::AMBER, Some(Metapod::BRONZE), Some(Metapod::AMBER));
    rooms[1] = room2(Metapod::BRONZE, Some(Metapod::AMBER), Some(Metapod::BRONZE));
    let s = State { hallway: Hallway([None; 11]), rooms, cost: 0, prev: None };
    let next = s.next_states();
    // two rooms, seven cells each
    assert_eq!(next.len(), 14);
    assert_eq!(next[0].hallway.0[0], Some(Metapod::BRONZE));
    assert_eq!(next[0].cost, (1 + 0 + 2) * 10);
    assert_eq!(next[7].hallway.0[0], Some(Metapod::AMBER));
    assert_eq!(next[7].cost, (1 + 0 + 4) * 1);
    assert_eq!(next[13].hallway.0[10], Some(Metapod::AMBER));
}

const EXAMPLE_MAP: &str = "#############\n#...........#\n###B#C#B#D###\n  #A#D#C#A#\n  #########";

#[test]
fn map_is_read() {
    let s = State::<2>::parse(EXAMPLE_MAP.as_bytes()).unwrap();
    assert_eq!(s.cost, 0);
    assert!(s.prev.is_none());
    assert_eq!(s.hallway.0, [None; 11]);
    assert_eq!(s.rooms[0].0, Metapod::AMBER);
    assert_eq!(s.rooms[0].1, [Some(Metapod::BRONZE), Some(Metapod::AMBER)]);
    assert_eq!(s.rooms[1].1, [Some(Metapod::COPPER), Some(Metapod::DESERT)]);
    assert_eq!(s.rooms[3].0, Metapod::DESERT);
    assert_eq!(s.rooms[3].1, [Some(Metapod::DESERT), Some(Metapod::AMBER)]);
    // Amphipods can only leave: each of the four tops to seven cells.
    assert_eq!(s.next_states().len(), 28);
}

#[test]
fn broken_maps_are_rejected() {
    assert!(State::<2>::parse(b"#############\n#...........#\n").is_none());
    let bad_cell = EXAMPLE_MAP.replace("###B#C", "###E#C");
    assert!(State::<2>::parse(bad_cell.as_bytes()).is_none());
    let bad_frame = EXAMPLE_MAP.replace("  #A#D", " ##A#D");
    assert!(State::<2>::parse(bad_frame.as_bytes()).is_none());
    let with_walker = EXAMPLE_MAP.replace("#...........#", "#.....A.....#");
    let s = State::<2>::parse(with_walker.as_bytes()).unwrap();
    assert_eq!(s.hallway.0[5], Some(Metapod::AMBER));
}
