use puzzles::scanner::{parse_input, Loc, Scanner};

fn scanner_with(beacons: &[(i32, i32, i32)]) -> Scanner {
    let mut s = Scanner::new();
    for &(x, y, z) in beacons {
        s.beacons.push(Loc::new(x, y, z));
    }
    s
}

#[test]
fn six_facings() {
    let mut s = scanner_with(&[(1, 2, 3)]);
    s.change_axis();
    assert_eq!(s.beacons[0], Loc::new(3, 2, -1));
    s.change_axis();
    s.change_axis();
    s.change_axis();
    assert_eq!(s.beacons[0], Loc::new(1, 2, 3));
    s.change_axis();
    assert_eq!(s.beacons[0], Loc::new(1, -3, 2));
    s.change_axis();
    assert_eq!(s.beacons[0], Loc::new(1, 3, -2));
    assert_eq!(s.axis, 6);
}

#[test]
fn quarter_turns() {
    let mut s = scanner_with(&[(1, 2, 3)]);
    s.rotate_axis();
    assert_eq!(s.beacons[0], Loc::new(-2, 1, 3));
    s.rotate_axis();
    s.rotate_axis();
    s.rotate_axis();
    assert_eq!(s.beacons[0], Loc::new(1, 2, 3));
}

#[test]
fn match_and_align() {
    let known = vec![
        Loc::new(0, 0, 0),
        Loc::new(1, 0, 0),
        Loc::new(0, 1, 0),
        Loc::new(0, 0, 1),
    ];
    let mut s = scanner_with(&[(5, 5, 5), (6, 5, 5), (5, 6, 5), (5, 5, 6)]);
    assert!(s.all_match(&known));
    assert_eq!(s.correction, (5, 5, 5));
    s.align();
    assert_eq!(
        s.beacons,
        vec![
            Loc::new(0, 0, 0),
            Loc::new(1, 0, 0),
            Loc::new(0, 1, 0),
            Loc::new(0, 0, 1)
        ]
    );
}

#[test]
fn no_match_keeps_correction() {
    let known = vec![Loc::new(0, 0, 0), Loc::new(1, 0, 0)];
    let mut s = scanner_with(&[(5, 5, 5), (6, 5, 5)]);
    assert!(!s.all_match(&known));
    assert_eq!(s.correction, (0, 0, 0));
}

fn lines(text: &str) -> Vec<Vec<u8>> {
    text.lines().map(|l| l.as_bytes().to_vec()).collect()
}

#[test]
fn report_is_read() {
    let report = "--- scanner 0 ---\n0,2\n4,1\n3,3\n\n--- scanner 1 ---\n-1,-1,5\n-5,0,+7\n-1,-1,5\n";
    let scanners = parse_input(&lines(report)).unwrap();
    assert_eq!(scanners.len(), 2);
    assert_eq!(
        scanners[0].beacons,
        vec![Loc::new(0, 2, 0), Loc::new(4, 1, 0), Loc::new(3, 3, 0)]
    );
    assert_eq!(scanners[1].beacons, vec![Loc::new(-1, -1, 5), Loc::new(-5, 0, 7)]);
    assert_eq!(scanners[1].axis, 0);
}

#[test]
fn malformed_reports_are_rejected() {
    assert!(parse_input(&lines("1,2,3\n--- scanner 0 ---\n")).is_none());
    assert!(parse_input(&lines("--- scanner 0 ---\n1;2\n")).is_none());
    assert!(parse_input(&lines("--- scanner 0 ---\n1,x\n")).is_none());
    assert!(parse_input(&lines("--- scanner 0 ---\n1,2,3000000000\n")).is_none());
    assert!(parse_input(&lines("--- scanner 0 ---\n-,2\n")).is_none());
    assert_eq!(parse_input(&lines("")).unwrap().len(), 0);
    let s = parse_input(&lines("--- scanner 0 ---\n1,2,3,4\n")).unwrap();
    assert_eq!(s[0].beacons, vec![Loc::new(1, 2, 3)]);
}
