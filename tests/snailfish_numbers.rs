use std::collections::HashMap;

use puzzles::snailfish::{explode, reduce, split, Pair, PairElement, ReduceOp};

fn text(p: &Pair) -> String {
    String::from_utf8(p.render()).unwrap()
}

#[test]
fn display_pair() {
    assert_eq!(text(&Pair::new(1, 2)), "[1,2]");
}

#[test]
fn add_pair() {
    let lhs = Pair::new(1, 2);
    let rhs = Pair::new(Pair::new(3, 4), 5);
    assert_eq!(text(&(lhs + rhs)), "[[1,2],[[3,4],5]]")
}

#[test]
fn parse() {
    let pair = "[1,2]".parse::<Pair>().unwrap();

    match pair.lhs {
        PairElement::NUM(n) => assert_eq!(n, 1),
        _ => panic!("lhs not NUM"),
    }
    match pair.rhs {
        PairElement::NUM(n) => assert_eq!(n, 2),
        _ => panic!("rhs not NUM"),
    }
}

#[test]
fn parse_nested() {
    let pair = "[[1,2],[3,4]]".parse::<Pair>().unwrap();

    match pair.lhs {
        PairElement::PAIR(nested) => {
            match nested.lhs {
                PairElement::NUM(n) => assert_eq!(n, 1),
                _ => panic!("nested.lhs not NUM"),
            }
            match nested.rhs {
                PairElement::NUM(n) => assert_eq!(n, 2),
                _ => panic!("nested.rhs not NUM"),
            }
        }
        _ => panic!("lhs not PAIR"),
    }
    match pair.rhs {
        PairElement::PAIR(nested) => {
            match nested.lhs {
                PairElement::NUM(n) => assert_eq!(n, 3),
                _ => panic!("nested.lhs not NUM"),
            }
            match nested.rhs {
                PairElement::NUM(n) => assert_eq!(n, 4),
                _ => panic!("nested.rhs not NUM"),
            }
        }
        _ => panic!("rhs not PAIR"),
    }
}

#[test]
fn parse_complex() {
    let str = "[[[[1,3],[5,3]],[[1,3],[8,7]]],[[[4,9],[6,9]],[[8,2],[7,3]]]]";
    let p = str.parse::<Pair>().unwrap();
    assert_eq!(str, text(&p));
}

#[test]
fn test_nested_addition() {
    let sum = Pair::new(1, 1) + Pair::new(2, 2) + Pair::new(3, 3) + Pair::new(4, 4);
    assert_eq!(text(&sum), "[[[[1,1],[2,2]],[3,3]],[4,4]]");
}

#[test]
fn test_reduce_explode() {
    let mut tests = HashMap::new();
    tests.insert("[[[[[9,8],1],2],3],4]", "[[[[0,9],2],3],4]");
    tests.insert("[7,[6,[5,[4,[3,2]]]]]", "[7,[6,[5,[7,0]]]]");
    tests.insert("[[6,[5,[4,[3,2]]]],1]", "[[6,[5,[7,0]]],3]");
    tests.insert(
        "[[3,[2,[1,[7,3]]]],[6,[5,[4,[3,2]]]]]",
        "[[3,[2,[8,0]]],[9,[5,[4,[3,2]]]]]",
    );
    tests.insert(
        "[[3,[2,[8,0]]],[9,[5,[4,[3,2]]]]]",
        "[[3,[2,[8,0]]],[9,[5,[7,0]]]]",
    );

    for (orig, expected) in tests.iter() {
        let mut pair = orig.parse::<Pair>().unwrap();
        reduce(&mut pair);
        assert_eq!(&text(&pair), expected);
    }
}

#[test]
fn test_split() {
    let mut pair = Pair::new(11, 123);
    reduce(&mut pair);
    assert_eq!(text(&pair), "[[5,6],123]");

    let mut pair = Pair::new(9, 11);
    reduce(&mut pair);
    assert_eq!(text(&pair), "[9,[5,6]]");
}

#[test]
fn test_i_think_im_sick_of_this_exercise_now() {
    let left = "[[[[4,3],4],4],[7,[[8,4],9]]]".parse::<Pair>().unwrap();
    let right = Pair::new(1, 1);
    let mut pair = left + right;

    println!("{}", text(&pair));

    loop {
        let result = reduce(&mut pair);
        println!("{} (result: {:?})", text(&pair), result);
        if result.is_none() {
            break;
        }
    }

    assert_eq!(text(&pair), "[[[[0,7],4],[[7,8],[6,0]]],[8,1]]");
}

#[test]
fn test_magnitude() {
    assert_eq!(Pair::new(9, 1).magnitude(), 29);

    let pair = "[[1,2],[[3,4],5]]".parse::<Pair>().unwrap();
    assert_eq!(pair.magnitude(), 143);
}

#[test]
fn test_pls_make_it_end_this_is_a_very_pointless_way_to_spend_my_limited_time() {
    let mut sum = Pair::new(1, 1) + Pair::new(2, 2);
    for x in 3..=5 {
        sum = sum + Pair::new(x, x);
        while let Some(_) = reduce(&mut sum) {}
    }
    assert_eq!(text(&sum), "[[[[3,0],[5,3]],[4,4]],[5,5]]");

    let mut sum = Pair::new(1, 1) + Pair::new(2, 2);
    for x in 3..=6 {
        sum = sum + Pair::new(x, x);
        while let Some(_) = reduce(&mut sum) {}
    }
    assert_eq!(text(&sum), "[[[[5,0],[7,4]],[5,5]],[6,6]]");
}

#[test]
fn test_pls_kill_me_i_am_in_great_pain() {
    let l = "[[[0,[4,5]],[0,0]],[[[4,5],[2,6]],[9,5]]]".parse::<Pair>().unwrap();
    let r = "[7,[[[3,7],[4,3]],[[6,3],[8,8]]]]".parse::<Pair>().unwrap();

    let mut sum = l + r;

    println!("START: {}", text(&sum));
    while let Some(op) = reduce(&mut sum) {
        println!("{} ({:?})", text(&sum), op);
    }

    assert_eq!(
        text(&sum),
        "[[[[4,0],[5,4]],[[7,7],[6,0]]],[[8,[7,7]],[[7,9],[5,0]]]]"
    );
}

#[test]
fn magnitude_of_larger_sum() {
    let p = "[[[[8,7],[7,7]],[[8,6],[7,7]]],[[[0,7],[6,6]],[8,7]]]"
        .parse::<Pair>()
        .unwrap();
    assert_eq!(p.magnitude(), 3488);
}

#[test]
fn parse_rejects_malformed_text() {
    assert_eq!("[1,2".parse::<Pair>().unwrap_err().position, 4);
    assert_eq!("[1;2]".parse::<Pair>().unwrap_err().position, 2);
    assert_eq!("[1,2]x".parse::<Pair>().unwrap_err().position, 5);
    assert_eq!("[,2]".parse::<Pair>().unwrap_err().position, 1);
    assert_eq!("[99999999999999999999,2]".parse::<Pair>().unwrap_err().position, 1);
}

#[test]
fn explode_reports_unplaced_numbers() {
    let mut pair = "[[[[[9,8],1],2],3],4]".parse::<Pair>().unwrap();
    assert_eq!(explode(&mut pair, 1), Some((Some(9), None)));
    assert_eq!(text(&pair), "[[[[0,9],2],3],4]");

    let mut pair = "[1,2]".parse::<Pair>().unwrap();
    assert_eq!(explode(&mut pair, 1), None);
    assert_eq!(text(&pair), "[1,2]");
}

#[test]
fn split_rounds_halves() {
    let mut pair = Pair::new(10, 15);
    assert!(split(&mut pair));
    assert_eq!(text(&pair), "[[5,5],15]");
    assert!(split(&mut pair));
    assert_eq!(text(&pair), "[[5,5],[7,8]]");
    assert!(!split(&mut pair));
}

#[test]
fn reduce_names_its_step() {
    let mut pair = "[[[[[1,1],1],1],1],12]".parse::<Pair>().unwrap();
    assert_eq!(reduce(&mut pair), Some(ReduceOp::EXPLODE));
    assert_eq!(reduce(&mut pair), Some(ReduceOp::SPLIT));
    assert_eq!(text(&pair), "[[[[0,2],1],1],[6,6]]");
    assert_eq!(reduce(&mut pair), None);
}

#[test]
fn negative_numbers_render_with_sign() {
    assert_eq!(text(&Pair::new(-3, 40)), "[-3,40]");
}

#[test]
fn is_regular_and_num() {
    let p = Pair::new(4, Pair::new(1, 2));
    assert!(!p.is_regular());
    assert_eq!(p.lhs.num(), 4);
    assert!(Pair::new(4, 5).is_regular());
}
