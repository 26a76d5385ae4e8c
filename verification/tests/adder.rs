use minigrep::adder::{add_to_each, add_two, greeting, internal_adder, Rectangle};
use minigrep::guess::Guess;

#[test]
fn it_works() {
    let result = minigrep::adder::add(2, 2);
    assert_eq!(result, 4);
}

#[test]
fn exploration() {
    assert_eq!(2 + 2, 4);
}

#[test]
fn larger_can_hold_smaller() {
    let larger = Rectangle {
        width: 8,
        height: 7,
    };
    let smaller = Rectangle {
        width: 5,
        height: 1,
    };
    assert!(larger.can_hold(&smaller));
}

#[test]
fn smaller_cannot_hold_larger() {
    let larger = Rectangle {
        width: 8,
        height: 7,
    };
    let smaller = Rectangle {
        width: 5,
        height: 1,
    };
    assert!(!smaller.can_hold(&larger));
}

#[test]
fn lib_it_adds_two() {
    assert_eq!(4, add_two(2));
}

#[test]
fn integration_test_it_adds_two() {
    assert_eq!(4, minigrep::adder::add_two(2));
}

#[test]
fn it_does_not_add_three() {
    assert_ne!(5, add_two(2));
}

#[test]
fn greeting_contains_name() {
    let result = greeting("Carol");
    assert!(
        result.contains("Carol"),
        "greeting が名前を含んでいません。値は `{}` でした",
        result
    );
}

#[test]
fn it_works_with_result() -> Result<(), String> {
    if 2 + 2 == 4 {
        Ok(())
    } else {
        Err(String::from("2 + 2 が 4 になりませんでした"))
    }
}

#[test]
fn internal() {
    assert_eq!(4, internal_adder(2, 2));
}

#[test]
fn it_adds() {
    assert_eq!(10, minigrep::adder::add(3, 7));
}

#[test]
fn greeting_works() {
    let result = greeting("World");
    assert!(result.contains("World"));
}

#[test]
fn rectangle_can_hold() {
    let larger = Rectangle {
        width: 10,
        height: 10,
    };
    let smaller = Rectangle {
        width: 5,
        height: 5,
    };
    assert!(larger.can_hold(&smaller));
}

#[test]
fn greeting_is_exact() {
    assert_eq!(greeting("Carol"), "Hello Carol!");
    assert_eq!(greeting(""), "Hello !");
}

#[test]
fn rectangle_needs_room_on_both_axes() {
    let a = Rectangle { width: 8, height: 7 };
    assert!(!a.can_hold(&Rectangle { width: 8, height: 1 }));
    assert!(!a.can_hold(&Rectangle { width: 1, height: 7 }));
    assert!(!a.can_hold(&Rectangle { width: 8, height: 7 }));
    assert!(a.can_hold(&Rectangle { width: 7, height: 6 }));
}

#[test]
fn sums_at_the_limits() {
    assert_eq!(minigrep::adder::add(u64::MAX, 0), u64::MAX);
    assert_eq!(add_two(i32::MAX - 2), i32::MAX);
    assert_eq!(add_two(i32::MIN), i32::MIN + 2);
    assert_eq!(internal_adder(i32::MIN, i32::MAX), -1);
}

#[test]
fn guess_keeps_its_number() {
    assert_eq!(Guess::new(1).value(), 1);
    assert_eq!(Guess::new(50).value(), 50);
    assert_eq!(Guess::new(100).value(), 100);
}

#[test]
fn every_number_is_raised() {
    let mut v = vec![100, 32, 50];
    add_to_each(&mut v, 50);
    assert_eq!(v, vec![150, 82, 100]);
    let mut none: Vec<i32> = Vec::new();
    add_to_each(&mut none, 1);
    assert!(none.is_empty());
    let mut edge = vec![i32::MAX - 1, i32::MIN];
    add_to_each(&mut edge, 1);
    assert_eq!(edge, vec![i32::MAX, i32::MIN + 1]);
}
