use minigrep::largest::{largest, largest_char, largest_i32};

#[test]
fn largest_number() {
    assert_eq!(*largest_i32(&[34, 50, 25, 100, 65]), 100);
    assert_eq!(*largest_i32(&[7]), 7);
    assert_eq!(*largest_i32(&[-3, -1, -2]), -1);
    assert_eq!(*largest_i32(&[i32::MIN, i32::MAX, 0]), i32::MAX);
}

#[test]
fn largest_character() {
    assert_eq!(*largest_char(&['y', 'm', 'a', 'q']), 'y');
    assert_eq!(*largest_char(&['a', 'あ', 'z']), 'あ');
}

#[test]
fn largest_of_any_ordered_type() {
    assert_eq!(*largest(&[34, 50, 25, 100, 65]), 100);
    assert_eq!(*largest(&['y', 'm', 'a', 'q']), 'y');
    assert_eq!(*largest(&["pear", "apple", "quince"]), "quince");
}

#[test]
fn the_first_of_equal_elements_stays() {
    let list = [Keyed(1, 'a'), Keyed(1, 'b'), Keyed(0, 'c')];
    assert_eq!(largest(&list).1, 'a');
    let list = [Keyed(1, 'a'), Keyed(2, 'b'), Keyed(2, 'c')];
    assert_eq!(largest(&list).1, 'b');
}

#[test]
fn what_cannot_be_compared_is_passed_over() {
    assert_eq!(*largest(&[1.0, f64::NAN, 3.0, 2.0]), 3.0);
    assert!(largest(&[f64::NAN, 3.0]).is_nan());
}

#[derive(Debug)]
struct Keyed(i32, char);

impl PartialEq for Keyed {
    fn eq(&self, other: &Keyed) -> bool {
        self.0 == other.0
    }
}

impl PartialOrd for Keyed {
    fn partial_cmp(&self, other: &Keyed) -> Option<std::cmp::Ordering> {
        self.0.partial_cmp(&other.0)
    }
}
