use minigrep::shirts::{Inventory, ShirtColor};

#[test]
fn preference_wins_over_stock() {
    let store = Inventory {
        shirts: vec![ShirtColor::Blue, ShirtColor::Red, ShirtColor::Blue],
    };
    assert_eq!(store.giveaway(Some(ShirtColor::Red)), ShirtColor::Red);
    assert_eq!(store.giveaway(Some(ShirtColor::Blue)), ShirtColor::Blue);
}

#[test]
fn without_preference_the_most_stocked_color_is_given() {
    let store = Inventory {
        shirts: vec![ShirtColor::Blue, ShirtColor::Red, ShirtColor::Blue],
    };
    assert_eq!(store.giveaway(None), ShirtColor::Blue);
    let store = Inventory {
        shirts: vec![ShirtColor::Red, ShirtColor::Red, ShirtColor::Blue],
    };
    assert_eq!(store.giveaway(None), ShirtColor::Red);
    assert_eq!(store.most_stocked(), ShirtColor::Red);
}

#[test]
fn blue_on_a_tie_and_in_an_empty_store() {
    let store = Inventory {
        shirts: vec![ShirtColor::Red, ShirtColor::Blue],
    };
    assert_eq!(store.most_stocked(), ShirtColor::Blue);
    let store = Inventory { shirts: Vec::new() };
    assert_eq!(store.most_stocked(), ShirtColor::Blue);
    assert_eq!(store.giveaway(None), ShirtColor::Blue);
}
