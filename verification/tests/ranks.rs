use crapette::game::ranks::Rank;

#[test]
fn test_new_rank() {
    assert_eq!(Rank::from(1), Rank(1));
    assert_eq!(Rank::from(13), Rank(13));
}

#[test]
fn test_symbol() {
    assert_eq!(Rank::from(1).symbol(), 'A');
    assert_eq!(Rank::from(2).symbol(), '2');
    assert_eq!(Rank::from(10).symbol(), '0');
    assert_eq!(Rank::from(11).symbol(), 'J');
    assert_eq!(Rank::from(12).symbol(), 'Q');
    assert_eq!(Rank::from(13).symbol(), 'K');
}

#[test]
fn test_name() {
    assert_eq!(Rank::from(1).name(), "Ace");
    assert_eq!(Rank::from(2).name(), "2");
    assert_eq!(Rank::from(10).name(), "10");
    assert_eq!(Rank::from(11).name(), "Jack");
    assert_eq!(Rank::from(12).name(), "Queen");
    assert_eq!(Rank::from(13).name(), "King");
}

#[test]
fn test_rank_neighbours() {
    let five = Rank::from(5);
    let six = Rank::from(6);
    let seven = Rank::from(7);
    assert!(five.is_below(&six));
    assert!(six.is_above(&five));
    assert!(!five.is_above(&six));
    assert!(five.is_above_or_below(&six));
    assert!(six.is_above_or_below(&five));
    assert!(!five.is_above_or_below(&seven));
    assert!(!five.is_above_or_below(&five));
    assert_eq!(six.as_u8(), 6);
    assert!(five < six);
}
