use bevy_cryotheum::weighted_set::{
    WeightedCollection, WeightedCollectionError, WeightedCollectionMut, WeightedItem, WeightedVec,
};

fn sample() -> WeightedVec<char> {
    let mut w = WeightedVec::new();
    w.push(WeightedItem::new('a', 3));
    w.push(WeightedItem::new('b', 2));
    w.push(WeightedItem::new('c', 4));
    w
}

#[test]
fn raffle_picks_by_runs_of_weight() {
    let w = sample();
    assert_eq!(w.total_weight(), 9);
    let picks: Vec<char> = (0..9).map(|n| *w.raffle(n).unwrap().value()).collect();
    assert_eq!(picks, vec!['a', 'a', 'a', 'b', 'b', 'c', 'c', 'c', 'c']);
    assert!(w.raffle(9).is_none());
    assert_eq!(w.raffle(4).unwrap().partition_weight(), 3);
    assert_eq!(w.raffle(4).unwrap().weight(), 2);
}

#[test]
fn pop_returns_last_and_lowers_total() {
    let mut w = sample();
    let item = w.pop().unwrap();
    assert_eq!(item.into_weight(), 4);
    assert_eq!(w.total_weight(), 5);
    assert!(w.raffle(5).is_none());
    w.clear();
    assert_eq!(w.total_weight(), 0);
    assert!(w.pop().is_none());
}

#[test]
fn raffle_mut_changes_the_value() {
    let mut w = sample();
    *w.raffle_mut(7).unwrap() = 'z';
    assert_eq!(*w.raffle(5).unwrap().value(), 'z');
    assert!(w.raffle_mut(100).is_none());
}

#[test]
fn items_and_errors() {
    assert!(matches!(WeightedItem::try_new('a', 0), Err(WeightedCollectionError::ZeroWeight)));
    let item = WeightedItem::try_new('a', 5).ok().unwrap();
    assert_eq!(item.into_inner(), 'a');
    assert_eq!(WeightedItem::from_value('q').into_weight(), 1);
    let mut w: WeightedVec<u8> = WeightedVec::with_capacity(4);
    w.reserve(10);
    w.reserve_exact(3);
    w.push(WeightedItem::new(1, 1));
    assert_eq!(w.total_weight(), 1);
}

#[test]
fn item_conversions() {
    let item: WeightedItem<char> = WeightedItem::from('x');
    assert_eq!(item.clone().into_weight(), 1);
    assert_eq!(item.into_inner(), 'x');
    let d: WeightedItem<u8> = WeightedItem::default();
    assert_eq!(d.into_weight(), 1);
    let v: WeightedVec<u8> = WeightedVec::default();
    assert_eq!(v.total_weight(), 0);
}
