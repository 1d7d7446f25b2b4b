use extension_eyre::extensions::map::same_type;
use extension_eyre::Extensions;
use std::sync::atomic::{AtomicUsize, Ordering};
use std::sync::Arc;

#[derive(Debug, PartialEq)]
struct Retry(bool);

#[derive(Debug, PartialEq)]
struct Counter(usize);

#[derive(Debug, PartialEq)]
struct Meters(u32);

#[derive(Debug, PartialEq)]
struct Seconds(u32);

#[derive(Debug, PartialEq)]
struct Marker;

struct Counted {
    drops: Arc<AtomicUsize>,
}

impl Drop for Counted {
    fn drop(&mut self) {
        self.drops.fetch_add(1, Ordering::SeqCst);
    }
}

#[test]
fn get_on_an_empty_map_finds_nothing() {
    let map = Extensions::new();
    assert!(map.get::<u32>().is_none());
    assert!(map.get::<Retry>().is_none());
    assert!(map.get::<String>().is_none());
}

#[test]
fn default_is_an_empty_map() {
    let mut map = Extensions::default();
    assert!(map.get::<Retry>().is_none());
    assert!(map.get_mut::<Retry>().is_none());
    assert!(map.remove::<Retry>().is_none());
}

#[test]
fn insert_then_get_finds_the_value() {
    let mut map = Extensions::new();
    map.insert(Retry(true));
    assert_eq!(map.get::<Retry>(), Some(&Retry(true)));
}

#[test]
fn insert_then_get_finds_primitive_values() {
    let mut map = Extensions::new();
    map.insert(5i32);
    map.insert(String::from("five"));
    map.insert(vec![1u8, 2, 3]);
    assert_eq!(map.get::<i32>(), Some(&5));
    assert_eq!(map.get::<String>(), Some(&String::from("five")));
    assert_eq!(map.get::<Vec<u8>>(), Some(&vec![1u8, 2, 3]));
}

#[test]
fn second_insert_of_a_type_replaces_the_first() {
    let mut map = Extensions::new();
    map.insert(Counter(1));
    map.insert(Counter(2));
    assert_eq!(map.get::<Counter>(), Some(&Counter(2)));
    assert_eq!(map.remove::<Counter>(), Some(Counter(2)));
    assert_eq!(map.get::<Counter>(), None);
    assert_eq!(map.remove::<Counter>(), None);
}

#[test]
fn replaced_value_is_dropped_at_once() {
    let drops = Arc::new(AtomicUsize::new(0));
    let mut map = Extensions::new();
    map.insert(Counted { drops: drops.clone() });
    assert_eq!(drops.load(Ordering::SeqCst), 0);
    map.insert(Counted { drops: drops.clone() });
    assert_eq!(drops.load(Ordering::SeqCst), 1);
    drop(map);
    assert_eq!(drops.load(Ordering::SeqCst), 2);
}

#[test]
fn remove_hands_the_value_over_undropped() {
    let drops = Arc::new(AtomicUsize::new(0));
    let mut map = Extensions::new();
    map.insert(Counted { drops: drops.clone() });
    let taken = map.remove::<Counted>();
    assert!(taken.is_some());
    assert_eq!(drops.load(Ordering::SeqCst), 0);
    assert!(map.get::<Counted>().is_none());
    drop(taken);
    assert_eq!(drops.load(Ordering::SeqCst), 1);
}

#[test]
fn remove_returns_the_stored_value_and_leaves_nothing() {
    let mut map = Extensions::new();
    map.insert(Retry(false));
    assert_eq!(map.remove::<Retry>(), Some(Retry(false)));
    assert_eq!(map.get::<Retry>(), None);
    assert!(map.get_mut::<Retry>().is_none());
}

#[test]
fn remove_of_an_absent_type_returns_nothing_and_changes_nothing() {
    let mut map = Extensions::new();
    map.insert(Counter(7));
    assert_eq!(map.remove::<Retry>(), None);
    assert_eq!(map.get::<Counter>(), Some(&Counter(7)));
}

#[test]
fn a_removed_type_can_be_inserted_again() {
    let mut map = Extensions::new();
    map.insert(Counter(1));
    assert_eq!(map.remove::<Counter>(), Some(Counter(1)));
    map.insert(Counter(9));
    assert_eq!(map.get::<Counter>(), Some(&Counter(9)));
}

#[test]
fn get_mut_changes_the_value_in_place() {
    let mut map = Extensions::new();
    map.insert(Counter(0));
    if let Some(Counter(count)) = map.get_mut::<Counter>() {
        *count += 1;
    }
    if let Some(counter) = map.get_mut::<Counter>() {
        counter.0 += 41;
    }
    assert_eq!(map.get::<Counter>(), Some(&Counter(42)));
}

#[test]
fn get_mut_can_replace_the_whole_value() {
    let mut map = Extensions::new();
    map.insert(String::from("before"));
    *map.get_mut::<String>().unwrap() = String::from("after");
    assert_eq!(map.get::<String>().map(String::as_str), Some("after"));
}

#[test]
fn distinct_types_do_not_interfere() {
    let mut map = Extensions::new();
    map.insert(Retry(true));
    map.insert(Counter(3));
    assert_eq!(map.get::<Retry>(), Some(&Retry(true)));
    assert_eq!(map.get::<Counter>(), Some(&Counter(3)));
    map.insert(Counter(4));
    assert_eq!(map.get::<Retry>(), Some(&Retry(true)));
    assert_eq!(map.remove::<Retry>(), Some(Retry(true)));
    assert_eq!(map.get::<Counter>(), Some(&Counter(4)));
}

#[test]
fn types_of_one_shape_are_still_distinct() {
    let mut map = Extensions::new();
    map.insert(Meters(3));
    assert_eq!(map.get::<Seconds>(), None);
    assert_eq!(map.get::<u32>(), None);
    map.insert(Seconds(60));
    map.insert(7u32);
    assert_eq!(map.get::<Meters>(), Some(&Meters(3)));
    assert_eq!(map.get::<Seconds>(), Some(&Seconds(60)));
    assert_eq!(map.get::<u32>(), Some(&7));
    assert_eq!(map.remove::<Meters>(), Some(Meters(3)));
    assert_eq!(map.get::<Seconds>(), Some(&Seconds(60)));
    assert_eq!(map.get::<u32>(), Some(&7));
}

#[test]
fn a_value_and_a_box_of_it_are_distinct_types() {
    let mut map = Extensions::new();
    map.insert(5u32);
    assert!(map.get::<Box<u32>>().is_none());
    assert!(map.get::<&'static u32>().is_none());
    map.insert(Box::new(6u32));
    assert_eq!(map.get::<u32>(), Some(&5));
    assert_eq!(map.get::<Box<u32>>(), Some(&Box::new(6)));
}

#[test]
fn zero_sized_types_are_stored_like_any_other() {
    let mut map = Extensions::new();
    map.insert(Marker);
    map.insert(());
    assert_eq!(map.get::<Marker>(), Some(&Marker));
    assert_eq!(map.get::<()>(), Some(&()));
    assert_eq!(map.remove::<Marker>(), Some(Marker));
    assert_eq!(map.get::<Marker>(), None);
    assert_eq!(map.get::<()>(), Some(&()));
}

#[test]
fn removal_from_the_middle_keeps_the_rest() {
    let mut map = Extensions::new();
    map.insert(1u8);
    map.insert(2u16);
    map.insert(3u32);
    map.insert(4u64);
    assert_eq!(map.remove::<u16>(), Some(2));
    assert_eq!(map.get::<u8>(), Some(&1));
    assert_eq!(map.get::<u16>(), None);
    assert_eq!(map.get::<u32>(), Some(&3));
    assert_eq!(map.get::<u64>(), Some(&4));
    assert_eq!(map.remove::<u8>(), Some(1));
    assert_eq!(map.remove::<u64>(), Some(4));
    assert_eq!(map.get::<u32>(), Some(&3));
}

#[test]
fn a_map_can_move_to_another_thread_with_its_values() {
    let mut map = Extensions::new();
    map.insert(Counter(11));
    let moved = std::sync::mpsc::channel::<Extensions>();
    moved.0.send(map).unwrap();
    let map = moved.1.recv().unwrap();
    assert_eq!(map.get::<Counter>(), Some(&Counter(11)));
}

fn needs_send_and_sync<T: Send + Sync>(_shared: &T) {}

#[test]
fn a_map_can_be_shared_between_threads() {
    let mut map = Extensions::new();
    map.insert(Counter(1));
    needs_send_and_sync(&map);
    let shared = Arc::new(map);
    let reader = shared.clone();
    let seen = std::sync::mpsc::channel::<usize>();
    let sender = seen.0.clone();
    let worker = move || {
        let count = reader.get::<Counter>().map(|counter| counter.0).unwrap_or(0);
        sender.send(count).unwrap();
    };
    worker();
    assert_eq!(seen.1.recv().unwrap(), 1);
    assert_eq!(shared.get::<Counter>(), Some(&Counter(1)));
}

#[test]
fn same_type_tells_types_apart() {
    assert!(same_type::<u32, u32>());
    assert!(same_type::<Meters, Meters>());
    assert!(!same_type::<u32, u64>());
    assert!(!same_type::<Meters, Seconds>());
    assert!(!same_type::<Meters, u32>());
    assert!(!same_type::<u32, Box<u32>>());
    assert!(!same_type::<u32, &'static u32>());
    assert!(!same_type::<(), Marker>());
}
