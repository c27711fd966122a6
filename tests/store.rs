use infinite_cookbook::collection::Collection;
use infinite_cookbook::finite_item::FiniteItem;
use infinite_cookbook::item::{Item, PLACEHOLDER_EMOJI};
use infinite_cookbook::pair::sort_items;

#[test]
fn canonical_order_ignores_argument_order() {
    assert_eq!(sort_items("Water", "Fire"), sort_items("Fire", "Water"));
    assert_eq!(sort_items("Water", "Fire"), ("Fire".to_string(), "Water".to_string()));
    assert_eq!(sort_items("Fire", "Fire"), ("Fire".to_string(), "Fire".to_string()));
}

#[test]
fn names_order_by_code_point() {
    assert_eq!(sort_items("Fire", "Fir"), ("Fir".to_string(), "Fire".to_string()));
    assert_eq!(sort_items("apple", "Zebra"), ("Zebra".to_string(), "apple".to_string()));
    assert_eq!(sort_items("éclair", "zoo"), ("zoo".to_string(), "éclair".to_string()));
}

#[test]
fn seed_store_holds_four_items() {
    let store = Collection::new();
    assert_eq!(store.len(), 4);
    assert!(!store.is_empty());
    for name in ["Water", "Fire", "Wind", "Earth"] {
        let it = store.get_item(name).unwrap();
        assert_eq!(it.as_str(), name);
        assert!(it.parents().is_empty());
        assert!(!it.is_new());
    }
    assert_eq!(store.get_item("Fire").unwrap().emoji(), "🔥");
    assert!(store.get_item("Steam").is_none());
}

#[test]
fn insert_or_update_twice_keeps_one_pair() {
    let mut store = Collection::new();
    assert!(store.insert_or_update("Steam", "💨", true, "Fire", "Water"));
    assert!(!store.insert_or_update("Steam", "💨", true, "Fire", "Water"));
    assert!(!store.insert_or_update("Steam", "💨", true, "Water", "Fire"));
    let steam = store.get_item("Steam").unwrap();
    assert_eq!(steam.parents().len(), 1);
    assert_eq!(steam.parents()[0], ("Fire".to_string(), "Water".to_string()));
}

#[test]
fn update_keeps_glyph_and_flag() {
    let mut store = Collection::new();
    store.insert_or_update("Steam", "💨", true, "Fire", "Water");
    store.insert_or_update("Steam", "🌫️", false, "Earth", "Fire");
    let steam = store.get_item("Steam").unwrap();
    assert_eq!(steam.emoji(), "💨");
    assert!(steam.is_new());
    assert_eq!(steam.parents().len(), 2);
    assert_eq!(steam.parents()[1], ("Earth".to_string(), "Fire".to_string()));
    assert_eq!(store.len(), 5);
}

#[test]
fn pair_is_combined_for_whole_store() {
    let mut store = Collection::new();
    assert!(!store.already_combined("Fire", "Water"));
    store.insert_or_update("Steam", "💨", true, "Fire", "Water");
    assert!(store.already_combined("Fire", "Water"));
    assert!(store.already_combined("Water", "Fire"));
    assert!(!store.already_combined("Fire", "Earth"));
    assert!(store.contains_pair("Steam", "Water", "Fire"));
    assert!(!store.contains_pair("Water", "Water", "Fire"));
    assert!(!store.contains_pair("Mud", "Water", "Fire"));
}

#[test]
fn add_item_replaces_and_has_no_parents() {
    let mut store = Collection::new();
    store.add_item("Goku", PLACEHOLDER_EMOJI);
    assert_eq!(store.len(), 5);
    let goku = store.get_item("Goku").unwrap();
    assert_eq!(goku.emoji(), "❓️");
    assert!(goku.parents().is_empty());
    store.add_item("Fire", "🔥");
    assert_eq!(store.len(), 5);
}

#[test]
fn item_parents_and_sentinel() {
    let mut it = Item::new("Nothing", "", false);
    assert!(it.is_nothing());
    assert!(!Item::new("Fire", "🔥", false).is_nothing());
    it.push_parents("A".to_string(), "B".to_string());
    assert!(it.contains_parents("B", "A"));
    assert!(it.contains_parents("A", "B"));
    assert!(!it.contains_parents("A", "A"));
    let with = Item::new_with_parents("Mud", "🟫", false, "Water", "Earth");
    assert_eq!(with.parents(), &[("Water".to_string(), "Earth".to_string())][..]);
    assert_eq!(with.name(), "Mud".to_string());
}

#[test]
fn flat_records_round_trip() {
    let mut store = Collection::new();
    store.insert_or_update("Steam", "💨", true, "Fire", "Water");
    store.insert_or_update("Steam", "💨", true, "Steam", "Fire");
    store.insert_or_update("Loop", "🔁", false, "Loop", "Loop");
    store.add_item("Lonely", "❓️");
    let flat = store.to_finite();
    assert_eq!(flat.items().len(), 7);
    let back = flat.to_collection();
    assert_eq!(back.len(), store.len());
    for rec in store.to_finite_items() {
        let a = store.get_item(rec.name()).unwrap();
        let b = back.get_item(rec.name()).unwrap();
        assert_eq!(a.emoji(), b.emoji());
        assert_eq!(a.is_new(), b.is_new());
        assert_eq!(a.parents(), b.parents());
    }
    let lp = back.get_item("Loop").unwrap();
    assert_eq!(lp.parents(), &[("Loop".to_string(), "Loop".to_string())][..]);
    assert!(back.get_item("Lonely").unwrap().parents().is_empty());
}

#[test]
fn rebuilt_store_has_no_seed_it_was_not_given() {
    let rec = FiniteItem::new("Steam", "💨", true, vec![("Fire", "Water")]);
    let store = infinite_cookbook::finite_collection::FiniteCollection::new(vec![rec]).to_collection();
    assert_eq!(store.len(), 1);
    assert!(store.get_item("Water").is_none());
    assert!(store.already_combined("Water", "Fire"));
}

#[test]
fn from_items_later_item_wins() {
    let store = Collection::from_items(vec![
        Item::new("A", "1", false),
        Item::new("B", "2", false),
        Item::new("A", "3", true),
    ]);
    assert_eq!(store.len(), 2);
    assert_eq!(store.get_item("A").unwrap().emoji(), "3");
}

#[test]
fn finite_item_accessors_and_labels() {
    let rec = FiniteItem::new("Steam", "💨", true, vec![("Fire", "Water")]);
    assert_eq!(rec.name(), "Steam");
    assert!(rec.has_parents());
    assert_eq!(rec.parents(), vec![("Fire", "Water")]);
    assert_eq!(rec.label(), "💨 Steam ✨");
    assert_eq!(rec.to_item().parents().len(), 0);
    let plain = FiniteItem::new("Fire", "🔥", false, vec![]);
    assert!(!plain.has_parents());
    assert_eq!(plain.label(), "🔥 Fire");
    let flat = infinite_cookbook::finite_collection::FiniteCollection::new(vec![rec, plain]);
    assert_eq!(flat.to_names(), vec!["💨 Steam ✨".to_string(), "🔥 Fire".to_string()]);
    let item = Item::new_with_parents("Mud", "🟫", false, "Water", "Earth");
    let f = item.to_finite();
    assert_eq!(f.parents(), vec![("Water", "Earth")]);
    assert_eq!(f.emoji(), "🟫");
}

#[test]
fn store_names_list_every_item() {
    let store = Collection::new();
    let mut names = store.to_names();
    names.sort();
    assert_eq!(names, vec!["🌍️ Earth".to_string(), "🌬️ Wind".to_string(), "💧 Water".to_string(), "🔥 Fire".to_string()]);
}
