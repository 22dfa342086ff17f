use gailibrary::cell::ValueId as TypedValueId;
use gailibrary::ids::{CellTypeId, Identifiers, ValueId, NO_ID};

#[test]
fn should_register_value_id() {
    let mut ids = Identifiers::default();
    let health = ids.reg_value("health");
    assert!(ids.contains("health"));
    assert_eq!(ids.get_value("health"), Some(health));
}

#[test]
fn should_register_two_value_ids() {
    let mut ids = Identifiers::default();
    let health = ids.reg_value("health");
    let ammo = ids.reg_value("ammo");
    assert!(ids.contains("health"));
    assert!(ids.contains("ammo"));
    assert!(!ids.contains("pos"));
    assert_ne!(health, ammo);
    assert!(!ids.is_empty());
}

#[test]
fn should_not_allow_two_identical_names() {
    let mut ids = Identifiers::default();
    let health = ids.reg_value("health");
    assert_eq!(ids.reg_value("health"), health);
    assert_eq!(&ids.len(), &1);
}

#[test]
fn should_register_two_cell_type_ids() {
    let mut ids = Identifiers::default();
    let player = ids.reg_cell_type("player");
    let npc = ids.reg_cell_type("npc");
    assert!(ids.contains("player"));
    assert!(ids.contains("npc"));
    assert!(!ids.contains("wall"));
    assert_ne!(player, npc);
}

#[test]
fn should_not_mix_types() {
    let mut ids = Identifiers::default();
    let player = ids.reg_cell_type("player");
    let npc = ids.reg_cell_type("npc");
    let health = ids.reg_value("health");
    let ammo = ids.reg_value("ammo");

    assert_eq!(ids.len(), 4);

    assert_eq!(ids.get_cell_type("player"), Some(player));
    assert_eq!(ids.get_value("player"), None);

    assert_eq!(ids.get_cell_type("npc"), Some(npc));
    assert_eq!(ids.get_value("npc"), None);

    assert_eq!(ids.get_cell_type("health"), None);
    assert_eq!(ids.get_value("health"), Some(health));

    assert_eq!(ids.get_cell_type("ammo"), None);
    assert_eq!(ids.get_value("ammo"), Some(ammo));
}

#[test]
fn identifiers_count_up_from_one() {
    let mut ids = Identifiers::default();
    assert!(ids.is_empty());
    assert_eq!(ids.reg_value("a"), ValueId(1));
    assert_eq!(ids.reg_cell_type("b"), CellTypeId(2));
    assert_eq!(ids.reg_value("c"), ValueId(3));
    assert_eq!(ids.reg_value("a"), ValueId(1));
    assert_eq!(ids.reg_cell_type("b"), CellTypeId(2));
    assert!(ids.contains_value(ValueId(1)));
    assert!(ids.contains_value(ValueId(3)));
    assert!(!ids.contains_value(ValueId(2)));
    assert!(ids.contains_cell_type(CellTypeId(2)));
    assert!(!ids.contains_cell_type(CellTypeId(1)));
    assert!(!ids.contains_value(ValueId(NO_ID)));
    assert_eq!(ids.len(), 3);
}

#[test]
fn populate_identifiers() {
    let names = ["one", "two", "three", "two", "four", "one", "five"];
    let mut ids = Identifiers::default();
    let mut results: Vec<ValueId> = Vec::new();
    for s in names.iter() {
        if !ids.contains(*s) {
            results.push(ids.reg_value(*s));
        }
    }
    assert_eq!(results.len(), 5);
    assert!(results.iter().all(|&id| ids.contains_value(id)));
}

trait Foo<T> {
    fn foo(id: TypedValueId<T>) -> T;
}

impl Foo<usize> for TypedValueId<usize> {
    fn foo(_id: TypedValueId<usize>) -> usize {
        42
    }
}

impl Foo<&'static str> for TypedValueId<&'static str> {
    fn foo(_id: TypedValueId<&'static str>) -> &'static str {
        "thanks for all the fish"
    }
}

#[test]
fn choose_function_based_on_valueid_type() {
    let id_usize = TypedValueId::<usize>::new(1);
    assert_eq!(id_usize.id(), 1);
    assert_eq!(TypedValueId::foo(id_usize), 42);
    let id_str = TypedValueId::<&'static str>::new(2);
    assert_eq!(TypedValueId::foo(id_str), "thanks for all the fish");
}
