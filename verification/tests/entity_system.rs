//! The counter-fold scenario: a pass increments every counter and sums the
//! new values; spawning and despawning entities between passes changes the
//! sums accordingly.

use entity_system::ops::{AddToComponent, SumFold};
use entity_system::store::Store;
use entity_system::table::ValueTable;

const COUNT: u64 = 1;

fn count_table(value: i64) -> ValueTable {
    let mut t = ValueTable::new();
    t.insert(COUNT, value);
    t
}

#[test]
fn entity_system_test() {
    let mut world = Store::new();
    world.spawn(count_table(0));
    let entity_with_10 = world.spawn(count_table(10));

    let mut system = AddToComponent {
        component: COUNT,
        amount: 1,
    };
    let mut resources = ValueTable::new();
    let folder = SumFold;

    assert_eq!(world.run_pass_fold(&mut system, (), &mut resources, &folder), 12);

    assert_eq!(world.run_pass_fold(&mut system, (), &mut resources, &folder), 14);
    world.spawn(count_table(20));

    assert_eq!(world.run_pass_fold(&mut system, (), &mut resources, &folder), 37);
    assert!(world.despawn(entity_with_10));
    assert_eq!(world.run_pass_fold(&mut system, (), &mut resources, &folder), 26);
}

#[test]
fn pass_outputs_come_in_store_order() {
    let mut world = Store::new();
    world.spawn(count_table(5));
    world.spawn(count_table(7));

    let mut system = AddToComponent {
        component: COUNT,
        amount: 1,
    };
    let mut resources = ValueTable::new();
    let outs = world.run_pass(&mut system, (), &mut resources);
    assert_eq!(outs, vec![6, 8]);
}

#[test]
fn despawn_of_unknown_handle_reports_false() {
    let mut world = Store::new();
    let id = world.spawn(count_table(1));
    assert!(!world.despawn(id + 1));
    assert!(world.despawn(id));
    assert!(!world.despawn(id));
    assert_eq!(world.entity_count(), 0);
}

#[test]
fn get_component_reads_the_stored_value() {
    let mut world = Store::new();
    let id = world.spawn(count_table(42));
    assert_eq!(world.get_component(id, COUNT), Some(42));
    assert_eq!(world.get_component(id, COUNT + 1), None);
    assert_eq!(world.get_component(id + 1, COUNT), None);
}
