//! Composition operators: sequencing, optional execution, output
//! adaptation, and the conversion of function-shaped operations.

use entity_system::access::AccessDeclaration;
use entity_system::implementors::{adapt, entity_system_pipe, optional};
use entity_system::into_entity_system::IntoEntitySystem;
use entity_system::marked_entity_system::ResourceAdd;
use entity_system::ops::{
    AddInputToComponent, AddToComponent, EligibilityProbe, OffsetOutput, ReadComponent,
    VisitCounter,
};
use entity_system::store::Store;
use entity_system::table::ValueTable;
use entity_system::EntitySystem;

fn table(entries: &[(u64, i64)]) -> ValueTable {
    let mut t = ValueTable::new();
    for &(c, v) in entries {
        t.insert(c, v);
    }
    t
}

fn probe_with(present: &[u64], absent: &[u64]) -> EligibilityProbe {
    let mut d = AccessDeclaration::new();
    for &c in present {
        d.add_with(c);
    }
    for &c in absent {
        d.add_without(c);
    }
    EligibilityProbe::new(d)
}

#[test]
fn pipe_eligibility_is_the_intersection_of_the_children() {
    let first = probe_with(&[1], &[]);
    let second = probe_with(&[], &[2]);
    let pipe = entity_system_pipe(first, second);
    let pipe_access = pipe.declared_access();

    let key_sets: [&[u64]; 4] = [&[], &[1], &[2], &[1, 2]];
    for keys in key_sets {
        let keys = keys.to_vec();
        let first_ok = probe_with(&[1], &[]).declared_access().matches_key_list(&keys);
        let second_ok = probe_with(&[], &[2]).declared_access().matches_key_list(&keys);
        assert_eq!(pipe_access.matches_key_list(&keys), first_ok && second_ok);
    }
}

#[test]
fn pipe_runs_first_then_second_and_declares_both() {
    let increment = AddToComponent {
        component: 1,
        amount: 1,
    };
    let accumulate = AddInputToComponent { component: 2 };
    let mut pipe = entity_system_pipe(increment, accumulate);

    let access = pipe.declared_access();
    assert!(access.claims_write(1));
    assert!(access.claims_write(2));
    assert!(access.requires_present(1));
    assert!(access.requires_present(2));

    let mut world = Store::new();
    let both = world.spawn(table(&[(1, 5), (2, 100)]));
    world.spawn(table(&[(1, 9)]));

    let mut resources = ValueTable::new();
    let outs = world.run_pass(&mut pipe, (), &mut resources);
    assert_eq!(outs, vec![106]);
    assert_eq!(world.get_component(both, 1), Some(6));
    assert_eq!(world.get_component(both, 2), Some(106));
}

#[test]
fn optional_accepts_every_entity_and_tags_failures() {
    let inner = AddInputToComponent { component: 1 };
    let mut wide = optional(inner);

    let access = wide.declared_access();
    assert!(access.claims_write(1));
    assert!(!access.requires_present(1));

    let mut world = Store::new();
    let with_counter = world.spawn(table(&[(1, 3)]));
    world.spawn(table(&[(7, 0)]));

    let mut resources = ValueTable::new();
    let outs = world.run_pass(&mut wide, 5, &mut resources);
    assert_eq!(outs, vec![Ok(8), Err(5)]);
    assert_eq!(world.get_component(with_counter, 1), Some(8));
}

#[test]
fn optional_of_eligible_entity_runs_the_inner_operation() {
    let mut wide = optional(AddToComponent {
        component: 1,
        amount: 10,
    });
    let mut world = Store::new();
    let id = world.spawn(table(&[(1, 1)]));
    let mut resources = ValueTable::new();
    let outs = world.run_pass(&mut wide, (), &mut resources);
    assert_eq!(outs, vec![Ok(11)]);
    assert_eq!(world.get_component(id, 1), Some(11));
}

#[test]
fn adapter_reshapes_output_without_changing_eligibility() {
    let read = ReadComponent { component: 1 };
    let mut adapted = adapt(read, OffsetOutput { offset: 100 });

    let access = adapted.declared_access();
    assert!(access.claims_read(1));
    assert!(!access.claims_write(1));
    assert!(access.requires_present(1));

    let mut world = Store::new();
    let id = world.spawn(table(&[(1, 7)]));
    world.spawn(table(&[(2, 0)]));

    let mut resources = ValueTable::new();
    let outs = world.run_pass(&mut adapted, (), &mut resources);
    assert_eq!(outs, vec![107]);
    assert_eq!(world.get_component(id, 1), Some(7));
}

#[test]
fn marked_operations_convert_and_run_on_every_entity() {
    let step = ResourceAdd {
        resource: 9,
        amount: 2,
    };
    let mut runner = step.into_entity_system();

    let access = runner.declared_access();
    assert!(access.claims_resource_write(9));
    assert!(!access.requires_present(9));

    let mut world = Store::new();
    world.spawn(table(&[(1, 0)]));
    world.spawn(table(&[(2, 0)]));

    let mut resources = table(&[(9, 0)]);
    let outs = world.run_pass(&mut runner, (), &mut resources);
    assert_eq!(outs, vec![2, 4]);
}

#[test]
fn read_only_pass_leaves_the_store_unchanged() {
    let mut world = Store::new();
    let id = world.spawn(table(&[(1, 7)]));
    world.spawn(table(&[(2, 3)]));
    let mut op = ReadComponent { component: 1 };
    let mut resources = ValueTable::new();
    let outs = world.run_pass_read_only(&mut op, (), &mut resources);
    assert_eq!(outs, vec![7]);
    assert_eq!(world.get_component(id, 1), Some(7));
    assert_eq!(world.entity_count(), 2);
}

#[test]
fn per_entity_state_is_kept_by_entity_identity() {
    let mut world = Store::new();
    let first = world.spawn(table(&[(1, 0)]));
    let second = world.spawn(table(&[(1, 0)]));
    let mut counter = VisitCounter::new();
    let mut resources = ValueTable::new();

    assert_eq!(world.run_pass(&mut counter, (), &mut resources), vec![1, 1]);
    assert_eq!(world.run_pass(&mut counter, (), &mut resources), vec![2, 2]);

    world.despawn(first);
    let third = world.spawn(table(&[]));

    // The surviving entity keeps its own count; the new one starts fresh.
    assert_eq!(world.run_pass(&mut counter, (), &mut resources), vec![3, 1]);
    assert_eq!(counter.visits_of(second), 3);
    assert_eq!(counter.visits_of(first), 2);
    assert_eq!(counter.visits_of(third), 1);
}

#[test]
fn an_entity_system_converts_to_itself() {
    let read = ReadComponent { component: 4 };
    let mut same = read.into_entity_system();
    let mut world = Store::new();
    world.spawn(table(&[(4, 31)]));
    let mut resources = ValueTable::new();
    assert_eq!(world.run_pass(&mut same, (), &mut resources), vec![31]);
}
