//! Merging, conflict detection and existence projection of access
//! declarations.

use entity_system::access::{AccessDeclaration, MergeConflict};

fn mixed_declaration() -> AccessDeclaration {
    let mut d = AccessDeclaration::new();
    d.add_read(1);
    d.add_write(2);
    d.add_with(3);
    d.add_without(4);
    d.add_resource_read(5);
    d.add_resource_write(6);
    d
}

#[test]
fn merge_claims_are_the_union_of_the_inputs() {
    let mut a = AccessDeclaration::new();
    a.add_read(1);
    a.add_with(3);
    let mut b = AccessDeclaration::new();
    b.add_write(2);
    b.add_without(4);

    let ab = a.merge(&b).unwrap();
    let ba = b.merge(&a).unwrap();
    for d in [&ab, &ba] {
        assert!(d.claims_read(1));
        assert!(d.claims_write(2));
        assert!(d.requires_present(1));
        assert!(d.requires_present(3));
        assert!(d.requires_absent(4));
        assert!(!d.claims_read(2));
        assert!(!d.claims_write(1));
    }
}

#[test]
fn merge_is_associative_without_conflicts() {
    let mut a = AccessDeclaration::new();
    a.add_read(1);
    let mut b = AccessDeclaration::new();
    b.add_write(2);
    let mut c = AccessDeclaration::new();
    c.add_with(3);

    let left = a.merge(&b).unwrap().merge(&c).unwrap();
    let right = a.merge(&b.merge(&c).unwrap()).unwrap();
    for id in 0..5 {
        assert_eq!(left.claims_read(id), right.claims_read(id));
        assert_eq!(left.claims_write(id), right.claims_write(id));
        assert_eq!(left.requires_present(id), right.requires_present(id));
        assert_eq!(left.requires_absent(id), right.requires_absent(id));
    }
}

#[test]
fn conflicts_are_symmetric() {
    let mut writer = AccessDeclaration::new();
    writer.add_write(5);
    let mut reader = AccessDeclaration::new();
    reader.add_read(5);

    assert_eq!(
        writer.merge(&reader).unwrap_err(),
        MergeConflict::Component { id: 5 }
    );
    assert_eq!(
        reader.merge(&writer).unwrap_err(),
        MergeConflict::Component { id: 5 }
    );

    let mut w2 = AccessDeclaration::new();
    w2.add_write(5);
    assert_eq!(
        writer.merge(&w2).unwrap_err(),
        MergeConflict::Component { id: 5 }
    );
}

#[test]
fn resource_conflicts_carry_the_resource_witness() {
    let mut a = AccessDeclaration::new();
    a.add_resource_write(9);
    let mut b = AccessDeclaration::new();
    b.add_resource_read(9);
    assert_eq!(a.merge(&b).unwrap_err(), MergeConflict::Resource { id: 9 });

    let mut c = AccessDeclaration::new();
    c.add_resource_read(10);
    assert!(a.merge(&c).is_ok());
}

#[test]
fn reads_never_conflict_with_reads() {
    let mut a = AccessDeclaration::new();
    a.add_read(7);
    let mut b = AccessDeclaration::new();
    b.add_read(7);
    b.add_with(8);
    assert!(a.merge(&b).is_ok());
}

#[test]
fn projection_keeps_filters_and_drops_claims() {
    let d = mixed_declaration();
    let p = d.project();
    assert!(!p.claims_read(1));
    assert!(!p.claims_write(2));
    assert!(!p.claims_resource_read(5));
    assert!(!p.claims_resource_write(6));
    assert!(p.requires_present(1));
    assert!(p.requires_present(2));
    assert!(p.requires_present(3));
    assert!(p.requires_absent(4));
}

#[test]
fn projection_is_idempotent() {
    let d = mixed_declaration();
    let once = d.project();
    let twice = once.project();
    for id in 0..8 {
        assert_eq!(once.claims_read(id), twice.claims_read(id));
        assert_eq!(once.claims_write(id), twice.claims_write(id));
        assert_eq!(once.requires_present(id), twice.requires_present(id));
        assert_eq!(once.requires_absent(id), twice.requires_absent(id));
    }
}

#[test]
fn unsatisfiable_filters_merge_but_match_nothing() {
    let mut present = AccessDeclaration::new();
    present.add_with(3);
    let mut absent = AccessDeclaration::new();
    absent.add_without(3);

    let both = present.merge(&absent).unwrap();
    assert!(!both.matches_key_list(&vec![3]));
    assert!(!both.matches_key_list(&vec![]));
    assert!(!both.matches_key_list(&vec![1, 3]));
}

#[test]
fn matching_follows_present_and_absent_terms() {
    let mut d = AccessDeclaration::new();
    d.add_with(1);
    d.add_without(2);
    assert!(d.matches_key_list(&vec![1]));
    assert!(d.matches_key_list(&vec![1, 3]));
    assert!(!d.matches_key_list(&vec![1, 2]));
    assert!(!d.matches_key_list(&vec![3]));
    assert!(AccessDeclaration::new().matches_key_list(&vec![]));
}
