//! The disjoint view: sub-views whose declarations conflict become jointly
//! safe when fused into one container used strictly one handle at a time.

use entity_system::access::AccessDeclaration;
use entity_system::disjoint_view::DisjointView;
use entity_system::table::ValueTable;

const VALUE: u64 = 1;

#[test]
fn conflicting_sub_views_are_safe_used_sequentially() {
    let mut reader = AccessDeclaration::new();
    reader.add_read(VALUE);
    let mut writer = AccessDeclaration::new();
    writer.add_write(VALUE);

    // Declared as two independent operations, these would be refused.
    assert!(reader.merge(&writer).is_err());

    let mut data = ValueTable::new();
    data.insert(VALUE, 1);
    let mut view = DisjointView::new(data, reader, writer);

    let fused = view.fused_access();
    assert!(fused.claims_read(VALUE));
    assert!(fused.claims_write(VALUE));

    assert_eq!(view.get_first(VALUE), 1);
    view.set_second(VALUE, 42);
    // The write through the second sub-view is visible through the first.
    assert_eq!(view.get_first(VALUE), 42);

    let table = view.into_table();
    assert_eq!(table.get(VALUE), Some(42));
}

#[test]
fn both_sub_views_read_the_same_data() {
    let mut first = AccessDeclaration::new();
    first.add_read(VALUE);
    let mut second = AccessDeclaration::new();
    second.add_write(VALUE);

    let mut data = ValueTable::new();
    data.insert(VALUE, 9);
    let view = DisjointView::new(data, first, second);
    assert_eq!(view.get_first(VALUE), view.get_second(VALUE));
}
