use pinetime_hal::attribute::{AccessRight, Attribute, HandleRange, QueryError, WriteError};
use pinetime_hal::ble::BleAttributes;
use pinetime_hal::uuid::AttUuid;

const DEVICE_NAME: u16 = 0x2A00;
const BATTERY_LEVEL: u16 = 0x2A19;

fn attribute(handle: u16, att_type: u16, value: &[u8]) -> Attribute {
    Attribute { handle, att_type: AttUuid::Uuid16(att_type), value: value.to_vec() }
}

/// Two services of one characteristic each, handles 1 to 6, handle 3 writable.
fn two_services() -> BleAttributes {
    let attributes = vec![
        attribute(1, 0x2800, b"Service A"),
        attribute(2, 0x2803, &[0x0A, 0x03, 0x00, 0x00, 0x2A]),
        attribute(3, DEVICE_NAME, b"watch"),
        attribute(4, 0x2800, b"Service B"),
        attribute(5, 0x2803, &[0x02, 0x06, 0x00, 0x19, 0x2A]),
        attribute(6, BATTERY_LEVEL, &[48]),
    ];
    BleAttributes::new(attributes, 3).expect("a valid table")
}

/// The handles that a query on `start..=end` visits, in the order of the visits.
fn visited(table: &BleAttributes, start: u16, end: u16) -> Vec<u16> {
    let mut seen = Vec::new();
    let result = table.for_attrs_in_range(HandleRange::new(start, end), |_, a| {
        seen.push(a.handle);
        Ok(())
    });
    assert_eq!(result, Ok(()));
    seen
}

#[test]
fn group_of_first_service_ends_at_handle_3() {
    let table = two_services();
    assert_eq!(table.group_end(1).map(|a| a.handle), Some(3));
}

#[test]
fn group_of_second_service_ends_at_handle_6() {
    let table = two_services();
    assert_eq!(table.group_end(4).map(|a| a.handle), Some(6));
}

#[test]
fn range_2_to_5_visits_2_3_4_5_in_order() {
    let table = two_services();
    assert_eq!(visited(&table, 2, 5), vec![2, 3, 4, 5]);
}

#[test]
fn empty_write_to_writable_handle_is_invalid_length() {
    let mut table = two_services();
    assert_eq!(table.write_attr(3, b""), Err(WriteError::InvalidLength));
    assert_eq!(table.group_end(2).map(|a| a.value.clone()), Some(b"watch".to_vec()));
}

#[test]
fn write_to_service_declaration_is_unwritable() {
    let mut table = two_services();
    assert_eq!(table.write_attr(1, b"Y"), Err(WriteError::Unwritable));
    assert_eq!(visited(&table, 1, 6), vec![1, 2, 3, 4, 5, 6]);
    let mut first = Vec::new();
    table
        .for_attrs_in_range(HandleRange::new(1, 1), |_, a| {
            first = a.value.clone();
            Ok(())
        })
        .unwrap();
    assert_eq!(first, b"Service A".to_vec());
}

#[test]
fn empty_write_to_other_handle_is_unwritable() {
    let mut table = two_services();
    assert_eq!(table.write_attr(1, b""), Err(WriteError::Unwritable));
    assert_eq!(table.write_attr(0, b""), Err(WriteError::Unwritable));
    assert_eq!(table.write_attr(7, b"Z"), Err(WriteError::Unwritable));
}

#[test]
fn exactly_one_handle_is_read_write() {
    let table = two_services();
    let writable: Vec<u16> = (1..=6u16)
        .filter(|h| table.attr_access_permissions(*h) == AccessRight::ReadWrite)
        .collect();
    assert_eq!(writable, vec![3]);
    for handle in [1u16, 2, 4, 5, 6] {
        assert_eq!(table.attr_access_permissions(handle), AccessRight::ReadOnly);
    }
    assert_eq!(table.writable_handle(), 3);
}

#[test]
fn handles_outside_the_table_are_read_only() {
    let table = two_services();
    for handle in [0u16, 7, 0x0100, 0xFFFF] {
        assert_eq!(table.attr_access_permissions(handle), AccessRight::ReadOnly);
    }
}

#[test]
fn characteristic_group_ends_at_its_value() {
    let table = two_services();
    assert_eq!(table.group_end(2).map(|a| a.handle), Some(3));
    assert_eq!(table.group_end(5).map(|a| a.handle), Some(6));
    assert_eq!(table.group_end(5).map(|a| a.value.clone()), Some(vec![48]));
}

#[test]
fn value_attributes_open_no_group() {
    let table = two_services();
    assert!(table.group_end(3).is_none());
    assert!(table.group_end(6).is_none());
}

#[test]
fn unknown_handles_open_no_group() {
    let table = two_services();
    assert!(table.group_end(0).is_none());
    assert!(table.group_end(7).is_none());
    assert!(table.group_end(0xFFFF).is_none());
}

#[test]
fn group_end_lies_at_or_after_its_start_and_holds_no_equal_group() {
    let attributes = vec![
        attribute(1, 0x2800, &[0x00, 0x18]),
        attribute(2, 0x2803, &[0x02]),
        attribute(3, DEVICE_NAME, b"a"),
        attribute(4, 0x2803, &[0x02]),
        attribute(7, 0x2A01, b"b"),
        attribute(9, 0x2902, &[0, 0]),
        attribute(20, 0x2800, &[0x0F, 0x18]),
        attribute(21, 0x2800, &[0x0A, 0x18]),
        attribute(30, 0x2803, &[0x02]),
        attribute(31, BATTERY_LEVEL, &[10]),
    ];
    let kinds: Vec<(u16, u16)> = attributes
        .iter()
        .map(|a| match a.att_type {
            AttUuid::Uuid16(t) => (a.handle, t),
            AttUuid::Uuid128(_) => (a.handle, 0),
        })
        .collect();
    let table = BleAttributes::new(attributes, 31).expect("a valid table");
    let expected = [(1u16, 9u16), (2, 3), (4, 7), (20, 20), (21, 31), (30, 31)];
    for (start, end) in expected {
        let last = table.group_end(start).expect("a group").handle;
        assert_eq!(last, end);
        assert!(last >= start);
        let opener = kinds.iter().find(|k| k.0 == start).unwrap().1;
        for (handle, kind) in &kinds {
            if *handle > start && *handle < last {
                assert_ne!(*kind, 0x2800);
                if opener == 0x2803 {
                    assert_ne!(*kind, 0x2803);
                }
            }
        }
    }
    for handle in [3u16, 7, 9, 31] {
        assert!(table.group_end(handle).is_none());
    }
}

#[test]
fn inverted_range_visits_nothing_and_succeeds() {
    let table = two_services();
    let mut calls = 0;
    let result = table.for_attrs_in_range(HandleRange::new(5, 2), |_, _| {
        calls += 1;
        Err(QueryError::Eof)
    });
    assert_eq!(result, Ok(()));
    assert_eq!(calls, 0);
    let result = table.for_attrs_in_range(HandleRange::new(0xFFFF, 0), |_, _| {
        calls += 1;
        Err(QueryError::InvalidValue)
    });
    assert_eq!(result, Ok(()));
    assert_eq!(calls, 0);
}

#[test]
fn range_beside_the_table_visits_nothing_and_succeeds() {
    let table = two_services();
    let mut calls = 0;
    let result = table.for_attrs_in_range(HandleRange::new(7, 0xFFFF), |_, _| {
        calls += 1;
        Err(QueryError::Eof)
    });
    assert_eq!(result, Ok(()));
    let result = table.for_attrs_in_range(HandleRange::new(0, 0), |_, _| {
        calls += 1;
        Err(QueryError::Eof)
    });
    assert_eq!(result, Ok(()));
    assert_eq!(calls, 0);
}

#[test]
fn covering_range_visits_every_attribute_once_in_rising_order() {
    let table = two_services();
    assert_eq!(visited(&table, 1, 6), vec![1, 2, 3, 4, 5, 6]);
    assert_eq!(visited(&table, 0, 0xFFFF), vec![1, 2, 3, 4, 5, 6]);
}

#[test]
fn range_bounds_are_inclusive() {
    let table = two_services();
    assert_eq!(visited(&table, 3, 3), vec![3]);
    assert_eq!(visited(&table, 6, 6), vec![6]);
    assert_eq!(visited(&table, 1, 2), vec![1, 2]);
    assert_eq!(visited(&table, 5, 9), vec![5, 6]);
}

#[test]
fn range_over_sparse_handles_visits_those_inside() {
    let attributes = vec![
        attribute(2, 0x2800, &[1]),
        attribute(10, 0x2803, &[2]),
        attribute(11, DEVICE_NAME, &[3]),
        attribute(500, 0x2901, &[4]),
        attribute(0xFFFF, 0x2901, &[5]),
    ];
    let table = BleAttributes::new(attributes, 11).expect("a valid table");
    assert_eq!(visited(&table, 3, 499), vec![10, 11]);
    assert_eq!(visited(&table, 11, 0xFFFF), vec![11, 500, 0xFFFF]);
    assert_eq!(visited(&table, 12, 499), Vec::<u16>::new());
}

#[test]
fn failing_visit_ends_the_query_with_its_error() {
    let table = two_services();
    let mut seen = Vec::new();
    let result = table.for_attrs_in_range(HandleRange::new(1, 6), |_, a| {
        seen.push(a.handle);
        if a.handle == 4 {
            Err(QueryError::Eof)
        } else {
            Ok(())
        }
    });
    assert_eq!(result, Err(QueryError::Eof));
    assert_eq!(seen, vec![1, 2, 3, 4]);
}

#[test]
fn each_visitor_error_comes_back_unchanged() {
    let table = two_services();
    for error in [
        QueryError::InvalidLength,
        QueryError::InvalidValue,
        QueryError::Eof,
        QueryError::IncompleteParse,
    ] {
        let mut calls = 0;
        let result = table.for_attrs_in_range(HandleRange::new(2, 5), |_, _| {
            calls += 1;
            Err(error)
        });
        assert_eq!(result, Err(error));
        assert_eq!(calls, 1);
    }
}

#[test]
fn visitor_is_handed_the_table_it_runs_on() {
    let table = two_services();
    let mut rights = Vec::new();
    let mut ends = Vec::new();
    table
        .for_attrs_in_range(HandleRange::new(1, 6), |t, a| {
            rights.push(t.attr_access_permissions(a.handle));
            ends.push(t.group_end(a.handle).map(|e| e.handle));
            Ok(())
        })
        .unwrap();
    let ro = AccessRight::ReadOnly;
    assert_eq!(rights, vec![ro, ro, AccessRight::ReadWrite, ro, ro, ro]);
    assert_eq!(ends, vec![Some(3), Some(3), None, Some(6), Some(6), None]);
}

#[test]
fn repeated_group_end_lookups_agree() {
    let table = two_services();
    for handle in 0..=8u16 {
        let first = table.group_end(handle).map(|a| (a.handle, a.value.clone()));
        let second = table.group_end(handle).map(|a| (a.handle, a.value.clone()));
        let third = table.group_end(handle).map(|a| (a.handle, a.value.clone()));
        assert_eq!(first, second);
        assert_eq!(second, third);
    }
}

#[test]
fn group_end_lookups_agree_across_queries() {
    let table = two_services();
    let before = table.group_end(1).map(|a| (a.handle, a.value.clone()));
    assert_eq!(visited(&table, 1, 6).len(), 6);
    let _ = table.for_attrs_in_range(HandleRange::new(1, 6), |_, _| Err(QueryError::Eof));
    let after = table.group_end(1).map(|a| (a.handle, a.value.clone()));
    assert_eq!(before, after);
    assert_eq!(after, Some((3, b"watch".to_vec())));
}

#[test]
fn written_value_is_read_back_by_a_range_query() {
    let mut table = two_services();
    assert_eq!(table.write_attr(3, b"X"), Ok(()));
    let mut values = Vec::new();
    table
        .for_attrs_in_range(HandleRange::new(3, 3), |_, a| {
            values.push((a.handle, a.value.clone()));
            Ok(())
        })
        .unwrap();
    assert_eq!(values, vec![(3, b"X".to_vec())]);
}

#[test]
fn write_changes_one_value_and_nothing_else() {
    let mut table = two_services();
    let mut before = Vec::new();
    table
        .for_attrs_in_range(HandleRange::new(0, 0xFFFF), |_, a| {
            before.push((a.handle, a.value.clone()));
            Ok(())
        })
        .unwrap();
    assert_eq!(table.write_attr(3, &[1, 2, 3, 4, 5, 6, 7, 8, 9]), Ok(()));
    let mut after = Vec::new();
    table
        .for_attrs_in_range(HandleRange::new(0, 0xFFFF), |_, a| {
            after.push((a.handle, a.value.clone()));
            Ok(())
        })
        .unwrap();
    assert_eq!(after.len(), 6);
    for (old, new) in before.iter().zip(after.iter()) {
        assert_eq!(old.0, new.0);
        if new.0 == 3 {
            assert_eq!(new.1, vec![1, 2, 3, 4, 5, 6, 7, 8, 9]);
        } else {
            assert_eq!(old.1, new.1);
        }
    }
    assert_eq!(table.writable_handle(), 3);
    assert_eq!(table.attr_access_permissions(3), AccessRight::ReadWrite);
}

#[test]
fn write_keeps_the_groups_and_shows_in_the_group_end() {
    let mut table = two_services();
    assert_eq!(table.write_attr(3, b"new"), Ok(()));
    assert_eq!(table.group_end(1).map(|a| (a.handle, a.value.clone())), Some((3, b"new".to_vec())));
    assert_eq!(table.group_end(2).map(|a| a.handle), Some(3));
    assert_eq!(table.group_end(4).map(|a| a.handle), Some(6));
    assert!(table.group_end(3).is_none());
    assert_eq!(table.write_attr(3, b"newer"), Ok(()));
    assert_eq!(table.group_end(2).map(|a| a.value.clone()), Some(b"newer".to_vec()));
}

#[test]
fn refused_writes_leave_the_value() {
    let mut table = two_services();
    assert_eq!(table.write_attr(3, b"kept"), Ok(()));
    assert_eq!(table.write_attr(3, &[]), Err(WriteError::InvalidLength));
    assert_eq!(table.write_attr(6, b"lost"), Err(WriteError::Unwritable));
    assert_eq!(table.group_end(1).map(|a| a.value.clone()), Some(b"kept".to_vec()));
    assert_eq!(table.group_end(4).map(|a| a.value.clone()), Some(vec![48]));
}

#[test]
fn last_service_runs_to_the_end_of_the_table() {
    let attributes = vec![
        attribute(1, 0x2800, &[0x00, 0x18]),
        attribute(2, 0x2901, b"x"),
        attribute(3, 0x2901, b"y"),
        attribute(4, 0x2901, b"z"),
    ];
    let table = BleAttributes::new(attributes, 4).expect("a valid table");
    assert_eq!(table.group_end(1).map(|a| a.handle), Some(4));
}

#[test]
fn service_without_members_ends_at_itself() {
    let attributes = vec![
        attribute(1, 0x2800, &[0x00, 0x18]),
        attribute(2, 0x2800, &[0x01, 0x18]),
        attribute(3, 0x2800, &[0x0F, 0x18]),
    ];
    let table = BleAttributes::new(attributes, 2).expect("a valid table");
    assert_eq!(table.group_end(1).map(|a| a.handle), Some(1));
    assert_eq!(table.group_end(2).map(|a| a.handle), Some(2));
    assert_eq!(table.group_end(3).map(|a| a.handle), Some(3));
}

#[test]
fn writable_attribute_may_be_a_declaration() {
    let attributes = vec![attribute(1, 0x2800, &[0x00, 0x18]), attribute(2, 0x2901, b"x")];
    let mut table = BleAttributes::new(attributes, 1).expect("a valid table");
    assert_eq!(table.attr_access_permissions(1), AccessRight::ReadWrite);
    assert_eq!(table.write_attr(1, &[0x0F, 0x18]), Ok(()));
    assert_eq!(table.group_end(1).map(|a| a.handle), Some(2));
    assert_eq!(table.write_attr(2, b"y"), Err(WriteError::Unwritable));
}

#[test]
fn table_with_handle_zero_is_refused() {
    let attributes = vec![attribute(0, 0x2800, &[1]), attribute(1, 0x2901, &[2])];
    assert!(BleAttributes::new(attributes, 1).is_none());
}

#[test]
fn table_with_falling_handles_is_refused() {
    let attributes =
        vec![attribute(1, 0x2800, &[1]), attribute(3, 0x2901, &[2]), attribute(2, 0x2901, &[3])];
    assert!(BleAttributes::new(attributes, 1).is_none());
}

#[test]
fn table_with_a_handle_twice_is_refused() {
    let attributes =
        vec![attribute(1, 0x2800, &[1]), attribute(2, 0x2901, &[2]), attribute(2, 0x2901, &[3])];
    assert!(BleAttributes::new(attributes, 1).is_none());
}

#[test]
fn characteristic_without_value_is_refused() {
    let at_the_end = vec![attribute(1, 0x2800, &[1]), attribute(2, 0x2803, &[2])];
    assert!(BleAttributes::new(at_the_end, 1).is_none());
    let before_a_service = vec![
        attribute(1, 0x2800, &[1]),
        attribute(2, 0x2803, &[2]),
        attribute(3, 0x2800, &[3]),
        attribute(4, 0x2901, &[4]),
    ];
    assert!(BleAttributes::new(before_a_service, 1).is_none());
    let before_a_characteristic = vec![
        attribute(1, 0x2800, &[1]),
        attribute(2, 0x2803, &[2]),
        attribute(3, 0x2803, &[3]),
        attribute(4, 0x2901, &[4]),
    ];
    assert!(BleAttributes::new(before_a_characteristic, 1).is_none());
}

#[test]
fn table_without_the_writable_handle_is_refused() {
    let attributes = vec![attribute(1, 0x2800, &[1]), attribute(2, 0x2901, &[2])];
    assert!(BleAttributes::new(attributes, 3).is_none());
    let attributes = vec![attribute(1, 0x2800, &[1]), attribute(2, 0x2901, &[2])];
    assert!(BleAttributes::new(attributes, 0).is_none());
    assert!(BleAttributes::new(Vec::new(), 1).is_none());
}

#[test]
fn single_attribute_table_is_served() {
    let mut table = BleAttributes::new(vec![attribute(0xFFFF, 0x2901, b"only")], 0xFFFF)
        .expect("a valid table");
    assert_eq!(visited(&table, 0, 0xFFFF), vec![0xFFFF]);
    assert!(table.group_end(0xFFFF).is_none());
    assert_eq!(table.write_attr(0xFFFF, b"!"), Ok(()));
    assert_eq!(table.attr_access_permissions(0xFFFF), AccessRight::ReadWrite);
}

#[test]
fn handle_range_contains_its_bounds() {
    let range = HandleRange::new(2, 5);
    assert_eq!((range.start, range.end), (2, 5));
    assert!(range.contains(2));
    assert!(range.contains(5));
    assert!(range.contains(3));
    assert!(!range.contains(1));
    assert!(!range.contains(6));
    assert!(!HandleRange::new(5, 2).contains(3));
    assert!(HandleRange::new(4, 4).contains(4));
}
