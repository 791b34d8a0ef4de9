use godot_wasm_bindgen::godot_value::{
    GodotValue, NullValueError, TypecastError, TypecastErrorOwned, ValueType,
};
use godot_wasm_bindgen::hidden::DataTypeValue;
use godot_wasm_bindgen::runtime::slots::{SlotTable, Trap};

#[test]
fn alloc_then_get_gives_the_reference_back() {
    let mut table: SlotTable<&str> = SlotTable::new();
    let a = table.alloc_slot(Some("a")).unwrap();
    assert_eq!(table.get(a), Some(&"a"));
    let b = table.alloc_slot(Some("b")).unwrap();
    assert_eq!(table.get(b), Some(&"b"));
    assert_eq!(table.get(a), Some(&"a"));
    assert_ne!(a, b);
}

#[test]
fn slots_start_at_one() {
    let mut table: SlotTable<u32> = SlotTable::new();
    assert_eq!(table.alloc_slot(Some(10)), Ok(1));
    assert_eq!(table.alloc_slot(Some(20)), Ok(2));
    assert_eq!(table.alloc_slot(Some(30)), Ok(3));
    assert_eq!(table.len(), 3);
}

#[test]
fn freed_slot_is_given_out_again() {
    let mut table: SlotTable<u32> = SlotTable::new();
    let s1 = table.alloc_slot(Some(1)).unwrap();
    table.free(s1);
    let s2 = table.alloc_slot(Some(2)).unwrap();
    assert_eq!(s1, s2);
    assert_eq!(table.get(s2), Some(&2));
}

#[test]
fn free_list_is_last_in_first_out() {
    let mut table: SlotTable<u32> = SlotTable::new();
    let a = table.alloc_slot(Some(1)).unwrap();
    let b = table.alloc_slot(Some(2)).unwrap();
    let c = table.alloc_slot(Some(3)).unwrap();
    table.free(a);
    table.free(c);
    table.free(b);
    assert_eq!(table.alloc_slot(Some(4)), Ok(b));
    assert_eq!(table.alloc_slot(Some(5)), Ok(c));
    assert_eq!(table.alloc_slot(Some(6)), Ok(a));
    assert_eq!(table.alloc_slot(Some(7)), Ok(4));
    assert_eq!(table.get(a), Some(&6));
    assert_eq!(table.get(b), Some(&4));
    assert_eq!(table.get(c), Some(&5));
    assert_eq!(table.len(), 4);
}

#[test]
fn null_has_slot_zero() {
    let mut table: SlotTable<u32> = SlotTable::new();
    assert_eq!(table.alloc_slot(None), Ok(0));
    assert_eq!(table.len(), 0);
    assert_eq!(table.get(0), None);
    let a = table.alloc_slot(Some(1)).unwrap();
    table.free(a);
    table.free(0);
    assert_eq!(table.get(0), None);
    assert_eq!(table.alloc_slot(None), Ok(0));
    assert_eq!(table.alloc_slot(Some(2)), Ok(a));
    assert_eq!(table.alloc_slot(Some(3)), Ok(a + 1));
}

#[test]
fn full_table_traps() {
    let mut table: SlotTable<u8> = SlotTable::new();
    for i in 0..65535u32 {
        assert_eq!(table.alloc_slot(Some(0)), Ok(i + 1));
    }
    assert_eq!(table.alloc_slot(Some(0)), Err(Trap {}));
    table.free(65535);
    assert_eq!(table.alloc_slot(Some(1)), Ok(65535));
    assert_eq!(table.get(65535), Some(&1));
    assert_eq!(table.alloc_slot(Some(0)), Err(Trap {}));
}

#[test]
fn handle_is_null_for_slot_zero() {
    assert!(GodotValue::from_raw(0).is_null());
    assert!(!GodotValue::from_raw(0).is_nonnull());
    assert!(GodotValue::from_raw(7).is_nonnull());
    assert!(!GodotValue::from_raw(7).is_null());
    assert_eq!(GodotValue::from_raw(7).to_raw(), 7);
    assert_eq!(GodotValue::from_raw(9).into_raw(), 9);
}

#[test]
fn value_type_numbers() {
    assert_eq!(ValueType::from_number(0), Some(ValueType::Null));
    assert_eq!(ValueType::from_number(4), Some(ValueType::GodotString));
    assert_eq!(ValueType::from_number(19), Some(ValueType::Array));
    assert_eq!(ValueType::from_number(26), Some(ValueType::ColorArray));
    assert_eq!(ValueType::from_number(27), None);
    assert_eq!(ValueType::Transform2D.name(), "Transform2D");
}

#[test]
fn cast_error_messages() {
    assert_eq!(NullValueError {}.message(), "Null pointer");
    let e = TypecastError::new(ValueType::Array, ValueType::Bool);
    assert_eq!(e.message(), "Casting error (expected Array, got Bool)");
    let owned = TypecastErrorOwned::from_typecast_error(GodotValue::from_raw(3), e);
    assert_eq!(owned.message(), "Casting error (expected Array, got Bool)");
    assert_eq!(owned.original.to_raw(), 3);
    let owned = TypecastErrorOwned::new(GodotValue::from_raw(5), ValueType::I64, ValueType::Null);
    assert_eq!(owned.message(), "Casting error (expected I64, got Null)");
    assert_eq!(owned.original.to_raw(), 5);
}

#[test]
fn data_type_values_are_the_arg_type_codes() {
    assert_eq!(DataTypeValue::<u8>::value(), 1);
    assert_eq!(DataTypeValue::<i8>::value(), 2);
    assert_eq!(DataTypeValue::<u16>::value(), 3);
    assert_eq!(DataTypeValue::<i16>::value(), 4);
    assert_eq!(DataTypeValue::<u32>::value(), 5);
    assert_eq!(DataTypeValue::<i32>::value(), 6);
    assert_eq!(DataTypeValue::<u64>::value(), 7);
    assert_eq!(DataTypeValue::<i64>::value(), 8);
    assert_eq!(DataTypeValue::<GodotValue>::value(), 11);
}
