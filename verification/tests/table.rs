use rlox::table::{Key, Table};
use rlox::value::Value;

fn key(object: usize) -> Key {
    Key {
        object,
        hash: (object as u32).wrapping_mul(7),
    }
}

#[test]
fn values_are_found_until_they_are_deleted() {
    let mut table = Table::new();
    assert_eq!(table.get(key(1)), None);
    assert!(!table.delete(key(1)));
    for object in 0..200 {
        assert!(table.set(key(object), Value::Number(object as u64)));
    }
    assert!(!table.set(key(7), Value::Nil));
    assert_eq!(table.get(key(7)), Some(Value::Nil));
    for object in (0..200).step_by(2) {
        assert!(table.delete(key(object)));
        assert!(!table.delete(key(object)));
    }
    for object in 0..200 {
        let expected = if object % 2 == 0 {
            None
        } else if object == 7 {
            Some(Value::Nil)
        } else {
            Some(Value::Number(object as u64))
        };
        assert_eq!(table.get(key(object)), expected, "{object}");
    }
}

#[test]
fn adding_all_sets_every_value_of_the_other_table() {
    let mut from = Table::new();
    from.set(key(1), Value::Bool(true));
    from.set(key(2), Value::Nil);
    let mut table = Table::new();
    table.set(key(1), Value::Bool(false));
    table.set(key(3), Value::Number(3));
    table.add_all(&from);
    assert_eq!(table.get(key(1)), Some(Value::Bool(true)));
    assert_eq!(table.get(key(2)), Some(Value::Nil));
    assert_eq!(table.get(key(3)), Some(Value::Number(3)));
}
