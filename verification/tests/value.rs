use rlox::chunk::{Chunk, OpCode};
use rlox::object::{Heap, ObjType, Object};
use rlox::value::{bool_val, nil_val, number_val, obj_val, values_equal};
use rlox::{RevisionId, SourceId, SourceSpan, TextPosition};

fn span() -> SourceSpan {
    let at = |byte_offset| TextPosition {
        byte_offset,
        line: 5,
        column: 1 + byte_offset,
    };
    SourceSpan {
        source_id: SourceId(1),
        revision: RevisionId(2),
        start: at(0),
        end: at(3),
    }
}

#[test]
fn values_know_their_kind() {
    let two = number_val(2.0f64.to_bits());
    assert!(two.is_number() && !two.is_bool() && !two.is_nil());
    assert_eq!(f64::from_bits(two.as_number()), 2.0);
    assert!(bool_val(true).is_bool() && bool_val(true).as_bool());
    assert!(nil_val().is_nil() && !nil_val().is_number());
    assert_eq!(obj_val(7).as_obj(), 7);
    assert!(nil_val().is_falsy() && bool_val(false).is_falsy());
    assert!(!number_val(0).is_falsy() && !bool_val(true).is_falsy());
}

#[test]
fn equality_is_that_of_numbers_and_objects() {
    let number = |value: f64| number_val(value.to_bits());
    assert!(values_equal(number(0.0), number(-0.0)));
    assert!(!values_equal(number(f64::NAN), number(f64::NAN)));
    assert!(values_equal(number(1.5), number(1.5)));
    assert!(values_equal(nil_val(), nil_val()));
    assert!(!values_equal(nil_val(), bool_val(false)));
    assert!(values_equal(obj_val(3), obj_val(3)));
    assert!(!values_equal(obj_val(3), obj_val(4)));
}

#[test]
fn constants_are_shared_and_numbered_in_one_or_three_bytes() {
    let number = |value: f64| number_val(value.to_bits());
    let mut chunk = Chunk::new();
    chunk.write_constant(number(1.0), span());
    chunk.write_constant(number(1.0), span());
    assert_eq!(chunk.constants.len(), 1);
    assert_eq!(
        chunk.code,
        [OpCode::Constant.byte(), 0, OpCode::Constant.byte(), 0]
    );
    for i in 1..256 {
        assert_eq!(chunk.add_constant(number(1.0 + i as f64)), i);
    }
    let start = chunk.code.len();
    chunk.write_constant(nil_val(), span());
    assert_eq!(
        chunk.code[start..],
        [OpCode::ConstantLong.byte(), 0, 1, 0]
    );
    assert_eq!(chunk.spans.len(), chunk.code.len());
    assert_eq!(chunk.get_line(start + 3), 5);
    assert_eq!(chunk.span_at(0), span());
}

#[test]
fn objects_know_their_kind_and_equal_texts_are_one_object() {
    let mut heap = Heap::new();
    let first = heap.intern("text".to_owned());
    let second = heap.intern("other".to_owned());
    assert_eq!(heap.intern("text".to_owned()), first);
    assert_ne!(first, second);
    assert!(matches!(heap.obj_type(first), ObjType::Text));
    let native = heap.allocate(Object::Native);
    assert!(matches!(heap.obj_type(native), ObjType::Native));
    assert!(matches!(heap.obj_type(99), ObjType::Free));
}
