use fastfifo::atomic::AtomicField;
use fastfifo::cursor::{Cursor, CursorConfig};
use fastfifo::field::Field;
use fastfifo::head::{raise_word, Atomic, AtomicHead, Head, NonAtomicHead};
use fastfifo::layer::Layer;
use fastfifo::mpmc::field::{Field as TypedField, FieldConfig};
use fastfifo::util::{ceiling_log_2, greater_than_log_2};
use fastfifo::wide_field::WideField;
use std::sync::atomic::Ordering;

#[test]
fn bit_widths() {
    assert_eq!(ceiling_log_2(0), 0);
    assert_eq!(ceiling_log_2(1), 1);
    assert_eq!(ceiling_log_2(2), 2);
    assert_eq!(ceiling_log_2(3), 2);
    assert_eq!(ceiling_log_2(4), 3);
    assert_eq!(ceiling_log_2(255), 8);
    assert_eq!(ceiling_log_2(256), 9);
    assert_eq!(ceiling_log_2(usize::MAX), usize::BITS);
}

#[test]
fn bit_widths_of_the_successor() {
    assert_eq!(greater_than_log_2(0), 1);
    assert_eq!(greater_than_log_2(1), 2);
    assert_eq!(greater_than_log_2(2), 2);
    assert_eq!(greater_than_log_2(3), 3);
    assert_eq!(greater_than_log_2(4), 3);
    assert_eq!(greater_than_log_2(6), 3);
    assert_eq!(greater_than_log_2(7), 4);
    assert_eq!(greater_than_log_2(8), 4);
    assert_eq!(greater_than_log_2(usize::MAX), usize::BITS + 1);
}

#[test]
fn cursor_parts() {
    let mut c = Cursor::<7>::from_parts(1, 7);
    assert_eq!(c.get_version(), 1);
    assert_eq!(c.get_offset(), 7);
    c.set_version(9);
    assert_eq!((c.get_version(), c.get_offset()), (9, 7));
    c.set_offset(3);
    assert_eq!((c.get_version(), c.get_offset()), (9, 3));
    let zero = Cursor::<7>::new();
    assert_eq!((zero.get_version(), zero.get_offset()), (0, 0));
    assert!(zero == Cursor::<7>::default());
    assert!(zero < c);
    let from_config: Cursor<7> = CursorConfig { version: 2, offset: 5 }.into();
    assert_eq!((from_config.get_version(), from_config.get_offset()), (2, 5));
    let default_config = CursorConfig::default();
    assert_eq!((default_config.version, default_config.offset), (0, 0));
    // Seven slots take three offset bits and one more for the overflow.
    let next = Cursor::<7>::from_parts(0, 7).add(1);
    assert_eq!((next.get_version(), next.get_offset()), (0, 8));
    let raw: Cursor<7> = Cursor::from(16usize);
    assert_eq!((raw.get_version(), raw.get_offset()), (1, 0));
}

#[test]
fn typed_field_parts() {
    let mut f = TypedField::<100>::from_parts(3, 42);
    assert_eq!((f.get_version(), f.get_index()), (3, 42));
    f.set_index(99);
    assert_eq!((f.get_version(), f.get_index()), (3, 99));
    f.set_version(4);
    assert_eq!((f.get_version(), f.get_index()), (4, 99));
    let wrapped = f.version_inc_add(1);
    assert_eq!((wrapped.get_version(), wrapped.get_index()), (5, 0));
    let stepped = TypedField::<100>::from_parts(0, 98).overflowing_add(1);
    assert_eq!((stepped.get_version(), stepped.get_index()), (0, 99));
    let full = TypedField::<100>::full();
    assert_eq!((full.get_version(), full.get_index()), (0, 100));
    let almost = TypedField::<100>::full_minus_one();
    assert_eq!((almost.get_version(), almost.get_index()), (0, 99));
    let zero = TypedField::<100>::new();
    assert!(zero == TypedField::<100>::default());
    assert!(zero < almost && almost < full);
    let from_config: TypedField<100> = FieldConfig { version: 1, index: 2 }.into();
    assert_eq!((from_config.get_version(), from_config.get_index()), (1, 2));
    let default_config = FieldConfig::default();
    assert_eq!((default_config.version, default_config.index), (0, 0));
}

#[test]
fn atomic_field_moves() {
    let field = AtomicField::new(Field::from_parts(10, 1, 2));
    assert_eq!(field.load(Ordering::Relaxed).get_index(), 2);
    let old = field.fetch_add(3, Ordering::Relaxed);
    assert_eq!(old.get_index(), 2);
    assert_eq!(field.load(Ordering::Acquire).get_index(), 5);
    let old = field.fetch_max(Field::from_parts(10, 2, 0), Ordering::Relaxed);
    assert_eq!((old.get_version(), old.get_index()), (1, 5));
    let now = field.load(Ordering::Relaxed);
    assert_eq!((now.get_version(), now.get_index(), now.get_index_max()), (2, 0, 10));
    field.publish_one();
    assert_eq!(field.load(Ordering::Relaxed).get_index(), 1);
}

#[test]
fn heads_are_raised_and_read() {
    let single = NonAtomicHead::from_parts(4, 0, 1, Layer::Producer);
    assert_eq!(single.load().get_field().get_index(), 1);
    assert_eq!(single.load().get_tag(), Layer::Producer);
    let old = single.max(Field::from_parts(4, 0, 2));
    assert_eq!(old.get_field().get_index(), 1);
    assert_eq!(single.load().get_field().get_index(), 2);
    let old = single.max(Field::from_parts(4, 0, 1));
    assert_eq!(old.get_field().get_index(), 2);
    assert_eq!(single.load().get_field().get_index(), 2);

    let shared = AtomicHead::from_parts(4, 1, 3, Layer::Consumer);
    let old = shared.max(Field::from_parts(4, 2, 0));
    assert_eq!((old.get_field().get_version(), old.get_field().get_index()), (1, 3));
    let now = shared.load();
    assert_eq!((now.get_field().get_version(), now.get_field().get_index()), (2, 0));
    assert_eq!(now.get_tag(), Layer::Consumer);

    let head = Head::for_stage(5, Layer::Transformer);
    assert!(matches!(head, Head::Shared(_)));
    assert_eq!(head.load().get_field().get_index_max(), 5);
    let wide = WideField::from_parts(Field::from_parts(5, 1, 1), Layer::Producer);
    let started = AtomicHead::from_wide(wide);
    assert_eq!(started.load().get_field().get_raw_inner(), wide.get_field().get_raw_inner());
    let started = NonAtomicHead::from_wide(wide);
    assert_eq!(started.load().get_field().get_version(), 1);
}

#[test]
fn a_cursor_gives_its_packed_word() {
    // Seven slots take four offset bits.
    let c = Cursor::<7>::from_parts(2, 5);
    assert_eq!(c.get_raw_inner(), 2 * 16 + 5);
    assert_eq!(usize::from(c), 37);
    let back: Cursor<7> = Cursor::from(usize::from(c));
    assert!(back == c);
    assert_eq!(Cursor::<7>::new().get_raw_inner(), 0);
}

#[test]
fn a_typed_field_gives_its_packed_word() {
    // A capacity of 100 takes seven index bits.
    let f = TypedField::<100>::from_parts(3, 42);
    assert_eq!(f.get_raw_inner(), 3 * 128 + 42);
    assert_eq!(usize::from(f), 426);
    let back: TypedField<100> = TypedField::from(usize::from(f));
    assert!(back == f);
    assert_eq!(TypedField::<100>::full().get_raw_inner(), 100);
}

#[test]
fn a_head_is_raised_to_a_larger_value_only() {
    let old = Field::from_parts(4, 1, 2);
    let smaller = Field::from_parts(4, 0, 3);
    let larger = Field::from_parts(4, 1, 3);
    assert_eq!(raise_word(old, smaller), None);
    assert_eq!(raise_word(old, old), None);
    assert_eq!(raise_word(old, larger), Some(larger.get_raw_inner()));

    let head = NonAtomicHead::from_parts(4, 1, 2, Layer::Producer);
    let read = head.max(smaller);
    assert_eq!(read.get_field().get_raw_inner(), old.get_raw_inner());
    assert_eq!(head.load().get_field().get_raw_inner(), old.get_raw_inner());
    let read = head.max(larger);
    assert_eq!(read.get_field().get_raw_inner(), old.get_raw_inner());
    assert_eq!(head.load().get_field().get_raw_inner(), larger.get_raw_inner());
}
