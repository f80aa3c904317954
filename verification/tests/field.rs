use fastfifo::field::{Field, FieldConfig};

#[test]
fn test_field_from_parts_and_getters() {
    let index_max = 16;
    let version = 3;
    let index = 5;
    let field = Field::from_parts(index_max, version, index);

    assert_eq!(field.get_index_max(), index_max);
    assert_eq!(field.get_version(), version);
    assert_eq!(field.get_index(), index);
}

#[test]
fn test_field_from_raw_parts() {
    let index_max = 8;
    let inner = 0b1010_0011;
    let field = Field::from_raw_parts(index_max, inner);

    assert_eq!(field.get_index_max(), index_max);
    assert_eq!(field.get_raw_inner(), inner);
}

#[test]
fn test_field_overflowing_add() {
    let field = Field::from_parts(8, 2, 3);
    let added = field.overflowing_add(5);

    assert_eq!(added.get_raw_inner(), field.get_raw_inner() + 5);
    assert_eq!(added.get_index_max(), field.get_index_max());
}

#[test]
fn test_field_version_inc_add_no_wrap() {
    let field = Field::from_parts(10, 1, 2);
    let result = field.version_inc_add(5);

    assert_eq!(result.get_version(), 1);
    assert_eq!(result.get_index(), 7);
}

#[test]
fn test_field_version_inc_add_with_wrap() {
    let field = Field::from_parts(10, 1, 8);
    let result = field.version_inc_add(5);

    // (8 + 5) = 13, so version increases by 1, index is 3
    assert_eq!(result.get_version(), 2);
    assert_eq!(result.get_index(), 3);
}

#[test]
fn test_field_partial_eq_and_ord() {
    let f1 = Field::from_parts(16, 1, 2);
    let f2 = Field::from_parts(16, 1, 2);
    let f3 = Field::from_parts(16, 2, 0);

    assert_eq!(f1, f2);
    assert!(f1 < f3);
    assert!(f3 > f2);
}

#[test]
fn test_field_from_field_config() {
    let config = FieldConfig {
        index_max: 32,
        version: 4,
        index: 7,
    };
    let field: Field = config.into();
    assert_eq!(field.get_index_max(), 32);
    assert_eq!(field.get_version(), 4);
    assert_eq!(field.get_index(), 7);
}

#[test]
fn test_field_debug_format() {
    let field = Field::from_parts(8, 2, 4);
    let debug_str = field.debug_string();
    assert!(debug_str.contains("Field"));
    assert!(debug_str.contains("index_max"));
    assert!(debug_str.contains("version"));
    assert!(debug_str.contains("index"));
}

#[test]
fn debug_string_shows_the_parts() {
    let field = Field::from_parts(8, 2, 4);
    assert_eq!(field.debug_string(), "Field { index_max: 8, version: 2, index: 4 }");
}

#[test]
fn parts_that_do_not_fit_lose_their_high_bits() {
    // A capacity of 8 takes four index bits.
    let field = Field::from_parts(8, 1, 16 + 3);
    assert_eq!(field.get_index(), 3);
    assert_eq!(field.get_version(), 1);
    assert_eq!(field.get_raw_inner(), 16 + 3);
    let wide = Field::from_parts(usize::MAX, 5, 77);
    assert_eq!(wide.get_version(), 0);
    assert_eq!(wide.get_index(), 77);
}

#[test]
fn index_may_reach_the_capacity() {
    for index_max in [1usize, 2, 3, 4, 7, 8, 100, 255, 256] {
        let field = Field::from_parts(index_max, 9, index_max);
        assert_eq!(field.get_index(), index_max);
        assert_eq!(field.get_version(), 9);
    }
}

#[test]
fn words_order_by_version_then_index() {
    let low = Field::from_parts(10, 1, 10);
    let high = Field::from_parts(10, 2, 0);
    assert!(low < high);
    assert!(Field::from_parts(10, 2, 1) > high);
    assert!(low.get_raw_inner() < high.get_raw_inner());
}

#[test]
fn version_inc_add_wraps_to_the_next_lap() {
    let head = Field::from_parts(4, 6, 3);
    let next = head.version_inc_add(1);
    assert_eq!(next.get_version(), 7);
    assert_eq!(next.get_index(), 0);
    let far = head.version_inc_add(9);
    assert_eq!(far.get_version(), 9);
    assert_eq!(far.get_index(), 0);
}
