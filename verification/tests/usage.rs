use exec_protocol::usage::{add_optional_u32, Usage};

#[test]
fn usage_adds_cache_fields_without_overflowing() {
    let mut usage = Usage {
        input_tokens: 10,
        output_tokens: 20,
        cache_read_tokens: Some(3),
        cache_creation_tokens: None,
    };
    usage += Usage {
        input_tokens: 5,
        output_tokens: 6,
        cache_read_tokens: Some(4),
        cache_creation_tokens: Some(8),
    };

    assert_eq!(usage.input_tokens, 15);
    assert_eq!(usage.output_tokens, 26);
    assert_eq!(usage.total(), 41);
    assert_eq!(usage.cache_read_tokens, Some(7));
    assert_eq!(usage.cache_creation_tokens, Some(8));
}

#[test]
fn usage_new_has_no_cache_counts() {
    let usage = Usage::new(10, 5);
    assert_eq!(usage.total(), 15);
    assert_eq!(usage.cache_read_tokens, None);
    assert_eq!(usage.cache_creation_tokens, None);
}

#[test]
fn usage_total_saturates() {
    assert_eq!(Usage::new(u32::MAX, 1).total(), u32::MAX);
    assert_eq!(Usage::new(u32::MAX - 1, 1).total(), u32::MAX);
}

#[test]
fn usage_sum_saturates_each_field() {
    let a = Usage {
        input_tokens: u32::MAX - 1,
        output_tokens: 3,
        cache_read_tokens: Some(u32::MAX),
        cache_creation_tokens: None,
    };
    let sum = a + Usage::new(5, 4);
    assert_eq!(sum.input_tokens, u32::MAX);
    assert_eq!(sum.output_tokens, 7);
    assert_eq!(sum.cache_read_tokens, Some(u32::MAX));
    assert_eq!(sum.cache_creation_tokens, None);
}

#[test]
fn optional_counts_add() {
    assert_eq!(add_optional_u32(None, None), None);
    assert_eq!(add_optional_u32(Some(2), None), Some(2));
    assert_eq!(add_optional_u32(None, Some(0)), Some(0));
    assert_eq!(add_optional_u32(Some(u32::MAX), Some(1)), Some(u32::MAX));
}

#[test]
fn usage_sum_is_commutative_associative_with_identity() {
    let a = Usage { input_tokens: 7, output_tokens: 1, cache_read_tokens: Some(2), cache_creation_tokens: None };
    let b = Usage { input_tokens: u32::MAX, output_tokens: 9, cache_read_tokens: None, cache_creation_tokens: Some(4) };
    let c = Usage::new(3, u32::MAX);
    assert_eq!(a + b, b + a);
    assert_eq!((a + b) + c, a + (b + c));
    assert_eq!(a + Usage::new(0, 0), a);
}

#[test]
fn default_usage_is_the_identity() {
    let a = Usage { input_tokens: 4, output_tokens: 2, cache_read_tokens: Some(1), cache_creation_tokens: None };
    assert_eq!(Usage::default(), Usage::new(0, 0));
    assert_eq!(Usage::default() + a, a);
    assert_eq!(a + Usage::default(), a);
}
