use wisu::plugins::{add_filter, apply_filter, FilterRegistry};

#[test]
fn test_add_apply_filter() {
    // Hook: "increment", type: i32
    let mut numbers: FilterRegistry<fn(i32) -> i32> = FilterRegistry::new();
    add_filter(&mut numbers, "increment", |x: i32| x + 1);
    add_filter(&mut numbers, "increment", |x: i32| x * 2);

    let result = apply_filter(&numbers, "increment", 3);
    // Step by step: (3 + 1) * 2 = 8
    assert_eq!(result, 8);

    // Hook: "greet", type: String
    let mut texts: FilterRegistry<fn(String) -> String> = FilterRegistry::new();
    add_filter(&mut texts, "greet", |s: String| format!("Hello, {}!", s));
    add_filter(&mut texts, "greet", |s: String| s.to_uppercase());

    let result_str = apply_filter(&texts, "greet", "world".to_string());
    // Step by step: "Hello, world!" -> "HELLO, WORLD!"
    assert_eq!(result_str, "HELLO, WORLD!");

    // Test hook with no filters returns input unchanged
    let untouched = apply_filter(&numbers, "nonexistent", 42);
    assert_eq!(untouched, 42);
}

#[test]
fn test_type_mismatch_panics() {
    // Adding an i32 filter
    let mut numbers: FilterRegistry<fn(i32) -> i32> = FilterRegistry::new();
    add_filter(&mut numbers, "test", |x: i32| x + 10);
    // Applying the hook to a value of another type does nothing
    let texts: FilterRegistry<fn(&'static str) -> &'static str> = FilterRegistry::new();
    let c = apply_filter(&texts, "test", "ciao");

    assert_eq!(c, "ciao");
}

#[test]
fn filters_of_other_hooks_are_skipped() {
    let mut numbers: FilterRegistry<fn(i32) -> i32> = FilterRegistry::new();
    add_filter(&mut numbers, "a", |x: i32| x + 1);
    add_filter(&mut numbers, "b", |x: i32| x * 10);
    add_filter(&mut numbers, "a", |x: i32| x * 3);
    assert_eq!(apply_filter(&numbers, "a", 2), 9);
    assert_eq!(apply_filter(&numbers, "b", 2), 20);
    assert_eq!(numbers.hooks.len(), 3);
}
