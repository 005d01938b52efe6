use mkit::util::to_snake_case;

#[test]
fn test_to_snake_case() {
    assert_eq!(to_snake_case("FooBar"), "_foo_bar");
    assert_eq!(to_snake_case("fooBar"), "foo_bar");
    assert_eq!(to_snake_case("foo"), "foo");
    assert_eq!(to_snake_case(""), "");
    assert_eq!(to_snake_case("ABC"), "_a_b_c");
    assert_eq!(to_snake_case("a1B2"), "a1_b2");
}
