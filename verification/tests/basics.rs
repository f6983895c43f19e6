use robond::basics;

#[test]
fn test_add_simple() {
    assert_eq!(basics::add(2, 2), 4);
}

#[test]
fn test_add_with_negative_number() {
    assert_eq!(basics::add(5, -2), 3);
}
