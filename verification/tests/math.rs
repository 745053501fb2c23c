#[test]
fn it_works() {
    assert_eq!(rmem::add(2, 2), 4);
}

#[test]
fn test_add() {
    assert_eq!(rmem::math::add(2, 2), 4);
}
