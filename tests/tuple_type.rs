use raytracer::tuple_type::TupleType;

#[test]
fn w_near_zero_is_a_vector() {
    assert_eq!(TupleType::classify(true, false), TupleType::Vector);
}

#[test]
fn w_near_one_is_a_point() {
    assert_eq!(TupleType::classify(false, true), TupleType::Point);
}

#[test]
fn other_w_is_neither() {
    assert_eq!(TupleType::classify(false, false), TupleType::Other);
}

#[test]
fn test_against_zero_comes_first() {
    assert_eq!(TupleType::classify(true, true), TupleType::Vector);
}
