use lunamisc::byteable::EmptyVec;

#[test]
fn only_an_empty_vector_is_wrapped() {
    let mut full = vec![1u8];
    assert!(EmptyVec::new(&mut full).is_err());
    let mut empty: Vec<u8> = Vec::new();
    let wrapped = EmptyVec::new(&mut empty).unwrap();
    wrapped.into_inner().push(5);
    assert_eq!(empty, vec![5]);
}

#[test]
fn not_empty_message() {
    let mut full = vec![1u8];
    let e = EmptyVec::new(&mut full).unwrap_err();
    assert_eq!(e.message(), "vector is not empty");
}
