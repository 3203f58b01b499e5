use moo3d::Fixed32;

#[test]
fn it_works() {
    assert_eq!(2 + 2, 4);
}

#[test]
fn bin_it_works() {
    assert_eq!(2 + 2, 4);
    assert_eq!(Fixed32::from_i32(2).plus(Fixed32::from_i32(2)).to_i32(), 4);
}
