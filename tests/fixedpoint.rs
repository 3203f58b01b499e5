use moo3d::Fixed32;

#[test]
fn fixed_from_and_to_integer() {
    assert_eq!(Fixed32::from_i32(3).raw(), 196608);
    assert_eq!(Fixed32::from_i32(3).to_i32(), 3);
    assert_eq!(Fixed32::from_i32(-2).raw(), -131072);
    assert_eq!(Fixed32::from_i32(-2).to_i32(), -2);
    assert_eq!(Fixed32::from_i32(32767).to_i32(), 32767);
    assert_eq!(Fixed32::from_i32(-32768).raw(), i32::MIN);
    assert_eq!(Fixed32::from_i32(40000).raw(), -1673527296);
}

#[test]
fn fixed_parts_round_down() {
    let one_and_half = Fixed32::from_raw(98304);
    assert_eq!(one_and_half.to_i32(), 1);
    assert_eq!(one_and_half.fraction_part().raw(), 32768);
    assert_eq!(one_and_half.whole_part().raw(), 65536);

    let minus_tiny = Fixed32::from_raw(-1);
    assert_eq!(minus_tiny.to_i32(), -1);
    assert_eq!(minus_tiny.fraction_part().raw(), 65535);
    assert_eq!(minus_tiny.whole_part().raw(), -65536);
}

#[test]
fn fixed_arithmetic() {
    assert_eq!(Fixed32::from_i32(2).plus(Fixed32::from_i32(3)).to_i32(), 5);
    assert_eq!(Fixed32::from_i32(2).minus(Fixed32::from_i32(3)).to_i32(), -1);
    assert_eq!(Fixed32::from_i32(6).divide(Fixed32::from_i32(3)).raw(), 2);
    assert_eq!(Fixed32::from_raw(-7).divide(Fixed32::from_raw(2)).raw(), -3);
    assert_eq!(Fixed32::from_raw(7).divide(Fixed32::from_raw(-2)).raw(), -3);
    assert_eq!(Fixed32::from_raw(-7).divide(Fixed32::from_raw(-2)).raw(), 3);
    assert_eq!(Fixed32::from_raw(i32::MIN).divide(Fixed32::from_raw(1)).raw(), i32::MIN);
}
