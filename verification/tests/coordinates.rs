use board_plugin::coordinates::Coordinates;

#[test]
fn coordinates_add_componentwise() {
    let sum = Coordinates { x: 3, y: 4 } + Coordinates { x: 10, y: 20 };
    assert_eq!(sum, Coordinates { x: 13, y: 24 });
}

#[test]
fn coordinates_sub_saturates_at_zero() {
    let diff = Coordinates { x: 3, y: 40 } - Coordinates { x: 10, y: 20 };
    assert_eq!(diff, Coordinates { x: 0, y: 20 });
}

#[test]
fn coordinates_offset_inside_range() {
    let moved = Coordinates { x: 5, y: 5 } + (-1i8, 1i8);
    assert_eq!(moved, Coordinates { x: 4, y: 6 });
}

#[test]
fn coordinates_offset_below_zero_is_out_of_every_grid() {
    let moved = Coordinates { x: 0, y: 7 } + (-1i8, 0i8);
    assert_eq!(moved, Coordinates { x: u16::MAX, y: 7 });
    let moved = Coordinates { x: 2, y: 0 } + (1i8, -1i8);
    assert_eq!(moved, Coordinates { x: 3, y: u16::MAX });
}

#[test]
fn coordinates_offset_above_range_does_not_wrap() {
    let moved = Coordinates { x: u16::MAX, y: u16::MAX } + (1i8, 1i8);
    assert_eq!(moved, Coordinates { x: u16::MAX, y: u16::MAX });
    let moved = Coordinates { x: u16::MAX - 1, y: 3 } + (1i8, 0i8);
    assert_eq!(moved, Coordinates { x: u16::MAX, y: 3 });
}

#[test]
fn coordinates_order_and_default() {
    assert_eq!(Coordinates::default(), Coordinates { x: 0, y: 0 });
    assert!(Coordinates { x: 1, y: 9 } < Coordinates { x: 2, y: 0 });
    assert!(Coordinates { x: 1, y: 1 } < Coordinates { x: 1, y: 2 });
}
