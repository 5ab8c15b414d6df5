use mandelbrot::escape::{escape_color, IterationResult};

#[test]
fn bounded_maps_to_minimum() {
    let c: u8 = escape_color::<u8>(IterationResult::Bounded);
    assert_eq!(c, 0);
    let w: u16 = escape_color::<u16>(IterationResult::Bounded);
    assert_eq!(w, 0);
}

#[test]
fn fastest_escape_maps_to_maximum() {
    let c: u8 = escape_color::<u8>(IterationResult::Divergent(0));
    assert_eq!(c, 255);
    let w: u16 = escape_color::<u16>(IterationResult::Divergent(0));
    assert_eq!(w, 65535);
}

#[test]
fn divergent_count_subtracts_from_maximum() {
    let c: u8 = escape_color::<u8>(IterationResult::Divergent(100));
    assert_eq!(c, 155);
    let c: u8 = escape_color::<u8>(IterationResult::Divergent(254));
    assert_eq!(c, 1);
    let w: u16 = escape_color::<u16>(IterationResult::Divergent(1000));
    assert_eq!(w, 64535);
}

#[test]
fn brightness_decreases_with_count() {
    let mut last: u8 = escape_color::<u8>(IterationResult::Divergent(0));
    for n in 1..255u32 {
        let c: u8 = escape_color::<u8>(IterationResult::Divergent(n));
        assert!(c < last);
        last = c;
    }
}
