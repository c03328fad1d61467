use piscine::blend::Color;

#[test]
fn empty_palette() {
    let white = Color::new(0xFF, 0xFF, 0xFF);
    let red = Color::new(0xFF, 0x00, 0x00);
    let green = Color::new(0x00, 0xFF, 0x00);
    let blue = Color::new(0x00, 0x00, 0xFF);
    assert_eq!(red.closest_mix(&[], 100), white);
    assert_eq!(
        red.closest_mix(&[(red, 255), (green, 255), (blue, 255)], 0),
        white,
    );
}

#[test]
fn make_red() {
    let red = Color::new(0xFF, 0x00, 0x00);
    assert_eq!(red.closest_mix(&[(red, 1)], 1), Color::new(255, 254, 254));
    assert_eq!(red.closest_mix(&[(red, 10)], 1), Color::new(255, 245, 245));
    assert_eq!(red.closest_mix(&[(red, 100)], 1), Color::new(255, 155, 155));
}

#[test]
fn example_mix() {
    let red = Color::new(0xFF, 0x00, 0x00);
    let green = Color::new(0x00, 0xFF, 0x00);
    let blue = Color::new(0x00, 0x00, 0xFF);
    let color = Color::new(254, 23, 102).closest_mix(&[(red, 100), (green, 100), (blue, 100)], 5);
    assert_eq!(color, Color::new(218, 20, 57));
}
