use piscine::colors::color_name;

#[test]
fn test_lifetimes() {
    let name_of_the_best_color;

    {
        let the_best_color = [42, 42, 42];
        name_of_the_best_color = color_name(&the_best_color);
    }

    assert_eq!(name_of_the_best_color, "unknown");
}

#[test]
fn color_buckets() {
    assert_eq!(color_name(&[0, 0, 0]), "pure black");
    assert_eq!(color_name(&[255, 255, 255]), "pure white");
    assert_eq!(color_name(&[255, 0, 0]), "pure red");
    assert_eq!(color_name(&[0, 255, 0]), "pure green");
    assert_eq!(color_name(&[0, 0, 255]), "pure blue");
    assert_eq!(color_name(&[10, 20, 30]), "almost black");
    assert_eq!(color_name(&[200, 50, 50]), "redish");
    assert_eq!(color_name(&[50, 200, 50]), "greenish");
    assert_eq!(color_name(&[50, 50, 200]), "blueish");
}
