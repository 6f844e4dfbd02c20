use emergency_backup::geometry::{interpolate, Point};
use emergency_backup::shape::Shape;
use emergency_backup::template::{
    cancel_template, circle_template, confirm_template, square_template, triangle_template,
};

#[test]
fn test_circle_template_starts_on_axis() {
    let t = circle_template(200, 100, false);
    assert_eq!(t.shape, Shape::Circle);
    assert_eq!(t.path.len(), 200);
    // angle zero: cosine is exactly one, sine exactly zero
    assert_eq!(t.path[0], Point { x: 100, y: 0 });
}

#[test]
fn test_circle_direction_reversal() {
    let forward = circle_template(8, 100, false);
    let backward = circle_template(8, 100, true);
    assert_eq!(forward.path.len(), 8);
    assert_eq!(backward.path.len(), 8);
    for i in 0..8 {
        assert_eq!(backward.path[i], forward.path[7 - i]);
    }
}

#[test]
fn test_circle_direction_reversal_full_size() {
    let forward = circle_template(200, 100, false);
    let backward = circle_template(200, 100, true);
    for i in 0..200 {
        assert_eq!(backward.path[i], forward.path[199 - i]);
    }
}

#[test]
fn test_templates_for_symbol_deterministic() {
    for shape in [Shape::Circle, Shape::Square, Shape::Triangle, Shape::Tick, Shape::Cross] {
        let a = Shape::get_templates_for_shape(shape);
        let b = Shape::get_templates_for_shape(shape);
        assert_eq!(a.len(), b.len());
        for (ta, tb) in a.iter().zip(b.iter()) {
            assert_eq!(ta.shape, tb.shape);
            assert_eq!(ta.path, tb.path);
        }
    }
}

#[test]
fn test_square_template_truncates_remainder() {
    // ten points over four sides: two per side, the remainder dropped
    let t = square_template(10, 100, false);
    assert_eq!(t.path.len(), 8);
    let t = square_template(200, 100, false);
    assert_eq!(t.path.len(), 200);
}

#[test]
fn test_square_template_reversal() {
    let forward = square_template(200, 100, false);
    let backward = square_template(200, 100, true);
    for i in 0..200 {
        assert_eq!(backward.path[i], forward.path[199 - i]);
    }
}

#[test]
fn test_triangle_template_truncates_remainder() {
    // two hundred points over three sides: sixty-six per side
    let t = triangle_template(200, 100, false);
    assert_eq!(t.path.len(), 198);
}

#[test]
fn test_confirm_template_shape() {
    let t = confirm_template(200, 100);
    assert_eq!(t.shape, Shape::Tick);
    assert_eq!(t.path.len(), 200);
    // x advances monotonically over the whole stroke
    for i in 1..200 {
        assert!(t.path[i].x >= t.path[i - 1].x);
    }
    // the stroke first descends, then ends above its lowest point
    let lowest = t.path.iter().map(|p| p.y).min().unwrap();
    assert!(lowest < 0);
    assert!(t.path[199].y > lowest);
}

#[test]
fn test_cancel_template_shape() {
    let t = cancel_template(200, 100, false);
    assert_eq!(t.shape, Shape::Cross);
    assert_eq!(t.path.len(), 200);
    let back = cancel_template(200, 100, true);
    for i in 0..200 {
        assert_eq!(back.path[i], t.path[199 - i]);
    }
}

#[test]
fn test_template_names() {
    assert_eq!(circle_template(8, 10, false).name(), "Circle");
    assert_eq!(square_template(8, 10, false).name(), "Square");
    assert_eq!(triangle_template(9, 10, false).name(), "Triangle");
    assert_eq!(confirm_template(9, 10).name(), "Confirm");
    assert_eq!(cancel_template(9, 10, false).name(), "Cancel");
    assert_eq!(Shape::Tick.name(), "Tick");
    assert_eq!(Shape::Cross.name(), "Cross");
}

#[test]
fn test_templates_for_symbol_variant_counts() {
    assert_eq!(Shape::get_templates_for_shape(Shape::Circle).len(), 2);
    assert_eq!(Shape::get_templates_for_shape(Shape::Square).len(), 2);
    assert_eq!(Shape::get_templates_for_shape(Shape::Triangle).len(), 2);
    assert_eq!(Shape::get_templates_for_shape(Shape::Tick).len(), 1);
    assert_eq!(Shape::get_templates_for_shape(Shape::Cross).len(), 2);
}

#[test]
fn test_interpolate_exact_values() {
    let p1 = Point { x: 0, y: 0 };
    let p2 = Point { x: 10, y: -20 };
    assert_eq!(interpolate(p1, p2, 0, 5), Point { x: 0, y: 0 });
    assert_eq!(interpolate(p1, p2, 1, 5), Point { x: 2, y: -4 });
    assert_eq!(interpolate(p1, p2, 5, 5), Point { x: 10, y: -20 });
}
