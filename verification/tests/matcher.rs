use emergency_backup::geometry::Point;
use emergency_backup::matcher::{
    all_points_near, detect_shape, score_stroke, GUESS_THRESHOLD, SIM_SCALE,
};
use emergency_backup::shape::Shape;
use emergency_backup::template::{circle_template, square_template, Template};

/// The template's own path, scaled up and recentred, as live input.
fn scaled(path: &[Point], factor: i32, cx: i32, cy: i32) -> Vec<Point> {
    path.iter()
        .map(|p| Point { x: p.x * factor + cx, y: p.y * factor + cy })
        .collect()
}

#[test]
fn test_score_self_match_is_perfect() {
    for shape in [Shape::Circle, Shape::Square, Shape::Triangle, Shape::Tick, Shape::Cross] {
        for t in Shape::get_templates_for_shape(shape) {
            let score = score_stroke(&t.path, &t.path);
            assert_eq!(score, SIM_SCALE);
        }
    }
}

#[test]
fn test_detect_self_match_per_template() {
    for shape in [Shape::Circle, Shape::Square, Shape::Triangle, Shape::Tick, Shape::Cross] {
        let templates = Shape::get_templates_for_shape(shape);
        for t in &templates {
            let stroke = t.path.clone();
            assert_eq!(detect_shape(&stroke, &templates, GUESS_THRESHOLD), Some(shape));
        }
    }
}

#[test]
fn test_detect_scaled_self_match() {
    let circle = circle_template(200, 100, false);
    let stroke = scaled(&circle.path, 5, 960, 540);
    let mut templates = Shape::get_templates_for_shape(Shape::Circle);
    templates.extend(Shape::get_templates_for_shape(Shape::Square));
    assert_eq!(detect_shape(&stroke, &templates, GUESS_THRESHOLD), Some(Shape::Circle));
}

#[test]
fn test_detect_empty_inputs() {
    let templates = Shape::get_templates_for_shape(Shape::Circle);
    let empty: Vec<Point> = Vec::new();
    assert_eq!(detect_shape(&empty, &templates, GUESS_THRESHOLD), None);
    let circle = circle_template(200, 100, false);
    let no_templates: Vec<Template> = Vec::new();
    assert_eq!(detect_shape(&circle.path, &no_templates, GUESS_THRESHOLD), None);
}

#[test]
fn test_detect_stationary_stroke_unrecognized() {
    let templates = Shape::get_templates_for_shape(Shape::Circle);
    let stroke: Vec<Point> = (0..200).map(|_| Point { x: 500, y: 500 }).collect();
    assert_eq!(detect_shape(&stroke, &templates, GUESS_THRESHOLD), None);
}

#[test]
fn test_detect_tie_break_prefers_first_template() {
    let circle = circle_template(200, 100, false);
    // two templates with the very same path but different tags: both score
    // perfectly, and the first one in set order must win
    let templates = vec![
        Template { shape: Shape::Triangle, path: circle.path.clone() },
        Template { shape: Shape::Square, path: circle.path.clone() },
    ];
    assert_eq!(detect_shape(&circle.path, &templates, GUESS_THRESHOLD), Some(Shape::Triangle));
}

#[test]
fn test_detect_rejects_below_threshold() {
    let circle = circle_template(200, 100, false);
    // an impossible threshold rejects even a perfect self-match
    let templates = Shape::get_templates_for_shape(Shape::Circle);
    assert_eq!(detect_shape(&circle.path, &templates, SIM_SCALE), None);
}

#[test]
fn test_square_does_not_match_circle() {
    let square = square_template(200, 100, false);
    let stroke = scaled(&square.path, 3, 700, 700);
    let circle_only = Shape::get_templates_for_shape(Shape::Circle);
    assert_eq!(detect_shape(&stroke, &circle_only, GUESS_THRESHOLD), None);
}

#[test]
fn test_all_points_near_boundary() {
    let centred: Vec<Point> = (0..200).map(|_| Point { x: 500, y: 500 }).collect();
    assert!(all_points_near(&centred));

    // 600 pixels from the first point on one axis: still "near"
    let mut edge = centred.clone();
    edge[100] = Point { x: 1100, y: 500 };
    assert!(all_points_near(&edge));

    // 601 pixels: the pointer has moved
    let mut moved = centred.clone();
    moved[100] = Point { x: 1101, y: 500 };
    assert!(!all_points_near(&moved));

    // the y axis gates as well
    let mut moved_y = centred;
    moved_y[42] = Point { x: 500, y: -101 };
    assert!(!all_points_near(&moved_y));
}
