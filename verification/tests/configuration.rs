use emergency_backup::configuration::{has_shapes_configured, shapes_with_config, Configuration};
use emergency_backup::configuration_gui::ConfigurationGui;
use emergency_backup::shape::Shape;

#[test]
fn test_configuration_equality() {
    let config1 = Configuration::new(
        Shape::Circle,
        "source".to_string(),
        "destination".to_string(),
        Some("jpg".to_string()),
    );
    let config2 = Configuration::new(
        Shape::Circle,
        "source".to_string(),
        "destination".to_string(),
        Some("jpg".to_string()),
    );
    assert_eq!(config1, config2);
}

#[test]
fn test_configuration_inequality() {
    let config1 = Configuration::new(
        Shape::Circle,
        "source".to_string(),
        "destination".to_string(),
        Some("jpg".to_string()),
    );
    let config2 = Configuration::new(
        Shape::Square,
        "source".to_string(),
        "destination".to_string(),
        Some("jpg".to_string()),
    );
    assert_ne!(config1, config2);
}

#[test]
fn test_configuration_filter_inequality() {
    let config1 = Configuration::new(
        Shape::Circle,
        "source".to_string(),
        "destination".to_string(),
        Some("jpg".to_string()),
    );
    let config2 = Configuration::new(
        Shape::Circle,
        "source".to_string(),
        "destination".to_string(),
        None,
    );
    assert_ne!(config1, config2);
}

#[test]
fn test_shapes_with_config_order() {
    let shapes = shapes_with_config(true, true, false);
    assert_eq!(shapes, vec![Shape::Circle, Shape::Square]);
    let shapes = shapes_with_config(false, true, true);
    assert_eq!(shapes, vec![Shape::Square, Shape::Triangle]);
    let shapes = shapes_with_config(false, false, false);
    assert!(shapes.is_empty());
}

#[test]
fn test_has_shapes_configured() {
    assert!(has_shapes_configured(true, false, false));
    assert!(has_shapes_configured(false, false, true));
    assert!(!has_shapes_configured(false, false, false));
}

#[test]
fn test_reload_configuration_fills_fields() {
    let mut gui = ConfigurationGui {
        shape: Shape::Circle,
        path: String::new(),
        extension_filter: String::new(),
    };
    let config = Configuration::new(
        Shape::Circle,
        "source".to_string(),
        "destination".to_string(),
        Some("jpg".to_string()),
    );
    gui.reload_configuration(Some(config));
    assert_eq!(gui.shape, Shape::Circle);
    assert_eq!(gui.path, "source");
    assert_eq!(gui.extension_filter, "jpg");
}

#[test]
fn test_reload_configuration_clears_fields() {
    let mut gui = ConfigurationGui {
        shape: Shape::Triangle,
        path: "old".to_string(),
        extension_filter: "txt".to_string(),
    };
    gui.reload_configuration(None);
    assert_eq!(gui.shape, Shape::Triangle);
    assert_eq!(gui.path, "");
    assert_eq!(gui.extension_filter, "");
}
