use image_processor::error::{AppError, ImageError, PluginError};

#[test]
fn app_error_from_str() {
    match AppError::from("missing input") {
        AppError::InvalidArgs(m) => assert_eq!(m, "missing input"),
        other => panic!("unexpected {:?}", other),
    }
}

#[test]
fn app_error_from_image_error() {
    let e = AppError::from(ImageError::SizeMismatch { expected: 4, actual: 3 });
    assert!(matches!(e, AppError::Image(ImageError::SizeMismatch { expected: 4, actual: 3 })));
}

#[test]
fn app_error_from_plugin_error() {
    let e = AppError::from(PluginError::SymbolNotFound("x".to_string()));
    assert!(matches!(e, AppError::Plugin(PluginError::SymbolNotFound(ref s)) if s == "x"));
}
