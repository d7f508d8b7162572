use image_processor::error::PluginError;
use image_processor::plugin_loader::{
    check_plugin_call, plugin_status, PLUGIN_ERROR_INVALID_DIMENSIONS, PLUGIN_ERROR_NULL_POINTER,
    PLUGIN_ERROR_PROCESSING, PLUGIN_SUCCESS,
};

fn failure_text(result: Result<(), PluginError>) -> String {
    match result {
        Err(PluginError::ProcessingFailed(m)) => m,
        other => panic!("unexpected result {:?}", other),
    }
}

#[test]
fn plugin_call_accepts_matching_size() {
    assert!(check_plugin_call(2, 3, 24, "").is_ok());
    assert!(check_plugin_call(2, 3, 24, "radius 3").is_ok());
}

#[test]
fn plugin_call_rejects_size_mismatch() {
    assert_eq!(
        failure_text(check_plugin_call(2, 3, 10, "")),
        "RGBA data size mismatch: expected 24 bytes (2x3x4), got 10 bytes"
    );
}

#[test]
fn plugin_call_checks_size_before_params() {
    assert_eq!(
        failure_text(check_plugin_call(1, 1, 0, "a\0b")),
        "RGBA data size mismatch: expected 4 bytes (1x1x4), got 0 bytes"
    );
}

#[test]
fn plugin_call_rejects_nul_in_params() {
    assert_eq!(failure_text(check_plugin_call(1, 1, 4, "a\0b")), "Params contain embedded null byte");
}

#[test]
fn plugin_status_success() {
    assert!(plugin_status(PLUGIN_SUCCESS).is_ok());
}

#[test]
fn plugin_status_messages() {
    assert_eq!(
        failure_text(plugin_status(PLUGIN_ERROR_NULL_POINTER)),
        "Plugin received null pointer (error code: 1)"
    );
    assert_eq!(
        failure_text(plugin_status(PLUGIN_ERROR_INVALID_DIMENSIONS)),
        "Plugin reported invalid dimensions (error code: 2)"
    );
    assert_eq!(
        failure_text(plugin_status(PLUGIN_ERROR_PROCESSING)),
        "Plugin processing error (error code: 3)"
    );
    assert_eq!(failure_text(plugin_status(42)), "Unknown plugin error (error code: 42)");
    assert_eq!(failure_text(plugin_status(-7)), "Unknown plugin error (error code: -7)");
    assert_eq!(
        failure_text(plugin_status(i32::MIN)),
        "Unknown plugin error (error code: -2147483648)"
    );
}
