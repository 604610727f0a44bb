//! Defaults of the backend options.

use vz_backend::policy::VzOptions;

#[test]
fn vz_options_default_values() {
    let options = VzOptions::default();
    assert_eq!(options.guest_image_path, None);
    assert_eq!(options.cpu_count, 2);
    assert_eq!(options.memory_mb, 2048);
    assert_eq!(options.boot_timeout_ms, 30000);
}

#[test]
fn vz_options_clone_is_equal() {
    let options = VzOptions {
        guest_image_path: Some("/custom/guest".to_string()),
        cpu_count: 8,
        memory_mb: 512,
        boot_timeout_ms: 7,
    };
    assert_eq!(options.clone(), options);
}
