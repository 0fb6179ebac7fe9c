use vanguards_rs::api::SecurePassword;

#[test]
fn test_secure_password_debug_redacted() {
    let password = SecurePassword::new("secret123".to_string());
    let debug_str = password.redacted();
    assert!(!debug_str.contains("secret123"));
    assert!(debug_str.contains("REDACTED"));
}

#[test]
fn test_secure_password_as_str() {
    let password = SecurePassword::new("secret123".to_string());
    assert_eq!(password.as_str(), "secret123");
}

#[test]
fn secure_password_clone_keeps_text() {
    let password = SecurePassword::new("hunter2".to_string());
    let copy = password.clone();
    drop(password);
    assert_eq!(copy.as_str(), "hunter2");
}

#[test]
fn secure_password_wipe_leaves_nothing() {
    let mut password = SecurePassword::new("hunter2".to_string());
    password.wipe();
    assert_eq!(password.as_str(), "");
    assert_eq!(password.redacted(), "SecurePassword([REDACTED])");
}
