use siggy::{
    enable, enable_full, log_line, mask_body, mask_phone, needs_rotation, redact, LogSettings,
    MAX_LOG_SIZE,
};

#[test]
fn settings_switch() {
    let mut s = LogSettings::default();
    assert!(!s.enabled);
    assert!(redact(&s));
    enable_full(&mut s);
    assert!(s.enabled && !redact(&s));
    enable(&mut s);
    assert!(s.enabled && redact(&s));
}

#[test]
fn phone_masking() {
    let s = LogSettings { enabled: true, redact: true };
    assert_eq!(mask_phone(&s, "+15551234567"), "+1***...567");
    assert_eq!(mask_phone(&s, "+123456"), "+1***...456");
    assert_eq!(mask_phone(&s, "+1234"), "[redacted]");
    assert_eq!(mask_phone(&s, "group-id-abcdef"), "grou...cdef");
    assert_eq!(mask_phone(&s, "12345678"), "[redacted]");
    assert_eq!(mask_phone(&s, ""), "[redacted]");
    let full = LogSettings { enabled: true, redact: false };
    assert_eq!(mask_phone(&full, "+15551234567"), "+15551234567");
}

#[test]
fn body_masking_counts_bytes() {
    let s = LogSettings { enabled: true, redact: true };
    assert_eq!(mask_body(&s, "hello world"), "[msg: 11 chars]");
    assert_eq!(mask_body(&s, ""), "[msg: 0 chars]");
    assert_eq!(mask_body(&s, "héllo"), "[msg: 6 chars]");
    let full = LogSettings { enabled: false, redact: false };
    assert_eq!(mask_body(&full, "hello"), "hello");
}

#[test]
fn log_lines_only_when_enabled() {
    let off = LogSettings::default();
    assert_eq!(log_line(&off, "12:00:00.000", "hi"), None);
    let on = LogSettings { enabled: true, redact: true };
    assert_eq!(log_line(&on, "12:00:00.000", "hi").as_deref(), Some("[12:00:00.000] hi"));
}

#[test]
fn rotation_threshold() {
    assert_eq!(MAX_LOG_SIZE, 10 * 1024 * 1024);
    assert!(!needs_rotation(MAX_LOG_SIZE));
    assert!(needs_rotation(MAX_LOG_SIZE + 1));
    assert!(!needs_rotation(0));
}
