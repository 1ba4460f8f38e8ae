use error_message_format::hook::Action;
use error_message_format::hook::Interceptor;

const E_USER_WARNING: i32 = 512;

#[test]
fn uninstalled_interceptor_drops_the_event() {
    let hook = Interceptor::new();
    assert_eq!(hook.original(), None);
    let action = hook.handle_event(Some(b"{message}"), E_USER_WARNING, b"a.php", 1, b"m");
    assert!(matches!(action, Action::Discard));
}

#[test]
fn install_captures_the_original_handler() {
    let mut hook = Interceptor::new();
    hook.install(0x1000);
    assert_eq!(hook.original(), Some(0x1000));
}

#[test]
fn absent_template_passes_through() {
    let mut hook = Interceptor::new();
    hook.install(7);
    let action = hook.handle_event(None, E_USER_WARNING, b"a.php", 3, b"This is a test error");
    assert!(matches!(action, Action::PassThrough));
}

#[test]
fn empty_template_passes_through() {
    let mut hook = Interceptor::new();
    hook.install(7);
    let action = hook.handle_event(Some(b""), E_USER_WARNING, b"a.php", 3, b"This is a test error");
    assert!(matches!(action, Action::PassThrough));
}

#[test]
fn configured_template_forwards_the_formatted_message() {
    let mut hook = Interceptor::new();
    hook.install(7);
    let action = hook.handle_event(
        Some(b"{message} with an append"),
        E_USER_WARNING,
        b"a.php",
        2,
        b"This is a test error",
    );
    match action {
        Action::Forward(m) => assert_eq!(m, b"This is a test error with an append".to_vec()),
        _ => panic!("expected a forwarded message"),
    }
}

#[test]
fn forwarded_message_uses_all_event_fields() {
    let mut hook = Interceptor::new();
    hook.install(7);
    let action = hook.handle_event(
        Some(b"[{type}] {file}:{line} {message}"),
        E_USER_WARNING,
        b"x.php",
        5,
        b"boom",
    );
    match action {
        Action::Forward(m) => assert_eq!(m, b"[512] x.php:5 boom".to_vec()),
        _ => panic!("expected a forwarded message"),
    }
}
