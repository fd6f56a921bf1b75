use brewy::app::{App, KeyCode, KeyInput, Overlay};
use brewy::model::{Package, PackageKind};

fn app_with_package() -> App {
    let mut app = App::new();
    app.loading = false;
    app.catalog.packages.push(Package::new("jq".to_string(), PackageKind::Formula));
    app
}

fn key(code: KeyCode) -> KeyInput {
    KeyInput { code, control: false, alt: false }
}

fn control(code: KeyCode) -> KeyInput {
    KeyInput { code, control: true, alt: false }
}

#[test]
fn printable_keys_search_without_entering_a_modal() {
    let mut app = app_with_package();
    app.handle_key(key(KeyCode::Char('j')));
    app.handle_key(key(KeyCode::Char('q')));
    assert_eq!(app.query, "jq");
    assert_eq!(app.overlay, Overlay::Hidden);
}

#[test]
fn tab_selects_a_package_without_running_it() {
    let mut app = app_with_package();
    app.handle_key(key(KeyCode::Tab));
    assert_eq!(app.queue.len(), 1);
    assert!(!app.running);
}

#[test]
fn ctrl_q_is_the_only_control_key_that_quits() {
    let mut app = app_with_package();
    app.handle_key(control(KeyCode::Char('c')));
    assert!(!app.should_quit);

    app.handle_key(control(KeyCode::Char('q')));
    assert!(app.should_quit);
}
