use crossterm::event::KeyModifiers;
use raycast_tui::input::{binding, is_quit, Binding, Input, KeyCode, KeyEvent, KeyEventKind};

fn key(code: KeyCode, kind: KeyEventKind) -> KeyEvent {
    KeyEvent {
        code,
        modifiers: KeyModifiers::NONE.bits(),
        kind,
    }
}

#[test]
fn quit_keys() {
    let esc = KeyEvent::new(KeyCode::Esc, KeyModifiers::NONE.bits());
    let q = KeyEvent::new(KeyCode::Char('q'), KeyModifiers::NONE.bits());
    let ctrl_c = KeyEvent::new(KeyCode::Char('c'), KeyModifiers::CONTROL.bits());
    assert!(is_quit(&esc));
    assert!(is_quit(&q));
    assert!(is_quit(&ctrl_c));
}

#[test]
fn press_moves_this_frame_without_release() {
    let mut input = Input::new();
    input.begin_frame();
    assert!(!input.handle_key(key(KeyCode::Char('w'), KeyEventKind::Press)));
    assert!(input.forward());

    input.begin_frame();
    assert!(!input.forward());
}

#[test]
fn release_enables_held_tracking() {
    let mut input = Input::new();
    input.begin_frame();
    input.handle_key(key(KeyCode::Char('w'), KeyEventKind::Press));
    input.handle_key(key(KeyCode::Char('w'), KeyEventKind::Release));

    input.begin_frame();
    input.handle_key(key(KeyCode::Char('d'), KeyEventKind::Press));
    assert!(input.strafe_right());

    input.begin_frame();
    assert!(input.strafe_right());
    assert!(!input.forward());
}

#[test]
fn plain_c_and_other_keys_do_not_quit() {
    assert!(!is_quit(&KeyEvent::new(KeyCode::Char('c'), KeyModifiers::NONE.bits())));
    assert!(!is_quit(&KeyEvent::new(KeyCode::Char('w'), KeyModifiers::CONTROL.bits())));
    assert!(!is_quit(&KeyEvent::new(KeyCode::Other, KeyModifiers::NONE.bits())));
    let shifted = (KeyModifiers::CONTROL | KeyModifiers::SHIFT).bits();
    assert!(is_quit(&KeyEvent::new(KeyCode::Char('C'), shifted)));
    assert!(is_quit(&KeyEvent::new(KeyCode::Char('Q'), KeyModifiers::ALT.bits())));
}

#[test]
fn released_quit_key_does_not_quit() {
    let mut input = Input::new();
    assert!(!input.handle_key(key(KeyCode::Esc, KeyEventKind::Release)));
    assert!(input.handle_key(key(KeyCode::Esc, KeyEventKind::Repeat)));
    assert!(input.handle_key(KeyEvent {
        code: KeyCode::Char('c'),
        modifiers: KeyModifiers::CONTROL.bits(),
        kind: KeyEventKind::Press,
    }));
}

#[test]
fn bindings_follow_the_controls() {
    assert_eq!(binding(KeyCode::Char('w')), Some(Binding::Forward));
    assert_eq!(binding(KeyCode::Char('W')), Some(Binding::Forward));
    assert_eq!(binding(KeyCode::Up), Some(Binding::Forward));
    assert_eq!(binding(KeyCode::Char('s')), Some(Binding::Back));
    assert_eq!(binding(KeyCode::Down), Some(Binding::Back));
    assert_eq!(binding(KeyCode::Char('a')), Some(Binding::StrafeLeft));
    assert_eq!(binding(KeyCode::Char('D')), Some(Binding::StrafeRight));
    assert_eq!(binding(KeyCode::Left), Some(Binding::TurnLeft));
    assert_eq!(binding(KeyCode::Right), Some(Binding::TurnRight));
    assert_eq!(binding(KeyCode::Char('x')), None);
    assert_eq!(binding(KeyCode::Esc), None);
}

#[test]
fn turn_is_right_minus_left() {
    let mut input = Input::new();
    assert_eq!(input.turn(), 0);
    input.handle_key(key(KeyCode::Left, KeyEventKind::Press));
    assert_eq!(input.turn(), -1);
    input.handle_key(key(KeyCode::Right, KeyEventKind::Repeat));
    assert_eq!(input.turn(), 0);
    input.begin_frame();
    input.handle_key(key(KeyCode::Right, KeyEventKind::Press));
    assert_eq!(input.turn(), 1);
}

#[test]
fn held_key_lasts_until_release() {
    let mut input = Input::new();
    input.handle_key(key(KeyCode::Char('s'), KeyEventKind::Press));
    input.handle_key(key(KeyCode::Char('a'), KeyEventKind::Press));
    input.handle_key(key(KeyCode::Char('a'), KeyEventKind::Release));
    assert!(input.back());
    assert!(!input.strafe_left());
    input.begin_frame();
    input.begin_frame();
    assert!(input.back());
    input.handle_key(key(KeyCode::Down, KeyEventKind::Release));
    assert!(!input.back());
    assert!(!input.forward());
}

#[test]
fn repeat_counts_for_its_frame_only() {
    let mut input = Input::new();
    input.handle_key(key(KeyCode::Char('A'), KeyEventKind::Repeat));
    assert!(input.strafe_left());
    input.begin_frame();
    assert!(!input.strafe_left());
}

#[test]
fn binding_field_reaches_its_button() {
    let mut input = Input::new();
    input.handle_key(key(KeyCode::Char('d'), KeyEventKind::Press));
    assert!(input.strafe_right());
    assert!(!input.strafe_left());
    assert!(!input.back());
}
