use reki::app::Key;
use reki::event::{EventHandler, Input, KeyKind};

#[test]
fn a_key_press_is_handed_on() {
    let input = Input::Key { key: Key::Char('j'), kind: KeyKind::Press };
    assert_eq!(EventHandler::poll(Some(input)), Some(Key::Char('j')));
    let input = Input::Key { key: Key::End, kind: KeyKind::Press };
    assert_eq!(EventHandler::poll(Some(input)), Some(Key::End));
}

#[test]
fn release_and_repeat_are_dropped() {
    let input = Input::Key { key: Key::Char('j'), kind: KeyKind::Release };
    assert_eq!(EventHandler::poll(Some(input)), None);
    let input = Input::Key { key: Key::Down, kind: KeyKind::Repeat };
    assert_eq!(EventHandler::poll(Some(input)), None);
}

#[test]
fn other_input_and_silence_give_no_key() {
    assert_eq!(EventHandler::poll(Some(Input::Other)), None);
    assert_eq!(EventHandler::poll(None), None);
}

#[test]
fn a_poll_waits_fifty_milliseconds() {
    assert_eq!(EventHandler::TIMEOUT_MS, 50);
}
