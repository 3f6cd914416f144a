use xetop::app::{event_timeout_ms, KeyCode, KeyInput, KeyKind, LoopState, SortColumn};

fn press(code: KeyCode) -> KeyInput {
    KeyInput { kind: KeyKind::Press, code }
}

#[test]
fn event_timeout() {
    assert_eq!(event_timeout_ms(1000), 990);
    assert_eq!(event_timeout_ms(10), 0);
    assert_eq!(event_timeout_ms(9), 50);
    assert_eq!(event_timeout_ms(0), 50);
}

#[test]
fn loop_stops_on_q_or_esc_press() {
    let mut s = LoopState::new();
    assert!(s.running());
    s.handle_key(KeyInput { kind: KeyKind::Release, code: KeyCode::Char('q') }, 0);
    s.handle_key(press(KeyCode::Char('Q')), 0);
    s.handle_key(press(KeyCode::Other), 0);
    assert!(s.running());
    s.handle_key(press(KeyCode::Char('q')), 0);
    assert!(!s.running());
    let mut s = LoopState::new();
    s.handle_key(press(KeyCode::Esc), 0);
    assert!(!s.running());
}

#[test]
fn loop_counts_ticks() {
    let mut s = LoopState::new();
    assert_eq!(s.tick_count(), 0);
    s.tick();
    s.tick();
    assert_eq!(s.tick_count(), 2);
}

#[test]
fn help_key_toggles_help() {
    let mut s = LoopState::new();
    assert!(!s.show_help());
    s.handle_key(press(KeyCode::Char('?')), 3);
    assert!(s.show_help());
    s.handle_key(KeyInput { kind: KeyKind::Release, code: KeyCode::Char('?') }, 3);
    assert!(s.show_help());
    s.handle_key(press(KeyCode::Char('?')), 3);
    assert!(!s.show_help());
    assert!(s.running());
}

#[test]
fn sort_keys_cycle_and_reverse() {
    let mut s = LoopState::new();
    assert_eq!(s.sort_column(), SortColumn::Pid);
    assert!(!s.sort_reverse());
    let order = [
        SortColumn::Command,
        SortColumn::Gtt,
        SortColumn::Rcs,
        SortColumn::Vcs,
        SortColumn::Ccs,
        SortColumn::Bcs,
        SortColumn::Vecs,
        SortColumn::Pid,
    ];
    for col in order {
        s.handle_key(press(KeyCode::Char('s')), 0);
        assert_eq!(s.sort_column(), col);
    }
    s.handle_key(press(KeyCode::Char('r')), 0);
    assert!(s.sort_reverse());
    s.handle_key(press(KeyCode::Char('r')), 0);
    assert!(!s.sort_reverse());
}

#[test]
fn selection_moves_within_the_table() {
    let mut s = LoopState::new();
    assert_eq!(s.selected(), 0);
    s.handle_key(press(KeyCode::Up), 3);
    assert_eq!(s.selected(), 0);
    s.handle_key(press(KeyCode::Down), 3);
    s.handle_key(press(KeyCode::Char('j')), 3);
    assert_eq!(s.selected(), 2);
    s.handle_key(press(KeyCode::Down), 3);
    assert_eq!(s.selected(), 2);
    s.handle_key(press(KeyCode::Char('k')), 3);
    assert_eq!(s.selected(), 1);
    s.handle_key(press(KeyCode::Down), 0);
    assert_eq!(s.selected(), 1);
    s.clamp_selection(1);
    assert_eq!(s.selected(), 0);
    s.handle_key(press(KeyCode::Down), 5);
    s.handle_key(press(KeyCode::Down), 5);
    s.clamp_selection(0);
    assert_eq!(s.selected(), 0);
}
