use folder_stats::render::mib_of;
use folder_stats::render::InputKey;
use folder_stats::render::LoopState;
use folder_stats::render::RenderLoop;

#[test]
fn quit_key_terminates_within_one_poll() {
    let mut l = RenderLoop::new();
    assert!(matches!(l.state, LoopState::Running));
    let quit = l.observe_input(Some(InputKey::Char('q')));
    assert!(quit);
    assert!(matches!(l.state, LoopState::Terminated));
}

#[test]
fn other_keys_keep_the_loop_running() {
    let mut l = RenderLoop::new();
    assert!(!l.observe_input(Some(InputKey::Char('a'))));
    assert!(!l.observe_input(Some(InputKey::Char('Q'))));
    assert!(!l.observe_input(Some(InputKey::Other)));
    assert!(!l.observe_input(None));
    assert!(matches!(l.state, LoopState::Running));
}

#[test]
fn mib_conversion_truncates() {
    assert_eq!(mib_of(0), 0);
    assert_eq!(mib_of(1048575), 0);
    assert_eq!(mib_of(1048576), 1);
    assert_eq!(mib_of(3 * 1048576 + 5), 3);
    assert_eq!(mib_of(u64::MAX), u64::MAX / 1048576);
}
