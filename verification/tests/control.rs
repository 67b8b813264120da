use bpfimp::control::{clock_ns, invocation, on_wake, FileEvent, Invocation, LoopAction, Wake};

#[test]
fn privileges_come_first() {
    assert_eq!(invocation(false, Some("inspect")), Invocation::NotRoot);
    assert_eq!(invocation(false, None), Invocation::NotRoot);
    assert_eq!(invocation(true, Some("inspect")), Invocation::Inspect);
    assert_eq!(invocation(true, Some("watch")), Invocation::Watch);
    assert_eq!(invocation(true, Some("run")), Invocation::Run);
    assert_eq!(invocation(true, None), Invocation::Nothing);
}

fn files(closed_after_write: bool, is_config: &[bool]) -> FileEvent {
    FileEvent { closed_after_write, is_config: is_config.to_vec() }
}

#[test]
fn only_a_save_of_the_config_reloads() {
    assert_eq!(on_wake(&Wake::Interrupt), LoopAction::Exit);
    assert_eq!(on_wake(&Wake::Terminate), LoopAction::Exit);
    assert_eq!(on_wake(&Wake::Files(vec![])), LoopAction::Wait);
    assert_eq!(on_wake(&Wake::Files(vec![files(false, &[true])])), LoopAction::Wait);
    assert_eq!(on_wake(&Wake::Files(vec![files(true, &[false])])), LoopAction::Wait);
    assert_eq!(
        on_wake(&Wake::Files(vec![files(true, &[]), files(true, &[false, true])])),
        LoopAction::Reload
    );
}

#[test]
fn clock_in_nanoseconds() {
    assert_eq!(clock_ns(0, 0), 0);
    assert_eq!(clock_ns(12, 345), 12_000_000_345);
}
