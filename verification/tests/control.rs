use env_monitor::control::{ButtonEvent, ButtonPhase, ButtonWait, LoopState, TickAction};

#[test]
fn every_fifth_tick_is_a_full_update() {
    let mut s = LoopState::new();
    let mut actions = Vec::new();
    for _ in 0..11 {
        actions.push(s.action());
        s.advance();
    }
    let full: Vec<usize> = actions
        .iter()
        .enumerate()
        .filter(|(_, a)| **a == TickAction::FullUpdate)
        .map(|(i, _)| i)
        .collect();
    assert_eq!(full, vec![0, 5, 10]);
}

#[test]
fn graph_is_reloaded_only_when_it_opens() {
    let mut s = LoopState::new();
    assert!(!s.on_sample(false));
    assert!(s.on_sample(true));
    assert!(!s.on_sample(true));
    assert!(!s.on_sample(false));
    assert!(s.on_sample(true));
}

#[test]
fn counters_wrap_around() {
    let mut s = LoopState { tick: u32::MAX, anim_frame: usize::MAX, graph_was_open: true };
    assert_eq!(s.action(), TickAction::FullUpdate);
    s.advance();
    assert_eq!((s.tick, s.anim_frame, s.graph_was_open), (0, 0, true));
    assert_eq!(s.action(), TickAction::FullUpdate);
}

#[test]
fn a_held_press_toggles_once() {
    let mut phase = ButtonPhase::Released;
    assert_eq!(phase.wait(), ButtonWait::FallingEdge);
    assert!(!phase.step(ButtonEvent::FallingEdge));
    assert_eq!(phase.wait(), ButtonWait::Debounce);
    assert!(phase.step(ButtonEvent::Settled { low: true }));
    assert_eq!(phase, ButtonPhase::Pressed);
    assert_eq!(phase.wait(), ButtonWait::RisingEdge);
    assert!(!phase.step(ButtonEvent::Settled { low: true }));
    assert!(!phase.step(ButtonEvent::RisingEdge));
    assert_eq!(phase.wait(), ButtonWait::Debounce);
    assert!(!phase.step(ButtonEvent::Settled { low: false }));
    assert_eq!(phase, ButtonPhase::Released);
}

#[test]
fn a_bounce_does_not_toggle() {
    let mut phase = ButtonPhase::Released;
    assert!(!phase.step(ButtonEvent::FallingEdge));
    assert!(!phase.step(ButtonEvent::Settled { low: false }));
    assert_eq!(phase, ButtonPhase::Released);
    assert!(!phase.step(ButtonEvent::RisingEdge));
    assert_eq!(phase, ButtonPhase::Released);
}
