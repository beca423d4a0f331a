use fluid_sim::state::{
    interaction_for_input, keyboard_next_state, sim_just_stopped, sim_running_or_paused,
    state_after_start, GpuPhase, InteractionMode, SimState,
};

#[test]
fn pause_key_toggles_running_and_paused() {
    assert_eq!(keyboard_next_state(SimState::Running, true, false), Some(SimState::Paused));
    assert_eq!(keyboard_next_state(SimState::Paused, true, false), Some(SimState::Running));
    assert_eq!(keyboard_next_state(SimState::Step, true, false), Some(SimState::Paused));
    let twice = SimState::Running.after_pause_key().after_pause_key();
    assert_eq!(twice, SimState::Running);
}

#[test]
fn step_key_steps_started_simulation() {
    for s in [SimState::Running, SimState::Paused, SimState::Step] {
        assert_eq!(keyboard_next_state(s, false, true), Some(SimState::Step));
    }
}

#[test]
fn keys_do_not_leave_prepare() {
    assert_eq!(keyboard_next_state(SimState::Prepare, true, false), Some(SimState::Prepare));
    assert_eq!(keyboard_next_state(SimState::Prepare, false, true), Some(SimState::Prepare));
    assert_eq!(keyboard_next_state(SimState::Prepare, true, true), Some(SimState::Prepare));
}

#[test]
fn step_key_wins_over_pause_key() {
    assert_eq!(keyboard_next_state(SimState::Paused, true, true), Some(SimState::Step));
}

#[test]
fn no_key_no_request() {
    assert_eq!(keyboard_next_state(SimState::Running, false, false), None);
}

#[test]
fn shift_click_attracts_alt_click_repels() {
    assert_eq!(interaction_for_input(true, true, false), (InteractionMode::Attract, false));
    assert_eq!(interaction_for_input(true, true, true), (InteractionMode::Attract, false));
    assert_eq!(interaction_for_input(true, false, true), (InteractionMode::Repel, false));
    assert_eq!(interaction_for_input(true, false, false), (InteractionMode::Inactive, true));
    assert_eq!(interaction_for_input(false, true, true), (InteractionMode::Inactive, true));
}

#[test]
fn start_request_state() {
    assert_eq!(state_after_start(true), SimState::Step);
    assert_eq!(state_after_start(false), SimState::Running);
}

#[test]
fn advancing_and_readback_states() {
    assert!(SimState::Running.advances());
    assert!(SimState::Step.advances());
    assert!(!SimState::Paused.advances());
    assert!(!SimState::Prepare.advances());
    assert!(!SimState::Paused.accepts_readback());
    assert!(SimState::Running.accepts_readback());
}

#[test]
fn gpu_phase_detects_stop() {
    let mut p = GpuPhase::started();
    assert!(!sim_just_stopped(Some(p)));
    assert!(sim_running_or_paused(Some(p)));
    p.advance(SimState::Prepare);
    assert!(sim_just_stopped(Some(p)));
    assert!(!sim_running_or_paused(Some(p)));
    p.advance(SimState::Prepare);
    assert!(!sim_just_stopped(Some(p)));
    assert!(!sim_just_stopped(None));
    assert!(!sim_running_or_paused(None));
}
