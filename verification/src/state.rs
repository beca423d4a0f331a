use vstd::prelude::*;

verus! {

/// The phase the simulation is in.
#[derive(Clone, Copy, Debug, PartialEq, Eq, Hash, Structural)]
pub enum SimState {
    /// Particles are not spawned yet; the spawn parameters can be edited.
    Prepare,
    /// The simulation advances every frame.
    Running,
    /// The simulation is frozen.
    Paused,
    /// The simulation advances one frame, then pauses.
    Step,
}

/// Where the simulation runs while it is running.
#[derive(Clone, Copy, Debug, PartialEq, Eq, Hash, Structural)]
pub enum Device {
    CPU,
    GPU,
}

/// What the mouse does to the particles.
#[derive(Clone, Copy, Debug, PartialEq, Eq, Hash, Structural)]
pub enum InteractionMode {
    Inactive,
    Repel,
    Attract,
}

impl SimState {
    /// The state the pause key (space) leads to: a running or stepping
    /// simulation pauses, a paused one runs, and one being prepared stays so.
    pub open spec fn spec_after_pause_key(self) -> SimState {
        match self {
            SimState::Running | SimState::Step => SimState::Paused,
            SimState::Paused => SimState::Running,
            SimState::Prepare => SimState::Prepare,
        }
    }

    /// The state the step key (right arrow) leads to: any started
    /// simulation steps, one being prepared stays so.
    pub open spec fn spec_after_step_key(self) -> SimState {
        match self {
            SimState::Prepare => SimState::Prepare,
            _ => SimState::Step,
        }
    }

    /// See `spec_after_pause_key`.
    pub fn after_pause_key(self) -> (r: SimState)
        ensures
            r == self.spec_after_pause_key(),
    {
        match self {
            SimState::Running | SimState::Step => SimState::Paused,
            SimState::Paused => SimState::Running,
            SimState::Prepare => SimState::Prepare,
        }
    }

    /// See `spec_after_step_key`.
    pub fn after_step_key(self) -> (r: SimState)
        ensures
            r == self.spec_after_step_key(),
    {
        match self {
            SimState::Prepare => SimState::Prepare,
            _ => SimState::Step,
        }
    }

    /// Whether the simulation is advanced in this frame (running or
    /// stepping).
    pub fn advances(self) -> (r: bool)
        ensures
            r == (self == SimState::Running || self == SimState::Step),
    {
        match self {
            SimState::Running | SimState::Step => true,
            _ => false,
        }
    }

    /// Whether positions read back from the GPU are taken over: always but
    /// while paused.
    pub fn accepts_readback(self) -> (r: bool)
        ensures
            r == (self != SimState::Paused),
    {
        match self {
            SimState::Paused => false,
            _ => true,
        }
    }
}

/// The state requested by the keys pressed in this frame, if any: the step
/// key is handled after the pause key, so when both are pressed its request
/// is the one that stands.
pub open spec fn spec_keyboard_next_state(state: SimState, pause_pressed: bool, step_pressed: bool) -> Option<SimState> {
    if step_pressed {
        Some(state.spec_after_step_key())
    } else if pause_pressed {
        Some(state.spec_after_pause_key())
    } else {
        None::<SimState>
    }
}

/// See `spec_keyboard_next_state`.
pub fn keyboard_next_state(state: SimState, pause_pressed: bool, step_pressed: bool) -> (r: Option<
    SimState,
>)
    ensures
        r == spec_keyboard_next_state(state, pause_pressed, step_pressed),
        !pause_pressed && !step_pressed ==> r is None,
        step_pressed ==> r == Some(
            if state == SimState::Prepare {
                SimState::Prepare
            } else {
                SimState::Step
            },
        ),
{
    let mut next: Option<SimState> = None;
    if pause_pressed {
        next = Some(state.after_pause_key());
    }
    if step_pressed {
        next = Some(state.after_step_key());
    }
    next
}

/// The mouse interaction chosen by the buttons held, and whether the camera
/// is driven in this frame: left button with left shift attracts, with left
/// alt repels, and both of these leave the camera alone; otherwise there is
/// no interaction and the camera moves.
pub fn interaction_for_input(left_pressed: bool, shift_pressed: bool, alt_pressed: bool) -> (r: (
    InteractionMode,
    bool,
))
    ensures
        r == (if left_pressed && shift_pressed {
            (InteractionMode::Attract, false)
        } else if left_pressed && alt_pressed {
            (InteractionMode::Repel, false)
        } else {
            (InteractionMode::Inactive, true)
        }),
{
    if left_pressed {
        if shift_pressed {
            return (InteractionMode::Attract, false);
        } else if alt_pressed {
            return (InteractionMode::Repel, false);
        }
    }
    (InteractionMode::Inactive, true)
}

/// The state a start request leads to: stepping once when the simulation
/// is to start paused, running otherwise.
pub fn state_after_start(start_paused: bool) -> (r: SimState)
    ensures
        r == (if start_paused {
            SimState::Step
        } else {
            SimState::Running
        }),
{
    if start_paused {
        SimState::Step
    } else {
        SimState::Running
    }
}

/// The simulation state as the GPU side last saw it, and the one before.
#[derive(Clone, Copy, Debug)]
pub struct GpuPhase {
    pub state: SimState,
    pub old_state: SimState,
}

impl GpuPhase {
    /// The phase of a GPU simulation that has just been set up.
    pub fn started() -> (r: GpuPhase)
        ensures
            r.state == SimState::Running,
            r.old_state == SimState::Prepare,
    {
        GpuPhase { state: SimState::Running, old_state: SimState::Prepare }
    }

    /// Records the state of this frame; the previous one becomes the old
    /// state.
    pub fn advance(&mut self, state: SimState)
        ensures
            final(self).old_state == old(self).state,
            final(self).state == state,
    {
        self.old_state = self.state;
        self.state = state;
    }
}

/// The simulation has just gone back to preparation: the GPU resources of
/// the run are torn down.
pub open spec fn spec_sim_just_stopped(phase: Option<GpuPhase>) -> bool {
    match phase {
        Some(p) => p.state == SimState::Prepare && p.old_state != SimState::Prepare,
        None => false,
    }
}

/// A GPU simulation exists and has left preparation: its resources are set
/// up when missing.
pub open spec fn spec_sim_running_or_paused(phase: Option<GpuPhase>) -> bool {
    match phase {
        Some(p) => p.state != SimState::Prepare,
        None => false,
    }
}

/// See `spec_sim_just_stopped`.
pub fn sim_just_stopped(phase: Option<GpuPhase>) -> (r: bool)
    ensures
        r == spec_sim_just_stopped(phase),
        r == (phase is Some && phase->0.state == SimState::Prepare && phase->0.old_state
            != SimState::Prepare),
{
    match phase {
        Some(p) => p.state == SimState::Prepare && p.old_state != SimState::Prepare,
        None => false,
    }
}

/// See `spec_sim_running_or_paused`.
pub fn sim_running_or_paused(phase: Option<GpuPhase>) -> (r: bool)
    ensures
        r == spec_sim_running_or_paused(phase),
        r == (phase is Some && phase->0.state != SimState::Prepare),
{
    match phase {
        Some(p) => p.state != SimState::Prepare,
        None => false,
    }
}

/// The keyboard never takes the simulation out of preparation.
pub proof fn lemma_keys_keep_prepare(pause_pressed: bool, step_pressed: bool)
    ensures
        spec_keyboard_next_state(SimState::Prepare, pause_pressed, step_pressed) matches Some(s)
            ==> s == SimState::Prepare,
{
}

/// With no key pressed, the keyboard requests no state, whatever the
/// state is.
pub proof fn lemma_no_key_no_request(s: SimState)
    ensures
        spec_keyboard_next_state(s, false, false) is None,
{
}

/// The pause key alone requests exactly the other of running and paused,
/// pauses a stepping simulation, and keeps preparation.
pub proof fn lemma_pause_key_request(s: SimState)
    ensures
        spec_keyboard_next_state(s, true, false) == Some(
            if s == SimState::Running || s == SimState::Step {
                SimState::Paused
            } else if s == SimState::Paused {
                SimState::Running
            } else {
                SimState::Prepare
            },
        ),
{
}

/// The GPU resources are set up exactly for a simulation whose state is
/// not preparation: running, paused or stepping; never without one.
pub proof fn lemma_setup_exactly_outside_prepare(p: GpuPhase)
    ensures
        spec_sim_running_or_paused(Some(p)) <==> p.state != SimState::Prepare,
        spec_sim_running_or_paused(Some(GpuPhase { state: SimState::Paused, old_state: p.old_state })),
        spec_sim_running_or_paused(Some(GpuPhase { state: SimState::Running, old_state: p.old_state })),
        spec_sim_running_or_paused(Some(GpuPhase { state: SimState::Step, old_state: p.old_state })),
        !spec_sim_running_or_paused(None),
{
}

/// The GPU resources are torn down exactly when the state is preparation
/// and the previous one was not.
pub proof fn lemma_teardown_exactly_on_return(p: GpuPhase)
    ensures
        spec_sim_just_stopped(Some(p)) <==> (p.state == SimState::Prepare && p.old_state
            != SimState::Prepare),
        !spec_sim_just_stopped(None),
{
}

/// The step key leaves every started simulation stepping.
pub proof fn lemma_step_key_steps(s: SimState, pause_pressed: bool)
    requires
        s != SimState::Prepare,
    ensures
        spec_keyboard_next_state(s, pause_pressed, true) == Some(SimState::Step),
{
}

/// Pressing the pause key twice from a running or paused simulation comes
/// back to where it started; from a stepping one it ends up running.
pub proof fn lemma_pause_key_toggles(s: SimState)
    requires
        s != SimState::Prepare,
    ensures
        s.spec_after_pause_key() != s,
        (s == SimState::Running || s == SimState::Paused) ==> s.spec_after_pause_key().spec_after_pause_key() == s,
        s == SimState::Step ==> s.spec_after_pause_key().spec_after_pause_key() == SimState::Running,
{
}

/// Tearing down and setting up GPU resources never both happen in a frame.
pub proof fn lemma_teardown_excludes_setup(phase: Option<GpuPhase>)
    ensures
        !(spec_sim_just_stopped(phase) && spec_sim_running_or_paused(phase)),
{
}

/// After the GPU side records a return to preparation from any other
/// state, the teardown condition holds, and it holds for no other record.
pub proof fn lemma_advance_to_prepare_stops(p: GpuPhase, s: SimState)
    ensures
        spec_sim_just_stopped(Some(GpuPhase { state: s, old_state: p.state })) <==> (s
            == SimState::Prepare && p.state != SimState::Prepare),
{
}

} // verus!
