//! Keyboard control of the dashboard: what each key does to the view state,
//! and which effects (exit, pause, playback speed, gain, log notes) the
//! surrounding application has to carry out.
use vstd::prelude::*;
use crate::track::{cycle_selection, next_selection, display_list, ListEntry};

verus! {

/// A key press as the dashboard distinguishes it.
#[derive(Clone, Copy, Debug, PartialEq, Eq, Structural)]
pub enum Key {
    Char(char),
    Up,
    Down,
    Esc,
    Other,
}

/// Waterfall display.
#[derive(Clone, Copy, Debug, PartialEq, Eq, Structural)]
pub enum WaterfallMode {
    DopplerTime,
    RangeDoppler,
}

/// Which targets get covariance ellipses.
#[derive(Clone, Copy, Debug, PartialEq, Eq, Structural)]
pub enum EllipseMode {
    Off,
    Selected,
    All,
}

/// Motion model of the tracker.
#[derive(Clone, Copy, Debug, PartialEq, Eq, Structural)]
pub enum TrackingMode {
    Airspace,
    GroundCar,
    GroundTrain,
}

/// Key-controlled flags and selection of the dashboard.
#[derive(Clone, Copy, Debug, PartialEq, Eq, Structural)]
pub struct ViewState {
    pub show_logs: bool,
    pub show_towers: bool,
    pub show_waterfall: bool,
    /// Bumped whenever the waterfall has to be redrawn from scratch.
    pub data_version: u64,
    pub show_constellation: bool,
    pub show_aligner: bool,
    pub show_hacker: bool,
    pub show_records: bool,
    pub show_multipath: bool,
    pub show_unconfirmed: bool,
    pub crt_mode: bool,
    pub screen_shake: bool,
    pub show_jem_spectrogram: bool,
    pub doppler_scale_pm: bool,
    pub dc_block: bool,
    pub one_bit_mode: bool,
    pub selected_target_id: Option<u32>,
    pub is_test: bool,
    /// Automatic gain control in software.
    pub software_agc: bool,
    /// The source is a hardware receiver (gain control applies to it).
    pub sdr_hardware: bool,
}

/// Display and tracking modes of the dashboard.
#[derive(Clone, Copy, Debug, PartialEq, Eq, Structural)]
pub struct DisplayModes {
    pub waterfall_mode: WaterfallMode,
    pub ellipse_mode: EllipseMode,
    pub tracking_mode: TrackingMode,
}

/// What the application does after a key.
#[derive(Clone, Copy, Debug, PartialEq, Eq, Structural)]
pub enum KeyEffect {
    Nothing,
    Exit,
    SetPaused(bool),
    SetSpeed(u32),
    RequestStep,
    /// Lower the receiver gain by one step.
    GainDown,
    /// Raise the receiver gain by one step.
    GainUp,
    /// Restart the automatic gain control clock.
    RestartAgcClock,
    /// Log that a meteor event was flagged.
    LogMeteorEvent,
    /// Log the new one-bit mode.
    LogOneBitMode(bool),
    /// Log the new tracking mode.
    LogTrackingMode(TrackingMode),
}

pub open spec fn next_ellipse(m: EllipseMode) -> EllipseMode {
    match m {
        EllipseMode::Off => EllipseMode::Selected,
        EllipseMode::Selected => EllipseMode::All,
        EllipseMode::All => EllipseMode::Off,
    }
}

pub open spec fn next_tracking(m: TrackingMode) -> TrackingMode {
    match m {
        TrackingMode::Airspace => TrackingMode::GroundCar,
        TrackingMode::GroundCar => TrackingMode::GroundTrain,
        TrackingMode::GroundTrain => TrackingMode::Airspace,
    }
}

pub open spec fn other_waterfall(m: WaterfallMode) -> WaterfallMode {
    match m {
        WaterfallMode::DopplerTime => WaterfallMode::RangeDoppler,
        WaterfallMode::RangeDoppler => WaterfallMode::DopplerTime,
    }
}

/// What a key asks for.
#[derive(Clone, Copy, Debug, PartialEq, Eq, Structural)]
pub enum KeyAction {
    Quit,
    TogglePause,
    Faster,
    Slower,
    Step,
    ToggleLogs,
    ToggleTowers,
    ToggleWaterfall,
    SwitchWaterfallMode,
    ToggleConstellation,
    ToggleAligner,
    ToggleHacker,
    ToggleRecords,
    ToggleMultipath,
    ToggleUnconfirmed,
    ToggleCrt,
    ToggleScreenShake,
    ToggleJemSpectrogram,
    ToggleDopplerScale,
    CycleEllipses,
    ToggleDcBlock,
    ToggleOneBit,
    GainDown,
    GainUp,
    ToggleAgc,
    CycleTrackingMode,
    SelectPrevious,
    SelectNext,
    Deselect,
    Ignore,
}

/// The action bound to a key (letters in either case).
#[verifier::opaque]
pub open spec fn key_action(key: Key) -> KeyAction {
    match key {
        Key::Char(c) => {
            if c == 'q' || c == 'Q' {
                KeyAction::Quit
            } else if c == ' ' {
                KeyAction::TogglePause
            } else if c == '+' || c == '=' {
                KeyAction::Faster
            } else if c == '-' {
                KeyAction::Slower
            } else if c == 's' || c == 'S' {
                KeyAction::Step
            } else if c == 'l' || c == 'L' {
                KeyAction::ToggleLogs
            } else if c == 't' || c == 'T' {
                KeyAction::ToggleTowers
            } else if c == 'w' || c == 'W' {
                KeyAction::ToggleWaterfall
            } else if c == 'f' || c == 'F' {
                KeyAction::SwitchWaterfallMode
            } else if c == 'c' || c == 'C' {
                KeyAction::ToggleConstellation
            } else if c == 'a' || c == 'A' {
                KeyAction::ToggleAligner
            } else if c == 'h' || c == 'H' {
                KeyAction::ToggleHacker
            } else if c == 'r' || c == 'R' {
                KeyAction::ToggleRecords
            } else if c == 'p' || c == 'P' {
                KeyAction::ToggleMultipath
            } else if c == 'u' || c == 'U' {
                KeyAction::ToggleUnconfirmed
            } else if c == 'x' || c == 'X' {
                KeyAction::ToggleCrt
            } else if c == 'm' || c == 'M' {
                KeyAction::ToggleScreenShake
            } else if c == 'j' || c == 'J' {
                KeyAction::ToggleJemSpectrogram
            } else if c == 'v' || c == 'V' {
                KeyAction::ToggleDopplerScale
            } else if c == 'e' || c == 'E' {
                KeyAction::CycleEllipses
            } else if c == 'd' || c == 'D' {
                KeyAction::ToggleDcBlock
            } else if c == '1' {
                KeyAction::ToggleOneBit
            } else if c == '[' {
                KeyAction::GainDown
            } else if c == ']' {
                KeyAction::GainUp
            } else if c == 'g' || c == 'G' {
                KeyAction::ToggleAgc
            } else if c == 'k' || c == 'K' {
                KeyAction::CycleTrackingMode
            } else {
                KeyAction::Ignore
            }
        },
        Key::Up => KeyAction::SelectPrevious,
        Key::Down => KeyAction::SelectNext,
        Key::Esc => KeyAction::Deselect,
        Key::Other => KeyAction::Ignore,
    }
}

/// The action bound to a key.
pub fn action_for(key: Key) -> (a: KeyAction)
    ensures
        a == key_action(key),
{
    proof {
        reveal(key_action);
    }
    match key {
        Key::Char(c) => {
            if c == 'q' || c == 'Q' {
                KeyAction::Quit
            } else if c == ' ' {
                KeyAction::TogglePause
            } else if c == '+' || c == '=' {
                KeyAction::Faster
            } else if c == '-' {
                KeyAction::Slower
            } else if c == 's' || c == 'S' {
                KeyAction::Step
            } else if c == 'l' || c == 'L' {
                KeyAction::ToggleLogs
            } else if c == 't' || c == 'T' {
                KeyAction::ToggleTowers
            } else if c == 'w' || c == 'W' {
                KeyAction::ToggleWaterfall
            } else if c == 'f' || c == 'F' {
                KeyAction::SwitchWaterfallMode
            } else if c == 'c' || c == 'C' {
                KeyAction::ToggleConstellation
            } else if c == 'a' || c == 'A' {
                KeyAction::ToggleAligner
            } else if c == 'h' || c == 'H' {
                KeyAction::ToggleHacker
            } else if c == 'r' || c == 'R' {
                KeyAction::ToggleRecords
            } else if c == 'p' || c == 'P' {
                KeyAction::ToggleMultipath
            } else if c == 'u' || c == 'U' {
                KeyAction::ToggleUnconfirmed
            } else if c == 'x' || c == 'X' {
                KeyAction::ToggleCrt
            } else if c == 'm' || c == 'M' {
                KeyAction::ToggleScreenShake
            } else if c == 'j' || c == 'J' {
                KeyAction::ToggleJemSpectrogram
            } else if c == 'v' || c == 'V' {
                KeyAction::ToggleDopplerScale
            } else if c == 'e' || c == 'E' {
                KeyAction::CycleEllipses
            } else if c == 'd' || c == 'D' {
                KeyAction::ToggleDcBlock
            } else if c == '1' {
                KeyAction::ToggleOneBit
            } else if c == '[' {
                KeyAction::GainDown
            } else if c == ']' {
                KeyAction::GainUp
            } else if c == 'g' || c == 'G' {
                KeyAction::ToggleAgc
            } else if c == 'k' || c == 'K' {
                KeyAction::CycleTrackingMode
            } else {
                KeyAction::Ignore
            }
        },
        Key::Up => KeyAction::SelectPrevious,
        Key::Down => KeyAction::SelectNext,
        Key::Esc => KeyAction::Deselect,
        Key::Other => KeyAction::Ignore,
    }
}

/// `b` flipped when `on` holds.
pub open spec fn flip(on: bool, b: bool) -> bool {
    if on {
        !b
    } else {
        b
    }
}

/// Actions that flip one flag of the view and nothing else.
pub open spec fn is_toggle(a: KeyAction) -> bool {
    ||| a == KeyAction::ToggleLogs
    ||| a == KeyAction::ToggleTowers
    ||| a == KeyAction::ToggleWaterfall
    ||| a == KeyAction::ToggleConstellation
    ||| a == KeyAction::ToggleAligner
    ||| a == KeyAction::ToggleHacker
    ||| a == KeyAction::ToggleRecords
    ||| a == KeyAction::ToggleMultipath
    ||| a == KeyAction::ToggleUnconfirmed
    ||| a == KeyAction::ToggleCrt
    ||| a == KeyAction::ToggleScreenShake
    ||| a == KeyAction::ToggleJemSpectrogram
    ||| a == KeyAction::ToggleDopplerScale
    ||| a == KeyAction::ToggleDcBlock
    ||| a == KeyAction::ToggleOneBit
}

/// Whether an action moves the target selection through the list.
pub open spec fn is_selection_move(a: KeyAction) -> bool {
    a == KeyAction::SelectPrevious || a == KeyAction::SelectNext
}

/// View after an action; `chosen` is the target that a selection move lands on.
pub open spec fn action_view(v: ViewState, a: KeyAction, chosen: Option<u32>) -> ViewState {
    ViewState {
        show_logs: flip(a == KeyAction::ToggleLogs, v.show_logs),
        show_towers: flip(a == KeyAction::ToggleTowers, v.show_towers),
        show_waterfall: flip(a == KeyAction::ToggleWaterfall, v.show_waterfall),
        data_version: if a == KeyAction::SwitchWaterfallMode {
            if v.data_version == u64::MAX {
                0
            } else {
                (v.data_version + 1) as u64
            }
        } else {
            v.data_version
        },
        show_constellation: flip(a == KeyAction::ToggleConstellation, v.show_constellation),
        show_aligner: flip(a == KeyAction::ToggleAligner, v.show_aligner),
        show_hacker: flip(a == KeyAction::ToggleHacker, v.show_hacker),
        show_records: flip(a == KeyAction::ToggleRecords, v.show_records),
        show_multipath: flip(a == KeyAction::ToggleMultipath, v.show_multipath),
        show_unconfirmed: flip(a == KeyAction::ToggleUnconfirmed, v.show_unconfirmed),
        crt_mode: flip(a == KeyAction::ToggleCrt, v.crt_mode),
        screen_shake: flip(a == KeyAction::ToggleScreenShake, v.screen_shake),
        show_jem_spectrogram: flip(a == KeyAction::ToggleJemSpectrogram, v.show_jem_spectrogram),
        doppler_scale_pm: flip(a == KeyAction::ToggleDopplerScale, v.doppler_scale_pm),
        dc_block: flip(a == KeyAction::ToggleDcBlock, v.dc_block),
        one_bit_mode: flip(a == KeyAction::ToggleOneBit, v.one_bit_mode),
        selected_target_id: if is_selection_move(a) {
            chosen
        } else if a == KeyAction::Deselect {
            None
        } else {
            v.selected_target_id
        },
        is_test: v.is_test,
        software_agc: if a == KeyAction::GainDown || a == KeyAction::GainUp {
            false
        } else {
            flip(a == KeyAction::ToggleAgc && v.sdr_hardware, v.software_agc)
        },
        sdr_hardware: v.sdr_hardware,
    }
}

/// Modes after an action.
pub open spec fn action_modes(m: DisplayModes, a: KeyAction) -> DisplayModes {
    DisplayModes {
        waterfall_mode: if a == KeyAction::SwitchWaterfallMode {
            other_waterfall(m.waterfall_mode)
        } else {
            m.waterfall_mode
        },
        ellipse_mode: if a == KeyAction::CycleEllipses {
            next_ellipse(m.ellipse_mode)
        } else {
            m.ellipse_mode
        },
        tracking_mode: if a == KeyAction::CycleTrackingMode {
            next_tracking(m.tracking_mode)
        } else {
            m.tracking_mode
        },
    }
}

/// Where a selection move lands: the previous (`Up`) or next (`Down`)
/// entry of the target list as displayed.
pub open spec fn chosen_target(v: ViewState, a: KeyAction, targets: Seq<ListEntry>) -> Option<u32> {
    if is_selection_move(a) {
        next_selection(
            display_list(targets, v.show_unconfirmed),
            v.selected_target_id,
            a == KeyAction::SelectPrevious,
            v.is_test,
        )
    } else {
        v.selected_target_id
    }
}

/// View after a key.
pub open spec fn key_view(v: ViewState, key: Key, targets: Seq<ListEntry>) -> ViewState {
    let a = key_action(key);
    action_view(v, a, chosen_target(v, a, targets))
}

/// Modes after a key.
pub open spec fn key_modes(m: DisplayModes, key: Key) -> DisplayModes {
    action_modes(m, key_action(key))
}

/// What the application does after an action.
pub open spec fn action_effect(v: ViewState, m: DisplayModes, a: KeyAction, paused: bool, speed: u32) -> KeyEffect {
    match a {
        KeyAction::Quit => KeyEffect::Exit,
        KeyAction::TogglePause => KeyEffect::SetPaused(!paused),
        KeyAction::Faster => KeyEffect::SetSpeed(if speed + 25 <= 1000 { (speed + 25) as u32 } else { 1000 }),
        KeyAction::Slower => KeyEffect::SetSpeed(if speed >= 50 { (speed - 25) as u32 } else { 25 }),
        KeyAction::Step => if paused { KeyEffect::RequestStep } else { KeyEffect::Nothing },
        KeyAction::ToggleScreenShake => if !v.screen_shake { KeyEffect::LogMeteorEvent } else { KeyEffect::Nothing },
        KeyAction::ToggleOneBit => KeyEffect::LogOneBitMode(!v.one_bit_mode),
        KeyAction::GainDown => KeyEffect::GainDown,
        KeyAction::GainUp => KeyEffect::GainUp,
        KeyAction::ToggleAgc => if v.sdr_hardware { KeyEffect::RestartAgcClock } else { KeyEffect::Nothing },
        KeyAction::CycleTrackingMode => KeyEffect::LogTrackingMode(next_tracking(m.tracking_mode)),
        _ => KeyEffect::Nothing,
    }
}

/// What the application does after a key.
pub open spec fn key_effect(v: ViewState, m: DisplayModes, key: Key, paused: bool, speed: u32) -> KeyEffect {
    action_effect(v, m, key_action(key), paused, speed)
}

/// The view after an action; `chosen` is where a selection move lands.
fn view_after(v: &ViewState, a: KeyAction, chosen: Option<u32>) -> (w: ViewState)
    ensures
        w == action_view(*v, a, chosen),
{
    let gain_key = matches!(a, KeyAction::GainDown) || matches!(a, KeyAction::GainUp);
    ViewState {
        show_logs: if matches!(a, KeyAction::ToggleLogs) { !v.show_logs } else { v.show_logs },
        show_towers: if matches!(a, KeyAction::ToggleTowers) { !v.show_towers } else { v.show_towers },
        show_waterfall: if matches!(a, KeyAction::ToggleWaterfall) { !v.show_waterfall } else { v.show_waterfall },
        data_version: if matches!(a, KeyAction::SwitchWaterfallMode) {
            v.data_version.wrapping_add(1)
        } else {
            v.data_version
        },
        show_constellation: if matches!(a, KeyAction::ToggleConstellation) { !v.show_constellation } else { v.show_constellation },
        show_aligner: if matches!(a, KeyAction::ToggleAligner) { !v.show_aligner } else { v.show_aligner },
        show_hacker: if matches!(a, KeyAction::ToggleHacker) { !v.show_hacker } else { v.show_hacker },
        show_records: if matches!(a, KeyAction::ToggleRecords) { !v.show_records } else { v.show_records },
        show_multipath: if matches!(a, KeyAction::ToggleMultipath) { !v.show_multipath } else { v.show_multipath },
        show_unconfirmed: if matches!(a, KeyAction::ToggleUnconfirmed) { !v.show_unconfirmed } else { v.show_unconfirmed },
        crt_mode: if matches!(a, KeyAction::ToggleCrt) { !v.crt_mode } else { v.crt_mode },
        screen_shake: if matches!(a, KeyAction::ToggleScreenShake) { !v.screen_shake } else { v.screen_shake },
        show_jem_spectrogram: if matches!(a, KeyAction::ToggleJemSpectrogram) { !v.show_jem_spectrogram } else { v.show_jem_spectrogram },
        doppler_scale_pm: if matches!(a, KeyAction::ToggleDopplerScale) { !v.doppler_scale_pm } else { v.doppler_scale_pm },
        dc_block: if matches!(a, KeyAction::ToggleDcBlock) { !v.dc_block } else { v.dc_block },
        one_bit_mode: if matches!(a, KeyAction::ToggleOneBit) { !v.one_bit_mode } else { v.one_bit_mode },
        selected_target_id: if matches!(a, KeyAction::SelectPrevious) || matches!(a, KeyAction::SelectNext) {
            chosen
        } else if matches!(a, KeyAction::Deselect) {
            None
        } else {
            v.selected_target_id
        },
        is_test: v.is_test,
        software_agc: if gain_key {
            false
        } else {
            if matches!(a, KeyAction::ToggleAgc) && v.sdr_hardware { !v.software_agc } else { v.software_agc }
        },
        sdr_hardware: v.sdr_hardware,
    }
}

/// The modes after an action.
fn modes_after(m: &DisplayModes, a: KeyAction) -> (n: DisplayModes)
    ensures
        n == action_modes(*m, a),
{
    let m = *m;
    match a {
        KeyAction::SwitchWaterfallMode => DisplayModes {
            waterfall_mode: match m.waterfall_mode {
                WaterfallMode::DopplerTime => WaterfallMode::RangeDoppler,
                WaterfallMode::RangeDoppler => WaterfallMode::DopplerTime,
            },
            ..m
        },
        KeyAction::CycleEllipses => DisplayModes {
            ellipse_mode: match m.ellipse_mode {
                EllipseMode::Off => EllipseMode::Selected,
                EllipseMode::Selected => EllipseMode::All,
                EllipseMode::All => EllipseMode::Off,
            },
            ..m
        },
        KeyAction::CycleTrackingMode => DisplayModes {
            tracking_mode: match m.tracking_mode {
                TrackingMode::Airspace => TrackingMode::GroundCar,
                TrackingMode::GroundCar => TrackingMode::GroundTrain,
                TrackingMode::GroundTrain => TrackingMode::Airspace,
            },
            ..m
        },
        _ => m,
    }
}

/// The application effect of an action.
fn effect_of(v: &ViewState, m: &DisplayModes, a: KeyAction, paused: bool, speed: u32) -> (e: KeyEffect)
    requires
        a == KeyAction::Faster ==> speed <= u32::MAX - 25,
    ensures
        e == action_effect(*v, *m, a, paused, speed),
{
    match a {
        KeyAction::Quit => KeyEffect::Exit,
        KeyAction::TogglePause => KeyEffect::SetPaused(!paused),
        KeyAction::Faster => KeyEffect::SetSpeed(crate::track::speed_up(speed)),
        KeyAction::Slower => KeyEffect::SetSpeed(crate::track::slow_down(speed)),
        KeyAction::Step => if paused {
            KeyEffect::RequestStep
        } else {
            KeyEffect::Nothing
        },
        KeyAction::ToggleScreenShake => if !v.screen_shake {
            KeyEffect::LogMeteorEvent
        } else {
            KeyEffect::Nothing
        },
        KeyAction::ToggleOneBit => KeyEffect::LogOneBitMode(!v.one_bit_mode),
        KeyAction::GainDown => KeyEffect::GainDown,
        KeyAction::GainUp => KeyEffect::GainUp,
        KeyAction::ToggleAgc => if v.sdr_hardware {
            KeyEffect::RestartAgcClock
        } else {
            KeyEffect::Nothing
        },
        KeyAction::CycleTrackingMode => KeyEffect::LogTrackingMode(
            match m.tracking_mode {
                TrackingMode::Airspace => TrackingMode::GroundCar,
                TrackingMode::GroundCar => TrackingMode::GroundTrain,
                TrackingMode::GroundTrain => TrackingMode::Airspace,
            },
        ),
        _ => KeyEffect::Nothing,
    }
}

/// Applies a key to the view and the modes, and returns what the
/// application has to do, given whether playback is paused, the playback
/// speed and the targets of the tracking bank.
pub fn handle_key(
    v: &mut ViewState,
    m: &mut DisplayModes,
    key: Key,
    paused: bool,
    speed: u32,
    targets: &[ListEntry],
) -> (e: KeyEffect)
    requires
        key_action(key) == KeyAction::Faster ==> speed <= u32::MAX - 25,
    ensures
        *final(v) == key_view(*old(v), key, targets@),
        *final(m) == key_modes(*old(m), key),
        e == key_effect(*old(v), *old(m), key, paused, speed),
{
    let a = action_for(key);
    let e = effect_of(v, m, a, paused, speed);
    let chosen = match a {
        KeyAction::SelectPrevious => cycle_selection(targets, v.show_unconfirmed, v.selected_target_id, true, v.is_test),
        KeyAction::SelectNext => cycle_selection(targets, v.show_unconfirmed, v.selected_target_id, false, v.is_test),
        _ => v.selected_target_id,
    };
    *v = view_after(v, a, chosen);
    *m = modes_after(m, a);
    e
}

/// Toggle law: pressing a toggling key twice restores the view and leaves
/// the modes alone.
pub proof fn lemma_toggle_twice(v: ViewState, m: DisplayModes, key: Key, targets: Seq<ListEntry>)
    requires
        is_toggle(key_action(key)),
    ensures
        key_view(key_view(v, key, targets), key, targets) == v,
        key_modes(m, key) == m,
{
}

/// Cycle law: three presses of the ellipse or tracking-mode key restore the
/// modes, two presses of the waterfall key restore the waterfall display,
/// and none of them changes the target selection.
pub proof fn lemma_mode_keys_cycle(m: DisplayModes, v: ViewState, key: Key, targets: Seq<ListEntry>)
    ensures
        key_action(key) == KeyAction::CycleEllipses || key_action(key) == KeyAction::CycleTrackingMode
            ==> key_modes(key_modes(key_modes(m, key), key), key) == m,
        key_action(key) == KeyAction::SwitchWaterfallMode ==> key_modes(key_modes(m, key), key) == m,
        key_view(v, key, targets).selected_target_id == v.selected_target_id
            || key_action(key) == KeyAction::SelectPrevious
            || key_action(key) == KeyAction::SelectNext
            || key_action(key) == KeyAction::Deselect,
{
}

/// The actions of the display keys.
proof fn lemma_display_key_actions()
    ensures
        key_action(Key::Char('l')) == KeyAction::ToggleLogs,
        key_action(Key::Char('L')) == KeyAction::ToggleLogs,
        key_action(Key::Char('t')) == KeyAction::ToggleTowers,
        key_action(Key::Char('T')) == KeyAction::ToggleTowers,
        key_action(Key::Char('w')) == KeyAction::ToggleWaterfall,
        key_action(Key::Char('W')) == KeyAction::ToggleWaterfall,
        key_action(Key::Char('c')) == KeyAction::ToggleConstellation,
        key_action(Key::Char('C')) == KeyAction::ToggleConstellation,
        key_action(Key::Char('a')) == KeyAction::ToggleAligner,
        key_action(Key::Char('A')) == KeyAction::ToggleAligner,
        key_action(Key::Char('h')) == KeyAction::ToggleHacker,
        key_action(Key::Char('H')) == KeyAction::ToggleHacker,
        key_action(Key::Char('r')) == KeyAction::ToggleRecords,
        key_action(Key::Char('R')) == KeyAction::ToggleRecords,
        key_action(Key::Char('p')) == KeyAction::ToggleMultipath,
        key_action(Key::Char('P')) == KeyAction::ToggleMultipath,
        key_action(Key::Char('u')) == KeyAction::ToggleUnconfirmed,
        key_action(Key::Char('U')) == KeyAction::ToggleUnconfirmed,
        key_action(Key::Char('x')) == KeyAction::ToggleCrt,
        key_action(Key::Char('X')) == KeyAction::ToggleCrt,
        key_action(Key::Char('m')) == KeyAction::ToggleScreenShake,
        key_action(Key::Char('M')) == KeyAction::ToggleScreenShake,
        key_action(Key::Char('j')) == KeyAction::ToggleJemSpectrogram,
        key_action(Key::Char('J')) == KeyAction::ToggleJemSpectrogram,
        key_action(Key::Char('v')) == KeyAction::ToggleDopplerScale,
        key_action(Key::Char('V')) == KeyAction::ToggleDopplerScale,
        key_action(Key::Char('d')) == KeyAction::ToggleDcBlock,
        key_action(Key::Char('D')) == KeyAction::ToggleDcBlock,
{
    reveal(key_action);
}

/// The actions of the command keys.
proof fn lemma_command_key_actions()
    ensures
        key_action(Key::Char('q')) == KeyAction::Quit,
        key_action(Key::Char('Q')) == KeyAction::Quit,
        key_action(Key::Char(' ')) == KeyAction::TogglePause,
        key_action(Key::Char('+')) == KeyAction::Faster,
        key_action(Key::Char('=')) == KeyAction::Faster,
        key_action(Key::Char('-')) == KeyAction::Slower,
        key_action(Key::Char('s')) == KeyAction::Step,
        key_action(Key::Char('1')) == KeyAction::ToggleOneBit,
        key_action(Key::Char('[')) == KeyAction::GainDown,
        key_action(Key::Char(']')) == KeyAction::GainUp,
        key_action(Key::Char('g')) == KeyAction::ToggleAgc,
        key_action(Key::Char('e')) == KeyAction::CycleEllipses,
        key_action(Key::Char('k')) == KeyAction::CycleTrackingMode,
        key_action(Key::Char('f')) == KeyAction::SwitchWaterfallMode,
{
    reveal(key_action);
}

/// A key that moves no selection changes the view by its action alone.
proof fn lemma_plain_key_view(v: ViewState, key: Key, ts: Seq<ListEntry>)
    requires
        !is_selection_move(key_action(key)),
    ensures
        key_view(v, key, ts) == action_view(v, key_action(key), v.selected_target_id),
{
}

/// Key `l` (either case) flips `show_logs` and nothing else.
pub proof fn lemma_key_l_flips_show_logs(v: ViewState, m: DisplayModes, ts: Seq<ListEntry>)
    ensures
        key_view(v, Key::Char('l'), ts) == (ViewState { show_logs: !v.show_logs, ..v }),
        key_modes(m, Key::Char('l')) == m,
        key_view(v, Key::Char('L'), ts) == (ViewState { show_logs: !v.show_logs, ..v }),
        key_modes(m, Key::Char('L')) == m,
{
    lemma_display_key_actions();
    lemma_plain_key_view(v, Key::Char('l'), ts);
    lemma_plain_key_view(v, Key::Char('L'), ts);
}

/// Key `t` (either case) flips `show_towers` and nothing else.
pub proof fn lemma_key_t_flips_show_towers(v: ViewState, m: DisplayModes, ts: Seq<ListEntry>)
    ensures
        key_view(v, Key::Char('t'), ts) == (ViewState { show_towers: !v.show_towers, ..v }),
        key_modes(m, Key::Char('t')) == m,
        key_view(v, Key::Char('T'), ts) == (ViewState { show_towers: !v.show_towers, ..v }),
        key_modes(m, Key::Char('T')) == m,
{
    lemma_display_key_actions();
    lemma_plain_key_view(v, Key::Char('t'), ts);
    lemma_plain_key_view(v, Key::Char('T'), ts);
}

/// Key `w` (either case) flips `show_waterfall` and nothing else.
pub proof fn lemma_key_w_flips_show_waterfall(v: ViewState, m: DisplayModes, ts: Seq<ListEntry>)
    ensures
        key_view(v, Key::Char('w'), ts) == (ViewState { show_waterfall: !v.show_waterfall, ..v }),
        key_modes(m, Key::Char('w')) == m,
        key_view(v, Key::Char('W'), ts) == (ViewState { show_waterfall: !v.show_waterfall, ..v }),
        key_modes(m, Key::Char('W')) == m,
{
    lemma_display_key_actions();
    lemma_plain_key_view(v, Key::Char('w'), ts);
    lemma_plain_key_view(v, Key::Char('W'), ts);
}

/// Key `c` (either case) flips `show_constellation` and nothing else.
pub proof fn lemma_key_c_flips_show_constellation(v: ViewState, m: DisplayModes, ts: Seq<ListEntry>)
    ensures
        key_view(v, Key::Char('c'), ts) == (ViewState { show_constellation: !v.show_constellation, ..v }),
        key_modes(m, Key::Char('c')) == m,
        key_view(v, Key::Char('C'), ts) == (ViewState { show_constellation: !v.show_constellation, ..v }),
        key_modes(m, Key::Char('C')) == m,
{
    lemma_display_key_actions();
    lemma_plain_key_view(v, Key::Char('c'), ts);
    lemma_plain_key_view(v, Key::Char('C'), ts);
}

/// Key `a` (either case) flips `show_aligner` and nothing else.
pub proof fn lemma_key_a_flips_show_aligner(v: ViewState, m: DisplayModes, ts: Seq<ListEntry>)
    ensures
        key_view(v, Key::Char('a'), ts) == (ViewState { show_aligner: !v.show_aligner, ..v }),
        key_modes(m, Key::Char('a')) == m,
        key_view(v, Key::Char('A'), ts) == (ViewState { show_aligner: !v.show_aligner, ..v }),
        key_modes(m, Key::Char('A')) == m,
{
    lemma_display_key_actions();
    lemma_plain_key_view(v, Key::Char('a'), ts);
    lemma_plain_key_view(v, Key::Char('A'), ts);
}

/// Key `h` (either case) flips `show_hacker` and nothing else.
pub proof fn lemma_key_h_flips_show_hacker(v: ViewState, m: DisplayModes, ts: Seq<ListEntry>)
    ensures
        key_view(v, Key::Char('h'), ts) == (ViewState { show_hacker: !v.show_hacker, ..v }),
        key_modes(m, Key::Char('h')) == m,
        key_view(v, Key::Char('H'), ts) == (ViewState { show_hacker: !v.show_hacker, ..v }),
        key_modes(m, Key::Char('H')) == m,
{
    lemma_display_key_actions();
    lemma_plain_key_view(v, Key::Char('h'), ts);
    lemma_plain_key_view(v, Key::Char('H'), ts);
}

/// Key `r` (either case) flips `show_records` and nothing else.
pub proof fn lemma_key_r_flips_show_records(v: ViewState, m: DisplayModes, ts: Seq<ListEntry>)
    ensures
        key_view(v, Key::Char('r'), ts) == (ViewState { show_records: !v.show_records, ..v }),
        key_modes(m, Key::Char('r')) == m,
        key_view(v, Key::Char('R'), ts) == (ViewState { show_records: !v.show_records, ..v }),
        key_modes(m, Key::Char('R')) == m,
{
    lemma_display_key_actions();
    lemma_plain_key_view(v, Key::Char('r'), ts);
    lemma_plain_key_view(v, Key::Char('R'), ts);
}

/// Key `p` (either case) flips `show_multipath` and nothing else.
pub proof fn lemma_key_p_flips_show_multipath(v: ViewState, m: DisplayModes, ts: Seq<ListEntry>)
    ensures
        key_view(v, Key::Char('p'), ts) == (ViewState { show_multipath: !v.show_multipath, ..v }),
        key_modes(m, Key::Char('p')) == m,
        key_view(v, Key::Char('P'), ts) == (ViewState { show_multipath: !v.show_multipath, ..v }),
        key_modes(m, Key::Char('P')) == m,
{
    lemma_display_key_actions();
    lemma_plain_key_view(v, Key::Char('p'), ts);
    lemma_plain_key_view(v, Key::Char('P'), ts);
}

/// Key `u` (either case) flips `show_unconfirmed` and nothing else.
pub proof fn lemma_key_u_flips_show_unconfirmed(v: ViewState, m: DisplayModes, ts: Seq<ListEntry>)
    ensures
        key_view(v, Key::Char('u'), ts) == (ViewState { show_unconfirmed: !v.show_unconfirmed, ..v }),
        key_modes(m, Key::Char('u')) == m,
        key_view(v, Key::Char('U'), ts) == (ViewState { show_unconfirmed: !v.show_unconfirmed, ..v }),
        key_modes(m, Key::Char('U')) == m,
{
    lemma_display_key_actions();
    lemma_plain_key_view(v, Key::Char('u'), ts);
    lemma_plain_key_view(v, Key::Char('U'), ts);
}

/// Key `x` (either case) flips `crt_mode` and nothing else.
pub proof fn lemma_key_x_flips_crt_mode(v: ViewState, m: DisplayModes, ts: Seq<ListEntry>)
    ensures
        key_view(v, Key::Char('x'), ts) == (ViewState { crt_mode: !v.crt_mode, ..v }),
        key_modes(m, Key::Char('x')) == m,
        key_view(v, Key::Char('X'), ts) == (ViewState { crt_mode: !v.crt_mode, ..v }),
        key_modes(m, Key::Char('X')) == m,
{
    lemma_display_key_actions();
    lemma_plain_key_view(v, Key::Char('x'), ts);
    lemma_plain_key_view(v, Key::Char('X'), ts);
}

/// Key `m` (either case) flips `screen_shake` and nothing else.
pub proof fn lemma_key_m_flips_screen_shake(v: ViewState, m: DisplayModes, ts: Seq<ListEntry>)
    ensures
        key_view(v, Key::Char('m'), ts) == (ViewState { screen_shake: !v.screen_shake, ..v }),
        key_modes(m, Key::Char('m')) == m,
        key_view(v, Key::Char('M'), ts) == (ViewState { screen_shake: !v.screen_shake, ..v }),
        key_modes(m, Key::Char('M')) == m,
{
    lemma_display_key_actions();
    lemma_plain_key_view(v, Key::Char('m'), ts);
    lemma_plain_key_view(v, Key::Char('M'), ts);
}

/// Key `j` (either case) flips `show_jem_spectrogram` and nothing else.
pub proof fn lemma_key_j_flips_show_jem_spectrogram(v: ViewState, m: DisplayModes, ts: Seq<ListEntry>)
    ensures
        key_view(v, Key::Char('j'), ts) == (ViewState { show_jem_spectrogram: !v.show_jem_spectrogram, ..v }),
        key_modes(m, Key::Char('j')) == m,
        key_view(v, Key::Char('J'), ts) == (ViewState { show_jem_spectrogram: !v.show_jem_spectrogram, ..v }),
        key_modes(m, Key::Char('J')) == m,
{
    lemma_display_key_actions();
    lemma_plain_key_view(v, Key::Char('j'), ts);
    lemma_plain_key_view(v, Key::Char('J'), ts);
}

/// Key `v` (either case) flips `doppler_scale_pm` and nothing else.
pub proof fn lemma_key_v_flips_doppler_scale_pm(v: ViewState, m: DisplayModes, ts: Seq<ListEntry>)
    ensures
        key_view(v, Key::Char('v'), ts) == (ViewState { doppler_scale_pm: !v.doppler_scale_pm, ..v }),
        key_modes(m, Key::Char('v')) == m,
        key_view(v, Key::Char('V'), ts) == (ViewState { doppler_scale_pm: !v.doppler_scale_pm, ..v }),
        key_modes(m, Key::Char('V')) == m,
{
    lemma_display_key_actions();
    lemma_plain_key_view(v, Key::Char('v'), ts);
    lemma_plain_key_view(v, Key::Char('V'), ts);
}

/// Key `d` (either case) flips `dc_block` and nothing else.
pub proof fn lemma_key_d_flips_dc_block(v: ViewState, m: DisplayModes, ts: Seq<ListEntry>)
    ensures
        key_view(v, Key::Char('d'), ts) == (ViewState { dc_block: !v.dc_block, ..v }),
        key_modes(m, Key::Char('d')) == m,
        key_view(v, Key::Char('D'), ts) == (ViewState { dc_block: !v.dc_block, ..v }),
        key_modes(m, Key::Char('D')) == m,
{
    lemma_display_key_actions();
    lemma_plain_key_view(v, Key::Char('d'), ts);
    lemma_plain_key_view(v, Key::Char('D'), ts);
}

/// Quiet-key law: the display keys other than screen shake ask nothing of
/// the application.
pub proof fn lemma_display_keys_quiet(v: ViewState, m: DisplayModes, paused: bool, speed: u32)
    ensures
        key_effect(v, m, Key::Char('l'), paused, speed) == KeyEffect::Nothing,
        key_effect(v, m, Key::Char('L'), paused, speed) == KeyEffect::Nothing,
        key_effect(v, m, Key::Char('t'), paused, speed) == KeyEffect::Nothing,
        key_effect(v, m, Key::Char('T'), paused, speed) == KeyEffect::Nothing,
        key_effect(v, m, Key::Char('w'), paused, speed) == KeyEffect::Nothing,
        key_effect(v, m, Key::Char('W'), paused, speed) == KeyEffect::Nothing,
        key_effect(v, m, Key::Char('c'), paused, speed) == KeyEffect::Nothing,
        key_effect(v, m, Key::Char('C'), paused, speed) == KeyEffect::Nothing,
        key_effect(v, m, Key::Char('a'), paused, speed) == KeyEffect::Nothing,
        key_effect(v, m, Key::Char('A'), paused, speed) == KeyEffect::Nothing,
        key_effect(v, m, Key::Char('h'), paused, speed) == KeyEffect::Nothing,
        key_effect(v, m, Key::Char('H'), paused, speed) == KeyEffect::Nothing,
        key_effect(v, m, Key::Char('r'), paused, speed) == KeyEffect::Nothing,
        key_effect(v, m, Key::Char('R'), paused, speed) == KeyEffect::Nothing,
        key_effect(v, m, Key::Char('p'), paused, speed) == KeyEffect::Nothing,
        key_effect(v, m, Key::Char('P'), paused, speed) == KeyEffect::Nothing,
        key_effect(v, m, Key::Char('u'), paused, speed) == KeyEffect::Nothing,
        key_effect(v, m, Key::Char('U'), paused, speed) == KeyEffect::Nothing,
        key_effect(v, m, Key::Char('x'), paused, speed) == KeyEffect::Nothing,
        key_effect(v, m, Key::Char('X'), paused, speed) == KeyEffect::Nothing,
        key_effect(v, m, Key::Char('j'), paused, speed) == KeyEffect::Nothing,
        key_effect(v, m, Key::Char('J'), paused, speed) == KeyEffect::Nothing,
        key_effect(v, m, Key::Char('v'), paused, speed) == KeyEffect::Nothing,
        key_effect(v, m, Key::Char('V'), paused, speed) == KeyEffect::Nothing,
        key_effect(v, m, Key::Char('d'), paused, speed) == KeyEffect::Nothing,
        key_effect(v, m, Key::Char('D'), paused, speed) == KeyEffect::Nothing,
        key_effect(v, m, Key::Char('m'), paused, speed) == (if v.screen_shake { KeyEffect::Nothing } else { KeyEffect::LogMeteorEvent }),
{
    lemma_display_key_actions();
}

/// Command-key law: `q` exits; space pauses or resumes; `+` and `=` speed up
/// by 25 (at most 1000) and `-` slows down by 25 (at least 25); `s` steps
/// only while paused; `1` flips one-bit mode and logs its new state; `[`
/// and `]` step the gain and take gain control from the AGC; `g` flips the
/// AGC of a hardware receiver; `e` cycles the ellipses, `k` the tracking
/// mode (logging it), and `f` switches the waterfall, forcing a redraw.
pub proof fn lemma_command_key_bindings(v: ViewState, m: DisplayModes, ts: Seq<ListEntry>, paused: bool, speed: u32)
    ensures
        key_effect(v, m, Key::Char('q'), paused, speed) == KeyEffect::Exit,
        key_effect(v, m, Key::Char('Q'), paused, speed) == KeyEffect::Exit,
        key_effect(v, m, Key::Char(' '), paused, speed) == KeyEffect::SetPaused(!paused),
        key_effect(v, m, Key::Char('+'), paused, speed) == key_effect(v, m, Key::Char('='), paused, speed),
        speed + 25 <= 1000 ==> key_effect(v, m, Key::Char('+'), paused, speed) == KeyEffect::SetSpeed((speed + 25) as u32),
        speed + 25 > 1000 ==> key_effect(v, m, Key::Char('+'), paused, speed) == KeyEffect::SetSpeed(1000),
        speed >= 50 ==> key_effect(v, m, Key::Char('-'), paused, speed) == KeyEffect::SetSpeed((speed - 25) as u32),
        speed < 50 ==> key_effect(v, m, Key::Char('-'), paused, speed) == KeyEffect::SetSpeed(25),
        key_effect(v, m, Key::Char('s'), paused, speed) == (if paused { KeyEffect::RequestStep } else { KeyEffect::Nothing }),
        key_view(v, Key::Char('1'), ts) == (ViewState { one_bit_mode: !v.one_bit_mode, ..v }),
        key_effect(v, m, Key::Char('1'), paused, speed) == KeyEffect::LogOneBitMode(!v.one_bit_mode),
        key_view(v, Key::Char('['), ts) == (ViewState { software_agc: false, ..v }),
        key_effect(v, m, Key::Char('['), paused, speed) == KeyEffect::GainDown,
        key_view(v, Key::Char(']'), ts) == (ViewState { software_agc: false, ..v }),
        key_effect(v, m, Key::Char(']'), paused, speed) == KeyEffect::GainUp,
        key_view(v, Key::Char('g'), ts) == (ViewState { software_agc: if v.sdr_hardware { !v.software_agc } else { v.software_agc }, ..v }),
        key_modes(m, Key::Char('e')) == (DisplayModes { ellipse_mode: next_ellipse(m.ellipse_mode), ..m }),
        key_view(v, Key::Char('e'), ts) == v,
        key_modes(m, Key::Char('k')) == (DisplayModes { tracking_mode: next_tracking(m.tracking_mode), ..m }),
        key_effect(v, m, Key::Char('k'), paused, speed) == KeyEffect::LogTrackingMode(next_tracking(m.tracking_mode)),
        key_modes(m, Key::Char('f')) == (DisplayModes { waterfall_mode: other_waterfall(m.waterfall_mode), ..m }),
        key_view(v, Key::Char('f'), ts).data_version != v.data_version,
{
    lemma_command_key_actions();
}

/// Escape always clears the selection and leaves the rest of the view and
/// the modes alone.
pub proof fn lemma_escape_deselects(v: ViewState, m: DisplayModes, targets: Seq<ListEntry>)
    ensures
        key_view(v, Key::Esc, targets) == (ViewState { selected_target_id: None, ..v }),
        key_modes(m, Key::Esc) == m,
{
    reveal(key_action);
}

} // verus!
