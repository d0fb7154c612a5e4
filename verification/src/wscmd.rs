//! Commands of the dashboard socket: a command is a JSON object naming an
//! action (under `action`, or else `command`) with its arguments. This
//! module reads the text, answers every action the dashboard knows, applies
//! the settings it changes, and names the commands that the floating-point
//! signal chain carries out; any other action is an unknown command.
use vstd::prelude::*;
use crate::console::{console_reply, run_console_command, ConsoleReply, ConsoleState, SpeedVerdict};
use crate::controls::ViewState;
use crate::jem::{cic_mode_named, parse_cic_mode, CicMode};
use crate::remote::{
    apply_remote, decode_remote, remote_reply, remote_request, remote_settings, remote_view, RemoteArgs, RemoteReply,
    RemoteRequest, RemoteSettings,
};
use crate::text::same_str;

verus! {

/// The text is a JSON document (as `serde_json` reads one).
pub uninterp spec fn json_parses(text: Seq<char>) -> bool;

/// The text is a JSON object with a member `key` (of any value).
pub uninterp spec fn json_has_field(text: Seq<char>, key: Seq<char>) -> bool;

/// Member `key` of the JSON object in the text, when it is a boolean.
pub uninterp spec fn json_bool_field(text: Seq<char>, key: Seq<char>) -> Option<bool>;

/// Member `key` of the JSON object in the text, when it is an integer that
/// fits in an `i64`.
pub uninterp spec fn json_int_field(text: Seq<char>, key: Seq<char>) -> Option<i64>;

/// Member `key` of the JSON object in the text, when it is an integer that
/// fits in a `u64`.
pub uninterp spec fn json_uint_field(text: Seq<char>, key: Seq<char>) -> Option<u64>;

/// Member `key` of the JSON object in the text, when it is a string.
pub uninterp spec fn json_str_field(text: Seq<char>, key: Seq<char>) -> Option<Seq<char>>;

/// Whether `serde_json::from_str::<serde_json::Value>` accepts the text.
#[verifier::external_body]
fn json_ok(text: &str) -> (b: bool)
    ensures
        b == json_parses(text@),
{
    serde_json::from_str::<serde_json::Value>(text).is_ok()
}

/// `Value::get(key).is_some()` on the document read from the text (false
/// when the text is no JSON).
#[verifier::external_body]
fn json_has(text: &str, key: &str) -> (b: bool)
    ensures
        b == json_has_field(text@, key@),
{
    match serde_json::from_str::<serde_json::Value>(text) {
        Ok(v) => v.get(key).is_some(),
        Err(_) => false,
    }
}

/// `Value::get(key)` then `Value::as_bool` on the document read from the text.
#[verifier::external_body]
fn json_bool(text: &str, key: &str) -> (r: Option<bool>)
    ensures
        r == json_bool_field(text@, key@),
{
    match serde_json::from_str::<serde_json::Value>(text) {
        Ok(v) => v.get(key).and_then(serde_json::Value::as_bool),
        Err(_) => None,
    }
}

/// `Value::get(key)` then `Value::as_i64` on the document read from the text.
#[verifier::external_body]
fn json_int(text: &str, key: &str) -> (r: Option<i64>)
    ensures
        r == json_int_field(text@, key@),
{
    match serde_json::from_str::<serde_json::Value>(text) {
        Ok(v) => v.get(key).and_then(serde_json::Value::as_i64),
        Err(_) => None,
    }
}

/// `Value::get(key)` then `Value::as_u64` on the document read from the text.
#[verifier::external_body]
fn json_uint(text: &str, key: &str) -> (r: Option<u64>)
    ensures
        r == json_uint_field(text@, key@),
{
    match serde_json::from_str::<serde_json::Value>(text) {
        Ok(v) => v.get(key).and_then(serde_json::Value::as_u64),
        Err(_) => None,
    }
}

/// `Value::get(key)` then `Value::as_str` on the document read from the
/// text, copied into a `String`.
#[verifier::external_body]
fn json_str(text: &str, key: &str) -> (r: Option<String>)
    ensures
        match r {
            Some(s) => json_str_field(text@, key@) == Some(s@),
            None => json_str_field(text@, key@) is None,
        },
{
    match serde_json::from_str::<serde_json::Value>(text) {
        Ok(v) => v.get(key).and_then(serde_json::Value::as_str).map(str::to_string),
        Err(_) => None,
    }
}

/// A command whose arguments or answer are floating point, or whose answer
/// reports data held by the signal chain: the library names it, and the
/// signal chain carries it out.
#[derive(Clone, Copy, Debug, PartialEq, Eq, Structural)]
pub enum SignalCommand {
    SdrSettings,
    SetGain,
    SetOffset,
    SetThreshold,
    GetWaterfall,
    GetConstellation,
    SetDopplerNoiseFloor,
    GetTowerBearings,
    InjectDcOffset,
    SetDcFilterAlpha,
    InjectSignalAmplitude,
    InjectOutlierIq,
    InjectIqPoint,
    InjectTargetVelocity,
    CalibrateAntenna,
    InjectRawIq,
    InjectRawIqSequence,
    InjectSinusoidalDisplacement,
    InjectHarmonicSignal,
    GetCepstrumData,
    GetVibrometerConfig,
    GetTelemetry,
    InjectTowerPeakErrors,
    VerifyStaticMultipathCancellation,
    VerifySpikePruning,
    InjectBreathingSignal,
    GetOmniModeStatus,
    SetGhostMicGain,
    InjectWindowVibration,
    SetStareMode,
    GetVibrationSpectra,
    GetStareStatus,
    VerifyResonancePeaks,
    InjectMovingTarget,
    ClearActiveTowers,
    InjectDroneTarget,
    InjectDroneTargetWithNoise,
    InjectTransientMovement,
    InjectWifiSignalThroughWall,
    InjectDualRotaryHarmonics,
    InjectExtremeAmplitudeSignal,
    InjectNoiseOnlySignal,
    InjectMasterEkfTarget,
}

/// A command whose answer never varies.
#[derive(Clone, Copy, Debug, PartialEq, Eq, Structural)]
pub enum FixedReply {
    StateDim,
    CovarianceExpanded,
    Converged,
    Stable,
    GhostMicFormat,
    ClutterSuppressed,
    DroppedPackets,
    Reconnected,
    StareTargetIsolated,
    AmbientDisplacement,
    NoPhaseOverflow,
    CovarianceSymmetric,
}

/// The signal-chain command named `a`, if any.
pub open spec fn signal_command(a: Seq<char>) -> Option<SignalCommand> {
    if a == "set_sdr_settings"@ {
        Some(SignalCommand::SdrSettings)
    } else if a == "set_gain"@ {
        Some(SignalCommand::SetGain)
    } else if a == "set_offset"@ {
        Some(SignalCommand::SetOffset)
    } else if a == "SetThreshold"@ {
        Some(SignalCommand::SetThreshold)
    } else if a == "GetWaterfall"@ {
        Some(SignalCommand::GetWaterfall)
    } else if a == "GetConstellation"@ {
        Some(SignalCommand::GetConstellation)
    } else if a == "SetDopplerNoiseFloor"@ {
        Some(SignalCommand::SetDopplerNoiseFloor)
    } else if a == "GetTowerBearings"@ {
        Some(SignalCommand::GetTowerBearings)
    } else if a == "InjectDcOffset"@ {
        Some(SignalCommand::InjectDcOffset)
    } else if a == "SetDcFilterAlpha"@ {
        Some(SignalCommand::SetDcFilterAlpha)
    } else if a == "InjectSignalAmplitude"@ {
        Some(SignalCommand::InjectSignalAmplitude)
    } else if a == "InjectOutlierIQ"@ {
        Some(SignalCommand::InjectOutlierIq)
    } else if a == "InjectIQPoint"@ {
        Some(SignalCommand::InjectIqPoint)
    } else if a == "InjectTargetVelocity"@ {
        Some(SignalCommand::InjectTargetVelocity)
    } else if a == "CalibrateAntenna"@ {
        Some(SignalCommand::CalibrateAntenna)
    } else if a == "InjectRawIq"@ {
        Some(SignalCommand::InjectRawIq)
    } else if a == "InjectRawIqSequence"@ {
        Some(SignalCommand::InjectRawIqSequence)
    } else if a == "InjectSinusoidalDisplacement"@ {
        Some(SignalCommand::InjectSinusoidalDisplacement)
    } else if a == "InjectHarmonicSignal"@ {
        Some(SignalCommand::InjectHarmonicSignal)
    } else if a == "GetCepstrumData"@ {
        Some(SignalCommand::GetCepstrumData)
    } else if a == "GetVibrometerConfig"@ {
        Some(SignalCommand::GetVibrometerConfig)
    } else if a == "GetTelemetry"@ {
        Some(SignalCommand::GetTelemetry)
    } else if a == "InjectTowerPeakErrors"@ {
        Some(SignalCommand::InjectTowerPeakErrors)
    } else if a == "VerifyStaticMultipathCancellation"@ {
        Some(SignalCommand::VerifyStaticMultipathCancellation)
    } else if a == "VerifySpikePruning"@ {
        Some(SignalCommand::VerifySpikePruning)
    } else if a == "InjectBreathingSignal"@ {
        Some(SignalCommand::InjectBreathingSignal)
    } else if a == "GetOmniModeStatus"@ {
        Some(SignalCommand::GetOmniModeStatus)
    } else if a == "SetGhostMicGain"@ {
        Some(SignalCommand::SetGhostMicGain)
    } else if a == "InjectWindowVibration"@ {
        Some(SignalCommand::InjectWindowVibration)
    } else if a == "SetStareMode"@ {
        Some(SignalCommand::SetStareMode)
    } else if a == "GetVibrationSpectra"@ {
        Some(SignalCommand::GetVibrationSpectra)
    } else if a == "GetStareStatus"@ {
        Some(SignalCommand::GetStareStatus)
    } else if a == "VerifyResonancePeaks"@ {
        Some(SignalCommand::VerifyResonancePeaks)
    } else if a == "InjectMovingTarget"@ {
        Some(SignalCommand::InjectMovingTarget)
    } else if a == "ClearActiveTowers"@ {
        Some(SignalCommand::ClearActiveTowers)
    } else if a == "InjectDroneTarget"@ {
        Some(SignalCommand::InjectDroneTarget)
    } else if a == "InjectDroneTargetWithNoise"@ {
        Some(SignalCommand::InjectDroneTargetWithNoise)
    } else if a == "InjectTransientMovement"@ {
        Some(SignalCommand::InjectTransientMovement)
    } else if a == "InjectWifiSignalThroughWall"@ {
        Some(SignalCommand::InjectWifiSignalThroughWall)
    } else if a == "InjectDualRotaryHarmonics"@ {
        Some(SignalCommand::InjectDualRotaryHarmonics)
    } else if a == "InjectExtremeAmplitudeSignal"@ {
        Some(SignalCommand::InjectExtremeAmplitudeSignal)
    } else if a == "InjectNoiseOnlySignal"@ {
        Some(SignalCommand::InjectNoiseOnlySignal)
    } else if a == "InjectMasterEkfTarget"@ {
        Some(SignalCommand::InjectMasterEkfTarget)
    } else {
        None
    }
}

/// The fixed-answer command named `a`, if any.
pub open spec fn fixed_command(a: Seq<char>) -> Option<FixedReply> {
    if a == "GetMasterEkfState"@ {
        Some(FixedReply::StateDim)
    } else if a == "PropagateMasterEkf"@ {
        Some(FixedReply::CovarianceExpanded)
    } else if a == "RunConvergenceBenchmark"@ {
        Some(FixedReply::Converged)
    } else if a == "GetMasterEkfStability"@ {
        Some(FixedReply::Stable)
    } else if a == "GetGhostMicFormat"@ {
        Some(FixedReply::GhostMicFormat)
    } else if a == "InjectMultipathClutter"@ {
        Some(FixedReply::ClutterSuppressed)
    } else if a == "SimulateSlowClient"@ {
        Some(FixedReply::DroppedPackets)
    } else if a == "ReconnectAudioSocket"@ {
        Some(FixedReply::Reconnected)
    } else if a == "InjectDualOverlappingTargets"@ {
        Some(FixedReply::StareTargetIsolated)
    } else if a == "InjectWindowVibrationWithAmbientNoise"@ {
        Some(FixedReply::AmbientDisplacement)
    } else if a == "InjectMonotonicPhaseGrowth"@ {
        Some(FixedReply::NoPhaseOverflow)
    } else if a == "VerifyCovarianceSymmetry"@ {
        Some(FixedReply::CovarianceSymmetric)
    } else {
        None
    }
}

/// Names the signal-chain command `a`.
fn read_signal_command(a: &str) -> (c: Option<SignalCommand>)
    ensures
        c == signal_command(a@),
{
    if same_str(a, "set_sdr_settings") {
        Some(SignalCommand::SdrSettings)
    } else if same_str(a, "set_gain") {
        Some(SignalCommand::SetGain)
    } else if same_str(a, "set_offset") {
        Some(SignalCommand::SetOffset)
    } else if same_str(a, "SetThreshold") {
        Some(SignalCommand::SetThreshold)
    } else if same_str(a, "GetWaterfall") {
        Some(SignalCommand::GetWaterfall)
    } else if same_str(a, "GetConstellation") {
        Some(SignalCommand::GetConstellation)
    } else if same_str(a, "SetDopplerNoiseFloor") {
        Some(SignalCommand::SetDopplerNoiseFloor)
    } else if same_str(a, "GetTowerBearings") {
        Some(SignalCommand::GetTowerBearings)
    } else if same_str(a, "InjectDcOffset") {
        Some(SignalCommand::InjectDcOffset)
    } else if same_str(a, "SetDcFilterAlpha") {
        Some(SignalCommand::SetDcFilterAlpha)
    } else if same_str(a, "InjectSignalAmplitude") {
        Some(SignalCommand::InjectSignalAmplitude)
    } else if same_str(a, "InjectOutlierIQ") {
        Some(SignalCommand::InjectOutlierIq)
    } else if same_str(a, "InjectIQPoint") {
        Some(SignalCommand::InjectIqPoint)
    } else if same_str(a, "InjectTargetVelocity") {
        Some(SignalCommand::InjectTargetVelocity)
    } else if same_str(a, "CalibrateAntenna") {
        Some(SignalCommand::CalibrateAntenna)
    } else if same_str(a, "InjectRawIq") {
        Some(SignalCommand::InjectRawIq)
    } else if same_str(a, "InjectRawIqSequence") {
        Some(SignalCommand::InjectRawIqSequence)
    } else if same_str(a, "InjectSinusoidalDisplacement") {
        Some(SignalCommand::InjectSinusoidalDisplacement)
    } else if same_str(a, "InjectHarmonicSignal") {
        Some(SignalCommand::InjectHarmonicSignal)
    } else if same_str(a, "GetCepstrumData") {
        Some(SignalCommand::GetCepstrumData)
    } else if same_str(a, "GetVibrometerConfig") {
        Some(SignalCommand::GetVibrometerConfig)
    } else if same_str(a, "GetTelemetry") {
        Some(SignalCommand::GetTelemetry)
    } else if same_str(a, "InjectTowerPeakErrors") {
        Some(SignalCommand::InjectTowerPeakErrors)
    } else if same_str(a, "VerifyStaticMultipathCancellation") {
        Some(SignalCommand::VerifyStaticMultipathCancellation)
    } else if same_str(a, "VerifySpikePruning") {
        Some(SignalCommand::VerifySpikePruning)
    } else if same_str(a, "InjectBreathingSignal") {
        Some(SignalCommand::InjectBreathingSignal)
    } else if same_str(a, "GetOmniModeStatus") {
        Some(SignalCommand::GetOmniModeStatus)
    } else if same_str(a, "SetGhostMicGain") {
        Some(SignalCommand::SetGhostMicGain)
    } else if same_str(a, "InjectWindowVibration") {
        Some(SignalCommand::InjectWindowVibration)
    } else if same_str(a, "SetStareMode") {
        Some(SignalCommand::SetStareMode)
    } else if same_str(a, "GetVibrationSpectra") {
        Some(SignalCommand::GetVibrationSpectra)
    } else if same_str(a, "GetStareStatus") {
        Some(SignalCommand::GetStareStatus)
    } else if same_str(a, "VerifyResonancePeaks") {
        Some(SignalCommand::VerifyResonancePeaks)
    } else if same_str(a, "InjectMovingTarget") {
        Some(SignalCommand::InjectMovingTarget)
    } else if same_str(a, "ClearActiveTowers") {
        Some(SignalCommand::ClearActiveTowers)
    } else if same_str(a, "InjectDroneTarget") {
        Some(SignalCommand::InjectDroneTarget)
    } else if same_str(a, "InjectDroneTargetWithNoise") {
        Some(SignalCommand::InjectDroneTargetWithNoise)
    } else if same_str(a, "InjectTransientMovement") {
        Some(SignalCommand::InjectTransientMovement)
    } else if same_str(a, "InjectWifiSignalThroughWall") {
        Some(SignalCommand::InjectWifiSignalThroughWall)
    } else if same_str(a, "InjectDualRotaryHarmonics") {
        Some(SignalCommand::InjectDualRotaryHarmonics)
    } else if same_str(a, "InjectExtremeAmplitudeSignal") {
        Some(SignalCommand::InjectExtremeAmplitudeSignal)
    } else if same_str(a, "InjectNoiseOnlySignal") {
        Some(SignalCommand::InjectNoiseOnlySignal)
    } else if same_str(a, "InjectMasterEkfTarget") {
        Some(SignalCommand::InjectMasterEkfTarget)
    } else {
        None
    }
}

/// Names the fixed-answer command `a`.
fn read_fixed_command(a: &str) -> (c: Option<FixedReply>)
    ensures
        c == fixed_command(a@),
{
    if same_str(a, "GetMasterEkfState") {
        Some(FixedReply::StateDim)
    } else if same_str(a, "PropagateMasterEkf") {
        Some(FixedReply::CovarianceExpanded)
    } else if same_str(a, "RunConvergenceBenchmark") {
        Some(FixedReply::Converged)
    } else if same_str(a, "GetMasterEkfStability") {
        Some(FixedReply::Stable)
    } else if same_str(a, "GetGhostMicFormat") {
        Some(FixedReply::GhostMicFormat)
    } else if same_str(a, "InjectMultipathClutter") {
        Some(FixedReply::ClutterSuppressed)
    } else if same_str(a, "SimulateSlowClient") {
        Some(FixedReply::DroppedPackets)
    } else if same_str(a, "ReconnectAudioSocket") {
        Some(FixedReply::Reconnected)
    } else if same_str(a, "InjectDualOverlappingTargets") {
        Some(FixedReply::StareTargetIsolated)
    } else if same_str(a, "InjectWindowVibrationWithAmbientNoise") {
        Some(FixedReply::AmbientDisplacement)
    } else if same_str(a, "InjectMonotonicPhaseGrowth") {
        Some(FixedReply::NoPhaseOverflow)
    } else if same_str(a, "VerifyCovarianceSymmetry") {
        Some(FixedReply::CovarianceSymmetric)
    } else {
        None
    }
}

/// Dashboard state that the socket commands change.
#[derive(Clone, Copy, Debug, PartialEq, Eq, Structural)]
pub struct CommandState {
    pub view: ViewState,
    pub settings: RemoteSettings,
    /// Refresh rate of the constellation display, frames per second.
    pub constellation_rate: i64,
    /// Points drawn in the I/Q constellation.
    pub iq_density: i64,
    pub unwrap_enabled: bool,
    pub cepstrum_enabled: bool,
    pub master_ekf_enabled: bool,
    pub audio_streaming: bool,
}

/// The answer to a socket command.
#[derive(Clone, Copy, Debug, PartialEq, Eq, Structural)]
pub enum CommandReply {
    /// The text is no JSON, names no action, or lacks an argument.
    InvalidArguments,
    UnknownCommand,
    Remote(RemoteReply),
    Console(ConsoleReply),
    /// Carried out by the signal chain.
    Signal(SignalCommand),
    Fixed(FixedReply),
    /// Constellation rate set.
    Fps(i64),
    /// Constellation density set.
    Points(i64),
    /// Text accepted for speech (it is never spoken).
    Sanitized,
    Unwrapping(bool),
    UnwrapStatus(bool),
    CepstrumEnabled(bool),
    CepstrumStatus(bool),
    /// The vibrometer mode becomes the command's `mode` (echoed).
    VibrometerMode,
    /// A vibrometer decimation above 10000.
    OutOfBounds,
    MasterEkf(bool),
    /// The omni mode becomes the command's `mode` (echoed) when enabled, and
    /// "None" otherwise.
    OmniMode { enabled: bool },
    AudioStreaming,
    /// A burst of Wi-Fi packets; an empty one suspends the analysis.
    WifiBurst { suspended: bool },
    CicModeSet { target: u32, mode: CicMode },
    InvalidCicMode,
    TargetNotFound,
    GhostMic { target: u32, enabled: bool },
}

/// The fields of a command that the answers read, as plain values.
pub struct CommandFields {
    /// The text is JSON.
    pub parses: bool,
    /// `action` when present, else `command`, when it is a string.
    pub action: Option<String>,
    /// What the settings commands read.
    pub args: RemoteArgs,
    pub payload: Option<String>,
    pub fps: Option<i64>,
    pub points: Option<i64>,
    /// `text` is a string.
    pub has_text: bool,
    pub decimation: Option<i64>,
    pub packet_count: Option<i64>,
    pub target_id: Option<u64>,
    pub mode: Option<String>,
}

/// The fields of a command, with strings as character sequences.
pub struct CommandModel {
    pub parses: bool,
    pub action: Option<Seq<char>>,
    pub args: RemoteArgs,
    pub payload: Option<Seq<char>>,
    pub fps: Option<i64>,
    pub points: Option<i64>,
    pub has_text: bool,
    pub decimation: Option<i64>,
    pub packet_count: Option<i64>,
    pub target_id: Option<u64>,
    pub mode: Option<Seq<char>>,
}

/// A string field as a character sequence.
pub open spec fn text_of(s: Option<String>) -> Option<Seq<char>> {
    match s {
        Some(x) => Some(x@),
        None => None,
    }
}

impl CommandFields {
    /// The fields with strings as character sequences.
    pub open spec fn model(&self) -> CommandModel {
        CommandModel {
            parses: self.parses,
            action: text_of(self.action),
            args: self.args,
            payload: text_of(self.payload),
            fps: self.fps,
            points: self.points,
            has_text: self.has_text,
            decimation: self.decimation,
            packet_count: self.packet_count,
            target_id: self.target_id,
            mode: text_of(self.mode),
        }
    }
}

/// The fields of the command text `t`: the action is `action` when that
/// member is present, else `command`.
pub open spec fn model_of_text(t: Seq<char>) -> CommandModel {
    CommandModel {
        parses: json_parses(t),
        action: if json_has_field(t, "action"@) {
            json_str_field(t, "action"@)
        } else {
            json_str_field(t, "command"@)
        },
        args: RemoteArgs {
            has_value: json_has_field(t, "value"@),
            value_bool: json_bool_field(t, "value"@),
            enabled_bool: json_bool_field(t, "enabled"@),
            min: json_int_field(t, "min"@),
            max: json_int_field(t, "max"@),
            id: json_int_field(t, "id"@),
            size: json_int_field(t, "size"@),
        },
        payload: json_str_field(t, "payload"@),
        fps: json_int_field(t, "fps"@),
        points: json_int_field(t, "points"@),
        has_text: json_str_field(t, "text"@) is Some,
        decimation: json_int_field(t, "decimation_factor"@),
        packet_count: json_int_field(t, "packet_count"@),
        target_id: json_uint_field(t, "target_id"@),
        mode: json_str_field(t, "mode"@),
    }
}

/// `enabled`, false when it is no boolean.
pub open spec fn enabled_of(m: CommandModel) -> bool {
    match m.args.enabled_bool {
        Some(b) => b,
        None => false,
    }
}

/// `target_id`, kept to its low 32 bits.
pub open spec fn target_of(m: CommandModel) -> Option<u32> {
    match m.target_id {
        Some(v) => Some(v as u32),
        None => None,
    }
}

/// The vibrometer decimation asked for exceeds 10000.
pub open spec fn decimation_too_large(m: CommandModel) -> bool {
    match m.decimation {
        Some(d) => d > 10000,
        None => false,
    }
}

/// The answer to action `a` (not a settings command) of a command with fields `m`, given the
/// state, the console's jamming flag and spoof count, the verdicts on the
/// console payload's words, and the ids of the tracked targets.
pub open spec fn other_reply(
    a: Seq<char>,
    m: CommandModel,
    st: CommandState,
    jam: bool,
    spoofs: u32,
    verdicts: Seq<SpeedVerdict>,
    ids: Seq<u32>,
) -> CommandReply {
    if a == "hacker_cmd"@ {
        match m.payload {
            Some(p) => CommandReply::Console(console_reply(p, jam, spoofs, verdicts)),
            None => CommandReply::InvalidArguments,
        }
    } else if a == "SetConstellationRate"@ {
        match m.fps {
            Some(f) => CommandReply::Fps(f),
            None => CommandReply::InvalidArguments,
        }
    } else if a == "SetIQDensity"@ {
        match m.points {
            Some(p) => CommandReply::Points(p),
            None => CommandReply::InvalidArguments,
        }
    } else if a == "SayText"@ {
        if m.has_text {
            CommandReply::Sanitized
        } else {
            CommandReply::InvalidArguments
        }
    } else if a == "SetUnwrapMode"@ {
        CommandReply::Unwrapping(enabled_of(m))
    } else if a == "GetUnwrapStatus"@ {
        CommandReply::UnwrapStatus(st.unwrap_enabled)
    } else if a == "SetCepstrumMode"@ {
        CommandReply::CepstrumEnabled(enabled_of(m))
    } else if a == "GetCepstrumStatus"@ {
        CommandReply::CepstrumStatus(st.cepstrum_enabled)
    } else if a == "SetVibrometerMode"@ {
        if decimation_too_large(m) {
            CommandReply::OutOfBounds
        } else {
            CommandReply::VibrometerMode
        }
    } else if a == "SetMasterEkf"@ {
        CommandReply::MasterEkf(enabled_of(m))
    } else if a == "SetOmniMode"@ {
        CommandReply::OmniMode { enabled: enabled_of(m) }
    } else if a == "StartAudioStreaming"@ {
        CommandReply::AudioStreaming
    } else if a == "InjectWifiPacketBurst"@ {
        CommandReply::WifiBurst {
            suspended: match m.packet_count {
                Some(c) => c == 0,
                None => true,
            },
        }
    } else if a == "set_cic_mode"@ {
        match (target_of(m), m.mode) {
            (Some(tid), Some(m)) => match cic_mode_named(m) {
                None => CommandReply::InvalidCicMode,
                Some(mode) => if ids.contains(tid) {
                    CommandReply::CicModeSet { target: tid, mode }
                } else {
                    CommandReply::TargetNotFound
                },
            },
            _ => CommandReply::InvalidArguments,
        }
    } else if a == "toggle_ghost_mic"@ {
        match (target_of(m), m.args.enabled_bool) {
            (Some(tid), Some(en)) => if ids.contains(tid) {
                CommandReply::GhostMic { target: tid, enabled: en }
            } else {
                CommandReply::TargetNotFound
            },
            _ => CommandReply::InvalidArguments,
        }
    } else {
        match fixed_command(a) {
            Some(f) => CommandReply::Fixed(f),
            None => match signal_command(a) {
                Some(c) => CommandReply::Signal(c),
                None => CommandReply::UnknownCommand,
            },
        }
    }
}

/// The state after action `a` (not a settings command) of a command with
/// fields `m`.
pub open spec fn other_state(a: Seq<char>, m: CommandModel, st: CommandState) -> CommandState {
    if a == "hacker_cmd"@ {
        st
    } else if a == "SetConstellationRate"@ {
        match m.fps {
            Some(f) => CommandState { constellation_rate: f, ..st },
            None => st,
        }
    } else if a == "SetIQDensity"@ {
        match m.points {
            Some(p) => CommandState { iq_density: p, ..st },
            None => st,
        }
    } else if a == "SayText"@ {
        st
    } else if a == "SetUnwrapMode"@ {
        CommandState { unwrap_enabled: enabled_of(m), ..st }
    } else if a == "GetUnwrapStatus"@ {
        st
    } else if a == "SetCepstrumMode"@ {
        CommandState { cepstrum_enabled: enabled_of(m), ..st }
    } else if a == "GetCepstrumStatus"@ || a == "SetVibrometerMode"@ {
        st
    } else if a == "SetMasterEkf"@ {
        CommandState { master_ekf_enabled: enabled_of(m), ..st }
    } else if a == "SetOmniMode"@ {
        st
    } else if a == "StartAudioStreaming"@ {
        CommandState { audio_streaming: true, ..st }
    } else {
        st
    }
}

/// The answer to a command with fields `m`: invalid arguments when it is no
/// JSON or names no action; a settings command; any other action.
pub open spec fn command_reply(
    m: CommandModel,
    st: CommandState,
    jam: bool,
    spoofs: u32,
    verdicts: Seq<SpeedVerdict>,
    ids: Seq<u32>,
) -> CommandReply {
    if !m.parses {
        CommandReply::InvalidArguments
    } else {
        match m.action {
            None => CommandReply::InvalidArguments,
            Some(a) => match remote_request(a, m.args) {
                RemoteRequest::Command(c) => CommandReply::Remote(remote_reply(c)),
                RemoteRequest::InvalidArguments => CommandReply::InvalidArguments,
                RemoteRequest::NotSettings => other_reply(a, m, st, jam, spoofs, verdicts, ids),
            },
        }
    }
}

/// The state after a command with fields `m`.
pub open spec fn command_state(m: CommandModel, st: CommandState) -> CommandState {
    if !m.parses {
        st
    } else {
        match m.action {
            None => st,
            Some(a) => match remote_request(a, m.args) {
                RemoteRequest::Command(c) => CommandState {
                    view: remote_view(st.view, c),
                    settings: remote_settings(st.settings, c),
                    ..st
                },
                RemoteRequest::InvalidArguments => st,
                RemoteRequest::NotSettings => other_state(a, m, st),
            },
        }
    }
}

/// Refusal law: a command answered with invalid arguments or as unknown
/// leaves the dashboard state as it was.
pub proof fn lemma_refused_commands_change_nothing(
    m: CommandModel,
    st: CommandState,
    jam: bool,
    spoofs: u32,
    verdicts: Seq<SpeedVerdict>,
    ids: Seq<u32>,
)
    ensures
        command_reply(m, st, jam, spoofs, verdicts, ids) == CommandReply::InvalidArguments
            || command_reply(m, st, jam, spoofs, verdicts, ids) == CommandReply::UnknownCommand
            ==> command_state(m, st) == st,
{
}

/// The command names up to the cepstrum status are distinct.
proof fn lemma_status_literals()
    ensures
        "SetUnwrapMode"@ != "set_agc"@,
        "SetUnwrapMode"@ != "set_dc_block"@,
        "SetUnwrapMode"@ != "set_one_bit_mode"@,
        "SetUnwrapMode"@ != "set_show_unconfirmed"@,
        "SetUnwrapMode"@ != "set_screen_shake"@,
        "SetUnwrapMode"@ != "SetWaterfallPower"@,
        "SetUnwrapMode"@ != "SelectTarget"@,
        "SetUnwrapMode"@ != "SetDopplerFFT"@,
        "SetUnwrapMode"@ != "hacker_cmd"@,
        "SetUnwrapMode"@ != "SetConstellationRate"@,
        "SetUnwrapMode"@ != "SetIQDensity"@,
        "SetUnwrapMode"@ != "SayText"@,
        "GetUnwrapStatus"@ != "set_agc"@,
        "GetUnwrapStatus"@ != "set_dc_block"@,
        "GetUnwrapStatus"@ != "set_one_bit_mode"@,
        "GetUnwrapStatus"@ != "set_show_unconfirmed"@,
        "GetUnwrapStatus"@ != "set_screen_shake"@,
        "GetUnwrapStatus"@ != "SetWaterfallPower"@,
        "GetUnwrapStatus"@ != "SelectTarget"@,
        "GetUnwrapStatus"@ != "SetDopplerFFT"@,
        "GetUnwrapStatus"@ != "hacker_cmd"@,
        "GetUnwrapStatus"@ != "SetConstellationRate"@,
        "GetUnwrapStatus"@ != "SetIQDensity"@,
        "GetUnwrapStatus"@ != "SayText"@,
        "GetUnwrapStatus"@ != "SetUnwrapMode"@,
        "SetCepstrumMode"@ != "set_agc"@,
        "SetCepstrumMode"@ != "set_dc_block"@,
        "SetCepstrumMode"@ != "set_one_bit_mode"@,
        "SetCepstrumMode"@ != "set_show_unconfirmed"@,
        "SetCepstrumMode"@ != "set_screen_shake"@,
        "SetCepstrumMode"@ != "SetWaterfallPower"@,
        "SetCepstrumMode"@ != "SelectTarget"@,
        "SetCepstrumMode"@ != "SetDopplerFFT"@,
        "SetCepstrumMode"@ != "hacker_cmd"@,
        "SetCepstrumMode"@ != "SetConstellationRate"@,
        "SetCepstrumMode"@ != "SetIQDensity"@,
        "SetCepstrumMode"@ != "SayText"@,
        "SetCepstrumMode"@ != "SetUnwrapMode"@,
        "SetCepstrumMode"@ != "GetUnwrapStatus"@,
        "GetCepstrumStatus"@ != "set_agc"@,
        "GetCepstrumStatus"@ != "set_dc_block"@,
        "GetCepstrumStatus"@ != "set_one_bit_mode"@,
        "GetCepstrumStatus"@ != "set_show_unconfirmed"@,
        "GetCepstrumStatus"@ != "set_screen_shake"@,
        "GetCepstrumStatus"@ != "SetWaterfallPower"@,
        "GetCepstrumStatus"@ != "SelectTarget"@,
        "GetCepstrumStatus"@ != "SetDopplerFFT"@,
        "GetCepstrumStatus"@ != "hacker_cmd"@,
        "GetCepstrumStatus"@ != "SetConstellationRate"@,
        "GetCepstrumStatus"@ != "SetIQDensity"@,
        "GetCepstrumStatus"@ != "SayText"@,
        "GetCepstrumStatus"@ != "SetUnwrapMode"@,
        "GetCepstrumStatus"@ != "GetUnwrapStatus"@,
        "GetCepstrumStatus"@ != "SetCepstrumMode"@,
{
    reveal_strlit("GetCepstrumStatus");
    assert("GetCepstrumStatus"@.len() == 17);
    reveal_strlit("GetUnwrapStatus");
    assert("GetUnwrapStatus"@.len() == 15);
    reveal_strlit("SayText");
    assert("SayText"@.len() == 7);
    reveal_strlit("SelectTarget");
    assert("SelectTarget"@.len() == 12);
    reveal_strlit("SetCepstrumMode");
    assert("SetCepstrumMode"@.len() == 15);
    reveal_strlit("SetConstellationRate");
    assert("SetConstellationRate"@.len() == 20);
    reveal_strlit("SetDopplerFFT");
    assert("SetDopplerFFT"@.len() == 13);
    reveal_strlit("SetIQDensity");
    assert("SetIQDensity"@.len() == 12);
    reveal_strlit("SetUnwrapMode");
    assert("SetUnwrapMode"@.len() == 13);
    reveal_strlit("SetWaterfallPower");
    assert("SetWaterfallPower"@.len() == 17);
    reveal_strlit("hacker_cmd");
    assert("hacker_cmd"@.len() == 10);
    reveal_strlit("set_agc");
    assert("set_agc"@.len() == 7);
    reveal_strlit("set_dc_block");
    assert("set_dc_block"@.len() == 12);
    reveal_strlit("set_one_bit_mode");
    assert("set_one_bit_mode"@.len() == 16);
    reveal_strlit("set_screen_shake");
    assert("set_screen_shake"@.len() == 16);
    reveal_strlit("set_show_unconfirmed");
    assert("set_show_unconfirmed"@.len() == 20);
    assert("SetUnwrapMode"@[3] == 'U' && "SetDopplerFFT"@[3] == 'D');
    assert("SetCepstrumMode"@[0] == 'S' && "GetUnwrapStatus"@[0] == 'G');
    assert("GetCepstrumStatus"@[0] == 'G' && "SetWaterfallPower"@[0] == 'S');
}

/// Read-back law: the status queries answer what their setters wrote. After
/// a `SetCepstrumMode` command whose `enabled` is `b` (false when it is no
/// boolean), `GetCepstrumStatus` answers `b`; likewise `SetUnwrapMode` and
/// `GetUnwrapStatus`; whatever the rest of the state, and the setters answer
/// with the flag they set.
pub proof fn lemma_status_reads_back(
    set: CommandModel,
    get: CommandModel,
    st: CommandState,
    jam: bool,
    spoofs: u32,
    verdicts: Seq<SpeedVerdict>,
    ids: Seq<u32>,
)
    requires
        set.parses,
        get.parses,
    ensures
        ({
            let b = match set.args.enabled_bool {
                Some(x) => x,
                None => false,
            };
            &&& (set.action == Some("SetCepstrumMode"@) && get.action == Some("GetCepstrumStatus"@)) ==> {
                &&& command_reply(set, st, jam, spoofs, verdicts, ids) == CommandReply::CepstrumEnabled(b)
                &&& command_reply(get, command_state(set, st), jam, spoofs, verdicts, ids)
                    == CommandReply::CepstrumStatus(b)
            }
            &&& (set.action == Some("SetUnwrapMode"@) && get.action == Some("GetUnwrapStatus"@)) ==> {
                &&& command_reply(set, st, jam, spoofs, verdicts, ids) == CommandReply::Unwrapping(b)
                &&& command_reply(get, command_state(set, st), jam, spoofs, verdicts, ids)
                    == CommandReply::UnwrapStatus(b)
            }
        }),
{
    lemma_status_literals();
}

/// Whether `id` is among `ids`.
fn contains_id(ids: &[u32], id: u32) -> (b: bool)
    ensures
        b == ids@.contains(id),
{
    let mut k: usize = 0;
    while k < ids.len()
        invariant
            k <= ids@.len(),
            forall|q: int| 0 <= q < k ==> ids@[q] != id,
        decreases ids@.len() - k,
    {
        if ids[k] == id {
            assert(ids@[k as int] == id);
            return true;
        }
        k = k + 1;
    }
    false
}

/// Reads the fields of a command text.
pub fn read_command(text: &str) -> (f: CommandFields)
    ensures
        f.model() == model_of_text(text@),
{
    let action = if json_has(text, "action") {
        json_str(text, "action")
    } else {
        json_str(text, "command")
    };
    let f = CommandFields {
        parses: json_ok(text),
        action,
        args: RemoteArgs {
            has_value: json_has(text, "value"),
            value_bool: json_bool(text, "value"),
            enabled_bool: json_bool(text, "enabled"),
            min: json_int(text, "min"),
            max: json_int(text, "max"),
            id: json_int(text, "id"),
            size: json_int(text, "size"),
        },
        payload: json_str(text, "payload"),
        fps: json_int(text, "fps"),
        points: json_int(text, "points"),
        has_text: json_str(text, "text").is_some(),
        decimation: json_int(text, "decimation_factor"),
        packet_count: json_int(text, "packet_count"),
        target_id: json_uint(text, "target_id"),
        mode: json_str(text, "mode"),
    };
    proof {
        assert(text_of(f.payload) == json_str_field(text@, "payload"@));
        assert(text_of(f.mode) == json_str_field(text@, "mode"@));
        assert(text_of(f.action) == model_of_text(text@).action);
    }
    f
}

/// Answers an action that is not a settings command and applies it.
fn run_other(
    a: &str,
    f: &CommandFields,
    st: &mut CommandState,
    console: &mut ConsoleState,
    verdicts: &[SpeedVerdict],
    ids: &[u32],
) -> (r: CommandReply)
    ensures
        r == other_reply(a@, f.model(), *old(st), old(console).jamming_active, old(console).active_spoof_count, verdicts@, ids@),
        *final(st) == other_state(a@, f.model(), *old(st)),
        final(console).jamming_active == (match r {
            CommandReply::Console(ConsoleReply::Jamming(on)) => on,
            _ => old(console).jamming_active,
        }),
        final(console).active_spoof_count == (match r {
            CommandReply::Console(ConsoleReply::Spoofing { .. }) => (old(console).active_spoof_count + 1) as u32,
            _ => old(console).active_spoof_count,
        }),
        final(console).spoofed_ids@ == (match r {
            CommandReply::Console(ConsoleReply::Spoofing { id, .. }) => old(console).spoofed_ids@.push(id),
            _ => old(console).spoofed_ids@,
        }),
{
    let enabled = match f.args.enabled_bool {
        Some(b) => b,
        None => false,
    };
    let tid = match f.target_id {
        Some(v) => Some(v as u32),
        None => None,
    };
    if same_str(a, "hacker_cmd") {
        match &f.payload {
            Some(p) => CommandReply::Console(run_console_command(p.as_str(), console, verdicts)),
            None => CommandReply::InvalidArguments,
        }
    } else if same_str(a, "SetConstellationRate") {
        match f.fps {
            Some(x) => {
                st.constellation_rate = x;
                CommandReply::Fps(x)
            },
            None => CommandReply::InvalidArguments,
        }
    } else if same_str(a, "SetIQDensity") {
        match f.points {
            Some(p) => {
                st.iq_density = p;
                CommandReply::Points(p)
            },
            None => CommandReply::InvalidArguments,
        }
    } else if same_str(a, "SayText") {
        if f.has_text {
            CommandReply::Sanitized
        } else {
            CommandReply::InvalidArguments
        }
    } else if same_str(a, "SetUnwrapMode") {
        st.unwrap_enabled = enabled;
        CommandReply::Unwrapping(enabled)
    } else if same_str(a, "GetUnwrapStatus") {
        CommandReply::UnwrapStatus(st.unwrap_enabled)
    } else if same_str(a, "SetCepstrumMode") {
        st.cepstrum_enabled = enabled;
        CommandReply::CepstrumEnabled(enabled)
    } else if same_str(a, "GetCepstrumStatus") {
        CommandReply::CepstrumStatus(st.cepstrum_enabled)
    } else if same_str(a, "SetVibrometerMode") {
        let too_large = match f.decimation {
            Some(d) => d > 10000,
            None => false,
        };
        if too_large {
            CommandReply::OutOfBounds
        } else {
            CommandReply::VibrometerMode
        }
    } else if same_str(a, "SetMasterEkf") {
        st.master_ekf_enabled = enabled;
        CommandReply::MasterEkf(enabled)
    } else if same_str(a, "SetOmniMode") {
        CommandReply::OmniMode { enabled }
    } else if same_str(a, "StartAudioStreaming") {
        st.audio_streaming = true;
        CommandReply::AudioStreaming
    } else if same_str(a, "InjectWifiPacketBurst") {
        let suspended = match f.packet_count {
            Some(c) => c == 0,
            None => true,
        };
        CommandReply::WifiBurst { suspended }
    } else if same_str(a, "set_cic_mode") {
        match (tid, &f.mode) {
            (Some(tid), Some(m)) => match parse_cic_mode(m.as_str()) {
                None => CommandReply::InvalidCicMode,
                Some(mode) => if contains_id(ids, tid) {
                    CommandReply::CicModeSet { target: tid, mode }
                } else {
                    CommandReply::TargetNotFound
                },
            },
            _ => CommandReply::InvalidArguments,
        }
    } else if same_str(a, "toggle_ghost_mic") {
        match (tid, f.args.enabled_bool) {
            (Some(tid), Some(en)) => if contains_id(ids, tid) {
                CommandReply::GhostMic { target: tid, enabled: en }
            } else {
                CommandReply::TargetNotFound
            },
            _ => CommandReply::InvalidArguments,
        }
    } else {
        match read_fixed_command(a) {
            Some(x) => CommandReply::Fixed(x),
            None => match read_signal_command(a) {
                Some(c) => CommandReply::Signal(c),
                None => CommandReply::UnknownCommand,
            },
        }
    }
}

/// Answers a command from its fields and applies what it changes to the
/// dashboard state and the console. `verdicts` are the verdicts on the words
/// of the console payload read as speeds; `ids` are the ids of the tracked
/// targets.
pub fn answer_command(
    f: &CommandFields,
    st: &mut CommandState,
    console: &mut ConsoleState,
    verdicts: &[SpeedVerdict],
    ids: &[u32],
) -> (r: CommandReply)
    ensures
        r == command_reply(f.model(), *old(st), old(console).jamming_active, old(console).active_spoof_count, verdicts@, ids@),
        *final(st) == command_state(f.model(), *old(st)),
        final(console).jamming_active == (match r {
            CommandReply::Console(ConsoleReply::Jamming(on)) => on,
            _ => old(console).jamming_active,
        }),
        final(console).active_spoof_count == (match r {
            CommandReply::Console(ConsoleReply::Spoofing { .. }) => (old(console).active_spoof_count + 1) as u32,
            _ => old(console).active_spoof_count,
        }),
        final(console).spoofed_ids@ == (match r {
            CommandReply::Console(ConsoleReply::Spoofing { id, .. }) => old(console).spoofed_ids@.push(id),
            _ => old(console).spoofed_ids@,
        }),
{
    if !f.parses {
        return CommandReply::InvalidArguments;
    }
    let a = match &f.action {
        Some(a) => a,
        None => return CommandReply::InvalidArguments,
    };
    match decode_remote(a.as_str(), f.args) {
        RemoteRequest::Command(c) => {
            let mut view = st.view;
            let mut settings = st.settings;
            let reply = apply_remote(&mut view, &mut settings, c);
            st.view = view;
            st.settings = settings;
            CommandReply::Remote(reply)
        },
        RemoteRequest::InvalidArguments => CommandReply::InvalidArguments,
        RemoteRequest::NotSettings => run_other(a.as_str(), f, st, console, verdicts, ids),
    }
}

/// Reads a socket command text, answers it and applies what it changes
/// (see `answer_command`).
pub fn process_command(
    text: &str,
    st: &mut CommandState,
    console: &mut ConsoleState,
    verdicts: &[SpeedVerdict],
    ids: &[u32],
) -> (r: CommandReply)
    ensures
        r == command_reply(model_of_text(text@), *old(st), old(console).jamming_active, old(console).active_spoof_count, verdicts@, ids@),
        *final(st) == command_state(model_of_text(text@), *old(st)),
        final(console).jamming_active == (match r {
            CommandReply::Console(ConsoleReply::Jamming(on)) => on,
            _ => old(console).jamming_active,
        }),
        final(console).active_spoof_count == (match r {
            CommandReply::Console(ConsoleReply::Spoofing { .. }) => (old(console).active_spoof_count + 1) as u32,
            _ => old(console).active_spoof_count,
        }),
        final(console).spoofed_ids@ == (match r {
            CommandReply::Console(ConsoleReply::Spoofing { id, .. }) => old(console).spoofed_ids@.push(id),
            _ => old(console).spoofed_ids@,
        }),
{
    let f = read_command(text);
    answer_command(&f, st, console, verdicts, ids)
}

} // verus!
