//! Settings commands of the web interface: what each one changes in the
//! dashboard state, which values it refuses, and what it answers.
use vstd::prelude::*;
use crate::controls::ViewState;
use crate::text::same_str;

verus! {

/// A settings command, with the argument it carries.
#[derive(Clone, Copy, Debug, PartialEq, Eq, Structural)]
pub enum RemoteCommand {
    SetAgc(bool),
    SetDcBlock(bool),
    SetOneBitMode(bool),
    SetShowUnconfirmed(bool),
    SetScreenShake(bool),
    /// Colour range of the waterfall, in dB.
    SetWaterfallPower { min: i64, max: i64 },
    SelectTarget(i64),
    SetDopplerFft(i64),
}

/// The answer to a settings command.
#[derive(Clone, Copy, Debug, PartialEq, Eq, Structural)]
pub enum RemoteReply {
    /// Automatic gain control switched (its clock restarts).
    SoftwareAgc(bool),
    DcBlock(bool),
    /// One-bit mode switched (worth a log line).
    OneBitMode(bool),
    ShowUnconfirmed(bool),
    ScreenShake(bool),
    WaterfallPower { min: i64, max: i64 },
    SelectedTarget(i64),
    FftSize(i64),
    InvalidBounds,
    InvalidFftSize,
}

/// Settings of the dashboard that only commands change.
#[derive(Clone, Copy, Debug, PartialEq, Eq, Structural)]
pub struct RemoteSettings {
    pub waterfall_min: i64,
    pub waterfall_max: i64,
    pub doppler_fft_size: usize,
}

/// A waterfall range is accepted when it is not empty and lies within
/// -120..=20 dB.
pub open spec fn waterfall_range_ok(min: i64, max: i64) -> bool {
    min < max && min >= -120 && max <= 20
}

/// A requested Doppler FFT size is accepted when it is a power of two from
/// 256 to 8192.
pub open spec fn fft_request_ok(size: i64) -> bool {
    size == 256 || size == 512 || size == 1024 || size == 2048 || size == 4096 || size == 8192
}

/// The answer to a command.
pub open spec fn remote_reply(cmd: RemoteCommand) -> RemoteReply {
    match cmd {
        RemoteCommand::SetAgc(on) => RemoteReply::SoftwareAgc(on),
        RemoteCommand::SetDcBlock(on) => RemoteReply::DcBlock(on),
        RemoteCommand::SetOneBitMode(on) => RemoteReply::OneBitMode(on),
        RemoteCommand::SetShowUnconfirmed(on) => RemoteReply::ShowUnconfirmed(on),
        RemoteCommand::SetScreenShake(on) => RemoteReply::ScreenShake(on),
        RemoteCommand::SetWaterfallPower { min, max } => if waterfall_range_ok(min, max) {
            RemoteReply::WaterfallPower { min, max }
        } else {
            RemoteReply::InvalidBounds
        },
        RemoteCommand::SelectTarget(id) => RemoteReply::SelectedTarget(id),
        RemoteCommand::SetDopplerFft(size) => if fft_request_ok(size) {
            RemoteReply::FftSize(size)
        } else {
            RemoteReply::InvalidFftSize
        },
    }
}

/// The view after a command (a selected id keeps its low 32 bits).
pub open spec fn remote_view(v: ViewState, cmd: RemoteCommand) -> ViewState {
    ViewState {
        software_agc: match cmd {
            RemoteCommand::SetAgc(on) => on,
            _ => v.software_agc,
        },
        dc_block: match cmd {
            RemoteCommand::SetDcBlock(on) => on,
            _ => v.dc_block,
        },
        one_bit_mode: match cmd {
            RemoteCommand::SetOneBitMode(on) => on,
            _ => v.one_bit_mode,
        },
        show_unconfirmed: match cmd {
            RemoteCommand::SetShowUnconfirmed(on) => on,
            _ => v.show_unconfirmed,
        },
        screen_shake: match cmd {
            RemoteCommand::SetScreenShake(on) => on,
            _ => v.screen_shake,
        },
        selected_target_id: match cmd {
            RemoteCommand::SelectTarget(id) => Some(id as u32),
            _ => v.selected_target_id,
        },
        ..v
    }
}

/// The settings after a command.
pub open spec fn remote_settings(s: RemoteSettings, cmd: RemoteCommand) -> RemoteSettings {
    match cmd {
        RemoteCommand::SetWaterfallPower { min, max } => if waterfall_range_ok(min, max) {
            RemoteSettings { waterfall_min: min, waterfall_max: max, ..s }
        } else {
            s
        },
        RemoteCommand::SetDopplerFft(size) => if fft_request_ok(size) {
            RemoteSettings { doppler_fft_size: size as usize, ..s }
        } else {
            s
        },
        _ => s,
    }
}

/// The view after a command.
fn view_after_command(v: &ViewState, cmd: RemoteCommand) -> (w: ViewState)
    ensures
        w == remote_view(*v, cmd),
{
    ViewState {
        software_agc: match cmd {
            RemoteCommand::SetAgc(on) => on,
            _ => v.software_agc,
        },
        dc_block: match cmd {
            RemoteCommand::SetDcBlock(on) => on,
            _ => v.dc_block,
        },
        one_bit_mode: match cmd {
            RemoteCommand::SetOneBitMode(on) => on,
            _ => v.one_bit_mode,
        },
        show_unconfirmed: match cmd {
            RemoteCommand::SetShowUnconfirmed(on) => on,
            _ => v.show_unconfirmed,
        },
        screen_shake: match cmd {
            RemoteCommand::SetScreenShake(on) => on,
            _ => v.screen_shake,
        },
        selected_target_id: match cmd {
            RemoteCommand::SelectTarget(id) => Some(id as u32),
            _ => v.selected_target_id,
        },
        ..*v
    }
}

/// Carries out a settings command and answers it.
pub fn apply_remote(v: &mut ViewState, s: &mut RemoteSettings, cmd: RemoteCommand) -> (r: RemoteReply)
    ensures
        r == remote_reply(cmd),
        *final(v) == remote_view(*old(v), cmd),
        *final(s) == remote_settings(*old(s), cmd),
{
    *v = view_after_command(v, cmd);
    match cmd {
        RemoteCommand::SetAgc(on) => RemoteReply::SoftwareAgc(on),
        RemoteCommand::SetDcBlock(on) => RemoteReply::DcBlock(on),
        RemoteCommand::SetOneBitMode(on) => RemoteReply::OneBitMode(on),
        RemoteCommand::SetShowUnconfirmed(on) => RemoteReply::ShowUnconfirmed(on),
        RemoteCommand::SetScreenShake(on) => RemoteReply::ScreenShake(on),
        RemoteCommand::SetWaterfallPower { min, max } => {
            if min >= max || min < -120 || max > 20 {
                RemoteReply::InvalidBounds
            } else {
                s.waterfall_min = min;
                s.waterfall_max = max;
                RemoteReply::WaterfallPower { min, max }
            }
        },
        RemoteCommand::SelectTarget(id) => RemoteReply::SelectedTarget(id),
        RemoteCommand::SetDopplerFft(size) => {
            if size == 256 || size == 512 || size == 1024 || size == 2048 || size == 4096 || size == 8192 {
                s.doppler_fft_size = size as usize;
                RemoteReply::FftSize(size)
            } else {
                RemoteReply::InvalidFftSize
            }
        },
    }
}

/// The fields of a web command that the settings commands read, as the
/// JSON reader found them.
#[derive(Clone, Copy, Debug)]
pub struct RemoteArgs {
    /// A `value` field is present (whatever it holds).
    pub has_value: bool,
    /// `value`, when it is a boolean.
    pub value_bool: Option<bool>,
    /// `enabled`, when it is a boolean.
    pub enabled_bool: Option<bool>,
    /// `min`, `max`, `id` and `size`, when they are integers.
    pub min: Option<i64>,
    pub max: Option<i64>,
    pub id: Option<i64>,
    pub size: Option<i64>,
}

/// How a web command reads as a settings command.
#[derive(Clone, Copy, Debug)]
pub enum RemoteRequest {
    Command(RemoteCommand),
    /// A settings command without the argument it needs.
    InvalidArguments,
    /// Not a settings command.
    NotSettings,
}

/// A boolean argument: the command when it is there, else invalid.
pub open spec fn flag_request(arg: Option<bool>, cmd: spec_fn(bool) -> RemoteCommand) -> RemoteRequest {
    match arg {
        Some(on) => RemoteRequest::Command(cmd(on)),
        None => RemoteRequest::InvalidArguments,
    }
}

/// The settings command named by `action` with the arguments `a`. The
/// automatic gain control takes `value`, or `enabled` when there is no
/// `value` at all.
pub open spec fn remote_request(action: Seq<char>, a: RemoteArgs) -> RemoteRequest {
    if action == "set_agc"@ {
        flag_request(if a.has_value { a.value_bool } else { a.enabled_bool }, |on: bool| RemoteCommand::SetAgc(on))
    } else if action == "set_dc_block"@ {
        flag_request(a.value_bool, |on: bool| RemoteCommand::SetDcBlock(on))
    } else if action == "set_one_bit_mode"@ {
        flag_request(a.value_bool, |on: bool| RemoteCommand::SetOneBitMode(on))
    } else if action == "set_show_unconfirmed"@ {
        flag_request(a.value_bool, |on: bool| RemoteCommand::SetShowUnconfirmed(on))
    } else if action == "set_screen_shake"@ {
        flag_request(a.value_bool, |on: bool| RemoteCommand::SetScreenShake(on))
    } else if action == "SetWaterfallPower"@ {
        match (a.min, a.max) {
            (Some(min), Some(max)) => RemoteRequest::Command(RemoteCommand::SetWaterfallPower { min, max }),
            _ => RemoteRequest::InvalidArguments,
        }
    } else if action == "SelectTarget"@ {
        match a.id {
            Some(id) => RemoteRequest::Command(RemoteCommand::SelectTarget(id)),
            None => RemoteRequest::InvalidArguments,
        }
    } else if action == "SetDopplerFFT"@ {
        match a.size {
            Some(size) => RemoteRequest::Command(RemoteCommand::SetDopplerFft(size)),
            None => RemoteRequest::InvalidArguments,
        }
    } else {
        RemoteRequest::NotSettings
    }
}

/// Reads a web command as a settings command.
pub fn decode_remote(action: &str, a: RemoteArgs) -> (q: RemoteRequest)
    ensures
        q == remote_request(action@, a),
{
    if same_str(action, "set_agc") {
        let arg = if a.has_value { a.value_bool } else { a.enabled_bool };
        match arg {
            Some(on) => RemoteRequest::Command(RemoteCommand::SetAgc(on)),
            None => RemoteRequest::InvalidArguments,
        }
    } else if same_str(action, "set_dc_block") {
        match a.value_bool {
            Some(on) => RemoteRequest::Command(RemoteCommand::SetDcBlock(on)),
            None => RemoteRequest::InvalidArguments,
        }
    } else if same_str(action, "set_one_bit_mode") {
        match a.value_bool {
            Some(on) => RemoteRequest::Command(RemoteCommand::SetOneBitMode(on)),
            None => RemoteRequest::InvalidArguments,
        }
    } else if same_str(action, "set_show_unconfirmed") {
        match a.value_bool {
            Some(on) => RemoteRequest::Command(RemoteCommand::SetShowUnconfirmed(on)),
            None => RemoteRequest::InvalidArguments,
        }
    } else if same_str(action, "set_screen_shake") {
        match a.value_bool {
            Some(on) => RemoteRequest::Command(RemoteCommand::SetScreenShake(on)),
            None => RemoteRequest::InvalidArguments,
        }
    } else if same_str(action, "SetWaterfallPower") {
        match (a.min, a.max) {
            (Some(min), Some(max)) => RemoteRequest::Command(RemoteCommand::SetWaterfallPower { min, max }),
            _ => RemoteRequest::InvalidArguments,
        }
    } else if same_str(action, "SelectTarget") {
        match a.id {
            Some(id) => RemoteRequest::Command(RemoteCommand::SelectTarget(id)),
            None => RemoteRequest::InvalidArguments,
        }
    } else if same_str(action, "SetDopplerFFT") {
        match a.size {
            Some(size) => RemoteRequest::Command(RemoteCommand::SetDopplerFft(size)),
            None => RemoteRequest::InvalidArguments,
        }
    } else {
        RemoteRequest::NotSettings
    }
}

/// Settings commands are idempotent: sending one twice leaves the dashboard
/// as sending it once, and answers the same.
pub proof fn lemma_remote_idempotent(v: ViewState, s: RemoteSettings, cmd: RemoteCommand)
    ensures
        remote_view(remote_view(v, cmd), cmd) == remote_view(v, cmd),
        remote_settings(remote_settings(s, cmd), cmd) == remote_settings(s, cmd),
{
}

} // verus!
