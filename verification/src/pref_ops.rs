use vstd::prelude::*;

verus! {

/// The operations of the device preferences menu. The last two are sent by
/// the status service itself to update the menu when audio is switched.
#[derive(Debug, Clone, Copy, PartialEq, Eq, Structural)]
pub enum DevicePrefsOp {
    RadioOnOnBoot,
    ConnectKnownNetworksOnBoot,
    AutobacklightOnBoot,
    AutobacklightTimeout,
    KeyboardLayout,
    WLANMenu,
    SetTime,
    SetTimezone,
    AudioOn,
    AudioOff,
    HeadsetVolume,
    EarpieceVolume,
    UpdateMenuAudioEnabled,
    UpdateMenuAudioDisabled,
}

/// Menu updates that other parts of the status service ask for.
#[derive(Debug, Clone, Copy, PartialEq, Eq, Structural)]
pub enum PrefsMenuUpdateOp {
    UpdateMenuAudioEnabled,
    UpdateMenuAudioDisabled,
}

/// The opcode of an operation: the user operations are numbered from 0 in
/// declaration order, the menu updates are 399 and 400.
pub open spec fn op_number(op: DevicePrefsOp) -> nat {
    match op {
        DevicePrefsOp::RadioOnOnBoot => 0,
        DevicePrefsOp::ConnectKnownNetworksOnBoot => 1,
        DevicePrefsOp::AutobacklightOnBoot => 2,
        DevicePrefsOp::AutobacklightTimeout => 3,
        DevicePrefsOp::KeyboardLayout => 4,
        DevicePrefsOp::WLANMenu => 5,
        DevicePrefsOp::SetTime => 6,
        DevicePrefsOp::SetTimezone => 7,
        DevicePrefsOp::AudioOn => 8,
        DevicePrefsOp::AudioOff => 9,
        DevicePrefsOp::HeadsetVolume => 10,
        DevicePrefsOp::EarpieceVolume => 11,
        DevicePrefsOp::UpdateMenuAudioEnabled => 399,
        DevicePrefsOp::UpdateMenuAudioDisabled => 400,
    }
}

/// The operation whose opcode is `n`, if there is one.
pub open spec fn op_with_number(n: int) -> Option<DevicePrefsOp> {
    if n == 0 { Some(DevicePrefsOp::RadioOnOnBoot) }
    else if n == 1 { Some(DevicePrefsOp::ConnectKnownNetworksOnBoot) }
    else if n == 2 { Some(DevicePrefsOp::AutobacklightOnBoot) }
    else if n == 3 { Some(DevicePrefsOp::AutobacklightTimeout) }
    else if n == 4 { Some(DevicePrefsOp::KeyboardLayout) }
    else if n == 5 { Some(DevicePrefsOp::WLANMenu) }
    else if n == 6 { Some(DevicePrefsOp::SetTime) }
    else if n == 7 { Some(DevicePrefsOp::SetTimezone) }
    else if n == 8 { Some(DevicePrefsOp::AudioOn) }
    else if n == 9 { Some(DevicePrefsOp::AudioOff) }
    else if n == 10 { Some(DevicePrefsOp::HeadsetVolume) }
    else if n == 11 { Some(DevicePrefsOp::EarpieceVolume) }
    else if n == 399 { Some(DevicePrefsOp::UpdateMenuAudioEnabled) }
    else if n == 400 { Some(DevicePrefsOp::UpdateMenuAudioDisabled) }
    else { None }
}

/// The opcode of a menu update: 399 and 400.
pub open spec fn update_number(op: PrefsMenuUpdateOp) -> nat {
    match op {
        PrefsMenuUpdateOp::UpdateMenuAudioEnabled => 399,
        PrefsMenuUpdateOp::UpdateMenuAudioDisabled => 400,
    }
}

/// The menu update whose opcode is `n`, if there is one.
pub open spec fn update_with_number(n: int) -> Option<PrefsMenuUpdateOp> {
    if n == 399 {
        Some(PrefsMenuUpdateOp::UpdateMenuAudioEnabled)
    } else if n == 400 {
        Some(PrefsMenuUpdateOp::UpdateMenuAudioDisabled)
    } else {
        None
    }
}

/// An operation that a user picks from the menu (not a menu update).
pub open spec fn is_user_op(op: DevicePrefsOp) -> bool {
    op_number(op) < 12
}

impl DevicePrefsOp {
    /// The operation's opcode.
    pub fn to_u32(&self) -> (code: u32)
        ensures
            code == op_number(*self),
    {
        match self {
            DevicePrefsOp::RadioOnOnBoot => 0,
            DevicePrefsOp::ConnectKnownNetworksOnBoot => 1,
            DevicePrefsOp::AutobacklightOnBoot => 2,
            DevicePrefsOp::AutobacklightTimeout => 3,
            DevicePrefsOp::KeyboardLayout => 4,
            DevicePrefsOp::WLANMenu => 5,
            DevicePrefsOp::SetTime => 6,
            DevicePrefsOp::SetTimezone => 7,
            DevicePrefsOp::AudioOn => 8,
            DevicePrefsOp::AudioOff => 9,
            DevicePrefsOp::HeadsetVolume => 10,
            DevicePrefsOp::EarpieceVolume => 11,
            DevicePrefsOp::UpdateMenuAudioEnabled => 399,
            DevicePrefsOp::UpdateMenuAudioDisabled => 400,
        }
    }

    /// The operation with the given opcode, if there is one.
    pub fn from_usize(n: usize) -> (res: Option<DevicePrefsOp>)
        ensures
            res == op_with_number(n as int),
    {
        match n {
            0 => Some(DevicePrefsOp::RadioOnOnBoot),
            1 => Some(DevicePrefsOp::ConnectKnownNetworksOnBoot),
            2 => Some(DevicePrefsOp::AutobacklightOnBoot),
            3 => Some(DevicePrefsOp::AutobacklightTimeout),
            4 => Some(DevicePrefsOp::KeyboardLayout),
            5 => Some(DevicePrefsOp::WLANMenu),
            6 => Some(DevicePrefsOp::SetTime),
            7 => Some(DevicePrefsOp::SetTimezone),
            8 => Some(DevicePrefsOp::AudioOn),
            9 => Some(DevicePrefsOp::AudioOff),
            10 => Some(DevicePrefsOp::HeadsetVolume),
            11 => Some(DevicePrefsOp::EarpieceVolume),
            399 => Some(DevicePrefsOp::UpdateMenuAudioEnabled),
            400 => Some(DevicePrefsOp::UpdateMenuAudioDisabled),
            _ => None,
        }
    }
}

impl PrefsMenuUpdateOp {
    /// The update's opcode.
    pub fn to_u32(&self) -> (code: u32)
        ensures
            code == update_number(*self),
    {
        match self {
            PrefsMenuUpdateOp::UpdateMenuAudioEnabled => 399,
            PrefsMenuUpdateOp::UpdateMenuAudioDisabled => 400,
        }
    }

    /// The update with the given opcode, if there is one.
    pub fn from_usize(n: usize) -> (res: Option<PrefsMenuUpdateOp>)
        ensures
            res == update_with_number(n as int),
    {
        match n {
            399 => Some(PrefsMenuUpdateOp::UpdateMenuAudioEnabled),
            400 => Some(PrefsMenuUpdateOp::UpdateMenuAudioDisabled),
            _ => None,
        }
    }
}

/// Decoding the opcode of an operation gives the operation back, and an
/// opcode that decodes names the operation it decodes to.
pub proof fn lemma_op_number_roundtrip(op: DevicePrefsOp, n: int)
    ensures
        op_with_number(op_number(op) as int) == Some(op),
        op_with_number(n) == Some(op) ==> op_number(op) == n,
{
}

/// The same holds for the menu updates, and a menu update has the opcode
/// of the operation of the same name.
pub proof fn lemma_update_number_roundtrip(op: PrefsMenuUpdateOp, n: int)
    ensures
        update_with_number(update_number(op) as int) == Some(op),
        update_with_number(n) == Some(op) ==> update_number(op) == n,
        op_with_number(update_number(op) as int) is Some,
{
}

/// What the preferences handler does with an incoming opcode.
#[derive(Debug, Clone, Copy, PartialEq, Eq, Structural)]
pub enum PrefsRequest {
    /// Switch the menu to the entries of a running audio subsystem.
    AlterMenuAudioOn,
    /// Switch the menu to the entries of a stopped audio subsystem.
    AlterMenuAudioOff,
    /// Carry out a user operation.
    Perform(DevicePrefsOp),
    /// Not an opcode of this handler; the next handler may take it.
    Unknown,
}

/// The request an opcode carries. Menu updates are recognised first: the
/// "audio enabled" update (399) switches the menu to the entries of a
/// stopped subsystem and the "audio disabled" update (400) to those of a
/// running one; then come the user operations.
pub open spec fn request_for(n: int) -> PrefsRequest {
    if n == 399 {
        PrefsRequest::AlterMenuAudioOff
    } else if n == 400 {
        PrefsRequest::AlterMenuAudioOn
    } else {
        match op_with_number(n) {
            Some(op) => PrefsRequest::Perform(op),
            None => PrefsRequest::Unknown,
        }
    }
}

/// Decides what the preferences handler does with an opcode. The handler
/// reports the opcode as handled unless the request is `Unknown`.
pub fn route_op(op: usize) -> (req: PrefsRequest)
    ensures
        req == request_for(op as int),
        req matches PrefsRequest::Perform(a) ==> is_user_op(a) && op_number(a) == op,
{
    match PrefsMenuUpdateOp::from_usize(op) {
        Some(PrefsMenuUpdateOp::UpdateMenuAudioEnabled) => {
            return PrefsRequest::AlterMenuAudioOff;
        },
        Some(PrefsMenuUpdateOp::UpdateMenuAudioDisabled) => {
            return PrefsRequest::AlterMenuAudioOn;
        },
        None => {},
    }
    match DevicePrefsOp::from_usize(op) {
        Some(action) => {
            PrefsRequest::Perform(action)
        },
        None => PrefsRequest::Unknown,
    }
}

} // verus!
