use xous_prefs::pref_ops::{route_op, DevicePrefsOp, PrefsRequest};
use xous_prefs::PrefsMenuUpdateOp;

const ALL_OPS: [DevicePrefsOp; 14] = [
    DevicePrefsOp::RadioOnOnBoot,
    DevicePrefsOp::ConnectKnownNetworksOnBoot,
    DevicePrefsOp::AutobacklightOnBoot,
    DevicePrefsOp::AutobacklightTimeout,
    DevicePrefsOp::KeyboardLayout,
    DevicePrefsOp::WLANMenu,
    DevicePrefsOp::SetTime,
    DevicePrefsOp::SetTimezone,
    DevicePrefsOp::AudioOn,
    DevicePrefsOp::AudioOff,
    DevicePrefsOp::HeadsetVolume,
    DevicePrefsOp::EarpieceVolume,
    DevicePrefsOp::UpdateMenuAudioEnabled,
    DevicePrefsOp::UpdateMenuAudioDisabled,
];

#[test]
fn opcodes_follow_declaration_order() {
    assert_eq!(DevicePrefsOp::RadioOnOnBoot.to_u32(), 0);
    assert_eq!(DevicePrefsOp::WLANMenu.to_u32(), 5);
    assert_eq!(DevicePrefsOp::EarpieceVolume.to_u32(), 11);
    assert_eq!(DevicePrefsOp::UpdateMenuAudioEnabled.to_u32(), 399);
    assert_eq!(DevicePrefsOp::UpdateMenuAudioDisabled.to_u32(), 400);
}

#[test]
fn opcodes_decode_back() {
    for op in ALL_OPS.iter() {
        assert_eq!(DevicePrefsOp::from_usize(op.to_u32() as usize), Some(*op));
    }
    assert_eq!(DevicePrefsOp::from_usize(12), None);
    assert_eq!(DevicePrefsOp::from_usize(398), None);
    assert_eq!(DevicePrefsOp::from_usize(401), None);
}

#[test]
fn menu_updates_decode_back() {
    assert_eq!(PrefsMenuUpdateOp::UpdateMenuAudioEnabled.to_u32(), 399);
    assert_eq!(PrefsMenuUpdateOp::UpdateMenuAudioDisabled.to_u32(), 400);
    assert_eq!(PrefsMenuUpdateOp::from_usize(399), Some(PrefsMenuUpdateOp::UpdateMenuAudioEnabled));
    assert_eq!(PrefsMenuUpdateOp::from_usize(400), Some(PrefsMenuUpdateOp::UpdateMenuAudioDisabled));
    assert_eq!(PrefsMenuUpdateOp::from_usize(0), None);
}

#[test]
fn route_menu_updates_first() {
    assert_eq!(route_op(399), PrefsRequest::AlterMenuAudioOff);
    assert_eq!(route_op(400), PrefsRequest::AlterMenuAudioOn);
}

#[test]
fn route_user_operations() {
    assert_eq!(route_op(0), PrefsRequest::Perform(DevicePrefsOp::RadioOnOnBoot));
    assert_eq!(route_op(8), PrefsRequest::Perform(DevicePrefsOp::AudioOn));
    assert_eq!(route_op(11), PrefsRequest::Perform(DevicePrefsOp::EarpieceVolume));
}

#[test]
fn route_unknown_opcodes() {
    assert_eq!(route_op(12), PrefsRequest::Unknown);
    assert_eq!(route_op(398), PrefsRequest::Unknown);
    assert_eq!(route_op(usize::MAX), PrefsRequest::Unknown);
}
