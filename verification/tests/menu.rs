use xous_prefs::pref_menu::{
    alter_menu_audio_off, alter_menu_audio_on, headphone_connected, menu_actions, menu_items,
    op_label_text, HeadphoneState, MenuEdit, MenuItem, PrefsLabels,
};
use xous_prefs::pref_ops::DevicePrefsOp;

fn labels() -> PrefsLabels {
    PrefsLabels {
        autobacklight_enable: "Automatic backlight".to_string(),
        autobacklight_duration: "Backlight timeout".to_string(),
        set_rtc: "Set time".to_string(),
        set_tz: "Set timezone".to_string(),
        close_menu: "Close menu".to_string(),
        yes: "yes".to_string(),
        no: "no".to_string(),
    }
}

type Entry = (String, Option<u32>, u32, bool);

fn entries(items: &[MenuItem]) -> Vec<Entry> {
    items
        .iter()
        .map(|m| (m.name.clone(), m.action_conn, m.action_opcode, m.close_on_select))
        .collect()
}

// Applies changes the way the menu server does: a deletion removes the
// entries with the name, an addition appends.
fn apply(menu: &mut Vec<Entry>, edits: &[MenuEdit]) {
    for e in edits {
        match e {
            MenuEdit::DeleteItem(name) => menu.retain(|m| &m.0 != name),
            MenuEdit::AddItem(item) => menu.push((
                item.name.clone(),
                item.action_conn,
                item.action_opcode,
                item.close_on_select,
            )),
        }
    }
}

fn names(menu: &[Entry]) -> Vec<String> {
    menu.iter().map(|m| m.0.clone()).collect()
}

#[test]
fn actions_with_audio_off() {
    let a = menu_actions(false, true);
    assert_eq!(a.len(), 9);
    assert_eq!(a[0], DevicePrefsOp::RadioOnOnBoot);
    assert_eq!(a[7], DevicePrefsOp::SetTimezone);
    assert_eq!(a[8], DevicePrefsOp::AudioOn);
}

#[test]
fn actions_with_audio_and_headphones() {
    let a = menu_actions(true, true);
    assert_eq!(a.len(), 10);
    assert_eq!(a[8], DevicePrefsOp::AudioOff);
    assert_eq!(a[9], DevicePrefsOp::HeadsetVolume);
}

#[test]
fn actions_with_audio_and_speaker() {
    let a = menu_actions(true, false);
    assert_eq!(a[9], DevicePrefsOp::EarpieceVolume);
}

#[test]
fn headphone_states() {
    assert!(headphone_connected(HeadphoneState::PresentWithMic));
    assert!(headphone_connected(HeadphoneState::PresentWithoutMic));
    assert!(!headphone_connected(HeadphoneState::Absent));
}

#[test]
fn labels_of_operations() {
    let l = labels();
    assert_eq!(op_label_text(DevicePrefsOp::RadioOnOnBoot, &l), "WiFi kill switch");
    assert_eq!(
        op_label_text(DevicePrefsOp::ConnectKnownNetworksOnBoot, &l),
        "Automatically connnect to networks"
    );
    assert_eq!(op_label_text(DevicePrefsOp::AutobacklightOnBoot, &l), "Automatic backlight");
    assert_eq!(op_label_text(DevicePrefsOp::SetTimezone, &l), "Set timezone");
    assert_eq!(op_label_text(DevicePrefsOp::EarpieceVolume, &l), "Speaker volume");
}

#[test]
fn claimed_menu_ends_with_close_entry() {
    let l = labels();
    let items = menu_items(&menu_actions(false, false), 7, &l);
    assert_eq!(items.len(), 10);
    assert_eq!(items[0].name, "WiFi kill switch");
    assert_eq!(items[0].action_conn, Some(7));
    assert_eq!(items[0].action_opcode, 0);
    assert!(items[0].close_on_select);
    assert_eq!(items[8].name, "Enable audio subsystem");
    assert_eq!(items[8].action_opcode, 8);
    assert_eq!(items[9].name, "Close menu");
    assert_eq!(items[9].action_conn, None);
    assert_eq!(items[9].action_opcode, 0);
}

#[test]
fn audio_off_restores_stopped_menu() {
    let l = labels();
    for headphones in [true, false] {
        let mut menu = entries(&menu_items(&menu_actions(true, headphones), 3, &l));
        apply(&mut menu, &alter_menu_audio_off(3, &l));
        let stopped = entries(&menu_items(&menu_actions(false, headphones), 3, &l));
        assert_eq!(menu, stopped);
    }
}

#[test]
fn audio_on_shows_both_volumes() {
    let l = labels();
    let mut menu = entries(&menu_items(&menu_actions(false, false), 3, &l));
    apply(&mut menu, &alter_menu_audio_on(3, &l));
    let n = names(&menu);
    assert_eq!(n.len(), 12);
    assert_eq!(n[8], "Disable audio subsystem");
    assert_eq!(n[9], "Speaker volume");
    assert_eq!(n[10], "Headset volume");
    assert_eq!(n[11], "Close menu");
    assert_eq!(menu[9].2, 11);
    assert_eq!(menu[10].2, 10);
}

#[test]
fn audio_on_then_off_is_identity() {
    let l = labels();
    let stopped = entries(&menu_items(&menu_actions(false, true), 3, &l));
    let mut menu = stopped.clone();
    apply(&mut menu, &alter_menu_audio_on(3, &l));
    apply(&mut menu, &alter_menu_audio_off(3, &l));
    assert_eq!(menu, stopped);
}

#[test]
fn switches_keep_other_entries() {
    let l = labels();
    let extra = ("Extra".to_string(), Some(9), 77, false);
    let mut menu = vec![extra.clone()];
    menu.extend(entries(&menu_items(&menu_actions(false, false), 3, &l)).into_iter().skip(8));
    assert_eq!(names(&menu), vec!["Extra", "Enable audio subsystem", "Close menu"]);
    apply(&mut menu, &alter_menu_audio_on(3, &l));
    assert_eq!(
        names(&menu),
        vec!["Extra", "Disable audio subsystem", "Speaker volume", "Headset volume", "Close menu"]
    );
    apply(&mut menu, &alter_menu_audio_off(3, &l));
    assert_eq!(names(&menu), vec!["Extra", "Enable audio subsystem", "Close menu"]);
    assert_eq!(menu[0], extra);
}
