use xous_prefs::decimal::{decimal_string, parse_u64};
use xous_prefs::pref_dialogs::{
    autobacklight_choice, autobacklight_dialog, bool_to_yes_no, error_notice,
    keyboard_layout_choice, keyboard_layout_dialog, timeout_field_error, timeout_field_text,
    timeout_from_field, toggle_dialog, yes_no_to_bool, BacklightCommand, DevicePrefsError,
};
use xous_prefs::pref_menu::PrefsLabels;

fn labels() -> PrefsLabels {
    PrefsLabels {
        autobacklight_enable: "Automatic backlight".to_string(),
        autobacklight_duration: "Backlight timeout".to_string(),
        set_rtc: "Set time".to_string(),
        set_tz: "Set timezone".to_string(),
        close_menu: "Close menu".to_string(),
        yes: "Yes".to_string(),
        no: "No".to_string(),
    }
}

#[test]
fn yes_and_no() {
    let l = labels();
    assert!(yes_no_to_bool("Yes", &l));
    assert!(!yes_no_to_bool("No", &l));
    assert_eq!(bool_to_yes_no(true, &l), "Yes");
    assert_eq!(bool_to_yes_no(false, &l), "No");
}

#[test]
fn toggle_dialog_shows_current_value() {
    let l = labels();
    let d = toggle_dialog(true, &l);
    assert_eq!(d.prompt, "Current status: Yes");
    assert_eq!(d.options, vec!["Yes".to_string(), "No".to_string()]);
}

#[test]
fn autobacklight_is_stored_inverted() {
    let l = labels();
    let d = autobacklight_dialog(false, &l);
    assert_eq!(d.prompt, "Current status: Yes");
    let c = autobacklight_choice(false, "No", &l);
    assert!(c.stored);
    assert_eq!(c.command, BacklightCommand::EnableAutomaticBacklight);
    let c = autobacklight_choice(true, "Yes", &l);
    assert!(!c.stored);
    assert_eq!(c.command, BacklightCommand::DisableAutomaticBacklight);
}

#[test]
fn timeout_field_defaults_to_ten() {
    assert_eq!(timeout_field_text(0), "10");
    assert_eq!(timeout_field_text(300), "300");
    assert_eq!(timeout_field_text(7), "7");
}

#[test]
fn timeout_field_validation() {
    assert_eq!(timeout_field_error("42", "bad"), None);
    assert_eq!(timeout_field_error("4x2", "bad"), Some("bad".to_string()));
    assert_eq!(timeout_field_error("", "bad"), Some("bad".to_string()));
    assert_eq!(timeout_from_field("+15"), 15);
}

#[test]
fn parse_like_std() {
    for t in ["0", "7", "+7", "007", "18446744073709551615", "18446744073709551616", "", "+", "-1", " 1", "1 ", "1_0", "++1", "99999999999999999999"] {
        assert_eq!(parse_u64(t), t.parse::<u64>().ok(), "text {:?}", t);
    }
}

#[test]
fn decimal_like_std() {
    for n in [0u64, 9, 10, 99, 100, 12345, u64::MAX] {
        assert_eq!(decimal_string(n), n.to_string());
    }
}

#[test]
fn keyboard_layouts() {
    let d = keyboard_layout_dialog("AZERTY");
    assert_eq!(d.prompt, "Current layout: AZERTY");
    assert_eq!(d.options, vec!["QWERTY", "AZERTY", "QWERTZ", "Dvorak"]);
    assert_eq!(keyboard_layout_choice("QWERTY"), 0);
    assert_eq!(keyboard_layout_choice("QWERTZ"), 2);
    assert_eq!(keyboard_layout_choice("Dvorak"), 3);
    assert_eq!(keyboard_layout_choice("Colemak"), 0);
}

#[test]
fn error_notices() {
    let e = DevicePrefsError::PrefsError("Io".to_string());
    assert_eq!(error_notice("Error", &e), "Error: Preferences engine error: Io");
    let e = DevicePrefsError::XousError("ServerNotFound".to_string());
    assert_eq!(error_notice("Error", &e), "Error: Kernel error: ServerNotFound");
}

#[test]
fn timeout_text_reads_back() {
    for stored in [0u64, 1, 10, 600, u64::MAX] {
        let text = timeout_field_text(stored);
        let shown = if stored == 0 { 10 } else { stored };
        assert_eq!(timeout_field_error(&text, "bad"), None);
        assert_eq!(timeout_from_field(&text), shown);
    }
}
