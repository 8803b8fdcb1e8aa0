use xous_prefs::percentage_to_db;
use xous_prefs::pref_dialogs::{volume_levels, volume_slider};

#[test]
fn full_volume_is_no_attenuation() {
    assert_eq!(percentage_to_db(100), 0);
}

#[test]
fn zero_volume_is_full_attenuation() {
    assert_eq!(percentage_to_db(0), -80);
}

#[test]
fn attenuation_rounds_toward_zero() {
    assert_eq!(percentage_to_db(50), -40);
    assert_eq!(percentage_to_db(33), -53);
    assert_eq!(percentage_to_db(99), 0);
    assert_eq!(percentage_to_db(1), -79);
    assert_eq!(percentage_to_db(95), -4);
}

#[test]
fn attenuation_is_monotonic_over_slider_steps() {
    let mut last = percentage_to_db(0);
    let mut v = 5;
    while v <= 100 {
        let db = percentage_to_db(v);
        assert!(db >= last);
        last = db;
        v += 5;
    }
}

#[test]
fn volume_levels_pair_db_and_percent() {
    assert_eq!(volume_levels(75), (-20, 75));
    assert_eq!(volume_levels(0), (-80, 0));
}

#[test]
fn volume_sliders_have_twenty_steps() {
    let h = volume_slider(true);
    assert_eq!(h.title, "Headset volume level");
    assert_eq!((h.min, h.max, h.step), (0, 100, 5));
    let e = volume_slider(false);
    assert_eq!(e.title, "Earpiece volume level");
}
