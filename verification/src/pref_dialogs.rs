use vstd::prelude::*;
use crate::decimal::{decimal_string, decimal_text, parse_u64, parsed_u64};
use crate::pref_menu::PrefsLabels;
use crate::volume::{db_for_percentage, percentage_to_db};

verus! {

pub const STATUS_PROMPT: &'static str = "Current status: ";

pub const LAYOUT_PROMPT: &'static str = "Current layout: ";

pub const HEADSET_SLIDER_TITLE: &'static str = "Headset volume level";

pub const EARPIECE_SLIDER_TITLE: &'static str = "Earpiece volume level";

pub const PREFS_ERROR_PREFIX: &'static str = "Preferences engine error: ";

pub const KERNEL_ERROR_PREFIX: &'static str = "Kernel error: ";

pub const NOTICE_SEPARATOR: &'static str = ": ";

/// The timeout the dialog shows when none is stored.
pub const DEFAULT_BACKLIGHT_TIMEOUT: u64 = 10;

/// The text that answers yes or no.
pub open spec fn yes_no_text(val: bool, l: PrefsLabels) -> Seq<char> {
    if val {
        l.yes@
    } else {
        l.no@
    }
}

/// The answer that a yes/no choice gives: yes is `true`, no is `false`.
/// (Only the two choices can come back from the dialog.)
pub fn yes_no_to_bool(val: &str, labels: &PrefsLabels) -> (res: bool)
    requires
        val@ == labels.yes@ || val@ == labels.no@,
    ensures
        res == (val@ == labels.yes@),
{
    let answer = String::from_str(val);
    answer == labels.yes
}

/// With distinct texts for yes and no, reading the text of a value gives the
/// value back.
pub proof fn lemma_yes_no_roundtrip(val: bool, l: PrefsLabels)
    requires
        l.yes@ != l.no@,
    ensures
        (yes_no_text(val, l) == l.yes@) == val,
{
}


/// The yes/no dialog shows the current value: the prompt is "Current
/// status: " and then the yes text when the value is on, the no text when it
/// is off; so with distinct yes and no texts the two prompts differ, and
/// the shown text reads back as the current value.
pub proof fn lemma_toggle_prompt_shows_value(current: bool, l: PrefsLabels)
    ensures
        toggle_prompt(current, l) == "Current status: "@ + (if current {
            l.yes@
        } else {
            l.no@
        }),
        l.yes@ != l.no@ ==> toggle_prompt(true, l) != toggle_prompt(false, l),
        l.yes@ != l.no@ ==> (toggle_prompt(current, l).skip(STATUS_PROMPT@.len() as int) == l.yes@)
            == current,
{
    let p = STATUS_PROMPT@;
    assert(toggle_prompt(true, l).skip(p.len() as int) =~= l.yes@);
    assert(toggle_prompt(false, l).skip(p.len() as int) =~= l.no@);
}

/// Choosing one of the offered layouts stores its position in the offered
/// list; the four layouts are distinct; any other name stores 0 (QWERTY).
pub proof fn lemma_layout_choice(name: Seq<char>)
    ensures
        layout_names() == seq!["QWERTY"@, "AZERTY"@, "QWERTZ"@, "Dvorak"@],
        forall|i: int, j: int| 0 <= i < j < 4 ==> layout_names()[i] != layout_names()[j],
        forall|k: int| 0 <= k < 4 ==> layout_index(#[trigger] layout_names()[k]) == k,
        !layout_names().contains(name) ==> layout_index(name) == 0,
{
    reveal_strlit("QWERTY");
    reveal_strlit("AZERTY");
    reveal_strlit("QWERTZ");
    reveal_strlit("Dvorak");
    let n = layout_names();
    assert(n[0][0] == 'Q' && n[1][0] == 'A' && n[2][0] == 'Q' && n[3][0] == 'D');
    assert(n[0][5] == 'Y' && n[2][5] == 'Z');
    assert forall|i: int, j: int| 0 <= i < j < 4 implies n[i] != n[j] by {
        if i == 0 && j == 2 {
            assert(n[0][5] != n[2][5]);
        } else {
            assert(n[i][0] != n[j][0]);
        }
    }
    if !n.contains(name) {
        assert(name != n[0]);
        assert(name != n[1]);
        assert(name != n[2]);
        assert(name != n[3]);
    }
}

/// The text of a yes/no value.
pub fn bool_to_yes_no(val: bool, labels: &PrefsLabels) -> (res: String)
    ensures
        res@ == yes_no_text(val, *labels),
{
    if val {
        labels.yes.clone()
    } else {
        labels.no.clone()
    }
}

/// A choice among texts: the dialog shows the prompt and the options.
pub struct ChoiceDialog {
    pub prompt: String,
    pub options: Vec<String>,
}

/// The yes/no dialog that shows the current value of a setting.
pub open spec fn toggle_prompt(current: bool, l: PrefsLabels) -> Seq<char> {
    STATUS_PROMPT@ + yes_no_text(current, l)
}

/// The yes/no dialog for a setting whose current value is `current`:
/// "Current status: yes|no", with the options yes and no.
pub fn toggle_dialog(current: bool, labels: &PrefsLabels) -> (res: ChoiceDialog)
    ensures
        res.prompt@ == toggle_prompt(current, *labels),
        res.options.deep_view() == seq![labels.yes@, labels.no@],
{
    let mut prompt = String::from_str(STATUS_PROMPT);
    let shown = bool_to_yes_no(current, labels);
    prompt.append(shown.as_str());
    let options = vec![labels.yes.clone(), labels.no.clone()];
    proof {
        assert(options.deep_view() =~= seq![labels.yes@, labels.no@]);
    }
    ChoiceDialog { prompt, options }
}

/// What the status service is told about automatic backlight.
#[derive(Debug, Clone, Copy, PartialEq, Eq, Structural)]
pub enum BacklightCommand {
    EnableAutomaticBacklight,
    DisableAutomaticBacklight,
}

/// The outcome of the automatic-backlight dialog.
pub struct AutobacklightChoice {
    /// The message sent to the status service.
    pub command: BacklightCommand,
    /// The value stored for the setting.
    pub stored: bool,
}

/// The setting is stored inverted: `false` means automatic backlight is on.
/// The dialog shows the inverted stored value.
pub fn autobacklight_dialog(stored: bool, labels: &PrefsLabels) -> (res: ChoiceDialog)
    ensures
        res.prompt@ == toggle_prompt(!stored, *labels),
        res.options.deep_view() == seq![labels.yes@, labels.no@],
{
    toggle_dialog(!stored, labels)
}

/// The outcome of the automatic-backlight dialog: the answer is stored
/// inverted, and the status service is told to enable automatic backlight
/// when the setting was on before the dialog (stored `false`), else to
/// disable it.
pub fn autobacklight_choice(stored: bool, answer: &str, labels: &PrefsLabels) -> (res:
    AutobacklightChoice)
    requires
        answer@ == labels.yes@ || answer@ == labels.no@,
    ensures
        res.stored == (answer@ != labels.yes@),
        res.command == (if !stored {
            BacklightCommand::EnableAutomaticBacklight
        } else {
            BacklightCommand::DisableAutomaticBacklight
        }),
{
    let shown = !stored;
    let new_stored = !yes_no_to_bool(answer, labels);
    let command = if shown {
        BacklightCommand::EnableAutomaticBacklight
    } else {
        BacklightCommand::DisableAutomaticBacklight
    };
    AutobacklightChoice { command, stored: new_stored }
}

/// The timeout the dialog starts from: the stored one, or 10 seconds when
/// the stored one is 0 (unset).
pub open spec fn shown_timeout(stored: u64) -> u64 {
    if stored == 0 {
        DEFAULT_BACKLIGHT_TIMEOUT
    } else {
        stored
    }
}

/// The initial text of the timeout field: the shown timeout in decimal.
pub fn timeout_field_text(stored: u64) -> (res: String)
    ensures
        res@ == decimal_text(shown_timeout(stored) as nat),
{
    let mut res = stored;
    if res == 0 {
        res = DEFAULT_BACKLIGHT_TIMEOUT;
    }
    decimal_string(res)
}

/// Checks the timeout field: no complaint when it reads as a number, else
/// the given error text.
pub fn timeout_field_error(text: &str, error_text: &str) -> (res: Option<String>)
    ensures
        res is None <==> parsed_u64(text@) is Some,
        res matches Some(e) ==> e@ == error_text@,
{
    match parse_u64(text) {
        Some(_) => None,
        None => Some(String::from_str(error_text)),
    }
}

/// The timeout to store from an accepted field text.
pub fn timeout_from_field(text: &str) -> (res: u64)
    requires
        parsed_u64(text@) is Some,
    ensures
        Some(res) == parsed_u64(text@),
{
    match parse_u64(text) {
        Some(v) => v,
        None => 0,
    }
}

/// The keyboard layouts offered, in the order of their stored index.
pub open spec fn layout_names() -> Seq<Seq<char>> {
    seq!["QWERTY"@, "AZERTY"@, "QWERTZ"@, "Dvorak"@]
}

/// The keyboard-layout dialog: "Current layout: <name>" and the layouts.
pub fn keyboard_layout_dialog(current_name: &str) -> (res: ChoiceDialog)
    ensures
        res.prompt@ == LAYOUT_PROMPT@ + current_name@,
        res.options.deep_view() == layout_names(),
{
    let mut prompt = String::from_str(LAYOUT_PROMPT);
    prompt.append(current_name);
    let options = vec![
        String::from_str("QWERTY"),
        String::from_str("AZERTY"),
        String::from_str("QWERTZ"),
        String::from_str("Dvorak"),
    ];
    proof {
        assert(options.deep_view() =~= layout_names());
    }
    ChoiceDialog { prompt, options }
}

/// The index of the first layout named `name`, or 0 (QWERTY) when none is.
pub open spec fn layout_index(name: Seq<char>) -> usize {
    if name == layout_names()[0] {
        0
    } else if name == layout_names()[1] {
        1
    } else if name == layout_names()[2] {
        2
    } else if name == layout_names()[3] {
        3
    } else {
        0
    }
}

/// The layout index to store for the chosen layout name.
pub fn keyboard_layout_choice(answer: &str) -> (res: usize)
    ensures
        res == layout_index(answer@),
        res < 4,
{
    let a = String::from_str(answer);
    if a == String::from_str("QWERTY") {
        0
    } else if a == String::from_str("AZERTY") {
        1
    } else if a == String::from_str("QWERTZ") {
        2
    } else if a == String::from_str("Dvorak") {
        3
    } else {
        0
    }
}

/// A slider dialog: its title, range and step.
pub struct SliderDialog {
    pub title: String,
    pub min: u32,
    pub max: u32,
    pub step: u32,
}

/// The volume slider for the headset or the earpiece: 0 to 100 in steps of
/// 5 (twenty levels over the codec's 80 dB).
pub fn volume_slider(headset: bool) -> (res: SliderDialog)
    ensures
        res.title@ == (if headset {
            HEADSET_SLIDER_TITLE@
        } else {
            EARPIECE_SLIDER_TITLE@
        }),
        res.min == 0,
        res.max == 100,
        res.step == 5,
{
    let title = if headset {
        String::from_str(HEADSET_SLIDER_TITLE)
    } else {
        String::from_str(EARPIECE_SLIDER_TITLE)
    };
    SliderDialog { title, min: 0, max: 100, step: 5 }
}

/// The codec level (dB) and the stored level (percent) for a slider
/// position.
pub fn volume_levels(slider: u32) -> (res: (i32, u32))
    requires
        slider <= 100,
    ensures
        res.0 == db_for_percentage(slider as int),
        res.1 == slider,
{
    let val = slider as i32;
    let db_val = percentage_to_db(val as u32);
    (db_val, val as u32)
}

/// A failure of a preferences action: of the preferences store or of the
/// kernel, with the failure's debug text.
#[derive(Debug)]
pub enum DevicePrefsError {
    PrefsError(String),
    XousError(String),
}

/// The description of a failure.
pub open spec fn error_text(e: DevicePrefsError) -> Seq<char> {
    match e {
        DevicePrefsError::PrefsError(d) => PREFS_ERROR_PREFIX@ + d@,
        DevicePrefsError::XousError(d) => KERNEL_ERROR_PREFIX@ + d@,
    }
}

impl DevicePrefsError {
    /// "Preferences engine error: ..." or "Kernel error: ...".
    pub fn describe(&self) -> (res: String)
        ensures
            res@ == error_text(*self),
    {
        match self {
            DevicePrefsError::PrefsError(d) => {
                let mut s = String::from_str(PREFS_ERROR_PREFIX);
                s.append(d.as_str());
                s
            },
            DevicePrefsError::XousError(d) => {
                let mut s = String::from_str(KERNEL_ERROR_PREFIX);
                s.append(d.as_str());
                s
            },
        }
    }
}

/// The notification shown when an action fails: "<title>: <description>".
pub fn error_notice(title: &str, e: &DevicePrefsError) -> (res: String)
    ensures
        res@ == title@ + NOTICE_SEPARATOR@ + error_text(*e),
{
    let mut s = String::from_str(title);
    s.append(NOTICE_SEPARATOR);
    let d = e.describe();
    s.append(d.as_str());
    s
}

} // verus!
