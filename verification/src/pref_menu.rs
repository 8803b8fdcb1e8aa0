use vstd::prelude::*;
use crate::pref_ops::{DevicePrefsOp, is_user_op, op_number};

verus! {

/// The texts of the menu and dialogs that come from the translation table
/// (the `t!` keys are named beside each field).
pub struct PrefsLabels {
    /// `prefs.autobacklight_enable`
    pub autobacklight_enable: String,
    /// `prefs.autobacklight_duration`
    pub autobacklight_duration: String,
    /// `mainmenu.set_rtc`
    pub set_rtc: String,
    /// `mainmenu.set_tz`
    pub set_tz: String,
    /// `mainmenu.closemenu`
    pub close_menu: String,
    /// `prefs.yes`
    pub yes: String,
    /// `prefs.no`
    pub no: String,
}

pub const RADIO_ON_ON_BOOT_LABEL: &'static str = "WiFi kill switch";

pub const CONNECT_KNOWN_NETWORKS_LABEL: &'static str = "Automatically connnect to networks";

pub const KEYBOARD_LAYOUT_LABEL: &'static str = "Keyboard layout";

pub const WLAN_MENU_LABEL: &'static str = "WiFi settings";

pub const AUDIO_ON_LABEL: &'static str = "Enable audio subsystem";

pub const AUDIO_OFF_LABEL: &'static str = "Disable audio subsystem";

pub const HEADSET_VOLUME_LABEL: &'static str = "Headset volume";

pub const EARPIECE_VOLUME_LABEL: &'static str = "Speaker volume";

/// The menu text of a user operation.
pub open spec fn op_label(op: DevicePrefsOp, l: PrefsLabels) -> Seq<char> {
    match op {
        DevicePrefsOp::AutobacklightOnBoot => l.autobacklight_enable@,
        DevicePrefsOp::AutobacklightTimeout => l.autobacklight_duration@,
        DevicePrefsOp::ConnectKnownNetworksOnBoot => CONNECT_KNOWN_NETWORKS_LABEL@,
        DevicePrefsOp::RadioOnOnBoot => RADIO_ON_ON_BOOT_LABEL@,
        DevicePrefsOp::KeyboardLayout => KEYBOARD_LAYOUT_LABEL@,
        DevicePrefsOp::WLANMenu => WLAN_MENU_LABEL@,
        DevicePrefsOp::SetTime => l.set_rtc@,
        DevicePrefsOp::SetTimezone => l.set_tz@,
        DevicePrefsOp::AudioOn => AUDIO_ON_LABEL@,
        DevicePrefsOp::AudioOff => AUDIO_OFF_LABEL@,
        DevicePrefsOp::HeadsetVolume => HEADSET_VOLUME_LABEL@,
        DevicePrefsOp::EarpieceVolume => EARPIECE_VOLUME_LABEL@,
        _ => seq![],
    }
}

/// The menu text of a user operation (the menu updates have none).
pub fn op_label_text(op: DevicePrefsOp, labels: &PrefsLabels) -> (res: String)
    requires
        is_user_op(op),
    ensures
        res@ == op_label(op, *labels),
{
    match op {
        DevicePrefsOp::AutobacklightOnBoot => labels.autobacklight_enable.clone(),
        DevicePrefsOp::AutobacklightTimeout => labels.autobacklight_duration.clone(),
        DevicePrefsOp::ConnectKnownNetworksOnBoot => String::from_str(CONNECT_KNOWN_NETWORKS_LABEL),
        DevicePrefsOp::RadioOnOnBoot => String::from_str(RADIO_ON_ON_BOOT_LABEL),
        DevicePrefsOp::KeyboardLayout => String::from_str(KEYBOARD_LAYOUT_LABEL),
        DevicePrefsOp::WLANMenu => String::from_str(WLAN_MENU_LABEL),
        DevicePrefsOp::SetTime => labels.set_rtc.clone(),
        DevicePrefsOp::SetTimezone => labels.set_tz.clone(),
        DevicePrefsOp::AudioOn => String::from_str(AUDIO_ON_LABEL),
        DevicePrefsOp::AudioOff => String::from_str(AUDIO_OFF_LABEL),
        DevicePrefsOp::HeadsetVolume => String::from_str(HEADSET_VOLUME_LABEL),
        DevicePrefsOp::EarpieceVolume => String::from_str(EARPIECE_VOLUME_LABEL),
        _ => {
            proof {
                assert(false);
            }
            String::new()
        },
    }
}

/// The state of the headphone jack as the codec reports it.
#[derive(Debug, Clone, Copy, PartialEq, Eq, Structural)]
pub enum HeadphoneState {
    PresentWithMic,
    PresentWithoutMic,
    /// Any other state the codec reports.
    Absent,
}

/// Whether headphones are plugged in, with or without a microphone.
pub fn headphone_connected(state: HeadphoneState) -> (res: bool)
    ensures
        res == (state is PresentWithMic || state is PresentWithoutMic),
{
    match state {
        HeadphoneState::PresentWithMic => true,
        HeadphoneState::PresentWithoutMic => true,
        _ => false,
    }
}

/// The operations that are always in the menu, in menu order.
pub open spec fn base_actions() -> Seq<DevicePrefsOp> {
    seq![
        DevicePrefsOp::RadioOnOnBoot,
        DevicePrefsOp::ConnectKnownNetworksOnBoot,
        DevicePrefsOp::AutobacklightOnBoot,
        DevicePrefsOp::AutobacklightTimeout,
        DevicePrefsOp::KeyboardLayout,
        DevicePrefsOp::WLANMenu,
        DevicePrefsOp::SetTime,
        DevicePrefsOp::SetTimezone,
    ]
}

/// The menu operations: the fixed ones, then, with audio running, "audio
/// off" and the volume of the output in use, else "audio on".
pub open spec fn actions_for(audio_running: bool, headphones: bool) -> Seq<DevicePrefsOp> {
    if audio_running {
        base_actions() + seq![
            DevicePrefsOp::AudioOff,
            if headphones {
                DevicePrefsOp::HeadsetVolume
            } else {
                DevicePrefsOp::EarpieceVolume
            },
        ]
    } else {
        base_actions().push(DevicePrefsOp::AudioOn)
    }
}

/// The operations offered in the menu. Whether headphones are connected
/// matters only while audio runs.
pub fn menu_actions(audio_running: bool, headphones: bool) -> (res: Vec<DevicePrefsOp>)
    ensures
        res@ == actions_for(audio_running, headphones),
        forall|i: int| 0 <= i < res@.len() ==> is_user_op(#[trigger] res@[i]),
{
    let mut ret = vec![
        DevicePrefsOp::RadioOnOnBoot,
        DevicePrefsOp::ConnectKnownNetworksOnBoot,
        DevicePrefsOp::AutobacklightOnBoot,
        DevicePrefsOp::AutobacklightTimeout,
        DevicePrefsOp::KeyboardLayout,
        DevicePrefsOp::WLANMenu,
        DevicePrefsOp::SetTime,
        DevicePrefsOp::SetTimezone,
    ];
    if audio_running {
        ret.push(DevicePrefsOp::AudioOff);
        if headphones {
            ret.push(DevicePrefsOp::HeadsetVolume);
        } else {
            ret.push(DevicePrefsOp::EarpieceVolume);
        }
    } else {
        ret.push(DevicePrefsOp::AudioOn);
    }
    proof {
        assert(ret@ =~= actions_for(audio_running, headphones));
    }
    ret
}


/// Each operation is labelled with its own text: the fixed texts for the
/// operations that have one, the given translated texts for the others.
pub proof fn lemma_op_labels(l: PrefsLabels)
    ensures
        op_label(DevicePrefsOp::RadioOnOnBoot, l) == "WiFi kill switch"@,
        op_label(DevicePrefsOp::ConnectKnownNetworksOnBoot, l)
            == "Automatically connnect to networks"@,
        op_label(DevicePrefsOp::AutobacklightOnBoot, l) == l.autobacklight_enable@,
        op_label(DevicePrefsOp::AutobacklightTimeout, l) == l.autobacklight_duration@,
        op_label(DevicePrefsOp::KeyboardLayout, l) == "Keyboard layout"@,
        op_label(DevicePrefsOp::WLANMenu, l) == "WiFi settings"@,
        op_label(DevicePrefsOp::SetTime, l) == l.set_rtc@,
        op_label(DevicePrefsOp::SetTimezone, l) == l.set_tz@,
        op_label(DevicePrefsOp::AudioOn, l) == "Enable audio subsystem"@,
        op_label(DevicePrefsOp::AudioOff, l) == "Disable audio subsystem"@,
        op_label(DevicePrefsOp::HeadsetVolume, l) == "Headset volume"@,
        op_label(DevicePrefsOp::EarpieceVolume, l) == "Speaker volume"@,
{
}

/// The menu offers each operation once. Its first eight entries are the
/// operations that are always there, in opcode order (opcodes 0 to 7, so
/// every one of them, Set time included); then, with audio running, "audio
/// off" and the volume of the output in use (the headset when headphones
/// are connected), else "audio on" alone.
pub proof fn lemma_menu_actions_law(audio_running: bool, headphones: bool)
    ensures
        ({
            let a = actions_for(audio_running, headphones);
            &&& forall|i: int, j: int| 0 <= i < j < a.len() ==> a[i] != a[j]
            &&& a.len() == if audio_running { 10int } else { 9int }
            &&& forall|i: int| 0 <= i < 8 ==> op_number(#[trigger] a[i]) == i
            &&& forall|op: DevicePrefsOp| op_number(op) < 8 ==> a.contains(op)
            &&& !audio_running ==> a[8] == DevicePrefsOp::AudioOn
            &&& audio_running ==> a[8] == DevicePrefsOp::AudioOff && a[9] == (if headphones {
                DevicePrefsOp::HeadsetVolume
            } else {
                DevicePrefsOp::EarpieceVolume
            })
        }),
{
    let a = actions_for(audio_running, headphones);
    assert forall|i: int, j: int| 0 <= i < j < a.len() implies a[i] != a[j] by {
        crate::pref_ops::lemma_op_number_roundtrip(a[i], 0);
        crate::pref_ops::lemma_op_number_roundtrip(a[j], 0);
    }
    assert forall|op: DevicePrefsOp| op_number(op) < 8 implies a.contains(op) by {
        let k = op_number(op) as int;
        assert(op_number(a[k]) == k);
        assert(a[k] == op);
    }
}

/// A menu entry: its text, the connection its action is sent to (none for
/// the entry that closes the menu), the action's opcode and whether picking
/// it closes the menu. Every entry carries a zero scalar payload.
pub struct MenuItem {
    pub name: String,
    pub action_conn: Option<u32>,
    pub action_opcode: u32,
    pub close_on_select: bool,
}

/// A menu entry as a value: (name, connection, opcode, closes the menu).
pub type MenuEntry = (Seq<char>, Option<u32>, u32, bool);

impl View for MenuItem {
    type V = MenuEntry;

    open spec fn view(&self) -> MenuEntry {
        (self.name@, self.action_conn, self.action_opcode, self.close_on_select)
    }
}

/// The entry of a user operation: it sends the operation's opcode to `conn`.
pub open spec fn op_entry(op: DevicePrefsOp, conn: u32, l: PrefsLabels) -> MenuEntry {
    (op_label(op, l), Some(conn), op_number(op) as u32, true)
}

/// The entry that closes the menu.
pub open spec fn close_entry(l: PrefsLabels) -> MenuEntry {
    (l.close_menu@, None, 0, true)
}

/// The entries of the given operations, in order.
pub open spec fn op_entries(ops: Seq<DevicePrefsOp>, conn: u32, l: PrefsLabels) -> Seq<MenuEntry>
    decreases ops.len(),
{
    if ops.len() == 0 {
        seq![]
    } else {
        op_entries(ops.drop_last(), conn, l).push(op_entry(ops.last(), conn, l))
    }
}

/// The menu of the given operations: their entries, then the close entry.
pub open spec fn menu_for(ops: Seq<DevicePrefsOp>, conn: u32, l: PrefsLabels) -> Seq<MenuEntry> {
    op_entries(ops, conn, l).push(close_entry(l))
}

fn op_item(op: DevicePrefsOp, conn: u32, labels: &PrefsLabels) -> (res: MenuItem)
    requires
        is_user_op(op),
    ensures
        res@ == op_entry(op, conn, *labels),
{
    MenuItem {
        name: op_label_text(op, labels),
        action_conn: Some(conn),
        action_opcode: op.to_u32(),
        close_on_select: true,
    }
}

fn close_item(labels: &PrefsLabels) -> (res: MenuItem)
    ensures
        res@ == close_entry(*labels),
{
    MenuItem {
        name: labels.close_menu.clone(),
        action_conn: None,
        action_opcode: 0,
        close_on_select: true,
    }
}

/// The menu that the preferences handler claims: an entry per operation,
/// sending to `conn`, then the close entry.
pub fn menu_items(actions: &Vec<DevicePrefsOp>, conn: u32, labels: &PrefsLabels) -> (res: Vec<
    MenuItem,
>)
    requires
        forall|i: int| 0 <= i < actions@.len() ==> is_user_op(#[trigger] actions@[i]),
    ensures
        res@.map_values(|m: MenuItem| m@) == menu_for(actions@, conn, *labels),
{
    let mut items: Vec<MenuItem> = Vec::new();
    let n = actions.len();
    let mut i: usize = 0;
    while i < n
        invariant
            n == actions@.len(),
            i <= n,
            forall|k: int| 0 <= k < actions@.len() ==> is_user_op(#[trigger] actions@[k]),
            items@.map_values(|m: MenuItem| m@) == op_entries(
                actions@.subrange(0, i as int),
                conn,
                *labels,
            ),
        decreases n - i,
    {
        let ghost before = items@;
        let item = op_item(actions[i], conn, labels);
        items.push(item);
        proof {
            let s = actions@.subrange(0, i + 1);
            assert(s.drop_last() =~= actions@.subrange(0, i as int));
            assert(items@.map_values(|m: MenuItem| m@) =~= before.map_values(|m: MenuItem| m@).push(
                item@,
            ));
        }
        i = i + 1;
    }
    proof {
        assert(actions@.subrange(0, n as int) =~= actions@);
    }
    let ghost before = items@;
    items.push(close_item(labels));
    proof {
        assert(items@.map_values(|m: MenuItem| m@) =~= before.map_values(|m: MenuItem| m@).push(
            close_entry(*labels),
        ));
    }
    items
}

/// A change to the menu: remove the entries with a name, or append an entry.
pub enum MenuEdit {
    DeleteItem(String),
    AddItem(MenuItem),
}

/// A menu change as a value.
pub enum MenuEditView {
    Delete(Seq<char>),
    Add(MenuEntry),
}

impl View for MenuEdit {
    type V = MenuEditView;

    open spec fn view(&self) -> MenuEditView {
        match self {
            MenuEdit::DeleteItem(name) => MenuEditView::Delete(name@),
            MenuEdit::AddItem(item) => MenuEditView::Add(item@),
        }
    }
}

/// The menu without the entries named `name`.
pub open spec fn without_named(menu: Seq<MenuEntry>, name: Seq<char>) -> Seq<MenuEntry>
    decreases menu.len(),
{
    if menu.len() == 0 {
        seq![]
    } else if menu.last().0 == name {
        without_named(menu.drop_last(), name)
    } else {
        without_named(menu.drop_last(), name).push(menu.last())
    }
}

/// A menu after one change, as the menu server applies it: a deletion
/// removes the entries with the name, an addition appends.
pub open spec fn apply_edit(menu: Seq<MenuEntry>, e: MenuEditView) -> Seq<MenuEntry> {
    match e {
        MenuEditView::Delete(name) => without_named(menu, name),
        MenuEditView::Add(entry) => menu.push(entry),
    }
}

/// A menu after the changes, in order.
pub open spec fn apply_edits(menu: Seq<MenuEntry>, edits: Seq<MenuEditView>) -> Seq<MenuEntry>
    decreases edits.len(),
{
    if edits.len() == 0 {
        menu
    } else {
        apply_edit(apply_edits(menu, edits.drop_last()), edits.last())
    }
}

/// The changes that switch the menu to a running audio subsystem: the close
/// entry and "audio on" go, "audio off", both volumes and the close entry
/// come at the end.
pub open spec fn audio_on_edits(conn: u32, l: PrefsLabels) -> Seq<MenuEditView> {
    seq![
        MenuEditView::Delete(l.close_menu@),
        MenuEditView::Delete(AUDIO_ON_LABEL@),
        MenuEditView::Add(op_entry(DevicePrefsOp::AudioOff, conn, l)),
        MenuEditView::Add(op_entry(DevicePrefsOp::EarpieceVolume, conn, l)),
        MenuEditView::Add(op_entry(DevicePrefsOp::HeadsetVolume, conn, l)),
        MenuEditView::Add(close_entry(l)),
    ]
}

/// The changes that switch the menu to a stopped audio subsystem: the close
/// entry, "audio off" and both volumes go, "audio on" and the close entry
/// come at the end.
pub open spec fn audio_off_edits(conn: u32, l: PrefsLabels) -> Seq<MenuEditView> {
    seq![
        MenuEditView::Delete(l.close_menu@),
        MenuEditView::Delete(AUDIO_OFF_LABEL@),
        MenuEditView::Delete(EARPIECE_VOLUME_LABEL@),
        MenuEditView::Delete(HEADSET_VOLUME_LABEL@),
        MenuEditView::Add(op_entry(DevicePrefsOp::AudioOn, conn, l)),
        MenuEditView::Add(close_entry(l)),
    ]
}


/// The menu texts are pairwise distinct: no two user operations share a
/// text, and none has the text of the close entry.
pub open spec fn labels_distinct(l: PrefsLabels) -> bool {
    &&& forall|a: DevicePrefsOp, b: DevicePrefsOp|
        is_user_op(a) && is_user_op(b) && a != b ==> #[trigger] op_label(a, l) != #[trigger] op_label(
            b,
            l,
        )
    &&& forall|a: DevicePrefsOp| is_user_op(a) ==> #[trigger] op_label(a, l) != l.close_menu@
}

proof fn lemma_op_entries_push(ops: Seq<DevicePrefsOp>, x: DevicePrefsOp, conn: u32, l: PrefsLabels)
    ensures
        op_entries(ops.push(x), conn, l) == op_entries(ops, conn, l).push(op_entry(x, conn, l)),
{
    assert(ops.push(x).drop_last() =~= ops);
}

proof fn lemma_without_absent(menu: Seq<MenuEntry>, name: Seq<char>)
    requires
        forall|i: int| 0 <= i < menu.len() ==> (#[trigger] menu[i]).0 != name,
    ensures
        without_named(menu, name) == menu,
    decreases menu.len(),
{
    if menu.len() > 0 {
        lemma_without_absent(menu.drop_last(), name);
        assert(menu.drop_last().push(menu.last()) =~= menu);
    }
}

proof fn lemma_without_push(menu: Seq<MenuEntry>, e: MenuEntry, name: Seq<char>)
    ensures
        without_named(menu.push(e), name) == if e.0 == name {
            without_named(menu, name)
        } else {
            without_named(menu, name).push(e)
        },
{
    assert(menu.push(e).drop_last() =~= menu);
}

proof fn lemma_base_entries_without(conn: u32, l: PrefsLabels, name: Seq<char>)
    requires
        labels_distinct(l),
        name == l.close_menu@ || name == op_label(DevicePrefsOp::AudioOn, l) || name == op_label(
            DevicePrefsOp::AudioOff,
            l,
        ) || name == op_label(DevicePrefsOp::HeadsetVolume, l) || name == op_label(
            DevicePrefsOp::EarpieceVolume,
            l,
        ),
    ensures
        without_named(op_entries(base_actions(), conn, l), name) == op_entries(base_actions(), conn, l),
{
    let b = base_actions();
    let m = op_entries(b, conn, l);
    lemma_op_entries_len(b, conn, l);
    assert forall|i: int| 0 <= i < m.len() implies (#[trigger] m[i]).0 != name by {
        lemma_op_entries_index(b, conn, l, i);
        let op = b[i];
        assert(is_user_op(op));
        assert(op != DevicePrefsOp::AudioOn && op != DevicePrefsOp::AudioOff && op
            != DevicePrefsOp::HeadsetVolume && op != DevicePrefsOp::EarpieceVolume);
        assert(op_label(op, l) != l.close_menu@);
        assert(op_label(op, l) != op_label(DevicePrefsOp::AudioOn, l));
        assert(op_label(op, l) != op_label(DevicePrefsOp::AudioOff, l));
        assert(op_label(op, l) != op_label(DevicePrefsOp::HeadsetVolume, l));
        assert(op_label(op, l) != op_label(DevicePrefsOp::EarpieceVolume, l));
    }
    lemma_without_absent(m, name);
}

proof fn lemma_op_entries_index(ops: Seq<DevicePrefsOp>, conn: u32, l: PrefsLabels, i: int)
    requires
        0 <= i < ops.len(),
    ensures
        op_entries(ops, conn, l).len() == ops.len(),
        op_entries(ops, conn, l)[i] == op_entry(ops[i], conn, l),
    decreases ops.len(),
{
    lemma_op_entries_len(ops, conn, l);
    if i < ops.len() - 1 {
        lemma_op_entries_index(ops.drop_last(), conn, l, i);
    }
}

proof fn lemma_op_entries_len(ops: Seq<DevicePrefsOp>, conn: u32, l: PrefsLabels)
    ensures
        op_entries(ops, conn, l).len() == ops.len(),
    decreases ops.len(),
{
    if ops.len() > 0 {
        lemma_op_entries_len(ops.drop_last(), conn, l);
    }
}

proof fn lemma_user_labels_differ(a: DevicePrefsOp, b: DevicePrefsOp, l: PrefsLabels)
    requires
        labels_distinct(l),
        is_user_op(a),
        is_user_op(b),
        a != b,
    ensures
        op_label(a, l) != op_label(b, l),
        op_label(a, l) != l.close_menu@,
{
}

/// Switching audio off in the menu of a running audio subsystem gives the
/// menu of a stopped one, whichever volume entry it showed.
pub proof fn lemma_audio_off_menu(conn: u32, l: PrefsLabels, headphones: bool, any: bool)
    requires
        labels_distinct(l),
    ensures
        apply_edits(menu_for(actions_for(true, headphones), conn, l), audio_off_edits(conn, l))
            == menu_for(actions_for(false, any), conn, l),
{
    let b = base_actions();
    let vol = if headphones {
        DevicePrefsOp::HeadsetVolume
    } else {
        DevicePrefsOp::EarpieceVolume
    };
    let e_off = op_entry(DevicePrefsOp::AudioOff, conn, l);
    let e_vol = op_entry(vol, conn, l);
    let base = op_entries(b, conn, l);
    assert(actions_for(true, headphones) =~= b.push(DevicePrefsOp::AudioOff).push(vol));
    lemma_op_entries_push(b, DevicePrefsOp::AudioOff, conn, l);
    lemma_op_entries_push(b.push(DevicePrefsOp::AudioOff), vol, conn, l);
    let m0 = menu_for(actions_for(true, headphones), conn, l);
    assert(m0 == base.push(e_off).push(e_vol).push(close_entry(l)));
    let edits = audio_off_edits(conn, l);
    lemma_user_labels_differ(DevicePrefsOp::AudioOff, vol, l);
    lemma_user_labels_differ(vol, DevicePrefsOp::AudioOff, l);
    lemma_user_labels_differ(DevicePrefsOp::HeadsetVolume, DevicePrefsOp::EarpieceVolume, l);
    lemma_user_labels_differ(DevicePrefsOp::EarpieceVolume, DevicePrefsOp::HeadsetVolume, l);
    lemma_base_entries_without(conn, l, l.close_menu@);
    lemma_base_entries_without(conn, l, op_label(DevicePrefsOp::AudioOff, l));
    lemma_base_entries_without(conn, l, op_label(DevicePrefsOp::EarpieceVolume, l));
    lemma_base_entries_without(conn, l, op_label(DevicePrefsOp::HeadsetVolume, l));
    // One change at a time.
    let close = l.close_menu@;
    let m1 = without_named(m0, close);
    lemma_without_push(base.push(e_off).push(e_vol), close_entry(l), close);
    lemma_without_push(base.push(e_off), e_vol, close);
    lemma_without_push(base, e_off, close);
    assert(m1 == base.push(e_off).push(e_vol));
    let m2 = without_named(m1, AUDIO_OFF_LABEL@);
    lemma_without_push(base.push(e_off), e_vol, AUDIO_OFF_LABEL@);
    lemma_without_push(base, e_off, AUDIO_OFF_LABEL@);
    assert(m2 == base.push(e_vol));
    let m3 = without_named(m2, EARPIECE_VOLUME_LABEL@);
    lemma_without_push(base, e_vol, EARPIECE_VOLUME_LABEL@);
    let m4 = without_named(m3, HEADSET_VOLUME_LABEL@);
    if headphones {
        assert(m3 == base.push(e_vol));
        lemma_without_push(base, e_vol, HEADSET_VOLUME_LABEL@);
    } else {
        assert(m3 == base);
    }
    assert(m4 == base);
    let m6 = m4.push(op_entry(DevicePrefsOp::AudioOn, conn, l)).push(close_entry(l));
    reveal_with_fuel(apply_edits, 7);
    assert(edits.drop_last().drop_last().drop_last().drop_last().drop_last().drop_last().len() == 0);
    assert(apply_edits(m0, edits) == m6);
    assert(actions_for(false, any) =~= b.push(DevicePrefsOp::AudioOn));
    lemma_op_entries_push(b, DevicePrefsOp::AudioOn, conn, l);
}


/// The operations of the menu once audio was switched on from the menu:
/// the fixed ones, "audio off" and both volumes.
pub open spec fn switched_on_actions() -> Seq<DevicePrefsOp> {
    base_actions() + seq![
        DevicePrefsOp::AudioOff,
        DevicePrefsOp::EarpieceVolume,
        DevicePrefsOp::HeadsetVolume,
    ]
}

/// Switching audio on in the menu of a stopped audio subsystem gives the
/// fixed entries, "audio off", both volumes and the close entry.
pub proof fn lemma_audio_on_menu(conn: u32, l: PrefsLabels, any: bool)
    requires
        labels_distinct(l),
    ensures
        apply_edits(menu_for(actions_for(false, any), conn, l), audio_on_edits(conn, l))
            == menu_for(switched_on_actions(), conn, l),
{
    let b = base_actions();
    let base = op_entries(b, conn, l);
    let e_on = op_entry(DevicePrefsOp::AudioOn, conn, l);
    let close = l.close_menu@;
    assert(actions_for(false, any) =~= b.push(DevicePrefsOp::AudioOn));
    lemma_op_entries_push(b, DevicePrefsOp::AudioOn, conn, l);
    let m0 = menu_for(actions_for(false, any), conn, l);
    assert(m0 == base.push(e_on).push(close_entry(l)));
    lemma_user_labels_differ(DevicePrefsOp::AudioOn, DevicePrefsOp::AudioOff, l);
    lemma_base_entries_without(conn, l, close);
    lemma_base_entries_without(conn, l, op_label(DevicePrefsOp::AudioOn, l));
    lemma_without_push(base.push(e_on), close_entry(l), close);
    lemma_without_push(base, e_on, close);
    let m1 = without_named(m0, close);
    assert(m1 == base.push(e_on));
    lemma_without_push(base, e_on, AUDIO_ON_LABEL@);
    let m2 = without_named(m1, AUDIO_ON_LABEL@);
    assert(m2 == base);
    let edits = audio_on_edits(conn, l);
    reveal_with_fuel(apply_edits, 7);
    assert(edits.drop_last().drop_last().drop_last().drop_last().drop_last().drop_last().len() == 0);
    let ops = switched_on_actions();
    assert(ops =~= b.push(DevicePrefsOp::AudioOff).push(DevicePrefsOp::EarpieceVolume).push(
        DevicePrefsOp::HeadsetVolume,
    ));
    lemma_op_entries_push(b, DevicePrefsOp::AudioOff, conn, l);
    lemma_op_entries_push(b.push(DevicePrefsOp::AudioOff), DevicePrefsOp::EarpieceVolume, conn, l);
    lemma_op_entries_push(
        b.push(DevicePrefsOp::AudioOff).push(DevicePrefsOp::EarpieceVolume),
        DevicePrefsOp::HeadsetVolume,
        conn,
        l,
    );
}

/// Switching audio off undoes switching it on: from the menu of a stopped
/// subsystem, switching on and then off gives that menu back.
pub proof fn lemma_audio_on_then_off(conn: u32, l: PrefsLabels, any: bool)
    requires
        labels_distinct(l),
    ensures
        apply_edits(
            apply_edits(menu_for(actions_for(false, any), conn, l), audio_on_edits(conn, l)),
            audio_off_edits(conn, l),
        ) == menu_for(actions_for(false, any), conn, l),
{
    lemma_audio_on_menu(conn, l, any);
    let b = base_actions();
    let base = op_entries(b, conn, l);
    let e_off = op_entry(DevicePrefsOp::AudioOff, conn, l);
    let e_ear = op_entry(DevicePrefsOp::EarpieceVolume, conn, l);
    let e_head = op_entry(DevicePrefsOp::HeadsetVolume, conn, l);
    let close = l.close_menu@;
    let m0 = base.push(e_off).push(e_ear).push(e_head).push(close_entry(l));
    assert(switched_on_actions() =~= b.push(DevicePrefsOp::AudioOff).push(
        DevicePrefsOp::EarpieceVolume,
    ).push(DevicePrefsOp::HeadsetVolume));
    lemma_op_entries_push(b, DevicePrefsOp::AudioOff, conn, l);
    lemma_op_entries_push(b.push(DevicePrefsOp::AudioOff), DevicePrefsOp::EarpieceVolume, conn, l);
    lemma_op_entries_push(
        b.push(DevicePrefsOp::AudioOff).push(DevicePrefsOp::EarpieceVolume),
        DevicePrefsOp::HeadsetVolume,
        conn,
        l,
    );
    assert(menu_for(switched_on_actions(), conn, l) == m0);
    lemma_user_labels_differ(DevicePrefsOp::AudioOff, DevicePrefsOp::EarpieceVolume, l);
    lemma_user_labels_differ(DevicePrefsOp::AudioOff, DevicePrefsOp::HeadsetVolume, l);
    lemma_user_labels_differ(DevicePrefsOp::EarpieceVolume, DevicePrefsOp::HeadsetVolume, l);
    lemma_user_labels_differ(DevicePrefsOp::EarpieceVolume, DevicePrefsOp::AudioOff, l);
    lemma_user_labels_differ(DevicePrefsOp::HeadsetVolume, DevicePrefsOp::AudioOff, l);
    lemma_user_labels_differ(DevicePrefsOp::HeadsetVolume, DevicePrefsOp::EarpieceVolume, l);
    lemma_base_entries_without(conn, l, close);
    lemma_base_entries_without(conn, l, op_label(DevicePrefsOp::AudioOff, l));
    lemma_base_entries_without(conn, l, op_label(DevicePrefsOp::EarpieceVolume, l));
    lemma_base_entries_without(conn, l, op_label(DevicePrefsOp::HeadsetVolume, l));
    lemma_without_push(base.push(e_off).push(e_ear).push(e_head), close_entry(l), close);
    lemma_without_push(base.push(e_off).push(e_ear), e_head, close);
    lemma_without_push(base.push(e_off), e_ear, close);
    lemma_without_push(base, e_off, close);
    let m1 = without_named(m0, close);
    assert(m1 == base.push(e_off).push(e_ear).push(e_head));
    lemma_without_push(base.push(e_off).push(e_ear), e_head, AUDIO_OFF_LABEL@);
    lemma_without_push(base.push(e_off), e_ear, AUDIO_OFF_LABEL@);
    lemma_without_push(base, e_off, AUDIO_OFF_LABEL@);
    let m2 = without_named(m1, AUDIO_OFF_LABEL@);
    assert(m2 == base.push(e_ear).push(e_head));
    lemma_without_push(base.push(e_ear), e_head, EARPIECE_VOLUME_LABEL@);
    lemma_without_push(base, e_ear, EARPIECE_VOLUME_LABEL@);
    let m3 = without_named(m2, EARPIECE_VOLUME_LABEL@);
    assert(m3 == base.push(e_head));
    lemma_without_push(base, e_head, HEADSET_VOLUME_LABEL@);
    let m4 = without_named(m3, HEADSET_VOLUME_LABEL@);
    assert(m4 == base);
    let edits = audio_off_edits(conn, l);
    reveal_with_fuel(apply_edits, 7);
    assert(edits.drop_last().drop_last().drop_last().drop_last().drop_last().drop_last().len() == 0);
    assert(actions_for(false, any) =~= b.push(DevicePrefsOp::AudioOn));
    lemma_op_entries_push(b, DevicePrefsOp::AudioOn, conn, l);
}


/// The names of the entries that switching audio off deletes.
pub open spec fn audio_off_deleted(l: PrefsLabels) -> Seq<Seq<char>> {
    seq![l.close_menu@, AUDIO_OFF_LABEL@, EARPIECE_VOLUME_LABEL@, HEADSET_VOLUME_LABEL@]
}

/// The names of the entries that switching audio on deletes.
pub open spec fn audio_on_deleted(l: PrefsLabels) -> Seq<Seq<char>> {
    seq![l.close_menu@, AUDIO_ON_LABEL@]
}

/// No entry of the menu has one of the names.
pub open spec fn names_absent(menu: Seq<MenuEntry>, names: Seq<Seq<char>>) -> bool {
    forall|i: int, k: int|
        0 <= i < menu.len() && 0 <= k < names.len() ==> #[trigger] menu[i].0 != #[trigger] names[k]
}

/// Every entry of the menu has one of the names.
pub open spec fn names_within(menu: Seq<MenuEntry>, names: Seq<Seq<char>>) -> bool {
    forall|i: int| 0 <= i < menu.len() ==> names.contains(#[trigger] menu[i].0)
}

proof fn lemma_without_concat(a: Seq<MenuEntry>, b: Seq<MenuEntry>, name: Seq<char>)
    ensures
        without_named(a + b, name) == without_named(a, name) + without_named(b, name),
    decreases b.len(),
{
    if b.len() == 0 {
        assert(a + b =~= a);
        assert(without_named(a, name) + without_named(b, name) =~= without_named(a, name));
    } else {
        lemma_without_concat(a, b.drop_last(), name);
        assert((a + b).drop_last() =~= a + b.drop_last());
        assert((a + b).last() == b.last());
        if b.last().0 == name {
        } else {
            assert(without_named(a + b, name) =~= without_named(a, name) + without_named(b, name));
        }
    }
}

proof fn lemma_without_keeps(s: Seq<MenuEntry>, name: Seq<char>)
    ensures
        forall|i: int|
            0 <= i < without_named(s, name).len() ==> s.contains(
                #[trigger] without_named(s, name)[i],
            ) && without_named(s, name)[i].0 != name,
    decreases s.len(),
{
    if s.len() > 0 {
        let d = s.drop_last();
        lemma_without_keeps(d, name);
        let w = without_named(s, name);
        assert forall|i: int| 0 <= i < w.len() implies s.contains(#[trigger] w[i]) && w[i].0
            != name by {
            let wd = without_named(d, name);
            if i < wd.len() {
                assert(w[i] == wd[i]);
                let k = choose|k: int| 0 <= k < d.len() && d[k] == wd[i];
                assert(s[k] == d[k]);
            } else {
                assert(w[i] == s.last());
                assert(s[s.len() - 1] == w[i]);
            }
        }
    }
}

proof fn lemma_delete_names(
    others: Seq<MenuEntry>,
    audio: Seq<MenuEntry>,
    names: Seq<Seq<char>>,
    name: Seq<char>,
)
    requires
        names_absent(others, names),
        names.contains(name),
    ensures
        without_named(others + audio, name) == others + without_named(audio, name),
        forall|i: int|
            0 <= i < without_named(audio, name).len() ==> audio.contains(
                #[trigger] without_named(audio, name)[i],
            ) && without_named(audio, name)[i].0 != name,
{
    lemma_without_concat(others, audio, name);
    let k = choose|k: int| 0 <= k < names.len() && names[k] == name;
    assert forall|i: int| 0 <= i < others.len() implies (#[trigger] others[i]).0 != name by {
        assert(others[i].0 != names[k]);
    }
    lemma_without_absent(others, name);
    lemma_without_keeps(audio, name);
}

/// Switching audio off, in any menu made of entries without the deleted
/// names followed by entries that all have one of them (the close entry,
/// "audio off", the volumes), keeps the first part and ends the menu with
/// "audio on" and the close entry.
pub proof fn lemma_audio_off_switch(
    others: Seq<MenuEntry>,
    audio: Seq<MenuEntry>,
    conn: u32,
    l: PrefsLabels,
)
    requires
        names_absent(others, audio_off_deleted(l)),
        names_within(audio, audio_off_deleted(l)),
    ensures
        apply_edits(others + audio, audio_off_edits(conn, l)) == others.push(
            op_entry(DevicePrefsOp::AudioOn, conn, l),
        ).push(close_entry(l)),
{
    let names = audio_off_deleted(l);
    assert(names.contains(names[0]) && names.contains(names[1]) && names.contains(names[2])
        && names.contains(names[3]));
    let a1 = without_named(audio, names[0]);
    lemma_delete_names(others, audio, names, names[0]);
    let a2 = without_named(a1, names[1]);
    lemma_delete_names(others, a1, names, names[1]);
    let a3 = without_named(a2, names[2]);
    lemma_delete_names(others, a2, names, names[2]);
    let a4 = without_named(a3, names[3]);
    lemma_delete_names(others, a3, names, names[3]);
    if a4.len() > 0 {
        let x = a4[0];
        assert(a3.contains(x) && x.0 != names[3]);
        let i3 = choose|i: int| 0 <= i < a3.len() && a3[i] == x;
        assert(a2.contains(x) && x.0 != names[2]);
        let i2 = choose|i: int| 0 <= i < a2.len() && a2[i] == x;
        assert(a1.contains(x) && x.0 != names[1]);
        let i1 = choose|i: int| 0 <= i < a1.len() && a1[i] == x;
        assert(audio.contains(x) && x.0 != names[0]);
        let i0 = choose|i: int| 0 <= i < audio.len() && audio[i] == x;
        assert(names.contains(audio[i0].0));
        assert(false);
    }
    assert(others + a4 =~= others);
    let edits = audio_off_edits(conn, l);
    reveal_with_fuel(apply_edits, 7);
    assert(edits.drop_last().drop_last().drop_last().drop_last().drop_last().drop_last().len() == 0);
}

/// Switching audio on, in any menu made of entries without the deleted
/// names followed by entries that all have one of them (the close entry and
/// "audio on"), keeps the first part and ends the menu with "audio off",
/// both volumes and the close entry.
pub proof fn lemma_audio_on_switch(
    others: Seq<MenuEntry>,
    audio: Seq<MenuEntry>,
    conn: u32,
    l: PrefsLabels,
)
    requires
        names_absent(others, audio_on_deleted(l)),
        names_within(audio, audio_on_deleted(l)),
    ensures
        apply_edits(others + audio, audio_on_edits(conn, l)) == others.push(
            op_entry(DevicePrefsOp::AudioOff, conn, l),
        ).push(op_entry(DevicePrefsOp::EarpieceVolume, conn, l)).push(
            op_entry(DevicePrefsOp::HeadsetVolume, conn, l),
        ).push(close_entry(l)),
{
    let names = audio_on_deleted(l);
    assert(names.contains(names[0]) && names.contains(names[1]));
    let a1 = without_named(audio, names[0]);
    lemma_delete_names(others, audio, names, names[0]);
    let a2 = without_named(a1, names[1]);
    lemma_delete_names(others, a1, names, names[1]);
    if a2.len() > 0 {
        let x = a2[0];
        assert(a1.contains(x) && x.0 != names[1]);
        let i1 = choose|i: int| 0 <= i < a1.len() && a1[i] == x;
        assert(audio.contains(x) && x.0 != names[0]);
        let i0 = choose|i: int| 0 <= i < audio.len() && audio[i] == x;
        assert(names.contains(audio[i0].0));
        assert(false);
    }
    assert(others + a2 =~= others);
    let edits = audio_on_edits(conn, l);
    reveal_with_fuel(apply_edits, 7);
    assert(edits.drop_last().drop_last().drop_last().drop_last().drop_last().drop_last().len() == 0);
}

/// Switching audio on and then off gives back a menu that ends with "audio
/// on" and the close entry, whatever entries come before them, as long as
/// none of those has one of the five names the switches delete.
pub proof fn lemma_audio_on_off_roundtrip(others: Seq<MenuEntry>, conn: u32, l: PrefsLabels)
    requires
        names_absent(others, audio_on_deleted(l)),
        names_absent(others, audio_off_deleted(l)),
    ensures
        ({
            let stopped = others.push(op_entry(DevicePrefsOp::AudioOn, conn, l)).push(
                close_entry(l),
            );
            apply_edits(apply_edits(stopped, audio_on_edits(conn, l)), audio_off_edits(conn, l))
                == stopped
        }),
{
    let e_on = op_entry(DevicePrefsOp::AudioOn, conn, l);
    let audio = seq![e_on, close_entry(l)];
    assert(others.push(e_on).push(close_entry(l)) =~= others + audio);
    assert(audio_on_deleted(l)[1] == e_on.0);
    assert(audio_on_deleted(l)[0] == close_entry(l).0);
    assert(names_within(audio, audio_on_deleted(l)));
    lemma_audio_on_switch(others, audio, conn, l);
    let e_off = op_entry(DevicePrefsOp::AudioOff, conn, l);
    let e_ear = op_entry(DevicePrefsOp::EarpieceVolume, conn, l);
    let e_head = op_entry(DevicePrefsOp::HeadsetVolume, conn, l);
    let audio2 = seq![e_off, e_ear, e_head, close_entry(l)];
    assert(others.push(e_off).push(e_ear).push(e_head).push(close_entry(l)) =~= others + audio2);
    let names = audio_off_deleted(l);
    assert(names[0] == close_entry(l).0 && names[1] == e_off.0 && names[2] == e_ear.0 && names[3]
        == e_head.0);
    assert(names_within(audio2, names));
    lemma_audio_off_switch(others, audio2, conn, l);
}

/// The views of a list of changes.
pub open spec fn edits_view(edits: Seq<MenuEdit>) -> Seq<MenuEditView> {
    edits.map_values(|e: MenuEdit| e@)
}

/// The menu changes made when the audio subsystem is switched on.
pub fn alter_menu_audio_on(conn: u32, labels: &PrefsLabels) -> (res: Vec<MenuEdit>)
    ensures
        edits_view(res@) == audio_on_edits(conn, *labels),
{
    let res = vec![
        MenuEdit::DeleteItem(labels.close_menu.clone()),
        MenuEdit::DeleteItem(String::from_str(AUDIO_ON_LABEL)),
        MenuEdit::AddItem(op_item(DevicePrefsOp::AudioOff, conn, labels)),
        MenuEdit::AddItem(op_item(DevicePrefsOp::EarpieceVolume, conn, labels)),
        MenuEdit::AddItem(op_item(DevicePrefsOp::HeadsetVolume, conn, labels)),
        MenuEdit::AddItem(close_item(labels)),
    ];
    proof {
        assert(edits_view(res@) =~= audio_on_edits(conn, *labels));
    }
    res
}

/// The menu changes made when the audio subsystem is switched off.
pub fn alter_menu_audio_off(conn: u32, labels: &PrefsLabels) -> (res: Vec<MenuEdit>)
    ensures
        edits_view(res@) == audio_off_edits(conn, *labels),
{
    let res = vec![
        MenuEdit::DeleteItem(labels.close_menu.clone()),
        MenuEdit::DeleteItem(String::from_str(AUDIO_OFF_LABEL)),
        MenuEdit::DeleteItem(String::from_str(EARPIECE_VOLUME_LABEL)),
        MenuEdit::DeleteItem(String::from_str(HEADSET_VOLUME_LABEL)),
        MenuEdit::AddItem(op_item(DevicePrefsOp::AudioOn, conn, labels)),
        MenuEdit::AddItem(close_item(labels)),
    ];
    proof {
        assert(edits_view(res@) =~= audio_off_edits(conn, *labels));
    }
    res
}

} // verus!
