//! What the user sets: how the hotkey drives dictation, and which key it is.

use vstd::prelude::*;

use crate::session::Mode;
use crate::text;

verus! {

/// How the hotkey drives dictation.
#[derive(Clone, Copy, PartialEq, Eq, Debug, Structural)]
pub enum ActivationMode {
    PushToTalk,
    Toggle,
}

/// The session mode of an activation mode.
pub open spec fn mode_of(m: ActivationMode) -> Mode {
    match m {
        ActivationMode::PushToTalk => Mode::PushToTalk,
        ActivationMode::Toggle => Mode::Toggle,
    }
}

impl From<ActivationMode> for Mode {
    fn from(m: ActivationMode) -> (r: Self) {
        match m {
            ActivationMode::PushToTalk => Mode::PushToTalk,
            ActivationMode::Toggle => Mode::Toggle,
        }
    }
}

impl vstd::std_specs::convert::FromSpecImpl<ActivationMode> for Mode {
    open spec fn obeys_from_spec() -> bool {
        true
    }

    open spec fn from_spec(m: ActivationMode) -> Self {
        mode_of(m)
    }
}

/// The activation keys to choose from. The `fn` key is no shortcut that can be
/// registered; it is watched instead.
#[derive(Clone, Copy, PartialEq, Eq, Debug, Structural)]
pub enum HotkeyPreset {
    AltSpace,
    CtrlSpace,
    CmdShiftSpace,
    F5,
    Fn,
}

/// The modifiers of a shortcut.
#[derive(Clone, Copy, PartialEq, Eq, Debug, Structural)]
pub struct Modifiers {
    pub alt: bool,
    pub control: bool,
    pub command: bool,
    pub shift: bool,
}

/// The key of a shortcut.
#[derive(Clone, Copy, PartialEq, Eq, Debug, Structural)]
pub enum Code {
    Space,
    F5,
}

/// A key together with modifiers, if there are any.
#[derive(Clone, Copy, PartialEq, Eq, Debug, Structural)]
pub struct Shortcut {
    pub modifiers: Option<Modifiers>,
    pub code: Code,
}

/// The shortcut of a preset, if it is one.
pub open spec fn shortcut_of(preset: HotkeyPreset) -> Option<Shortcut> {
    let none = Modifiers { alt: false, control: false, command: false, shift: false };
    match preset {
        HotkeyPreset::AltSpace => Some(
            Shortcut { modifiers: Some(Modifiers { alt: true, ..none }), code: Code::Space },
        ),
        HotkeyPreset::CtrlSpace => Some(
            Shortcut { modifiers: Some(Modifiers { control: true, ..none }), code: Code::Space },
        ),
        HotkeyPreset::CmdShiftSpace => Some(
            Shortcut {
                modifiers: Some(Modifiers { command: true, shift: true, ..none }),
                code: Code::Space,
            },
        ),
        HotkeyPreset::F5 => Some(Shortcut { modifiers: None, code: Code::F5 }),
        HotkeyPreset::Fn => None,
    }
}

impl HotkeyPreset {
    /// The shortcut of this preset, or nothing for the `fn` key.
    pub fn shortcut(self) -> (r: Option<Shortcut>)
        ensures
            r == shortcut_of(self),
    {
        let none = Modifiers { alt: false, control: false, command: false, shift: false };
        match self {
            HotkeyPreset::AltSpace => Some(
                Shortcut { modifiers: Some(Modifiers { alt: true, ..none }), code: Code::Space },
            ),
            HotkeyPreset::CtrlSpace => Some(
                Shortcut { modifiers: Some(Modifiers { control: true, ..none }), code: Code::Space },
            ),
            HotkeyPreset::CmdShiftSpace => Some(
                Shortcut {
                    modifiers: Some(Modifiers { command: true, shift: true, ..none }),
                    code: Code::Space,
                },
            ),
            HotkeyPreset::F5 => Some(Shortcut { modifiers: None, code: Code::F5 }),
            HotkeyPreset::Fn => None,
        }
    }
}

/// Everything that the user sets.
#[derive(Clone, Copy, PartialEq, Eq, Debug, Structural)]
pub struct Settings {
    pub activation_mode: ActivationMode,
    pub hotkey: HotkeyPreset,
}

/// The settings of someone who has set nothing.
pub open spec fn default_settings() -> Settings {
    Settings { activation_mode: ActivationMode::PushToTalk, hotkey: HotkeyPreset::AltSpace }
}

impl Default for Settings {
    fn default() -> (r: Self)
        ensures
            r == default_settings(),
    {
        Settings { activation_mode: ActivationMode::PushToTalk, hotkey: HotkeyPreset::AltSpace }
    }
}

/// The settings to use, given those that were stored. A missing or damaged file
/// stores none.
pub fn load(stored: Option<Settings>) -> (r: Settings)
    ensures
        r == match stored {
            Some(s) => s,
            None => default_settings(),
        },
{
    match stored {
        Some(s) => s,
        None => Settings::default(),
    }
}

/// The session mode that a variable demands, if it names one.
pub open spec fn demanded_mode(var: Option<Seq<char>>) -> Option<Mode> {
    if var == Some("toggle"@) {
        Some(Mode::Toggle)
    } else if var == Some("pushtotalk"@) {
        Some(Mode::PushToTalk)
    } else {
        None
    }
}

/// The mode that a session begins in: the one that `var` demands, else the one
/// that is set.
pub fn initial_mode(var: Option<&str>, set: ActivationMode) -> (r: Mode)
    ensures
        r == match demanded_mode(text::opt_str(var)) {
            Some(mode) => mode,
            None => mode_of(set),
        },
{
    if let Some(v) = var {
        if text::same_text(v, "toggle") {
            return Mode::Toggle;
        }
        if text::same_text(v, "pushtotalk") {
            return Mode::PushToTalk;
        }
    }
    Mode::from(set)
}

/// How the activation key reaches the app.
#[derive(Clone, Copy, PartialEq, Eq, Debug, Structural)]
pub enum Activation {
    /// It is registered as a shortcut.
    Register(Shortcut),
    /// The `fn` key is watched.
    WatchFn,
}

/// How the activation key reaches the app.
pub fn activation(hotkey: HotkeyPreset) -> (r: Activation)
    ensures
        r == match shortcut_of(hotkey) {
            Some(shortcut) => Activation::Register(shortcut),
            None => Activation::WatchFn,
        },
{
    match hotkey.shortcut() {
        Some(shortcut) => Activation::Register(shortcut),
        None => Activation::WatchFn,
    }
}

/// One step of applying settings. Steps are taken in order; one that fails ends it.
#[derive(Clone, Copy, PartialEq, Eq, Debug, Structural)]
pub enum SettingsStep {
    /// The session takes a mode.
    SetMode(Mode),
    /// All shortcuts are given up. That this fails does not matter.
    UnregisterAll,
    /// A shortcut is registered.
    Register(Shortcut),
    /// The settings are stored.
    Save(Settings),
}

/// The steps of applying settings.
pub open spec fn settings_steps(s: Settings) -> Seq<SettingsStep> {
    let start = seq![SettingsStep::SetMode(mode_of(s.activation_mode)), SettingsStep::UnregisterAll];
    match shortcut_of(s.hotkey) {
        Some(shortcut) => start + seq![SettingsStep::Register(shortcut), SettingsStep::Save(s)],
        None => start + seq![SettingsStep::Save(s)],
    }
}

/// The steps of applying settings: the mode at once, then the new shortcut in place
/// of the old, and if that succeeds the settings are stored. The `fn` key is only
/// watched from the next start on.
pub fn set_settings(s: Settings) -> (r: Vec<SettingsStep>)
    ensures
        r@ == settings_steps(s),
{
    let mut steps: Vec<SettingsStep> = Vec::new();
    steps.push(SettingsStep::SetMode(Mode::from(s.activation_mode)));
    steps.push(SettingsStep::UnregisterAll);
    if let Some(shortcut) = s.hotkey.shortcut() {
        steps.push(SettingsStep::Register(shortcut));
    }
    steps.push(SettingsStep::Save(s));
    assert(steps@ =~= settings_steps(s));
    steps
}

/// Only a key that could be taken is stored: the settings are stored last, and once.
pub proof fn law_settings_are_stored_last(s: Settings)
    ensures
        settings_steps(s).last() == SettingsStep::Save(s),
        forall|i: int|
            0 <= i < settings_steps(s).len() - 1 ==> !(#[trigger] settings_steps(s)[i] is Save),
        shortcut_of(s.hotkey) is Some ==> settings_steps(s).contains(
            SettingsStep::Register(shortcut_of(s.hotkey)->0),
        ),
{
    if shortcut_of(s.hotkey) is Some {
        assert(settings_steps(s)[2] == SettingsStep::Register(shortcut_of(s.hotkey)->0));
    }
}

/// Each preset is the keys in its name, and only the `fn` key is none that can be
/// registered.
pub proof fn law_presets_are_their_keys(p: HotkeyPreset, r: Option<Shortcut>, a: Activation)
    requires
        call_ensures(HotkeyPreset::shortcut, (p,), r),
        call_ensures(activation, (p,), a),
    ensures
        r is None <==> p is Fn,
        r is Some ==> (r->0.code is F5 <==> p is F5),
        r is Some ==> (r->0.modifiers is None <==> p is F5),
        r is Some && r->0.modifiers is Some ==> {
            let m = r->0.modifiers->0;
            &&& m.alt <==> p is AltSpace
            &&& m.control <==> p is CtrlSpace
            &&& m.command <==> p is CmdShiftSpace
            &&& m.shift <==> p is CmdShiftSpace
        },
        r is None ==> a is WatchFn,
        r is Some ==> a == Activation::Register(r->0),
{
}

/// What is stored is used, and someone who has stored nothing holds `alt` and space to
/// talk.
pub proof fn law_stored_settings_are_used(
    s: Settings,
    fresh: Settings,
    some: Settings,
    none: Settings,
)
    requires
        call_ensures(Settings::default, (), fresh),
        call_ensures(load, (Some(s),), some),
        call_ensures(load, (None::<Settings>,), none),
    ensures
        some == s,
        none == fresh,
        fresh.activation_mode is PushToTalk,
        fresh.hotkey is AltSpace,
{
}

/// A session begins in the mode that the variable names. Where it names none, or is not
/// set, the mode is the one that the user set.
pub proof fn law_variable_wins_over_setting(
    v: &str,
    set: ActivationMode,
    named: Mode,
    unnamed: Mode,
)
    requires
        call_ensures(initial_mode, (Some(v), set), named),
        call_ensures(initial_mode, (None::<&str>, set), unnamed),
    ensures
        v@ == "toggle"@ ==> named is Toggle,
        v@ == "pushtotalk"@ ==> named is PushToTalk,
        v@ != "toggle"@ && v@ != "pushtotalk"@ ==> named == unnamed,
        unnamed is Toggle <==> set is Toggle,
{
    reveal_strlit("toggle");
    reveal_strlit("pushtotalk");
    assert("toggle"@.len() != "pushtotalk"@.len());
}

/// Settings are applied in order: the mode, then the old shortcuts are given up, the new
/// one is registered if there is one, and last the very settings are stored.
pub proof fn law_settings_are_applied_in_order(
    s: Settings,
    r: Vec<SettingsStep>,
    shortcut: Option<Shortcut>,
)
    requires
        call_ensures(set_settings, (s,), r),
        call_ensures(HotkeyPreset::shortcut, (s.hotkey,), shortcut),
    ensures
        r@.len() == if shortcut is Some {
            4
        } else {
            3int
        },
        s.activation_mode is Toggle ==> r@[0] == SettingsStep::SetMode(Mode::Toggle),
        s.activation_mode is PushToTalk ==> r@[0] == SettingsStep::SetMode(Mode::PushToTalk),
        r@[1] is UnregisterAll,
        shortcut is Some ==> r@[2] == SettingsStep::Register(shortcut->0),
        r@.last() == SettingsStep::Save(s),
{
}

/// Modes are told apart: what is set is what the session gets.
pub proof fn law_activation_modes_are_told_apart(m: ActivationMode, r: Mode)
    requires
        call_ensures(<Mode as From<ActivationMode>>::from, (m,), r),
    ensures
        m is PushToTalk ==> r is PushToTalk,
        m is Toggle ==> r is Toggle,
{
}

}
