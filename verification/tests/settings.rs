use matalu::commands::get_permissions;
use matalu::config::bundled_binary;
use matalu::config::Config;
use matalu::config::Vars;
use matalu::fnkey::FnKey;
use matalu::hotkey::Edge;
use matalu::server::keeps_client;
use matalu::server::Delivery;
use matalu::session::Mode;
use matalu::session::Session;
use matalu::settings::activation;
use matalu::settings::initial_mode;
use matalu::settings::load;
use matalu::settings::set_settings;
use matalu::settings::Activation;
use matalu::settings::ActivationMode;
use matalu::settings::Code;
use matalu::settings::HotkeyPreset;
use matalu::settings::Modifiers;
use matalu::settings::Settings;
use matalu::settings::SettingsStep;
use matalu::settings::Shortcut;
use matalu::tray::on_menu_event;
use matalu::tray::sync_label;
use matalu::tray::MenuAction;

fn no_vars() -> Vars {
    Vars { bind: None, python: None, sidecar: None, sidecar_bin: None, mlx_model: None, silence_ms: None }
}

#[test]
fn configuration_has_defaults() {
    let c = Config::from_env(no_vars(), "0.01".to_string());
    assert_eq!(c.bind_addr, "127.0.0.1:8765");
    assert_eq!(c.python_bin, "python3");
    assert_eq!(c.sidecar_script, "sidecar/matalu_sidecar.py");
    assert_eq!(c.sidecar_bin, None);
    assert_eq!(c.mlx_model, "mlx-community/parakeet-tdt-0.6b-v2");
    assert_eq!(c.silence_ms, 700);
    assert_eq!(c.vad_rms_threshold, "0.01");
}

#[test]
fn configuration_follows_the_variables() {
    let vars = Vars {
        bind: Some("0.0.0.0:1".to_string()),
        python: Some(String::new()),
        sidecar: Some("s.py".to_string()),
        sidecar_bin: Some(String::new()),
        mlx_model: Some("m".to_string()),
        silence_ms: Some("+900".to_string()),
    };
    let c = Config::from_env(vars, "0.5".to_string());
    assert_eq!(c.bind_addr, "0.0.0.0:1");
    assert_eq!(c.python_bin, "", "an empty setting is still a setting");
    assert_eq!(c.sidecar_script, "s.py");
    assert_eq!(c.sidecar_bin, None, "but an empty executable is none");
    assert_eq!(c.mlx_model, "m");
    assert_eq!(c.silence_ms, 900);
    for bad in ["", "x", "-1", "1.5", "18446744073709551616"] {
        let vars = Vars { silence_ms: Some(bad.to_string()), ..no_vars() };
        assert_eq!(Config::from_env(vars, String::new()).silence_ms, 700, "{bad}");
    }
    let vars = Vars { silence_ms: Some("18446744073709551615".to_string()), ..no_vars() };
    assert_eq!(Config::from_env(vars, String::new()).silence_ms, u64::MAX);
}

#[test]
fn sidecar_is_run_directly_or_by_the_interpreter() {
    let mut c = Config::from_env(no_vars(), "0.01".to_string());
    let cmd = c.sidecar_command();
    assert_eq!(cmd.program, "python3");
    assert_eq!(cmd.args, vec!["sidecar/matalu_sidecar.py".to_string()]);
    let env: Vec<(&str, &str)> = cmd.env.iter().map(|(k, v)| (k.as_str(), v.as_str())).collect();
    assert_eq!(
        env,
        vec![
            ("MATALU_MLX_MODEL", "mlx-community/parakeet-tdt-0.6b-v2"),
            ("MATALU_SILENCE_MS", "700"),
            ("MATALU_VAD_RMS", "0.01"),
        ]
    );
    c.sidecar_bin = Some("/app/sidecar".to_string());
    let cmd = c.sidecar_command();
    assert_eq!(cmd.program, "/app/sidecar");
    assert!(cmd.args.is_empty());
}

#[test]
fn bundled_sidecar_is_preferred_unless_one_is_named() {
    let fresh = || Config::from_env(no_vars(), String::new());
    let mut c = fresh();
    c.resolve_sidecar(false, Some("/b".to_string()), "/dev.py".to_string());
    assert_eq!(c.sidecar_bin.as_deref(), Some("/b"));
    assert_eq!(c.sidecar_script, "sidecar/matalu_sidecar.py");
    let mut c = fresh();
    c.resolve_sidecar(false, None, "/dev.py".to_string());
    assert_eq!(c.sidecar_bin, None);
    assert_eq!(c.sidecar_script, "/dev.py");
    let mut c = fresh();
    c.resolve_sidecar(true, Some("/b".to_string()), "/dev.py".to_string());
    assert_eq!(c.sidecar_bin, None);
    assert_eq!(c.sidecar_script, "sidecar/matalu_sidecar.py");
    let mut c = fresh();
    c.sidecar_bin = Some("/mine".to_string());
    c.resolve_sidecar(false, None, "/dev.py".to_string());
    assert_eq!(c.sidecar_bin.as_deref(), Some("/mine"));
    assert_eq!(c.sidecar_script, "sidecar/matalu_sidecar.py");

    let there = |dir: Option<&str>, exists: bool| bundled_binary(dir, "/x".to_string(), exists);
    assert_eq!(there(Some("MacOS"), true).as_deref(), Some("/x"));
    assert_eq!(there(Some("MacOS"), false), None);
    assert_eq!(there(Some("debug"), true), None);
    assert_eq!(there(None, true), None);
}

#[test]
fn missing_settings_are_the_default_ones() {
    let d = Settings::default();
    assert_eq!(d.activation_mode, ActivationMode::PushToTalk);
    assert_eq!(d.hotkey, HotkeyPreset::AltSpace);
    assert_eq!(load(None), d);
    let s = Settings { activation_mode: ActivationMode::Toggle, hotkey: HotkeyPreset::F5 };
    assert_eq!(load(Some(s)), s);
}

#[test]
fn every_preset_but_fn_is_a_shortcut() {
    let none = Modifiers { alt: false, control: false, command: false, shift: false };
    let space = |m: Modifiers| Some(Shortcut { modifiers: Some(m), code: Code::Space });
    assert_eq!(HotkeyPreset::AltSpace.shortcut(), space(Modifiers { alt: true, ..none }));
    assert_eq!(HotkeyPreset::CtrlSpace.shortcut(), space(Modifiers { control: true, ..none }));
    assert_eq!(
        HotkeyPreset::CmdShiftSpace.shortcut(),
        space(Modifiers { command: true, shift: true, ..none })
    );
    assert_eq!(
        HotkeyPreset::F5.shortcut(),
        Some(Shortcut { modifiers: None, code: Code::F5 })
    );
    assert_eq!(HotkeyPreset::Fn.shortcut(), None);
    assert_eq!(activation(HotkeyPreset::Fn), Activation::WatchFn);
    assert_eq!(
        activation(HotkeyPreset::F5),
        Activation::Register(Shortcut { modifiers: None, code: Code::F5 })
    );
}

#[test]
fn variable_overrides_the_mode() {
    assert_eq!(initial_mode(Some("toggle"), ActivationMode::PushToTalk), Mode::Toggle);
    assert_eq!(initial_mode(Some("pushtotalk"), ActivationMode::Toggle), Mode::PushToTalk);
    assert_eq!(initial_mode(Some("Toggle"), ActivationMode::PushToTalk), Mode::PushToTalk);
    assert_eq!(initial_mode(None, ActivationMode::Toggle), Mode::Toggle);
    assert_eq!(Mode::from(ActivationMode::PushToTalk), Mode::PushToTalk);
}

#[test]
fn settings_are_stored_last() {
    let s = Settings { activation_mode: ActivationMode::Toggle, hotkey: HotkeyPreset::F5 };
    assert_eq!(
        set_settings(s),
        vec![
            SettingsStep::SetMode(Mode::Toggle),
            SettingsStep::UnregisterAll,
            SettingsStep::Register(Shortcut { modifiers: None, code: Code::F5 }),
            SettingsStep::Save(s),
        ]
    );
    let s = Settings { activation_mode: ActivationMode::PushToTalk, hotkey: HotkeyPreset::Fn };
    assert_eq!(
        set_settings(s),
        vec![
            SettingsStep::SetMode(Mode::PushToTalk),
            SettingsStep::UnregisterAll,
            SettingsStep::Save(s),
        ]
    );
}

#[test]
fn fn_key_gives_edges_only() {
    let mut k = FnKey::new();
    assert_eq!(k.on_flags(false), None);
    assert_eq!(k.on_flags(true), Some(Edge::Pressed));
    assert_eq!(k.on_flags(true), None, "another modifier changed");
    assert_eq!(k.on_flags(false), Some(Edge::Released));
    assert_eq!(k.on_flags(false), None);
}

#[test]
fn meeting_item_tells_what_the_session_does() {
    let mut s = Session::new(false, false, false, Mode::PushToTalk, 700);
    assert_eq!(sync_label(&s), "Start Meeting Transcript");
    // Not ready yet, so asking for a meeting begins none.
    s.start_meeting(0);
    assert_eq!(sync_label(&s), "Start Meeting Transcript");
    s.set_meeting_detected(Some("Zoom"));
    assert_eq!(sync_label(&s), "Meeting detected — Start Transcript");
    s.mark_ready();
    s.start_meeting(0);
    assert_eq!(sync_label(&s), "Stop Meeting Transcript");
    s.stop_meeting();
    s.set_meeting_detected(None);
    assert_eq!(sync_label(&s), "Start Meeting Transcript");
}

#[test]
fn menu_items_do_what_they_say() {
    assert_eq!(on_menu_event("quit", false, false), MenuAction::Quit);
    assert_eq!(on_menu_event("settings", true, true), MenuAction::ShowSettings);
    assert_eq!(on_menu_event("meeting", false, true), MenuAction::StartMeeting);
    assert_eq!(on_menu_event("meeting", true, true), MenuAction::StopMeeting);
    assert_eq!(on_menu_event("toggle_window", false, true), MenuAction::HideWindow);
    assert_eq!(on_menu_event("toggle_window", false, false), MenuAction::ShowWindow);
    assert_eq!(on_menu_event("other", false, false), MenuAction::Nothing);
}

#[test]
fn slow_clients_are_kept() {
    assert!(keeps_client(Delivery::Sent));
    assert!(keeps_client(Delivery::Unwritable));
    assert!(keeps_client(Delivery::Lagged(7)));
    assert!(!keeps_client(Delivery::Refused));
    assert!(!keeps_client(Delivery::Closed));
    assert!(get_permissions(true).accessibility);
    assert!(!get_permissions(false).accessibility);
}
