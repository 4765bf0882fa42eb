use vela_core::config::SkipPolicy::{Autoskip, Button, Off};
use vela_core::playback::{
    autocrop_args, markers_args, screen_name_arg, window_state_args, PlaybackWindowState,
};
#[test]
fn inherited_window_args_emit_known_values_in_override_order() {
    assert!(window_state_args(PlaybackWindowState::default()).is_empty());
    assert_eq!(
        window_state_args(PlaybackWindowState {
            fullscreen: Some(true),
            maximized: None,
        }),
        vec!["--fullscreen=yes"]
    );
    assert_eq!(
        window_state_args(PlaybackWindowState {
            fullscreen: Some(false),
            maximized: Some(true),
        }),
        vec!["--window-maximized=yes", "--fullscreen=no"]
    );
}

#[test]
fn screen_name_uses_the_backend_name_option_and_ignores_empty_values() {
    assert_eq!(
        screen_name_arg(Some("XG27UQDMS (16843009)")),
        Some("--screen-name=XG27UQDMS (16843009)".to_string())
    );
    assert_eq!(screen_name_arg(Some("  ")), None);
    assert_eq!(screen_name_arg(None), None);
}

#[test]
fn autocrop_off_injects_nothing() {
    assert!(
        autocrop_args("off", Some("/x/autocrop.lua"), Some("/x/vela-autocrop.lua")).is_empty()
    );
    // Unknown/garbage mode is treated as off.
    assert!(
        autocrop_args("wat", Some("/x/autocrop.lua"), Some("/x/vela-autocrop.lua")).is_empty()
    );
}

#[test]
fn autocrop_manual_loads_script_with_auto_disabled() {
    // Manual ignores the shim even when resolved: Shift+C is the trigger.
    let args = autocrop_args(
        "manual",
        Some("/x/autocrop.lua"),
        Some("/x/vela-autocrop.lua"),
    );
    assert_eq!(
        args,
        vec![
            "--script=/x/autocrop.lua".to_string(),
            "--script-opts-append=autocrop-auto=no".to_string(),
        ],
        "manual must load the stock script AND disable its auto-crop, shim excluded"
    );
}

#[test]
fn autocrop_auto_disables_stock_trigger_and_loads_shim() {
    // The stock auto trigger skips its settle delay on --start resumes and
    // races hwdec init; auto mode therefore hands
    // the trigger to the Vela shim.
    let args = autocrop_args(
        "auto",
        Some("/x/autocrop.lua"),
        Some("/x/vela-autocrop.lua"),
    );
    assert_eq!(
        args,
        vec![
            "--script=/x/autocrop.lua".to_string(),
            "--script-opts-append=autocrop-auto=no".to_string(),
            "--script=/x/vela-autocrop.lua".to_string(),
        ],
        "auto must load the stock script with auto OFF and the shim as trigger"
    );
}

#[test]
fn autocrop_auto_without_shim_degrades_to_stock_trigger() {
    // Missing shim (e.g. a package that only installed autocrop.lua):
    // keep the stock auto behavior — fresh plays crop, resume stays broken —
    // instead of losing autocrop entirely.
    let args = autocrop_args("auto", Some("/x/autocrop.lua"), None);
    assert_eq!(args, vec!["--script=/x/autocrop.lua".to_string()]);
    assert!(
        !args.iter().any(|a| a.contains("autocrop-auto=no")),
        "degraded auto must keep the stock crop-on-start trigger"
    );
}

#[test]
fn autocrop_without_resolved_script_injects_nothing() {
    // Even when enabled, an unresolved stock script yields no args (play()
    // also existence-checks; here the path is simply absent). A shim alone
    // is useless — it triggers a script that isn't loaded.
    assert!(autocrop_args("manual", None, None).is_empty());
    assert!(autocrop_args("auto", None, Some("/x/vela-autocrop.lua")).is_empty());
}

// Injection polarity. Each of these alone must produce nothing: injecting a
// `--script=` for a missing file makes mpv refuse to start, and a script
// with no payload or no enabled policy has nothing to act on.
#[test]
fn marker_args_inject_nothing_without_script_payload_or_an_enabled_policy() {
    assert!(
        markers_args(None, Button, Button, Button, true).is_empty(),
        "no resolved script"
    );
    assert!(
        markers_args(Some("/x/vela-markers.lua"), Button, Autoskip, Button, false).is_empty(),
        "no payload was written"
    );
    assert!(
        markers_args(Some("/x/vela-markers.lua"), Off, Off, Off, true).is_empty(),
        "every policy is off"
    );
}

// The script reads these exact dashed option names; mpv would otherwise
// derive an underscored prefix and silently ignore them.
#[test]
fn marker_args_carry_the_script_and_all_three_policies() {
    let args = markers_args(Some("/x/vela-markers.lua"), Button, Autoskip, Off, true);
    assert_eq!(
        args,
        vec![
            "--script=/x/vela-markers.lua".to_string(),
            "--script-opts-append=vela-markers-intro-policy=button".to_string(),
            "--script-opts-append=vela-markers-credits-policy=autoskip".to_string(),
            "--script-opts-append=vela-markers-commercial-policy=off".to_string(),
        ]
    );
    assert!(
        !args.iter().any(|arg| arg.contains("PAYLOAD") || arg.contains(".json")),
        "the payload path must never reach the argument list"
    );
}
