use vela_core::playback::{
    display_property_change, window_property_change, DisplayPropertyChange, IpcMessage,
    PlaybackWindowState, PropertyData, WindowProperty, WindowStateObservation,
};

fn msg(event: Option<&str>, name: Option<&str>, data: PropertyData) -> IpcMessage {
    IpcMessage {
        event: event.map(str::to_string),
        name: name.map(str::to_string),
        data,
    }
}

fn change(name: &str, data: PropertyData) -> IpcMessage {
    msg(Some("property-change"), Some(name), data)
}

fn texts(v: &[Option<&str>]) -> PropertyData {
    PropertyData::Texts(v.iter().map(|x| x.map(str::to_string)).collect())
}

#[test]
fn window_property_parser_accepts_only_named_boolean_change_events() {
    assert_eq!(
        window_property_change(&change("fullscreen", PropertyData::Flag(true))),
        Some((WindowProperty::Fullscreen, true))
    );
    assert_eq!(
        window_property_change(&change("window-maximized", PropertyData::Flag(false))),
        Some((WindowProperty::Maximized, false))
    );
    for rejected in [
        msg(None, None, PropertyData::Flag(true)),
        change("fullscreen", PropertyData::Other),
        change("fullscreen", texts(&[Some("yes")])),
        change("window-minimized", PropertyData::Flag(true)),
        msg(Some("end-file"), Some("fullscreen"), PropertyData::Flag(true)),
    ] {
        assert_eq!(window_property_change(&rejected), None);
    }
}

#[test]
fn window_observation_keeps_true_false_and_unknown_independent() {
    let mut observation = WindowStateObservation::new();
    assert_eq!(observation.snapshot(), PlaybackWindowState::default());

    observation.apply_ipc_event(&change("fullscreen", PropertyData::Flag(true)));
    assert_eq!(
        observation.snapshot(),
        PlaybackWindowState {
            fullscreen: Some(true),
            maximized: None,
        }
    );

    observation.apply_ipc_event(&change("fullscreen", PropertyData::Flag(false)));
    observation.apply_ipc_event(&change("window-maximized", PropertyData::Flag(true)));
    assert_eq!(
        observation.snapshot(),
        PlaybackWindowState {
            fullscreen: Some(false),
            maximized: Some(true),
        }
    );
}

#[test]
fn display_property_parser_accepts_only_owned_typed_change_events() {
    assert_eq!(
        display_property_change(&change("display-names", texts(&[Some("DP-1"), Some("HDMI-A-1")]))),
        Some(DisplayPropertyChange::Names(vec![
            "DP-1".to_string(),
            "HDMI-A-1".to_string()
        ]))
    );
    assert_eq!(
        display_property_change(&change("display-width", PropertyData::Count(3840))),
        Some(DisplayPropertyChange::Width(3840))
    );
    assert_eq!(
        display_property_change(&change("display-height", PropertyData::Count(2160))),
        Some(DisplayPropertyChange::Height(2160))
    );
    for rejected in [
        msg(None, None, texts(&[Some("DP-1")])),
        change("display-names", texts(&[Some("DP-1"), None])),
        change("display-width", texts(&[Some("3840")])),
        change("display-height", PropertyData::Count(0)),
        change("display-width", PropertyData::Count(u64::from(u32::MAX) + 1)),
    ] {
        assert_eq!(display_property_change(&rejected), None);
    }
}

#[test]
fn display_observation_is_complete_and_isolated_per_launch() {
    let mut old = WindowStateObservation::new();
    let successor = WindowStateObservation::new();
    for event in [
        change("display-names", texts(&[Some("DP-1")])),
        change("display-width", PropertyData::Count(2560)),
        change("display-height", PropertyData::Count(1440)),
    ] {
        old.apply_ipc_event(&event);
    }
    let seen = old.display_snapshot();
    assert_eq!(seen.names, vec!["DP-1".to_string()]);
    assert_eq!(seen.width_px, Some(2560));
    assert_eq!(seen.height_px, Some(1440));
    let fresh = successor.display_snapshot();
    assert!(fresh.names.is_empty());
    assert_eq!(fresh.width_px, None);
    assert_eq!(fresh.height_px, None);
}

#[test]
fn unrelated_messages_leave_the_observation_unchanged() {
    let mut observation = WindowStateObservation::new();
    observation.apply_ipc_event(&change("fullscreen", PropertyData::Flag(true)));
    observation.apply_ipc_event(&change("display-width", PropertyData::Count(1920)));
    observation.apply_ipc_event(&msg(Some("end-file"), Some("display-width"), PropertyData::Count(7)));
    observation.apply_ipc_event(&change("time-pos", PropertyData::Count(12)));
    assert_eq!(observation.snapshot().fullscreen, Some(true));
    assert_eq!(observation.display_snapshot().width_px, Some(1920));
}
