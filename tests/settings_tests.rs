use upgrader_canister::{Settings, SettingsData};

#[test]
fn test_default_inspect_message_disabled() {
    let settings = SettingsData::default();
    assert_eq!(settings.disable_inspect_message, false);
}

#[test]
fn test_disable_inspect_message() {
    let mut settings = Settings::new();
    assert_eq!(settings.is_inspect_message_disabled(), false);
    settings.disable_inspect_message(true);
    assert_eq!(settings.is_inspect_message_disabled(), true);
    settings.disable_inspect_message(false);
    assert_eq!(settings.is_inspect_message_disabled(), false);
}
