use vstd::prelude::*;

verus! {

/// The persisted settings.
#[derive(Debug, Clone, Copy, PartialEq, Eq, Structural)]
pub struct SettingsData {
    /// When set, the pre-dispatch permission check is skipped.
    pub disable_inspect_message: bool,
}

impl Default for SettingsData {
    fn default() -> (r: SettingsData)
        ensures
            !r.disable_inspect_message,
    {
        SettingsData { disable_inspect_message: false }
    }
}

/// The settings store.
pub struct Settings {
    settings: SettingsData,
}

impl View for Settings {
    type V = SettingsData;

    closed spec fn view(&self) -> SettingsData {
        self.settings
    }
}

impl Settings {
    /// Settings with their default values.
    pub fn new() -> (r: Settings)
        ensures
            !r@.disable_inspect_message,
    {
        Settings { settings: SettingsData::default() }
    }

    /// Enables or disables the pre-dispatch permission check.
    pub fn disable_inspect_message(&mut self, disable: bool)
        ensures
            final(self)@.disable_inspect_message == disable,
    {
        self.settings.disable_inspect_message = disable;
    }

    /// Whether the pre-dispatch permission check is disabled.
    pub fn is_inspect_message_disabled(&self) -> (r: bool)
        ensures
            r == self@.disable_inspect_message,
    {
        self.settings.disable_inspect_message
    }
}

} // verus!
