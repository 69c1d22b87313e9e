//! The shell option flags and the engine's bookkeeping state.
use command_stream::state::{GlobalState, ShellSettings};

#[test]
fn state_test_shell_settings_default() {
    let settings = ShellSettings::new();
    assert!(!settings.errexit);
    assert!(!settings.verbose);
    assert!(!settings.xtrace);
    assert!(!settings.pipefail);
    assert!(!settings.nounset);
}

#[test]
fn test_shell_settings_set() {
    let mut settings = ShellSettings::new();

    settings.set("e", true);
    assert!(settings.errexit);

    settings.set("errexit", false);
    assert!(!settings.errexit);

    settings.set("o pipefail", true);
    assert!(settings.pipefail);
}

#[test]
fn test_shell_settings_set_short_flags() {
    let mut settings = ShellSettings::new();
    settings.set("e", true);
    settings.set("v", true);
    settings.set("x", true);
    settings.set("u", true);
    settings.set("f", true);
    settings.set("a", true);
    assert!(settings.errexit);
    assert!(settings.verbose);
    assert!(settings.xtrace);
    assert!(settings.nounset);
    assert!(settings.noglob);
    assert!(settings.allexport);
}

#[test]
fn test_shell_settings_set_long_names() {
    let mut settings = ShellSettings::new();
    settings.set("errexit", true);
    settings.set("verbose", true);
    settings.set("xtrace", true);
    settings.set("nounset", true);
    settings.set("noglob", true);
    settings.set("allexport", true);
    settings.set("pipefail", true);
    assert!(settings.errexit);
    assert!(settings.verbose);
    assert!(settings.xtrace);
    assert!(settings.nounset);
    assert!(settings.noglob);
    assert!(settings.allexport);
    assert!(settings.pipefail);
}

#[test]
fn test_shell_settings_enable_disable() {
    let mut settings = ShellSettings::new();
    settings.enable("errexit");
    assert!(settings.errexit);
    settings.disable("errexit");
    assert!(!settings.errexit);
}

#[test]
fn test_shell_settings_reset() {
    let mut settings = ShellSettings::new();
    settings.enable("errexit");
    settings.enable("pipefail");
    settings.reset();
    assert!(!settings.errexit);
    assert!(!settings.pipefail);
}

#[test]
fn test_shell_settings_unknown_option() {
    let mut settings = ShellSettings::new();
    settings.set("zz", true);
    assert_eq!(settings, ShellSettings::new());
}

#[test]
fn test_global_state_runners() {
    let mut state = GlobalState::new(None);

    let id1 = state.register_runner();
    let id2 = state.register_runner();

    assert_eq!(state.active_runner_count(), 2);
    assert!(id1 != id2);

    state.unregister_runner(id1);
    assert_eq!(state.active_runner_count(), 1);

    state.unregister_runner(id2);
    assert_eq!(state.active_runner_count(), 0);
}

#[test]
fn test_global_state_runner_registration() {
    let mut state = GlobalState::new(None);
    let id1 = state.register_runner();
    let id2 = state.register_runner();
    assert!(id2 > id1);
    assert_eq!(state.active_runner_count(), 2);
}

#[test]
fn state_test_global_state_virtual_commands() {
    let mut state = GlobalState::new(None);

    assert!(state.are_virtual_commands_enabled());

    state.disable_virtual_commands();
    assert!(!state.are_virtual_commands_enabled());

    state.enable_virtual_commands();
    assert!(state.are_virtual_commands_enabled());
}

#[test]
fn state_test_global_state_reset() {
    let mut state = GlobalState::new(None);

    state.enable_shell_option("errexit");
    state.register_runner();
    state.disable_virtual_commands();

    state.reset();

    let settings = state.get_shell_settings();
    assert!(!settings.errexit);
    assert_eq!(state.active_runner_count(), 0);
    assert!(state.are_virtual_commands_enabled());
}

#[test]
fn test_global_state_shell_settings() {
    let mut state = GlobalState::new(None);
    let mut settings = ShellSettings::new();
    settings.enable("pipefail");
    state.set_shell_settings(settings);
    assert!(state.get_shell_settings().pipefail);
}

#[test]
fn test_global_state_signal_handlers() {
    let mut state = GlobalState::new(None);
    assert!(!state.are_signal_handlers_installed());
    state.set_signal_handlers_installed(true);
    assert!(state.are_signal_handlers_installed());
}

#[test]
fn test_global_state_initial_cwd() {
    let state = GlobalState::new(Some("/start".to_string()));
    assert_eq!(state.get_initial_cwd(), Some("/start".to_string()));
    let state2 = GlobalState::new(None);
    assert!(state2.get_initial_cwd().is_none());
}

#[test]
fn test_global_state_default() {
    let state = GlobalState::default();
    assert!(state.are_virtual_commands_enabled());
    assert!(!state.are_signal_handlers_installed());
}

#[test]
fn test_shell_settings_default_impl() {
    assert_eq!(ShellSettings::default(), ShellSettings::new());
}
