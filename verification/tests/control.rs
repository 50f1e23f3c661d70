use sue_paper::{int_idx, overlay_should_be_visible, tex_idx, AppState, Effect, Settings, TextureKind};
use sue_paper::{ID_EXCLUDE, ID_EXIT, ID_INT_BASE, ID_SNOOZE_15, ID_SNOOZE_5, ID_TEX_BASE, ID_TOGGLE};

#[test]
fn visibility_respects_every_suppression_state() {
    assert!(overlay_should_be_visible(true, false, false));
    assert!(!overlay_should_be_visible(false, false, false));
    assert!(!overlay_should_be_visible(true, true, false));
    assert!(!overlay_should_be_visible(true, false, true));
    assert!(!overlay_should_be_visible(false, true, true));
}

#[test]
fn menu_positions() {
    assert_eq!(tex_idx(TextureKind::ClassicMatte), 0);
    assert_eq!(tex_idx(TextureKind::VellumMist), 3);
    assert_eq!(int_idx(15), 0);
    assert_eq!(int_idx(30), 3);
    assert_eq!(int_idx(99), 1);
}

#[test]
fn toggle_twice_restores_the_switch() {
    let mut app = AppState::new(Settings::default());
    let effects = app.handle_command(ID_TOGGLE as u32, None, None);
    assert_eq!(effects, vec![Effect::SaveSettings, Effect::ApplyVisibility]);
    assert!(!app.settings.enabled);
    assert!(!app.visible());
    app.handle_command(ID_TOGGLE as u32, None, None);
    assert!(app.settings.enabled);
    assert!(app.visible());
}

#[test]
fn exit_closes_the_window() {
    let mut app = AppState::new(Settings::default());
    assert_eq!(app.handle_command(ID_EXIT as u32, None, None), vec![Effect::DestroyWindow]);
}

#[test]
fn snooze_hides_and_starts_the_timer() {
    let mut app = AppState::new(Settings::default());
    let effects = app.handle_command(ID_SNOOZE_5 as u32, None, None);
    assert_eq!(effects, vec![Effect::ApplyVisibility, Effect::StartSnoozeTimer(300_000)]);
    assert!(!app.visible());
    assert_eq!(app.snooze_ended(), vec![Effect::ApplyVisibility]);
    assert!(app.visible());
    let effects = app.handle_command(ID_SNOOZE_15 as u32, None, None);
    assert_eq!(effects, vec![Effect::ApplyVisibility, Effect::StartSnoozeTimer(900_000)]);
    assert_eq!(app.snooze_timer_failed(), vec![Effect::ApplyVisibility]);
    assert!(!app.snoozed);
}

#[test]
fn exclude_adds_the_foreground_application_once() {
    let mut app = AppState::new(Settings::default());
    let effects = app.handle_command(ID_EXCLUDE as u32, Some("game.exe".into()), Some("sue-paper.exe".into()));
    assert_eq!(effects, vec![Effect::SaveSettings]);
    assert_eq!(app.settings.exclusions, ["game.exe"]);
    let effects = app.handle_command(ID_EXCLUDE as u32, Some("game.exe".into()), None);
    assert!(effects.is_empty());
    assert_eq!(app.settings.exclusions, ["game.exe"]);
}

#[test]
fn exclude_ignores_this_program_and_no_foreground() {
    let mut app = AppState::new(Settings::default());
    assert!(app
        .handle_command(ID_EXCLUDE as u32, Some("sue-paper.exe".into()), Some("sue-paper.exe".into()))
        .is_empty());
    assert!(app.handle_command(ID_EXCLUDE as u32, None, None).is_empty());
    assert!(app.settings.exclusions.is_empty());
}

#[test]
fn choosing_a_preset_regenerates_the_texture() {
    let mut app = AppState::new(Settings::default());
    let effects = app.handle_command((ID_TEX_BASE + 2) as u32, None, None);
    assert_eq!(effects, vec![Effect::SaveSettings, Effect::RefreshTextures, Effect::ApplyVisibility]);
    assert_eq!(app.settings.texture, TextureKind::Parchment);
    assert!(app.handle_command((ID_TEX_BASE + 2) as u32, None, None).is_empty());
}

#[test]
fn choosing_an_intensity_regenerates_the_texture() {
    let mut app = AppState::new(Settings::default());
    assert!(app.handle_command((ID_INT_BASE + 1) as u32, None, None).is_empty());
    let effects = app.handle_command((ID_INT_BASE + 3) as u32, None, None);
    assert_eq!(effects, vec![Effect::SaveSettings, Effect::RefreshTextures, Effect::ApplyVisibility]);
    assert_eq!(app.settings.intensity, 30);
}

#[test]
fn commands_are_read_as_menu_ids() {
    let mut app = AppState::new(Settings::default());
    let effects = app.handle_command(ID_TOGGLE as u32 + 65_536, None, None);
    assert_eq!(effects, vec![Effect::SaveSettings, Effect::ApplyVisibility]);
    assert!(app.handle_command(4242, None, None).is_empty());
    assert!(app.handle_command((ID_TEX_BASE + 4) as u32, None, None).is_empty());
}

#[test]
fn poll_follows_the_foreground_application() {
    let mut settings = Settings::default();
    settings.exclusions.push("game.exe".into());
    let mut app = AppState::new(settings);
    assert_eq!(app.poll_exclusion(Some("game.exe".into())), vec![Effect::ApplyVisibility]);
    assert!(app.hidden_by_exclusion);
    assert!(!app.visible());
    assert!(app.poll_exclusion(Some("game.exe".into())).is_empty());
    assert_eq!(app.poll_exclusion(None), vec![Effect::ApplyVisibility]);
    assert!(app.visible());
}

#[test]
fn poll_interval_backs_up_the_hook() {
    assert_eq!(sue_paper::poll_interval_ms(true), 500);
    assert_eq!(sue_paper::poll_interval_ms(false), 500);
}
