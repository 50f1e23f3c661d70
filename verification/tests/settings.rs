use sue_paper::{SaveStep, Settings, TextureKind};

#[test]
fn normalization_repairs_user_config() {
    let settings = Settings {
        intensity: 99,
        exclusions: vec![" Foo.EXE ".into(), "foo.exe".into(), "".into()],
        ..Settings::default()
    }
    .normalized();
    assert_eq!(settings.intensity, 20);
    assert_eq!(settings.exclusions, ["foo.exe"]);
}

#[test]
fn default_settings() {
    let s = Settings::default();
    assert!(s.enabled);
    assert_eq!(s.texture, TextureKind::ClassicMatte);
    assert_eq!(s.intensity, 20);
    assert!(s.exclusions.is_empty());
}

#[test]
fn normalization_keeps_offered_intensities_and_sorts_names() {
    let s = Settings {
        enabled: false,
        texture: TextureKind::Parchment,
        intensity: 25,
        exclusions: vec![
            "\tZed.exe\n".into(),
            "Émile.EXE".into(),
            "apple.exe".into(),
            "   ".into(),
            "APPLE.exe".into(),
        ],
    }
    .normalized();
    assert!(!s.enabled);
    assert_eq!(s.texture, TextureKind::Parchment);
    assert_eq!(s.intensity, 25);
    assert_eq!(s.exclusions, ["apple.exe", "zed.exe", "émile.exe"]);
}

#[test]
fn normalizing_a_normal_record_changes_nothing() {
    let normal = Settings {
        exclusions: vec!["a.exe".into(), "b.exe".into()],
        intensity: 30,
        ..Settings::default()
    };
    let again = normal.duplicate().normalized();
    assert_eq!(again, normal);
}

#[test]
fn load_takes_defaults_when_nothing_is_read() {
    let outcome = Settings::load(true, None);
    assert_eq!(outcome.settings, Settings::default());
    assert!(!outcome.migrate);
    let outcome = Settings::load(false, Some(None));
    assert_eq!(outcome.settings, Settings::default());
    assert!(outcome.migrate);
}

#[test]
fn load_normalizes_and_migrates_an_earlier_file() {
    let stored = Settings { intensity: 7, exclusions: vec![" X.exe".into()], ..Settings::default() };
    let outcome = Settings::load(false, Some(Some(stored)));
    assert!(outcome.migrate);
    assert_eq!(outcome.settings.intensity, 20);
    assert_eq!(outcome.settings.exclusions, ["x.exe"]);
    let current = Settings::load(true, Some(Some(Settings::default())));
    assert!(!current.migrate);
}

#[test]
fn save_writes_the_normal_form() {
    let s = Settings { intensity: 16, exclusions: vec!["B.exe".into(), "a.exe".into()], ..Settings::default() };
    let job = s.save();
    assert_eq!(job.step(), SaveStep::Serialize);
    assert_eq!(job.settings().intensity, 20);
    assert_eq!(job.settings().exclusions, ["a.exe", "b.exe"]);
}

#[test]
fn save_steps_in_order_when_all_succeed() {
    let mut job = Settings::default().save();
    let expected = [
        SaveStep::CreateDir,
        SaveStep::OpenTemp,
        SaveStep::WriteTemp,
        SaveStep::SyncTemp,
        SaveStep::Replace,
        SaveStep::Succeeded,
        SaveStep::Succeeded,
    ];
    for step in expected {
        job.advance(true);
        assert_eq!(job.step(), step);
    }
}

#[test]
fn failed_save_removes_the_temporary_file() {
    for failing in 2..6 {
        let mut job = Settings::default().save();
        for _ in 0..failing {
            job.advance(true);
        }
        job.advance(false);
        assert_eq!(job.step(), SaveStep::RemoveTemp);
        job.advance(false);
        assert_eq!(job.step(), SaveStep::Failed);
    }
}

#[test]
fn save_failing_before_the_temporary_file_ends_at_once() {
    let mut job = Settings::default().save();
    job.advance(false);
    assert_eq!(job.step(), SaveStep::Failed);
    let mut job = Settings::default().save();
    job.advance(true);
    job.advance(false);
    assert_eq!(job.step(), SaveStep::Failed);
}
