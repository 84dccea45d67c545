use cutblanc::settings::{Settings, FADE_MILLIS, LONG_RUN, LOOP_MILLIS, SILENCE_THRESHOLD};

#[test]
fn default_settings_are_the_standard_constants() {
    let settings = Settings::default();
    assert_eq!(settings.silence_threshold, 100);
    assert_eq!(settings.long_run, 1000);
    assert_eq!(settings.fade_millis, 1000);
    assert_eq!(settings.loop_millis, 10000);
    assert_eq!(SILENCE_THRESHOLD, 100);
    assert_eq!(LONG_RUN, 1000);
    assert_eq!(FADE_MILLIS, 1000);
    assert_eq!(LOOP_MILLIS, 10000);
}
