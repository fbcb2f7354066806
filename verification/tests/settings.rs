use gatefold::settings::{Motion, Settings};

#[test]
fn default_settings_show_the_backdrop_with_normal_motion() {
    let settings = Settings::default();
    assert!(settings.lyrics_backdrop);
    assert_eq!(settings.lyrics_motion, Motion::Normal);
    assert_eq!(Motion::default(), Motion::Normal);
}
