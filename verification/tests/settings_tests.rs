use packtrack::errors::Error;
use packtrack::settings::Settings;

#[test]
fn test_settings_update_invalid_key() {
    let result = Settings::default().update("Foo", "Bar");
    assert_eq!(result.err().unwrap(), Error::InvalidSetting("Foo".into()));
}

#[test]
fn test_settings_update_string() {
    let settings = Settings::default().update("postcode", "1234AB").unwrap();
    assert_eq!(settings.postcode.unwrap(), "1234AB");
}

#[test]
fn test_settings_update_int() {
    let settings = Settings::default().update("cache_seconds", "30").unwrap();
    assert_eq!(settings.cache_seconds, 30);

    let result = Settings::default().update("cache_seconds", "thirty");
    assert_eq!(
        result.err().unwrap(),
        Error::InvalidSetting("thirty".into())
    );
}

#[test]
fn test_settings_defaults() {
    let settings = Settings::default();
    assert_eq!(settings.urls_file, "packtrack.urls");
    assert_eq!(settings.postcode, None);
    assert_eq!(settings.language, None);
    assert_eq!(settings.cache_seconds, 30);
    assert_eq!(settings.cache_max_entries, 10);
}

#[test]
fn test_settings_update_max_entries() {
    let settings = Settings::default()
        .update("cache_max_entries", "5")
        .unwrap();
    assert_eq!(settings.cache_max_entries, 5);

    let result = Settings::default().update("cache_max_entries", "");
    assert!(result.is_err());
}
