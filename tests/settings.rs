use autochroma::settings::{DatabaseUri, DiscordToken, MissingSetting, SettingSource};

#[test]
fn token_file_wins_over_value() {
    let token = DiscordToken {
        discord_token_file: Some(String::from("token.txt")),
        discord_token: Some(String::from("abc")),
    };
    assert_eq!(token.source(), Ok(SettingSource::File(String::from("token.txt"))));
}

#[test]
fn token_value_is_used_without_file() {
    let token: DiscordToken<String> = DiscordToken { discord_token_file: None, discord_token: Some(String::from("abc")) };
    assert_eq!(token.source(), Ok(SettingSource::Value(String::from("abc"))));
}

#[test]
fn missing_settings_are_reported() {
    let token: DiscordToken<String> = DiscordToken { discord_token_file: None, discord_token: None };
    assert_eq!(token.source(), Err(MissingSetting::DiscordToken));
    let uri: DatabaseUri<String> = DatabaseUri { database_uri_file: None, database_uri: None };
    assert_eq!(uri.source(), Err(MissingSetting::DatabaseUri));
}

#[test]
fn database_uri_sources() {
    let uri = DatabaseUri { database_uri_file: Some(String::from("uri.txt")), database_uri: None };
    assert_eq!(uri.source(), Ok(SettingSource::File(String::from("uri.txt"))));
    let uri: DatabaseUri<String> = DatabaseUri { database_uri_file: None, database_uri: Some(String::from("postgres://db")) };
    assert_eq!(uri.source(), Ok(SettingSource::Value(String::from("postgres://db"))));
}
