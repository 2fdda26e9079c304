//! Where the start-up settings come from.

use vstd::prelude::*;

verus! {

/// Where a start-up setting comes from: a file to read it from, or the
/// value itself. `P` is the path type of the platform.
#[derive(Debug, PartialEq, Eq)]
pub enum SettingSource<P> {
    File(P),
    Value(String),
}

/// A required setting that was given neither as a file nor as a value.
#[derive(Clone, Copy, Debug, PartialEq, Eq, Structural)]
pub enum MissingSetting {
    DiscordToken,
    DatabaseUri,
}

/// A file, when given, wins over a value; with neither the setting is
/// missing.
pub open spec fn chosen_source<P>(file: Option<P>, value: Option<String>, missing: MissingSetting) -> Result<
    SettingSource<P>,
    MissingSetting,
> {
    match file {
        Some(path) => Ok(SettingSource::File(path)),
        None => match value {
            Some(v) => Ok(SettingSource::Value(v)),
            None => Err(missing),
        },
    }
}

fn choose_source<P>(file: Option<P>, value: Option<String>, missing: MissingSetting) -> (r: Result<
    SettingSource<P>,
    MissingSetting,
>)
    ensures
        r == chosen_source(file, value, missing),
{
    match file {
        Some(path) => Ok(SettingSource::File(path)),
        None => match value {
            Some(v) => Ok(SettingSource::Value(v)),
            None => Err(missing),
        },
    }
}

/// The bot's platform token, from a file or given directly.
pub struct DiscordToken<P> {
    pub discord_token_file: Option<P>,
    pub discord_token: Option<String>,
}

impl<P> DiscordToken<P> {
    pub fn source(self) -> (r: Result<SettingSource<P>, MissingSetting>)
        ensures
            r == chosen_source(self.discord_token_file, self.discord_token, MissingSetting::DiscordToken),
    {
        choose_source(self.discord_token_file, self.discord_token, MissingSetting::DiscordToken)
    }
}

/// The database connection URI, from a file or given directly.
pub struct DatabaseUri<P> {
    pub database_uri_file: Option<P>,
    pub database_uri: Option<String>,
}

impl<P> DatabaseUri<P> {
    pub fn source(self) -> (r: Result<SettingSource<P>, MissingSetting>)
        ensures
            r == chosen_source(self.database_uri_file, self.database_uri, MissingSetting::DatabaseUri),
    {
        choose_source(self.database_uri_file, self.database_uri, MissingSetting::DatabaseUri)
    }
}

/// The bot's start-up arguments.
pub struct Arguments<P> {
    pub discord_token: DiscordToken<P>,
    pub database_uri: DatabaseUri<P>,
}

} // verus!
