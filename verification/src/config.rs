//! The reader's settings, as plain values.
//!
//! Reading and writing the configuration file is the surrounding
//! program's work; this module only fixes what the settings are and what
//! a fresh configuration holds.

use vstd::prelude::*;

verus! {

/// Settings persisted in the reader's configuration file.
pub struct Config {
    pub general: GeneralConfig,
    pub ankiweb: AnkiWebConfig,
}

/// General settings: the display language and where the collection lives.
pub struct GeneralConfig {
    pub language: String,
    pub collection_path: String,
}

/// Remote-synchronization settings.  The token is kept once a login
/// succeeded, so the password need not be sent again.
pub struct AnkiWebConfig {
    pub username: String,
    pub password: String,
    pub token: Option<String>,
    pub auto_sync: bool,
    pub sync_on_exit: bool,
}

impl Default for Config {
    /// A fresh configuration: British English, the reader's default
    /// collection directory, no credentials, and sync switched off.
    fn default() -> (c: Self)
        ensures
            c.general.language@ == "en-GB"@,
            c.general.collection_path@ == "/mnt/ext1/applications/pbanki/collection"@,
            c.ankiweb.username@ == Seq::<char>::empty(),
            c.ankiweb.password@ == Seq::<char>::empty(),
            c.ankiweb.token is None,
            !c.ankiweb.auto_sync,
            !c.ankiweb.sync_on_exit,
    {
        Config {
            general: GeneralConfig {
                language: "en-GB".to_owned(),
                collection_path: "/mnt/ext1/applications/pbanki/collection".to_owned(),
            },
            ankiweb: AnkiWebConfig {
                username: String::new(),
                password: String::new(),
                token: None,
                auto_sync: false,
                sync_on_exit: false,
            },
        }
    }
}

} // verus!
