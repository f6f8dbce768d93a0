//! Settings that survive a restart. They are kept as JSON in the platform's
//! configuration directory.

use vstd::prelude::*;

use crate::text::{parses, reads_back, writes};

verus! {

/// The user's settings.
#[derive(Debug, Clone)]
pub struct Settings {
    /// Base URL of the parlyx server, without the `/api` suffix.
    pub parlyx_server_base_url: String,
    /// Long-lived API key, sent as a bearer token.
    pub api_key: String,
    /// Where the server should report task transitions, if anywhere.
    pub webhook_url: Option<String>,
}

/// Whether these are the settings of a fresh installation.
pub open spec fn is_default_settings(s: Settings) -> bool {
    &&& s.parlyx_server_base_url@ == "http://localhost:5555"@
    &&& s.api_key@ == Seq::<char>::empty()
    &&& s.webhook_url is None
}

impl Default for Settings {
    fn default() -> (r: Self)
        ensures
            is_default_settings(r),
            r.parlyx_server_base_url@ == "http://localhost:5555"@,
            r.api_key@.len() == 0,
            r.webhook_url is None,
    {
        Settings {
            parlyx_server_base_url: "http://localhost:5555".to_owned(),
            api_key: String::new(),
            webhook_url: None,
        }
    }
}

/// What was found where the settings are kept.
#[derive(Debug)]
pub enum StoredSettings {
    /// There is no file.
    Missing,
    /// There is a file, and its text does not describe settings.
    Malformed,
    /// The settings in the file.
    Valid(Settings),
}

/// Whether `found` is what `parse` finds in a settings file with this text, or
/// where there is no file.
pub open spec fn is_found<P: Fn(&str) -> Option<Settings>>(
    parse: P,
    file: Option<Seq<char>>,
    found: StoredSettings,
) -> bool {
    match file {
        None => found is Missing,
        Some(text) => match found {
            StoredSettings::Missing => false,
            StoredSettings::Malformed => parses(parse, text, None),
            StoredSettings::Valid(settings) => parses(parse, text, Some(settings)),
        },
    }
}

/// Looks at the text of the settings file, where there is one. `parse` reads
/// settings out of a text, or rejects it.
pub fn find_settings<P: Fn(&str) -> Option<Settings>>(file: Option<String>, parse: P) -> (r:
    StoredSettings)
    requires
        forall|t: &str| call_requires(parse, (t,)),
    ensures
        is_found(
            parse,
            match file {
                Some(text) => Some(text@),
                None => None,
            },
            r,
        ),
        file is None <==> r is Missing,
        r matches StoredSettings::Valid(settings) ==> (file matches Some(text) && exists|t: &str|
            #![trigger call_ensures(parse, (t,), Some(settings))]
            t@ == text@ && call_ensures(parse, (t,), Some(settings))),
        r is Malformed ==> (file matches Some(text) && exists|t: &str|
            #![trigger call_ensures(parse, (t,), None::<Settings>)]
            t@ == text@ && call_ensures(parse, (t,), None::<Settings>)),
{
    let text: String = match file {
        Some(text) => text,
        None => return StoredSettings::Missing,
    };
    match parse(text.as_str()) {
        Some(settings) => StoredSettings::Valid(settings),
        None => StoredSettings::Malformed,
    }
}

/// Whether these are the settings to work with: those found, else the default
/// ones.
pub open spec fn is_loaded(stored: StoredSettings, settings: Settings) -> bool {
    match stored {
        StoredSettings::Valid(found) => settings == found,
        _ => is_default_settings(settings),
    }
}

/// The settings to work with: those found, else the default ones.
pub fn load(stored: StoredSettings) -> (r: Settings)
    ensures
        is_loaded(stored, r),
        stored matches StoredSettings::Valid(settings) ==> r == settings,
        !(stored is Valid) ==> {
            &&& r.parlyx_server_base_url@ == "http://localhost:5555"@
            &&& r.api_key@.len() == 0
            &&& r.webhook_url is None
        },
{
    match stored {
        StoredSettings::Valid(settings) => settings,
        StoredSettings::Malformed => Settings::default(),
        StoredSettings::Missing => Settings::default(),
    }
}

/// The settings file after a run of saves, each of which replaces its text. At
/// first there is no file.
pub open spec fn file_after(texts: Seq<Seq<char>>) -> Option<Seq<char>> {
    if texts.len() == 0 {
        None
    } else {
        Some(texts.last())
    }
}

/// Settings survive a restart: what is loaded is what was saved last, and the
/// default settings where nothing was saved. This holds for any way to write
/// settings as text and to parse them that gives back what was written.
pub proof fn law_last_saved_settings_are_loaded<
    W: Fn(&Settings) -> String,
    P: Fn(&str) -> Option<Settings>,
>(
    write: W,
    parse: P,
    saved: Seq<Settings>,
    texts: Seq<Seq<char>>,
    found: StoredSettings,
    loaded: Settings,
)
    requires
        reads_back(write, parse),
        texts.len() == saved.len(),
        forall|k: int| 0 <= k < saved.len() ==> writes(write, #[trigger] saved[k], texts[k]),
        is_found(parse, file_after(texts), found),
        is_loaded(found, loaded),
    ensures
        if saved.len() == 0 {
            is_default_settings(loaded)
        } else {
            loaded == saved.last()
        },
{
    if saved.len() > 0 {
        assert(writes(write, saved[saved.len() - 1], texts[saved.len() - 1]));
    }
}

/// Settings that were found are worked with as they are, whatever they hold.
/// Without them the server is the local one, and key and webhook are missing.
pub proof fn law_found_settings_are_kept(stored: StoredSettings, settings: Settings)
    requires
        is_loaded(stored, settings),
    ensures
        stored matches StoredSettings::Valid(found) ==> settings == found,
        !(stored is Valid) ==> {
            &&& settings.parlyx_server_base_url@ == "http://localhost:5555"@
            &&& settings.api_key@.len() == 0
            &&& settings.webhook_url is None
        },
{
}

/// A settings file is taken for what `parse` makes of its whole text; it is
/// missing just where there is none.
pub proof fn law_settings_file_is_parsed_whole<P: Fn(&str) -> Option<Settings>>(
    parse: P,
    file: Option<Seq<char>>,
    found: StoredSettings,
)
    requires
        is_found(parse, file, found),
    ensures
        file is None <==> found is Missing,
        found matches StoredSettings::Valid(settings) ==> (file matches Some(text) && exists|
            t: &str,
        |
            #![trigger call_ensures(parse, (t,), Some(settings))]
            t@ == text && call_ensures(parse, (t,), Some(settings))),
        found is Malformed ==> (file matches Some(text) && exists|t: &str|
            #![trigger call_ensures(parse, (t,), None::<Settings>)]
            t@ == text && call_ensures(parse, (t,), None::<Settings>)),
{
}

} // verus!
