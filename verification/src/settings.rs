//! How stored settings map to what the chrome shows and does.

use crate::text::{chars_of, decimal, decimal_string, find_from, occurs_from, same_text};
use vstd::prelude::*;

verus! {

/// The colour scheme of the application.
#[derive(Clone, Copy, Debug, PartialEq, Eq, Structural)]
pub enum ColorScheme {
    /// Follow the system.
    Default,
    ForceLight,
    ForceDark,
}

/// The colour scheme that the setting `theme` asks for.
pub fn color_scheme_for(theme: &str) -> (r: ColorScheme)
    ensures
        r == (if theme@ == "light"@ {
            ColorScheme::ForceLight
        } else if theme@ == "dark"@ {
            ColorScheme::ForceDark
        } else {
            ColorScheme::Default
        }),
{
    if same_text(theme, "light") {
        ColorScheme::ForceLight
    } else if same_text(theme, "dark") {
        ColorScheme::ForceDark
    } else {
        ColorScheme::Default
    }
}

/// The row of the theme chooser that shows the setting `theme`.
pub fn theme_index(theme: &str) -> (r: u32)
    ensures
        r == (if theme@ == "light"@ {
            1u32
        } else if theme@ == "dark"@ {
            2u32
        } else {
            0u32
        }),
{
    if same_text(theme, "light") {
        1
    } else if same_text(theme, "dark") {
        2
    } else {
        0
    }
}

/// The setting that the row `index` of the theme chooser stands for.
pub fn theme_name(index: u32) -> (r: &'static str)
    ensures
        r@ == (if index == 1 {
            "light"@
        } else if index == 2 {
            "dark"@
        } else {
            "system"@
        }),
        theme_index_of(r@) == (if index == 1 || index == 2 {
            index
        } else {
            0
        }),
{
    proof {
        lemma_names_differ();
    }
    if index == 1 {
        "light"
    } else if index == 2 {
        "dark"
    } else {
        "system"
    }
}

/// The row of the theme chooser that shows the setting `theme`.
pub open spec fn theme_index_of(theme: Seq<char>) -> u32 {
    if theme == "light"@ {
        1
    } else if theme == "dark"@ {
        2
    } else {
        0
    }
}

/// The row of the status icon chooser that shows the setting `value`.
pub open spec fn tray_index_of(value: Seq<char>) -> u32 {
    if value == "enabled"@ {
        1
    } else if value == "disabled"@ {
        2
    } else {
        0
    }
}

/// The row of the status icon chooser that shows the setting `value`.
pub fn tray_setting_index(value: &str) -> (r: u32)
    ensures
        r == tray_index_of(value@),
{
    if same_text(value, "enabled") {
        1
    } else if same_text(value, "disabled") {
        2
    } else {
        0
    }
}

/// The setting that the row `index` of the status icon chooser stands for.
pub fn tray_setting_name(index: u32) -> (r: &'static str)
    ensures
        r@ == (if index == 1 {
            "enabled"@
        } else if index == 2 {
            "disabled"@
        } else {
            "auto"@
        }),
        tray_index_of(r@) == (if index == 1 || index == 2 {
            index
        } else {
            0
        }),
{
    proof {
        lemma_names_differ();
    }
    if index == 1 {
        "enabled"
    } else if index == 2 {
        "disabled"
    } else {
        "auto"
    }
}

/// The names of the settings are different words.
pub proof fn lemma_names_differ()
    ensures
        "light"@ != "dark"@,
        "system"@ != "light"@,
        "system"@ != "dark"@,
        "enabled"@ != "disabled"@,
        "auto"@ != "enabled"@,
        "auto"@ != "disabled"@,
{
    reveal_strlit("light");
    reveal_strlit("dark");
    reveal_strlit("system");
    reveal_strlit("enabled");
    reveal_strlit("disabled");
    reveal_strlit("auto");
    assert("light"@.len() == 5 && "dark"@.len() == 4 && "system"@.len() == 6);
    assert("enabled"@.len() == 7 && "disabled"@.len() == 8 && "auto"@.len() == 4);
}

/// How the number of dictionaries is told.
pub open spec fn count_text(count: nat) -> Seq<char> {
    if count == 1 {
        "1 Dictionary"@
    } else {
        decimal(count) + " Dictionaries"@
    }
}

/// How the number of dictionaries is told.
pub fn dictionary_count_text(count: usize) -> (r: String)
    ensures
        r@ == count_text(count as nat),
{
    if count == 1 {
        "1 Dictionary".to_owned()
    } else {
        let mut text = decimal_string(count as u64);
        text.append(" Dictionaries");
        text
    }
}

/// What the row of the download directory says: the directory, or that the
/// default is used where none is set.
pub fn download_directory_subtitle(path: &str) -> (r: String)
    ensures
        r@ == (if path@.len() == 0 {
            "Default (Downloads)"@
        } else {
            path@
        }),
{
    if path.unicode_len() == 0 {
        "Default (Downloads)".to_owned()
    } else {
        path.to_owned()
    }
}

/// Where a download named `filename` goes: into the directory that is set, if
/// one is set and exists; else the engine decides.
pub fn download_destination(directory: &str, directory_exists: bool, filename: &str) -> (r: Option<String>)
    ensures
        match r {
            Some(uri) => directory@.len() > 0 && directory_exists && uri@ == "file://"@ + directory@ + "/"@
                + filename@,
            None => directory@.len() == 0 || !directory_exists,
        },
{
    if directory.unicode_len() == 0 || !directory_exists {
        None
    } else {
        let mut uri = "file://".to_owned();
        uri.append(directory);
        uri.append("/");
        uri.append(filename);
        Some(uri)
    }
}

/// Which rows tell of the language of spell checking: the label while the language
/// follows the locale, the chooser while the user picks it; neither while spell
/// checking is off.
pub fn spell_rows_visible(enabled: bool, auto_detect: bool) -> (r: (bool, bool))
    ensures
        r.0 == (enabled && auto_detect),
        r.1 == (enabled && !auto_detect),
{
    (enabled && auto_detect, enabled && !auto_detect)
}

/// What every user agent of the application begins with; the version follows.
pub const USER_AGENT_PREFIX: &'static str =
    "Mozilla/5.0 (X11; Linux x86_64) AppleWebKit/537.36 (KHTML, like Gecko) Chrome/131.0.0.0 Safari/537.36 Karere/";

/// What the application calls itself to the service.
pub fn user_agent(version: &str) -> (r: String)
    ensures
        r@ == USER_AGENT_PREFIX@ + version@,
{
    let mut agent = USER_AGENT_PREFIX.to_owned();
    agent.append(version);
    agent
}

/// Whether the application id is that of a development build.
pub fn is_development_build(app_id: &str) -> (r: bool)
    ensures
        r == occurs_from(app_id@, "Devel"@, 0),
{
    let id = chars_of(app_id);
    let mark = chars_of("Devel");
    find_from(&id, &mark, 0).is_some()
}

/// The name under which the application shows itself.
pub fn application_name(app_id: &str) -> (r: &'static str)
    ensures
        r@ == (if occurs_from(app_id@, "Devel"@, 0) {
            "Karere (Dev)"@
        } else {
            "Karere"@
        }),
{
    if is_development_build(app_id) {
        "Karere (Dev)"
    } else {
        "Karere"
    }
}

} // verus!
