//! What the status icon shows, and whether there is one.

use crate::text::{chars_of, find_from, matches_at, occurs_at, occurs_from, same_text, string_of};
use vstd::prelude::*;

verus! {

/// The application id where the environment names none.
pub const DEFAULT_APP_ID: &'static str = "io.github.tobagin.karere";

/// The colour that the symbolic icons are drawn in.
pub const ICON_INK: &'static str = "#2e3436";

/// What `str::to_lowercase` returns for `s`: its lowercase equivalent by the
/// Unicode rules.
pub uninterp spec fn lowercase(s: Seq<char>) -> Seq<char>;

/// `str::to_lowercase`: the lowercase equivalent of the string.
#[verifier::external_body]
fn to_lowercase(s: &str) -> (r: String)
    ensures
        r@ == lowercase(s@),
{
    s.to_lowercase()
}

/// Whether a status icon is wanted, given the setting and the name of the desktop
/// in lower case: never where the setting is `disabled`, always where it is
/// `enabled`, and else on every desktop but GNOME.
pub open spec fn tray_wanted(behavior: Seq<char>, lowered_desktop: Seq<char>) -> bool {
    if behavior == "disabled"@ {
        false
    } else if behavior == "enabled"@ {
        true
    } else {
        !occurs_from(lowered_desktop, "gnome"@, 0)
    }
}

/// Whether a status icon is wanted, given the setting and the name of the desktop
/// in lower case.
pub fn wants_tray(behavior: &str, lowered_desktop: &str) -> (r: bool)
    ensures
        r == tray_wanted(behavior@, lowered_desktop@),
{
    if same_text(behavior, "disabled") {
        false
    } else if same_text(behavior, "enabled") {
        true
    } else {
        let desktop = chars_of(lowered_desktop);
        let gnome = chars_of("gnome");
        find_from(&desktop, &gnome, 0).is_none()
    }
}

/// Whether a status icon is wanted, given the setting and the name of the desktop.
pub fn should_spawn_tray(behavior: &str, desktop: &str) -> (r: bool)
    ensures
        r == tray_wanted(behavior@, lowercase(desktop@)),
{
    let lowered = to_lowercase(desktop);
    wants_tray(behavior, lowered.as_str())
}

/// Whether the window is shown at the start: always without a status icon, since
/// nothing else leads to the window then; else unless a hidden start is asked for.
pub fn initial_visibility(has_tray: bool, start_hidden: bool) -> (r: bool)
    ensures
        r == (!has_tray || !start_hidden),
{
    if !has_tray {
        true
    } else {
        !start_hidden
    }
}

/// The name of the status icon of the application `app_id`.
pub open spec fn icon_name_of(app_id: Seq<char>, has_unread: bool) -> Seq<char> {
    if has_unread {
        app_id + "-new-message-symbolic"@
    } else {
        app_id + "-symbolic"@
    }
}

/// The name of the status icon: another one while something is unread.
pub fn tray_icon_name(app_id: &str, has_unread: bool) -> (r: String)
    ensures
        r@ == icon_name_of(app_id@, has_unread),
{
    let mut name = app_id.to_owned();
    if has_unread {
        name.append("-new-message-symbolic");
    } else {
        name.append("-symbolic");
    }
    name
}

/// What the first entry of the menu of the status icon says.
pub fn window_menu_label(window_visible: bool) -> (r: &'static str)
    ensures
        r@ == (if window_visible {
            "Hide Window"@
        } else {
            "Show Window"@
        }),
{
    if window_visible {
        "Hide Window"
    } else {
        "Show Window"
    }
}

/// The files in which the icon `icon_name` is looked for, in this order.
pub fn icon_candidates(home: &str, icon_name: &str) -> (r: Vec<String>)
    ensures
        r@.len() == 3,
        r@[0]@ == "/app/share/icons/hicolor/symbolic/apps/"@ + icon_name@ + ".svg"@,
        r@[1]@ == "/usr/share/icons/hicolor/symbolic/apps/"@ + icon_name@ + ".svg"@,
        r@[2]@ == home@ + "/.local/share/icons/hicolor/symbolic/apps/"@ + icon_name@ + ".svg"@,
{
    let mut sandbox = "/app/share/icons/hicolor/symbolic/apps/".to_owned();
    sandbox.append(icon_name);
    sandbox.append(".svg");
    let mut system = "/usr/share/icons/hicolor/symbolic/apps/".to_owned();
    system.append(icon_name);
    system.append(".svg");
    let mut user = home.to_owned();
    user.append("/.local/share/icons/hicolor/symbolic/apps/");
    user.append(icon_name);
    user.append(".svg");
    let mut out: Vec<String> = Vec::new();
    out.push(sandbox);
    out.push(system);
    out.push(user);
    out
}

/// `s` with every occurrence of `pattern` replaced by `with`, going from left to
/// right; occurrences do not overlap. An empty pattern occurs nowhere.
pub open spec fn replaced_all(s: Seq<char>, pattern: Seq<char>, with: Seq<char>) -> Seq<char>
    decreases s.len(),
{
    if pattern.len() == 0 || s.len() == 0 {
        s
    } else if occurs_at(s, pattern, 0) {
        with + replaced_all(s.skip(pattern.len() as int), pattern, with)
    } else {
        seq![s[0]] + replaced_all(s.skip(1), pattern, with)
    }
}

/// The colour that the icon is drawn in on a dark or on a light panel.
pub fn ink_for(is_dark: bool) -> (r: &'static str)
    ensures
        r@ == (if is_dark {
            "#ffffff"@
        } else {
            "#000000"@
        }),
{
    if is_dark {
        "#ffffff"
    } else {
        "#000000"
    }
}

/// `text` with every occurrence of `pattern` replaced by `with`.
pub fn replace_all(text: &Vec<char>, pattern: &Vec<char>, with: &Vec<char>) -> (r: Vec<char>)
    ensures
        r@ == replaced_all(text@, pattern@, with@),
{
    let mut out: Vec<char> = Vec::new();
    if pattern.len() == 0 {
        let mut k: usize = 0;
        while k < text.len()
            invariant
                k <= text.len(),
                out@ == text@.take(k as int),
            decreases text.len() - k,
        {
            out.push(text[k]);
            assert(text@.take(k + 1) =~= text@.take(k as int).push(text@[k as int]));
            k += 1;
        }
        assert(text@.take(text@.len() as int) =~= text@);
        return out;
    }
    let mut i: usize = 0;
    assert(text@.skip(0) =~= text@);
    while i < text.len()
        invariant
            i <= text.len(),
            pattern.len() > 0,
            out@ + replaced_all(text@.skip(i as int), pattern@, with@) == replaced_all(text@, pattern@, with@),
        decreases text.len() - i,
    {
        let ghost rest = text@.skip(i as int);
        let ghost done = out@;
        if matches_at(text, pattern, i) {
            assert(occurs_at(rest, pattern@, 0)) by {
                assert(rest.subrange(0, pattern@.len() as int) =~= text@.subrange(
                    i as int,
                    i + pattern@.len(),
                ));
            }
            let mut k: usize = 0;
            while k < with.len()
                invariant
                    k <= with.len(),
                    out@ == done + with@.take(k as int),
                decreases with.len() - k,
            {
                out.push(with[k]);
                assert(with@.take(k + 1) =~= with@.take(k as int).push(with@[k as int]));
                k += 1;
            }
            assert(with@.take(with@.len() as int) =~= with@);
            assert(rest.skip(pattern@.len() as int) =~= text@.skip(i + pattern@.len()));
            assert(out@ + replaced_all(text@.skip(i + pattern@.len()), pattern@, with@) =~= done + (with@
                + replaced_all(rest.skip(pattern@.len() as int), pattern@, with@)));
            i += pattern.len();
        } else {
            assert(!occurs_at(rest, pattern@, 0)) by {
                if i + pattern@.len() <= text@.len() {
                    assert(rest.subrange(0, pattern@.len() as int) =~= text@.subrange(
                        i as int,
                        i + pattern@.len(),
                    ));
                }
            }
            out.push(text[i]);
            assert(rest.skip(1) =~= text@.skip(i + 1));
            assert(rest[0] == text@[i as int]);
            assert(out@ + replaced_all(text@.skip(i + 1), pattern@, with@) =~= done + (seq![rest[0]]
                + replaced_all(rest.skip(1), pattern@, with@)));
            i += 1;
        }
    }
    assert(replaced_all(text@.skip(i as int), pattern@, with@) =~= Seq::<char>::empty());
    assert(out@ + Seq::<char>::empty() =~= out@);
    out
}

/// The symbolic icon `svg` drawn for a dark or a light panel: its ink replaced by
/// white or black.
pub fn themed_icon(svg: &str, is_dark: bool) -> (r: String)
    ensures
        r@ == replaced_all(svg@, ICON_INK@, if is_dark {
            "#ffffff"@
        } else {
            "#000000"@
        }),
{
    let text = chars_of(svg);
    let pattern = chars_of(ICON_INK);
    let with = chars_of(ink_for(is_dark));
    let out = replace_all(&text, &pattern, &with);
    string_of(&out)
}

} // verus!
