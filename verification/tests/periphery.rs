use karere::avatar::{account_row_label, parse_rgb, row_controls, RowControls};
use karere::release_notes::{get_release_notes, release_notes_by, release_notes_in, trim, trim_by};
use karere::settings::{
    application_name, color_scheme_for, dictionary_count_text, download_destination,
    download_directory_subtitle, is_development_build, spell_rows_visible, theme_index, theme_name,
    tray_setting_index, tray_setting_name, user_agent, ColorScheme,
};
use karere::spellcheck::{dictionary_names, valid_languages};
use karere::text::{
    chars_of, comes_before, decimal_string, ends_with, find_char, find_from, matches_at, same_text,
    starts_with, string_of,
};
use karere::tray::{
    icon_candidates, initial_visibility, replace_all, should_spawn_tray, themed_icon,
    tray_icon_name, wants_tray, window_menu_label,
};

fn strings(list: &[&str]) -> Vec<String> {
    list.iter().map(|s| s.to_string()).collect()
}

fn chars(s: &str) -> Vec<char> {
    s.chars().collect()
}

const METAINFO: &str = r#"<component>
  <releases>
    <release version="2.1.0" date="2025-02-01">
      <description>
        <p>Accounts</p>
      </description>
    </release>
    <release version="2.0.0" date="2025-01-01">
      <description>

        <p>Rewritten</p>
        <p>Faster</p>
      </description>
    </release>
  </releases>
</component>"#;

#[test]
fn text_helpers_agree_with_std() {
    let samples = ["", "a", "ab", "abc", "h\u{e9}llo", "a:b:c", "\u{1F4AC}x", "zz", "ab\u{0}"];
    for a in samples {
        assert_eq!(chars_of(a), a.chars().collect::<Vec<char>>());
        assert_eq!(string_of(&chars(a)), a);
        for b in samples {
            assert_eq!(same_text(a, b), a == b);
            assert_eq!(starts_with(&chars(a), &chars(b)), a.starts_with(b), "{:?} {:?}", a, b);
            assert_eq!(ends_with(&chars(a), &chars(b)), a.ends_with(b), "{:?} {:?}", a, b);
            assert_eq!(comes_before(&chars(a), &chars(b)), a < b, "{:?} {:?}", a, b);
            let found = find_from(&chars(a), &chars(b), 0);
            let expected = a.find(b).map(|at| a[..at].chars().count());
            assert_eq!(found, expected, "{:?} {:?}", a, b);
        }
        for c in [':', 'a', 'b', '\u{e9}'] {
            let expected = a.chars().position(|x| x == c);
            assert_eq!(find_char(&chars(a), c), expected);
        }
    }
    assert_eq!(find_from(&chars("abcabc"), &chars("bc"), 2), Some(4));
    assert_eq!(find_from(&chars("abcabc"), &chars("bc"), 5), None);
    assert_eq!(find_from(&chars("abc"), &chars(""), 3), Some(3));
    assert_eq!(find_from(&chars("abc"), &chars(""), 4), None);
    assert!(matches_at(&chars("abc"), &chars("bc"), 1));
    assert!(!matches_at(&chars("abc"), &chars("bc"), 2));
    assert!(!matches_at(&chars("abc"), &chars("bc"), 7));
}

#[test]
fn numbers_are_written_in_decimal() {
    for n in [0u64, 1, 9, 10, 11, 99, 100, 1_730_000_000, u64::MAX] {
        assert_eq!(decimal_string(n), n.to_string());
    }
}

#[test]
fn release_notes_stand_between_the_marks_behind_the_version() {
    assert_eq!(release_notes_in(METAINFO, "2.0.0"), Some("<p>Rewritten</p>\n        <p>Faster</p>".to_string()));
    assert_eq!(release_notes_in(METAINFO, "2.1.0"), Some("<p>Accounts</p>".to_string()));
    assert_eq!(release_notes_in(METAINFO, "3.0.0"), None);
    assert_eq!(release_notes_in("", "2.0.0"), None);
    assert_eq!(release_notes_in("version=\"1\" <description>", "1"), None);
    assert_eq!(release_notes_in("version=\"1\" </description><description>x", "1"), None);
    assert_eq!(release_notes_in("<description>a</description> version=\"1\"", "1"), None);
    assert_eq!(release_notes_in("version=\"1\"<description></description>", "1"), Some("".to_string()));
    assert_eq!(release_notes_in("version=\"1\"<description> \t\n </description>", "1"), Some("".to_string()));
    assert_eq!(
        release_notes_in("version=\"1\"<description>\u{a0}a b\u{2003}</description>", "1"),
        Some("a b".to_string())
    );
}

#[test]
fn release_notes_come_from_the_first_text_that_has_them() {
    let texts = strings(&["nothing here", "version=\"2.0.0\"", METAINFO, "version=\"2.0.0\"<description>x</description>"]);
    assert_eq!(get_release_notes(&texts, "2.0.0"), "<p>Rewritten</p>\n        <p>Faster</p>");
    assert_eq!(get_release_notes(&texts, "9"), "");
    assert_eq!(get_release_notes(&Vec::new(), "2.0.0"), "");
}

#[test]
fn trimming_goes_by_the_marks_given() {
    assert_eq!(trim(&chars("  a b \n")), chars("a b"));
    assert_eq!(trim(&chars("   ")), chars(""));
    assert_eq!(trim(&chars("")), chars(""));
    assert_eq!(trim(&chars("ab")), chars("ab"));
    assert_eq!(trim_by(&chars("xxaxbx"), &vec![true, true, false, true, false, true]), chars("axb"));
    assert_eq!(trim_by(&chars("abc"), &vec![false, true, false]), chars("abc"));
    assert_eq!(trim_by(&chars("abc"), &vec![true, true, true]), chars(""));
    assert_eq!(trim_by(&chars("abc"), &vec![false, false]), chars(""));
    let content = chars("version=\"1\"<description>--x--</description>");
    let marks: Vec<bool> = content.iter().map(|c| *c == '-').collect();
    assert_eq!(release_notes_by(&content, "1", &marks), Some("x".to_string()));
    assert_eq!(release_notes_by(&content, "1", &marks[1..].to_vec()), None);
    assert_eq!(release_notes_by(&content, "2", &marks), None);
}

#[test]
fn the_status_icon_is_wanted_outside_gnome() {
    assert!(!should_spawn_tray("disabled", "KDE"));
    assert!(should_spawn_tray("enabled", "GNOME"));
    assert!(should_spawn_tray("auto", "KDE"));
    assert!(!should_spawn_tray("auto", "GNOME"));
    assert!(!should_spawn_tray("auto", "ubuntu:GNOME"));
    assert!(!should_spawn_tray("whatever", "Gnome-Classic"));
    assert!(should_spawn_tray("auto", ""));
    assert!(should_spawn_tray("", "XFCE"));
    assert!(wants_tray("auto", "kde"));
    assert!(!wants_tray("auto", "x-gnome"));
    assert!(wants_tray("auto", "GNOME"));
    assert!(!wants_tray("disabled", "kde"));
    assert!(wants_tray("enabled", "gnome"));
}

#[test]
fn the_window_is_shown_unless_a_hidden_start_with_icon_is_asked_for() {
    assert!(initial_visibility(false, false));
    assert!(initial_visibility(false, true));
    assert!(initial_visibility(true, false));
    assert!(!initial_visibility(true, true));
}

#[test]
fn the_status_icon_tells_of_unread_messages() {
    assert_eq!(tray_icon_name("io.github.tobagin.karere", false), "io.github.tobagin.karere-symbolic");
    assert_eq!(tray_icon_name("io.github.tobagin.karere", true), "io.github.tobagin.karere-new-message-symbolic");
    assert_eq!(window_menu_label(true), "Hide Window");
    assert_eq!(window_menu_label(false), "Show Window");
    assert_eq!(
        icon_candidates("/home/u", "k-symbolic"),
        strings(&[
            "/app/share/icons/hicolor/symbolic/apps/k-symbolic.svg",
            "/usr/share/icons/hicolor/symbolic/apps/k-symbolic.svg",
            "/home/u/.local/share/icons/hicolor/symbolic/apps/k-symbolic.svg",
        ])
    );
}

#[test]
fn the_icon_is_drawn_in_the_ink_of_the_panel() {
    let svg = "<path fill=\"#2e3436\"/><path stroke=\"#2E3436\" fill=\"#2e3436\"/>";
    assert_eq!(themed_icon(svg, false), svg.replace("#2e3436", "#000000"));
    assert_eq!(themed_icon(svg, true), svg.replace("#2e3436", "#ffffff"));
    assert_eq!(themed_icon("", true), "");
    for (text, pattern, with) in
        [("aaaa", "aa", "b"), ("aaa", "aa", "b"), ("abcabc", "bc", ""), ("abc", "abcd", "x"), ("abab", "ab", "abab"), ("xyz", "", "q")]
    {
        let expected = if pattern.is_empty() { text.to_string() } else { text.replace(pattern, with) };
        assert_eq!(replace_all(&chars(text), &chars(pattern), &chars(with)), chars(&expected));
    }
}

#[test]
fn settings_map_to_rows_and_back() {
    assert_eq!(color_scheme_for("light"), ColorScheme::ForceLight);
    assert_eq!(color_scheme_for("dark"), ColorScheme::ForceDark);
    assert_eq!(color_scheme_for("system"), ColorScheme::Default);
    assert_eq!(color_scheme_for("Light"), ColorScheme::Default);
    assert_eq!((theme_index("system"), theme_index("light"), theme_index("dark"), theme_index("x")), (0, 1, 2, 0));
    assert_eq!((theme_name(0), theme_name(1), theme_name(2), theme_name(7)), ("system", "light", "dark", "system"));
    assert_eq!(
        (tray_setting_index("auto"), tray_setting_index("enabled"), tray_setting_index("disabled"), tray_setting_index("")),
        (0, 1, 2, 0)
    );
    assert_eq!(
        (tray_setting_name(0), tray_setting_name(1), tray_setting_name(2), tray_setting_name(3)),
        ("auto", "enabled", "disabled", "auto")
    );
    for i in 0..3 {
        assert_eq!(theme_index(theme_name(i)), i);
        assert_eq!(tray_setting_index(tray_setting_name(i)), i);
    }
}

#[test]
fn what_the_preferences_say() {
    assert_eq!(dictionary_count_text(0), "0 Dictionaries");
    assert_eq!(dictionary_count_text(1), "1 Dictionary");
    assert_eq!(dictionary_count_text(2), "2 Dictionaries");
    assert_eq!(dictionary_count_text(120), "120 Dictionaries");
    assert_eq!(download_directory_subtitle(""), "Default (Downloads)");
    assert_eq!(download_directory_subtitle("/home/u/dl"), "/home/u/dl");
    assert_eq!(download_destination("/home/u/dl", true, "a.pdf"), Some("file:///home/u/dl/a.pdf".to_string()));
    assert_eq!(download_destination("/home/u/dl", false, "a.pdf"), None);
    assert_eq!(download_destination("", true, "a.pdf"), None);
    assert_eq!(spell_rows_visible(true, true), (true, false));
    assert_eq!(spell_rows_visible(true, false), (false, true));
    assert_eq!(spell_rows_visible(false, true), (false, false));
    assert_eq!(spell_rows_visible(false, false), (false, false));
    assert!(user_agent("2.0.0").ends_with("Safari/537.36 Karere/2.0.0"));
    assert!(user_agent("2.0.0").starts_with("Mozilla/5.0 (X11; Linux x86_64) AppleWebKit/537.36"));
    assert!(is_development_build("io.github.tobagin.karere.Devel"));
    assert!(!is_development_build("io.github.tobagin.karere"));
    assert_eq!(application_name("io.github.tobagin.karere.Devel"), "Karere (Dev)");
    assert_eq!(application_name("io.github.tobagin.karere"), "Karere");
}

#[test]
fn dictionaries_are_named_once_and_in_order() {
    let files = strings(&["en_US.dic", "en_US.aff", "de_DE.dic", "README", "en_GB.dic", "de_DE.dic", ".dic", "x.dic.bak", "fr.DIC"]);
    assert_eq!(dictionary_names(&files), strings(&["", "de_DE", "en_GB", "en_US"]));
    assert!(dictionary_names(&[]).is_empty());
    let mut many: Vec<String> = ["b", "a", "\u{e9}", "B", "ab", "a", "aa", "z", "\u{1F4AC}"].iter().map(|s| format!("{}.dic", s)).collect();
    let got = dictionary_names(&many);
    many.iter_mut().for_each(|s| s.truncate(s.len() - 4));
    many.sort();
    many.dedup();
    assert_eq!(got, many);
}

#[test]
fn only_available_languages_are_kept() {
    let available = strings(&["de_DE", "en_GB", "en_US"]);
    assert_eq!(valid_languages(&strings(&["en_US", "xx", "de_DE", "en_US"]), &available), strings(&["en_US", "de_DE", "en_US"]));
    assert!(valid_languages(&strings(&["xx"]), &available).is_empty());
    assert!(valid_languages(&[], &available).is_empty());
    assert!(valid_languages(&strings(&["en_US"]), &[]).is_empty());
}

fn as_the_parser_of_std(color: &str) -> Option<(u8, u8, u8)> {
    let hex = color.trim_start_matches('#');
    let part = |from: usize, fallback: u8| -> Option<u8> {
        hex.get(from..from + 2).map(|p| u8::from_str_radix(p, 16).unwrap_or(fallback))
    };
    Some((part(0, 53)?, part(2, 132)?, part(4, 228)?))
}

#[test]
fn colours_are_read_as_red_green_blue() {
    assert_eq!(parse_rgb("#3584e4"), (53, 132, 228));
    assert_eq!(parse_rgb("#000000"), (0, 0, 0));
    assert_eq!(parse_rgb("#FFffFf"), (255, 255, 255));
    assert_eq!(parse_rgb("ff0080"), (255, 0, 128));
    assert_eq!(parse_rgb("##ff0080"), (255, 0, 128));
    assert_eq!(parse_rgb("#zz00g0"), (53, 0, 228));
    assert_eq!(parse_rgb("#+a-1+f"), (10, 132, 15));
    assert_eq!(parse_rgb("#ff"), (255, 132, 228));
    assert_eq!(parse_rgb(""), (53, 132, 228));
    assert_eq!(parse_rgb("#ff00801234"), (255, 0, 128));
    let alphabet = ['0', '9', 'a', 'f', 'g', 'A', 'F', 'G', '+', '-', '#', ' ', '/', ':', '@', '`', '\u{e9}'];
    for a in alphabet {
        for b in alphabet {
            for c in ['0', 'x', '+'] {
                let color = format!("#{}{}{}{}{}{}", a, b, c, a, b, c);
                if let Some(expected) = as_the_parser_of_std(&color) {
                    assert_eq!(parse_rgb(&color), expected, "{:?}", color);
                }
            }
        }
    }
}

#[test]
fn the_row_of_an_account() {
    assert_eq!(account_row_label("Work", false), "Work");
    assert_eq!(account_row_label("Work", true), "\u{25CF} Work");
    assert_eq!(row_controls("default", false, false), RowControls { move_up: false, move_down: false, delete: false });
    assert_eq!(row_controls("work", false, false), RowControls { move_up: true, move_down: true, delete: true });
    assert_eq!(row_controls("work", true, false), RowControls { move_up: false, move_down: true, delete: true });
    assert_eq!(row_controls("work", false, true), RowControls { move_up: true, move_down: false, delete: true });
    assert_eq!(row_controls("work", true, true), RowControls { move_up: false, move_down: false, delete: true });
}
