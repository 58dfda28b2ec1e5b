use cirula::app_entry::{build_entry, exclude_set, is_excluded, load_entry, AppEntry, ExcludeError};
use cirula::config::{Config, Field, NameOverride};
use cirula::desktop::{get_app_field, get_field, get_id_field, DesktopAttr, DesktopEntry, DesktopSection};
use cirula::history::{update_history, update_history_at, History, HistoryData};

fn attr(key: &str, value: &str) -> DesktopAttr {
    DesktopAttr { key: key.to_string(), param: None, values: vec![value.to_string()] }
}

fn desktop(attrs: Vec<DesktopAttr>) -> DesktopEntry {
    DesktopEntry {
        sections: vec![DesktopSection { title: "Desktop Entry".to_string(), attrs }],
    }
}

fn firefox() -> DesktopEntry {
    desktop(vec![
        attr("Name", "Firefox"),
        DesktopAttr {
            key: "Name".to_string(),
            param: Some("de".to_string()),
            values: vec!["Feuerfuchs".to_string()],
        },
        attr("Exec", "/usr/lib/firefox/firefox %u"),
        attr("Comment", "Browse the Web"),
        attr("Icon", "firefox"),
    ])
}

#[test]
fn history_reads_back_what_was_written() {
    let mut h = History::new();
    assert_eq!(h.get("a.desktop"), None);
    h.insert("a.desktop", HistoryData { last_used: 10, usage_count: 2 });
    h.insert("b.desktop", HistoryData { last_used: 20, usage_count: 1 });
    h.insert("a.desktop", HistoryData { last_used: 30, usage_count: 3 });
    assert_eq!(h.get("a.desktop"), Some(HistoryData { last_used: 30, usage_count: 3 }));
    assert_eq!(h.get("b.desktop"), Some(HistoryData { last_used: 20, usage_count: 1 }));
    assert_eq!(h.len(), 2);
    assert_eq!(h.entries().len(), 2);
}

#[test]
fn launches_count_up() {
    let mut h = History::new();
    update_history_at(&mut h, "a.desktop", 100);
    update_history_at(&mut h, "a.desktop", 200);
    assert_eq!(h.get("a.desktop"), Some(HistoryData { last_used: 200, usage_count: 2 }));
    assert!(update_history(&mut h, "b.desktop").is_ok());
    assert_eq!(h.get("b.desktop").unwrap().usage_count, 1);
    assert_eq!(h.len(), 2);
    assert!(h.get("b.desktop").unwrap().last_used > 200);
}

#[test]
fn pruning_keeps_recent_launches() {
    let mut h = History::new();
    h.insert("old", HistoryData { last_used: 100, usage_count: 1 });
    h.insert("new", HistoryData { last_used: 900_000, usage_count: 5 });
    h.insert("edge", HistoryData { last_used: 1_000_000 - 2 * 86400, usage_count: 1 });
    let mut kept = History::new();
    for e in h.entries() {
        kept.insert(&e.id, e.data);
    }
    kept.retain_recent(2, 1_000_000);
    assert_eq!(kept.get("old"), None);
    assert!(kept.get("new").is_some() && kept.get("edge").is_some());
    h.retain_recent(0, 1_000_000);
    assert_eq!(h.len(), 3);
    assert_eq!(HistoryData::default(), HistoryData { last_used: 0, usage_count: 0 });
}

#[test]
fn fields_of_desktop_entries() {
    let e = firefox();
    assert_eq!(e.get_attr("Name"), Some("Firefox".to_string()));
    assert_eq!(e.get_attr("Terminal"), None);
    assert_eq!(get_app_field(&e, Field::Executable), Some("firefox".to_string()));
    assert_eq!(get_app_field(&e, Field::Commandline), Some("/usr/lib/firefox/firefox %u".to_string()));
    assert_eq!(get_app_field(&e, Field::Comment), Some("Browse the Web".to_string()));
    assert_eq!(get_app_field(&e, Field::Id), None);
    assert_eq!(get_id_field("org.gnome.Nautilus.desktop", Field::Id), Some("org.gnome.Nautilus".to_string()));
    assert_eq!(get_id_field("org.gnome.Nautilus.desktop", Field::IdSuffix), Some("Nautilus".to_string()));
    assert_eq!(get_id_field("firefox.desktop", Field::IdSuffix), Some("firefox".to_string()));
    assert_eq!(get_id_field("firefox.desktop", Field::Comment), None);
    assert_eq!(get_field(&e, "firefox.desktop", Field::IdSuffix), Some("firefox".to_string()));
    let other_section = DesktopEntry {
        sections: vec![DesktopSection { title: "Desktop Action new".to_string(), attrs: vec![attr("Name", "New")] }],
    };
    assert_eq!(other_section.get_attr("Name"), None);
    let program_dir = desktop(vec![attr("Exec", "  ..  ")]);
    assert_eq!(get_app_field(&program_dir, Field::Executable), Some("..".to_string()));
    let dotted = desktop(vec![attr("Exec", "./opt//tool/./ --flag")]);
    assert_eq!(get_app_field(&dotted, Field::Executable), Some("tool".to_string()));
    let root = desktop(vec![attr("Exec", "/ x")]);
    assert_eq!(get_app_field(&root, Field::Executable), Some("/".to_string()));
}

#[test]
fn builds_listed_entries() {
    let config = Config::default();
    let h = History::new();
    let built = build_entry(&config, &h, false, "firefox.desktop", &firefox()).unwrap();
    let e = &built.entry;
    assert_eq!(e.id, "firefox.desktop");
    assert_eq!(e.name, "Firefox");
    // The id suffix "firefox" is contained in the name (ignoring case): hidden.
    assert_eq!(e.display_string, "Firefox");
    assert_eq!(e.extra_text, None);
    assert_eq!(e.search_string, "Firefox");
    assert_eq!(e.command_line, "/usr/lib/firefox/firefox %u");
    assert_eq!(e.score, 100);
    assert!(!e.is_terminal);
    assert_eq!(built.icon_name, Some("firefox".to_string()));

    let mut shown = Config::default();
    shown.hide_extra_if_contained = false;
    shown.extra_field_newline = true;
    shown.hidden_fields = vec![Field::Comment, Field::Id];
    let built = build_entry(&shown, &h, false, "firefox.desktop", &firefox()).unwrap();
    assert_eq!(built.entry.display_string, "Firefox\nfirefox");
    assert_eq!(built.entry.extra_text, Some("firefox".to_string()));
    assert_eq!(built.entry.search_string, "Firefox\nfirefox Browse the Web firefox");
}

#[test]
fn name_overrides_and_history() {
    let mut config = Config::default();
    config.name_overrides = vec![NameOverride {
        app_id: "firefox".to_string(),
        name: "Web\rBrowser\rNightly".to_string(),
    }];
    config.frequent_first = true;
    let mut h = History::new();
    h.insert("firefox.desktop", HistoryData { last_used: 7, usage_count: 3 });
    let built = build_entry(&config, &h, false, "firefox.desktop", &firefox()).unwrap();
    assert_eq!(built.entry.display_string, "Web Browser Nightly");
    assert_eq!(built.entry.extra_text, Some("Browser\rNightly".to_string()));
    assert_eq!(built.entry.history, HistoryData { last_used: 7, usage_count: 3 });
    config.recent_first = false;
    let built = build_entry(&config, &h, false, "firefox.desktop", &firefox()).unwrap();
    assert_eq!(built.entry.history, HistoryData { last_used: 0, usage_count: 3 });
}

#[test]
fn entries_left_out() {
    let config = Config::default();
    let h = History::new();
    let mut hidden = firefox();
    hidden.sections[0].attrs.push(attr("NoDisplay", "true"));
    assert!(build_entry(&config, &h, false, "firefox.desktop", &hidden).is_none());
    let mut hidden2 = firefox();
    hidden2.sections[0].attrs.push(attr("Hidden", "true"));
    assert!(build_entry(&config, &h, false, "firefox.desktop", &hidden2).is_none());
    let mut shown = firefox();
    shown.sections[0].attrs.push(attr("NoDisplay", "false"));
    assert!(build_entry(&config, &h, false, "firefox.desktop", &shown).is_some());
    assert!(build_entry(&config, &h, true, "firefox.desktop", &firefox()).is_none());
    assert!(build_entry(&config, &h, false, "", &firefox()).is_none());
    let nameless = desktop(vec![attr("Exec", "foo")]);
    assert!(build_entry(&config, &h, false, "foo.desktop", &nameless).is_none());
    let no_exec = desktop(vec![attr("Name", "Foo")]);
    assert!(build_entry(&config, &h, false, "foo.desktop", &no_exec).is_none());
}

#[test]
fn terminal_entries() {
    let config = Config::default();
    let h = History::new();
    for (value, expected) in [("true", true), ("1", true), ("false", false), ("yes", false)] {
        let mut e = firefox();
        e.sections[0].attrs.push(attr("Terminal", value));
        let built = build_entry(&config, &h, false, "htop.desktop", &e).unwrap();
        assert_eq!(built.entry.is_terminal, expected);
    }
}

#[test]
fn loads_entries_from_desktop_files() {
    let mut config = Config::default();
    config.exclude = vec!["^steam".to_string()];
    let exclude = exclude_set(&config.exclude).unwrap();
    let h = History::new();
    let file = b"[Desktop Entry]\nName=Files\nExec=nautilus --new-window %U\nIcon=org.gnome.Nautilus\n";
    let loaded = load_entry(&config, &h, &exclude, "org.gnome.Nautilus.desktop", file).unwrap();
    assert_eq!(loaded.entry.name, "Files");
    assert_eq!(loaded.entry.display_string, "Files Nautilus");
    assert_eq!(loaded.entry.extra_text, Some("Nautilus".to_string()));
    assert_eq!(loaded.icon_name, Some("org.gnome.Nautilus".to_string()));
    assert!(load_entry(&config, &h, &exclude, "steam.desktop", file).is_none());
    assert!(load_entry(&config, &h, &exclude, "x.desktop", b"[Desktop Entry\nName=broken").is_none());
}

#[test]
fn exclusion_patterns() {
    let set = exclude_set(&vec!["^org\\.".to_string(), "vim$".to_string()]).unwrap();
    assert!(is_excluded(&set, "org.kde.dolphin.desktop"));
    assert!(!is_excluded(&set, "firefox.desktop"));
    let none = exclude_set(&Vec::new()).unwrap();
    assert!(!is_excluded(&none, "anything"));
    assert_eq!(exclude_set(&vec!["(".to_string()]).err(), Some(ExcludeError::InvalidPattern));
}

fn entry(name: &str, score: i64, usage: u32, last: u64) -> AppEntry {
    AppEntry {
        id: format!("{}.desktop", name),
        name: name.to_string(),
        display_string: name.to_string(),
        search_string: name.to_string(),
        extra_text: None,
        command_line: name.to_string(),
        icon_path: None,
        is_terminal: false,
        score,
        history: HistoryData { last_used: last, usage_count: usage },
    }
}

#[test]
fn matching_hiding_and_equality() {
    let mut e = entry("Firefox", 0, 0, 0);
    assert!(e.hidden());
    assert!(e.update_match("").is_empty());
    assert_eq!(e.score, 100);
    assert!(!e.hidden());
    let idx = e.update_match("ffx");
    assert!(e.score > 0);
    assert_eq!(idx, vec![0, 4, 6]);
    let _ = e.update_match("zzz");
    assert_eq!(e.score, 0);
    assert!(e.hidden());
    let mut f = entry("Files", 5, 1, 1);
    f.hide_entry();
    assert!(f.hidden());
    assert_eq!(f.name, "Files");
    assert!(entry("a", 1, 2, 3) == entry("b", 1, 2, 3));
    assert!(entry("a", 1, 2, 3) != entry("a", 1, 2, 4));
}

#[test]
fn matched_positions_stop_at_the_display_text() {
    let mut e = entry("Go", 0, 0, 0);
    e.search_string = "Go golang".to_string();
    let idx = e.update_match("gl");
    assert!(e.score > 0);
    assert!(idx.iter().all(|&i| i < 2));
}
