use cirula::app_entry::AppEntry;
use cirula::history::{History, HistoryData};
use cirula::icons::{icon_candidates, icon_search_dirs, join_path};
use cirula::launch::{app_command, command_text, command_words, is_cmd, scope_app_name, scoped_command};
use cirula::launcher::{Action, Key, Launcher, Message};
use cirula::order::{collator_for, rank_shown, sort_entries, string_collate};
use std::cmp::Ordering;

fn entry(name: &str, score: i64, usage: u32, last: u64) -> AppEntry {
    AppEntry {
        id: format!("{}.desktop", name.to_lowercase()),
        name: name.to_string(),
        display_string: name.to_string(),
        search_string: name.to_string(),
        extra_text: None,
        command_line: name.to_lowercase(),
        icon_path: None,
        is_terminal: false,
        score,
        history: HistoryData { last_used: last, usage_count: usage },
    }
}

fn names(v: &[AppEntry]) -> Vec<&str> {
    v.iter().map(|e| e.name.as_str()).collect()
}

#[test]
fn typed_commands() {
    assert!(is_cmd(":ls -l", ":"));
    assert!(!is_cmd("ls", ":"));
    assert!(!is_cmd(":ls", ""));
    assert_eq!(command_text(":  ls -l  ", ":"), "ls -l");
    assert_eq!(command_words("ls -l 'my file' \"x y\" # comment"), vec!["ls", "-l", "my file", "x y"]);
    assert!(command_words("   ").is_empty());
}

#[test]
fn application_commands() {
    assert_eq!(
        app_command("firefox %u", false, None, None),
        Some(vec!["firefox".to_string()])
    );
    assert_eq!(
        app_command("gimp %F --new", false, None, None),
        Some(vec!["gimp".to_string(), "--new".to_string()])
    );
    assert_eq!(
        app_command("htop", true, Some("foot -e {}"), Some("kitty")),
        Some(vec!["foot".to_string(), "-e".to_string(), "htop".to_string()])
    );
    assert_eq!(
        app_command("htop %U", true, None, Some("kitty")),
        Some(vec!["kitty".to_string(), "-e".to_string(), "htop".to_string()])
    );
    assert_eq!(app_command("htop", true, None, None), None);
}

#[test]
fn launch_scopes() {
    assert_eq!(scope_app_name("org.gnome.Nautilus.desktop"), "org.gnome.Nautilus");
    assert_eq!(scope_app_name("plain"), "plain");
    let cmd = vec!["nautilus".to_string(), "--new-window".to_string()];
    assert_eq!(
        scoped_command(&cmd, "org.gnome.Nautilus\n", 1234),
        vec!["systemd-run", "--scope", "--user", "--unit=app-sirula-org.gnome.Nautilus-1234", "nautilus", "--new-window"]
    );
}

#[test]
fn paths_and_icon_candidates() {
    assert_eq!(join_path("/usr/share", "pixmaps"), "/usr/share/pixmaps");
    assert_eq!(join_path("/usr/share/", "pixmaps"), "/usr/share/pixmaps");
    assert_eq!(join_path("/usr/share", "/opt/icon.svg"), "/opt/icon.svg");
    assert_eq!(join_path("", "a"), "a");
    let dirs = icon_search_dirs("/nix/a::/nix/b:", Some("/home/u"));
    assert_eq!(
        dirs,
        vec!["/nix/a", "/nix/b", "/run/current-system/sw/share", "/usr/share", "/usr/local/share", "/home/u/.local/share"]
    );
    assert_eq!(icon_search_dirs("", None), vec!["/run/current-system/sw/share", "/usr/share", "/usr/local/share"]);
    let only = vec!["/usr/share".to_string()];
    let c = icon_candidates(&only, "firefox");
    assert_eq!(c.len(), 1 + 40 + 480 + 440 + 1 + 1);
    assert_eq!(c[0], "/usr/share/pixmaps/firefox.svg");
    assert_eq!(c[1], "/usr/share/icons/hicolor/scalable/apps/firefox.svg");
    assert_eq!(c[2], "/usr/share/icons/hicolor/scalable/applications/firefox.svg");
    assert_eq!(c[41], "/usr/share/icons/hicolor/scalable/apps/firefox.svg");
    assert_eq!(c[46], "/usr/share/icons/hicolor/512x512/apps/firefox.svg");
    assert_eq!(c[521], "/usr/share/icons/hicolor/512x512/apps/firefox.png");
    assert_eq!(c[960], "/usr/share/icons/oxygen/16x16/devices/firefox.png");
    assert_eq!(c[961], "/usr/share/pixmaps/firefox.png");
    assert_eq!(c[962], "/usr/share/pixmaps/firefox.xpm");
    let svg = c.iter().position(|p| p.ends_with(".png")).unwrap();
    assert!(c[..svg].iter().all(|p| p.ends_with(".svg")));
}

#[test]
fn list_order() {
    let collator = collator_for(&None).unwrap();
    assert_eq!(string_collate(&collator, "a", "a"), Ordering::Equal);
    assert_eq!(string_collate(&collator, "apple", "Banana"), Ordering::Less);
    let a = entry("Zed", 100, 3, 0);
    let b = entry("Alpha", 100, 1, 50);
    assert_eq!(a.cmp(&b, &collator), Ordering::Less);
    assert_eq!(b.cmp(&a, &collator), Ordering::Greater);
    assert_eq!(entry("b", 7, 0, 0).cmp_with_collation(&entry("a", 7, 0, 0), Ordering::Greater), Ordering::Greater);
    let sorted = sort_entries(
        vec![
            entry("beta", 100, 0, 0),
            entry("Alpha", 100, 0, 0),
            entry("Recent", 100, 0, 10),
            entry("Often", 100, 4, 1),
            entry("Best", 200, 0, 0),
            entry("Hidden", 0, 9, 9),
        ],
        &collator,
    );
    assert_eq!(names(&sorted), vec!["Best", "Often", "Recent", "Alpha", "beta", "Hidden"]);
    let ranked = rank_shown(&sorted, &collator);
    assert_eq!(ranked, vec![0, 1, 2, 3, 4]);
    let unsorted = vec![entry("b", 1, 0, 0), entry("x", 0, 0, 0), entry("a", 5, 0, 0)];
    assert_eq!(rank_shown(&unsorted, &collator), vec![2, 0]);
}

fn launcher() -> Launcher {
    let entries = vec![entry("Firefox", 100, 0, 0), entry("Files", 100, 0, 0), entry("Terminal", 100, 0, 0)];
    Launcher::new(entries, History::new())
}

#[test]
fn keys_move_the_selection() {
    let collator = collator_for(&None).unwrap();
    let mut l = launcher();
    assert_eq!(l.filtered_indices, vec![0, 1, 2]);
    assert!(matches!(l.update(Message::KeyPressed(Key::ArrowUp), ":", &collator), Action::Nothing));
    assert!(matches!(l.update(Message::KeyPressed(Key::ArrowDown), ":", &collator), Action::ScrollTo(1)));
    assert!(matches!(l.update(Message::KeyPressed(Key::ArrowDown), ":", &collator), Action::ScrollTo(2)));
    assert!(matches!(l.update(Message::KeyPressed(Key::ArrowDown), ":", &collator), Action::ScrollTo(2)));
    assert!(matches!(l.update(Message::KeyPressed(Key::Tab), ":", &collator), Action::ScrollTo(0)));
    assert!(matches!(l.update(Message::KeyPressed(Key::Tab), ":", &collator), Action::ScrollTo(1)));
    assert!(matches!(l.update(Message::KeyPressed(Key::ArrowUp), ":", &collator), Action::ScrollTo(0)));
    assert!(matches!(l.update(Message::KeyPressed(Key::Other), ":", &collator), Action::Nothing));
    assert!(matches!(l.update(Message::KeyPressed(Key::Escape), ":", &collator), Action::Exit));
    assert!(matches!(l.update(Message::FocusInput, ":", &collator), Action::FocusInput));
    assert!(matches!(l.update(Message::Ignored, ":", &collator), Action::Nothing));
}

#[test]
fn typing_filters_and_submitting_launches() {
    let collator = collator_for(&None).unwrap();
    let mut l = launcher();
    assert!(matches!(l.update(Message::InputChanged("fi".to_string()), ":", &collator), Action::Nothing));
    assert_eq!(l.query, "fi");
    assert_eq!(l.selected, 0);
    assert!(l.entries[2].hidden());
    assert_eq!(l.filtered_indices.len(), 2);
    let first = l.filtered_indices[0];
    assert!(matches!(l.update(Message::Submit, ":", &collator), Action::LaunchEntry(i) if i == first));
    assert!(matches!(l.update(Message::Launch(2), ":", &collator), Action::LaunchEntry(2)));
    assert!(matches!(l.update(Message::Launch(7), ":", &collator), Action::Nothing));
    let _ = l.update(Message::InputChanged("qqqq".to_string()), ":", &collator);
    assert!(l.filtered_indices.is_empty());
    assert!(matches!(l.update(Message::Submit, ":", &collator), Action::Nothing));
    assert!(matches!(l.update(Message::KeyPressed(Key::Tab), ":", &collator), Action::Nothing));
    let _ = l.update(Message::InputChanged(String::new()), ":", &collator);
    assert_eq!(l.filtered_indices.len(), 3);
    assert!(l.entries.iter().all(|e| e.score == 100));
}

#[test]
fn typed_commands_hide_everything() {
    let collator = collator_for(&None).unwrap();
    let mut l = launcher();
    let _ = l.update(Message::InputChanged(":  htop ".to_string()), ":", &collator);
    assert!(l.filtered_indices.is_empty());
    assert!(l.entries.iter().all(|e| e.hidden()));
    match l.update(Message::Submit, ":", &collator) {
        Action::RunCommand(cmd) => assert_eq!(cmd, "htop"),
        _ => panic!("expected a command"),
    }
}

#[test]
fn collation_breaks_ties_and_ties_keep_positions() {
    let german = cirula::locale::AppLocale::parse("de-DE").unwrap();
    let collator = collator_for(&Some(german)).unwrap();
    assert_eq!(string_collate(&collator, "b", "a"), Ordering::Greater);
    assert_eq!(string_collate(&collator, "a", "b"), Ordering::Less);
    let a = entry("apple", 100, 0, 0);
    let b = entry("Banana", 100, 0, 0);
    assert_eq!(a.cmp(&b, &collator), Ordering::Less);
    assert_eq!(b.cmp(&a, &collator), Ordering::Greater);
    // Two entries that tie keep the order of their positions.
    let twins = vec![entry("Same", 100, 0, 0), entry("Other", 100, 0, 0), entry("Same", 100, 0, 0)];
    assert_eq!(rank_shown(&twins, &collator), vec![1, 0, 2]);
    let empty_history_list = sort_entries(vec![entry("zsh", 100, 0, 0), entry("Atom", 100, 0, 0), entry("mpv", 100, 0, 0)], &collator);
    assert_eq!(names(&empty_history_list), vec!["Atom", "mpv", "zsh"]);
}

#[test]
fn sorting_keeps_tied_entries_in_their_order() {
    let collator = collator_for(&None).unwrap();
    let mut first = entry("Same", 100, 0, 0);
    first.id = "first.desktop".to_string();
    let mut second = entry("Same", 100, 0, 0);
    second.id = "second.desktop".to_string();
    let sorted = sort_entries(vec![first, entry("Other", 100, 0, 0), second], &collator);
    let ids: Vec<&str> = sorted.iter().map(|e| e.id.as_str()).collect();
    assert_eq!(ids, vec!["other.desktop", "first.desktop", "second.desktop"]);
}

#[test]
fn collation_is_transitive_on_an_example() {
    let collator = collator_for(&None).unwrap();
    assert_eq!(string_collate(&collator, "apple", "Banana"), Ordering::Less);
    assert_eq!(string_collate(&collator, "Banana", "cherry"), Ordering::Less);
    assert_eq!(string_collate(&collator, "apple", "cherry"), Ordering::Less);
    let sorted = sort_entries(
        vec![entry("cherry", 100, 0, 0), entry("apple", 100, 0, 0), entry("Banana", 100, 0, 0)],
        &collator,
    );
    assert_eq!(names(&sorted), vec!["apple", "Banana", "cherry"]);
}
