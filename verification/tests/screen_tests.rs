use brewy::app::{App, SortMode, Tab};
use brewy::model::{Operation, Package, PackageKind, PackageState};
use brewy::screen::{
    filter_label, matches_caption, name_width, nav_label, pad_right, result_row, selection_caption,
    sort_caption, tab_caption, SyncState,
};

fn package(name: &str, kind: PackageKind, installed: bool, outdated: bool) -> Package {
    let mut p = Package::new(name.to_string(), kind);
    p.installed = installed;
    p.outdated = outdated;
    p
}

fn app_with(packages: Vec<Package>) -> App {
    let mut app = App::new();
    app.loading = false;
    app.catalog.packages = packages;
    app
}

#[test]
fn padding_fills_to_the_width_and_keeps_longer_text() {
    assert_eq!(pad_right("ab", 5), "ab   ");
    assert_eq!(pad_right("abcdef", 3), "abcdef");
    assert_eq!(pad_right("é", 3), "é  ");
    assert_eq!(pad_right("", 0), "");
}

#[test]
fn name_column_is_twenty_less_within_bounds() {
    assert_eq!(name_width(0), 12);
    assert_eq!(name_width(10), 12);
    assert_eq!(name_width(50), 30);
    assert_eq!(name_width(72), 52);
    assert_eq!(name_width(300), 52);
}

#[test]
fn result_row_cuts_pads_and_picks_the_installed_version() {
    let mut p = package("a-very-long-package-name", PackageKind::Formula, true, true);
    p.installed_version = Some("1.0".to_string());
    p.latest_version = Some("2.0".to_string());
    let row = result_row(&p, true, 12);
    assert!(row.staged);
    assert_eq!(row.name, "a-very-lo…  ");
    assert_eq!(row.status, "upgrade     ");
    assert_eq!(row.version, "1.0");
    assert_eq!(row.state, PackageState::Outdated);

    let mut q = package("jq", PackageKind::Cask, false, false);
    q.latest_version = Some("1\t7".to_string());
    let row = result_row(&q, false, 4);
    assert!(!row.staged);
    assert_eq!(row.name, "jq  ");
    assert_eq!(row.status, "cask        ");
    assert_eq!(row.version, "1 7");
    assert_eq!(row.state, PackageState::Available);
}

#[test]
fn preview_texts_fall_back_when_metadata_is_missing() {
    let mut p = package("wget", PackageKind::Formula, true, false);
    assert_eq!(p.preview_version(), "version loading…");
    assert_eq!(p.preview_description(), "Loading package description…");
    assert_eq!(p.preview_license(), "—");
    assert_eq!(p.preview_homepage(), "—");
    assert_eq!(p.listed_version(), "");
    p.installed_version = Some("1.21".to_string());
    assert_eq!(p.preview_version(), "1.21");
    p.latest_version = Some("1.24\u{1b}".to_string());
    assert_eq!(p.preview_version(), "1.24");
    assert_eq!(p.listed_version(), "1.21");
    p.description = Some("Internet\tfile retriever".to_string());
    p.license = Some("GPL-3.0-or-later".to_string());
    p.homepage = Some("https://www.gnu.org/software/wget/".to_string());
    assert_eq!(p.preview_description(), "Internet file retriever");
    assert_eq!(p.preview_license(), "GPL-3.0-or-later");
    assert_eq!(p.preview_homepage(), "https://www.gnu.org/software/wget/");
    assert_eq!(p.state(), PackageState::Installed);
}

#[test]
fn captions_read_as_the_interface_shows_them() {
    assert_eq!(tab_caption(Tab::Outdated), "outdated");
    assert_eq!(nav_label(Tab::Browse), " browse      ");
    assert_eq!(filter_label(Tab::Casks, 3), " casks  3 ");
    assert_eq!(matches_caption(7), "  7 matches");
    assert_eq!(sort_caption(SortMode::Status), "  ·  sorted by status");
    assert_eq!(selection_caption(12), "SELECTION  12");
    assert_eq!(SyncState::Syncing.label(), "syncing  ◌");
    assert_eq!(SyncState::Ready.label(), "ready  ●");
}

#[test]
fn result_rows_follow_the_listing_and_mark_staged_packages() {
    let mut app = app_with(vec![
        package("zsh", PackageKind::Formula, false, false),
        package("git", PackageKind::Formula, true, false),
        package("alacritty", PackageKind::Cask, false, false),
    ]);
    app.queue.push(Operation::Install { name: "zsh".to_string(), cask: false });
    let rows = app.result_rows(40);
    let names: Vec<String> = rows.iter().map(|r| r.name.trim_end().to_string()).collect();
    assert_eq!(names, vec!["alacritty", "git", "zsh"]);
    assert_eq!(rows[0].name.chars().count(), 20);
    assert!(!rows[0].staged);
    assert!(rows[2].staged);
    assert_eq!(rows[1].state, PackageState::Installed);
}

#[test]
fn activity_shows_the_last_six_log_lines_cut_to_the_panel() {
    let mut app = app_with(Vec::new());
    for i in 0..8 {
        app.log.push(format!("line {i} of output"));
    }
    let lines = app.activity_lines(16);
    assert_eq!(lines.len(), 6);
    assert_eq!(lines[0], "line 2 of…");
    assert_eq!(lines[5], "line 7 of…");
    assert_eq!(app.activity_lines(3)[0], "");
    assert_eq!(app.activity_title(), "LAST ACTIVITY");
    app.running = true;
    assert_eq!(app.activity_title(), "ACTIVITY  ●");
}

#[test]
fn side_bar_lists_the_staged_operations_that_fit() {
    let mut app = app_with(Vec::new());
    assert!(app.queue_lines(5).is_empty());
    app.queue.push(Operation::Install { name: "visual-studio-code".to_string(), cask: true });
    app.queue.push(Operation::Upgrade { name: "git".to_string(), cask: false });
    app.queue.push(Operation::Update);
    assert_eq!(app.queue_lines(2), vec!["install visual-st…", "upgrade git"]);
    assert_eq!(app.queue_lines(9).len(), 3);
}

#[test]
fn status_and_empty_preview_texts() {
    let mut app = app_with(Vec::new());
    app.status = "Ready\u{7}".to_string();
    assert_eq!(app.status_line(), "Ready");
    app.queue.push(Operation::Update);
    assert_eq!(app.status_line(), "1 selected");
    assert_eq!(app.empty_preview_text(), "No matching package");
    app.loading = true;
    assert_eq!(app.empty_preview_text(), "Reading Homebrew metadata…");
    assert_eq!(app.sync_state(), SyncState::Syncing);
    app.loading = false;
    assert_eq!(app.sync_state(), SyncState::Ready);
    app.tab = Tab::Taps;
    assert_eq!(app.selected_tap_text(), "No tap selected");
    app.catalog.taps.push("homebrew/cask-fonts".to_string());
    assert_eq!(app.selected_tap_text(), "homebrew/cask-fonts");
}

#[test]
fn shown_text_never_carries_control_characters() {
    let mut p = package("evil\u{1b}[31mname", PackageKind::Formula, false, false);
    p.latest_version = Some("1\u{7}.0".to_string());
    p.description = Some("a\u{9b}b\r".to_string());
    let row = result_row(&p, false, 30);
    assert_eq!(row.name.trim_end(), "evil[31mname");
    assert_eq!(row.version, "1.0");
    assert_eq!(p.preview_description(), "ab");
    for text in [row.name, row.version, p.preview_version(), p.preview_description()] {
        assert!(!text.chars().any(|c| c.is_control()));
    }
    let mut app = app_with(Vec::new());
    app.log.push("\u{1b}]52;secret\u{7}done".to_string());
    assert_eq!(app.activity_lines(40), vec!["]52;secretdone"]);
}

#[test]
fn action_hint_and_layout_choices() {
    let installed = package("jq", PackageKind::Formula, true, false);
    assert_eq!(brewy::screen::action_hint(&installed), "  uninstall now");
    let outdated = package("jq", PackageKind::Formula, true, true);
    assert_eq!(brewy::screen::action_hint(&outdated), "  upgrade now");
    assert_eq!(brewy::screen::action_hint(&package("jq", PackageKind::Cask, false, false)), "  install now");
    assert_eq!(brewy::screen::queue_placeholder(0), Some("Nothing selected"));
    assert_eq!(brewy::screen::queue_placeholder(2), None);
    assert!(brewy::screen::wide_layout(105));
    assert!(!brewy::screen::wide_layout(104));
    assert_eq!(brewy::screen::page_margin(91), 2);
    assert_eq!(brewy::screen::page_margin(90), 1);
    assert_eq!(brewy::screen::stacked_preview_height(true), 7);
    assert_eq!(brewy::screen::stacked_preview_height(false), 0);
    assert!(brewy::screen::shows_subtitle(62));
    assert!(!brewy::screen::shows_subtitle(61));
}
