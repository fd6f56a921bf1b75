use brewy::app::{tab_count, App, Effect, KeyCode, KeyInput, MouseInput, Overlay, SortMode, Tab};
use brewy::catalog::{BrewItem, BrewJson, Catalog, OneOrMany};
use brewy::fuzzy::fuzzy_score;
use brewy::model::{operation_for, Operation, Package, PackageKind};
use brewy::text::{listed_lines, sanitize_text, trimmed, truncate};
use brewy::worker::{
    cache_is_current, capture_failure, collect_catalog, command_line, detail_command,
    needs_metadata_refresh,
    OperationRunner, WorkerEvent,
};

fn key(code: KeyCode) -> KeyInput {
    KeyInput { code, control: false, alt: false }
}

fn control(code: KeyCode) -> KeyInput {
    KeyInput { code, control: true, alt: false }
}

fn alt(code: KeyCode) -> KeyInput {
    KeyInput { code, control: false, alt: true }
}

fn package(name: &str, kind: PackageKind, installed: bool, outdated: bool) -> Package {
    let mut p = Package::new(name.to_string(), kind);
    p.installed = installed;
    p.outdated = outdated;
    p
}

fn app_with(packages: Vec<Package>) -> App {
    let mut app = App::new();
    app.loading = false;
    app.catalog.packages = packages;
    app
}

fn names(app: &App) -> Vec<String> {
    app.filtered_indices()
        .into_iter()
        .map(|i| app.catalog.packages[i].name.clone())
        .collect()
}

// ----- fuzzy matching -------------------------------------------------------

#[test]
fn exact_match_ignores_case_and_scores_highest() {
    assert_eq!(fuzzy_score("RipGrep", "ripGREP"), Some(10000));
    assert_eq!(fuzzy_score("ripgrep", ""), Some(0));
}

#[test]
fn whole_query_scores_by_byte_position_and_length() {
    // 5000 - 8 * 3 bytes before "grep" - 7 bytes in all
    assert_eq!(fuzzy_score("ripgrep", "grep"), Some(4969));
    // "é" takes two bytes: 5000 - 8 * 2 - 3
    assert_eq!(fuzzy_score("éx", "x"), Some(4981));
}

#[test]
fn scattered_query_scores_by_closeness() {
    // r at 0 (10 - 0), g at 3 (10 - 3), plus 20 per match
    assert_eq!(fuzzy_score("ripgrep", "rg"), Some(57));
    // r at 0, p at 2, g at 3 right after p (30 - 3)
    assert_eq!(fuzzy_score("ripgrep", "rpg"), Some(105));
    assert_eq!(fuzzy_score("ripgrep", "gr?"), None);
}

#[test]
fn exact_name_ranks_above_every_other_match() {
    let exact = fuzzy_score("abcdefghij", "abcdefghij").unwrap();
    for query in ["abc", "acegi", "j", "abcdefghi", "bdfhj"] {
        assert!(fuzzy_score("abcdefghij", query).unwrap() < exact);
    }
}

// ----- text -----------------------------------------------------------------

#[test]
fn sanitizing_turns_tabs_into_spaces_and_is_idempotent() {
    let once = sanitize_text("a\tb\u{9b}c\u{7f}");
    assert_eq!(once, "a bc");
    assert_eq!(sanitize_text(&once), once);
}

#[test]
fn truncation_marks_the_cut() {
    assert_eq!(truncate("brewy", 3), "br\u{2026}");
    assert_eq!(truncate("brewy", 5), "brewy");
    assert_eq!(truncate("brewy", 1), "\u{2026}");
}

#[test]
fn listings_keep_trimmed_non_empty_lines() {
    assert_eq!(listed_lines("  a \r\n\n b\n\t\n"), ["a", "b"]);
    assert_eq!(listed_lines(""), Vec::<String>::new());
    assert_eq!(listed_lines("last"), ["last"]);
    assert_eq!(trimmed("\u{3000} x y \u{85}"), "x y");
}

// ----- operations -----------------------------------------------------------

#[test]
fn cask_commands_carry_the_cask_flag() {
    let op = Operation::Upgrade { name: "ghostty".into(), cask: true };
    assert_eq!(op.command(), ["upgrade", "--cask", "--", "ghostty"]);
    assert_eq!(op.summary(), "upgrade ghostty");
    assert_eq!(op.package_name(), Some("ghostty"));
    assert_eq!(Operation::Update.summary(), "update metadata");
    assert_eq!(Operation::Update.package_name(), None);
    assert_eq!(Operation::Unpin { name: "jq".into() }.command(), ["unpin", "--", "jq"]);
}

#[test]
fn available_package_stages_install() {
    let p = package("demo", PackageKind::Cask, false, false);
    let op = operation_for(&p);
    assert!(matches!(op, Operation::Install { cask: true, .. }));
    assert_eq!(op.verb(), "install");
    assert_eq!(p.list_status(), "cask");
    assert_eq!(p.preview_state(), "available");
}

// ----- catalog --------------------------------------------------------------

#[test]
fn unreadable_installed_report_is_an_error() {
    let r = Catalog::from_outputs("a\n", "", Err("boom".into()), None, "");
    assert_eq!(r.unwrap_err(), "cannot parse installed packages: boom");
}

#[test]
fn catalog_is_sorted_by_name_and_lists_each_name_once_per_kind() {
    let c = Catalog::from_outputs("zsh\nbat\nzsh\n", "bat\n", Ok(BrewJson::default()), None, "")
        .unwrap();
    let listed: Vec<(&str, PackageKind)> =
        c.packages.iter().map(|p| (p.name.as_str(), p.kind)).collect();
    assert_eq!(listed.len(), 3);
    assert_eq!(listed[2], ("zsh", PackageKind::Formula));
    assert!(listed[..2].contains(&("bat", PackageKind::Formula)));
    assert!(listed[..2].contains(&("bat", PackageKind::Cask)));
}

#[test]
fn item_names_prefer_token_then_name_then_full_name() {
    let report = BrewJson {
        formulae: vec![
            BrewItem {
                token: Some("tok".into()),
                name: Some(OneOrMany::One("nm".into())),
                ..BrewItem::default()
            },
            BrewItem {
                name: Some(OneOrMany::Many(vec![])),
                full_name: Some("org/full".into()),
                ..BrewItem::default()
            },
            BrewItem::default(),
        ],
        casks: vec![],
    };
    let c = Catalog::from_outputs("", "", Ok(report), None, "").unwrap();
    let names: Vec<&str> = c.packages.iter().map(|p| p.name.as_str()).collect();
    assert_eq!(names, ["org/full", "tok"]);
    assert!(c.packages.iter().all(|p| p.installed));
}

#[test]
fn outdated_report_marks_packages_outdated() {
    let outdated = BrewJson {
        formulae: vec![BrewItem { name: Some(OneOrMany::One("jq".into())), ..BrewItem::default() }],
        casks: vec![],
    };
    let c = Catalog::from_outputs("jq\nyq\n", "", Ok(BrewJson::default()), Some(outdated), "")
        .unwrap();
    assert_eq!(c.outdated_count(), 1);
    assert_eq!(c.installed_count(), 0);
}

#[test]
fn detail_without_packages_is_an_error() {
    let r = Catalog::package_from_json(Ok(BrewJson::default()));
    assert_eq!(r.unwrap_err(), "Homebrew returned no package details");
    let r = Catalog::package_from_json(Err("bad".into()));
    assert_eq!(r.unwrap_err(), "cannot parse package details: bad");
}

#[test]
fn unreadable_metadata_leaves_the_catalog_alone() {
    let mut c = Catalog::from_outputs("jq\n", "", Ok(BrewJson::default()), None, "").unwrap();
    let r = c.apply_metadata_outputs(Err("f".into()), Ok(vec![]));
    assert_eq!(r.unwrap_err(), "cannot parse formula metadata: f");
    let r = c.apply_metadata_outputs(Ok(vec![]), Err("c".into()));
    assert_eq!(r.unwrap_err(), "cannot parse cask metadata: c");
    assert_eq!(c.packages.len(), 1);
    assert_eq!(c.packages[0].description, None);
}

#[test]
fn cached_metadata_fills_gaps_and_adds_unknown_packages_as_available() {
    let mut current = Catalog::from_outputs("jq\n", "", Ok(BrewJson::default()), None, "").unwrap();
    current.packages[0].homepage = Some("kept".into());
    let mut cached_jq = package("jq", PackageKind::Formula, true, true);
    cached_jq.description = Some("JSON processor".into());
    cached_jq.homepage = Some("replaced?".into());
    let mut cached_old = package("abc", PackageKind::Formula, true, true);
    cached_old.pinned = true;
    cached_old.installed_version = Some("1".into());
    cached_old.license = Some("MIT".into());
    let cached = Catalog { packages: vec![cached_jq, cached_old], taps: vec![] };
    current.merge_cached_metadata(&cached);
    assert_eq!(current.packages.len(), 2);
    let abc = &current.packages[0];
    assert_eq!(abc.name, "abc");
    assert!(!abc.installed && !abc.outdated && !abc.pinned);
    assert_eq!(abc.installed_version, None);
    assert_eq!(abc.license.as_deref(), Some("MIT"));
    let jq = &current.packages[1];
    assert_eq!(jq.description.as_deref(), Some("JSON processor"));
    assert_eq!(jq.homepage.as_deref(), Some("kept"));
    assert!(!jq.installed);
}

// ----- application ----------------------------------------------------------

#[test]
fn sections_cycle_and_sort_modes_cycle() {
    let mut app = app_with(vec![]);
    app.handle_key(key(KeyCode::Right));
    assert_eq!(app.tab, Tab::Installed);
    app.handle_key(key(KeyCode::Left));
    assert_eq!(app.tab, Tab::Browse);
    app.handle_key(key(KeyCode::BackTab));
    assert_eq!(app.tab, Tab::Taps);
    for _ in 0..3 {
        app.handle_key(control(KeyCode::Char('s')));
    }
    assert_eq!(app.sort, SortMode::Name);
    assert_eq!(SortMode::Status.label(), "status");
    assert_eq!(Tab::Casks.label(), "Casks");
}

#[test]
fn cursor_stays_within_the_list() {
    let mut app = app_with(vec![
        package("a", PackageKind::Formula, false, false),
        package("b", PackageKind::Formula, false, false),
        package("c", PackageKind::Formula, false, false),
    ]);
    app.handle_key(key(KeyCode::PageDown));
    assert_eq!(app.selected, 2);
    app.handle_key(key(KeyCode::Up));
    assert_eq!(app.selected, 1);
    app.handle_mouse(MouseInput::ScrollUp);
    assert_eq!(app.selected, 0);
    app.handle_mouse(MouseInput::ScrollDown);
    assert_eq!(app.selected, 2);
}

#[test]
fn staging_twice_restores_the_queue() {
    let mut app = app_with(vec![package("jq", PackageKind::Formula, true, false)]);
    app.handle_key(key(KeyCode::Tab));
    assert_eq!(app.queue.len(), 1);
    assert_eq!(app.status, "Staged: uninstall jq");
    app.handle_key(key(KeyCode::Char(' ')));
    assert!(app.queue.is_empty());
    assert_eq!(app.status, "Unstaged jq");
}

#[test]
fn enter_runs_the_package_under_the_cursor() {
    let mut app = app_with(vec![package("jq", PackageKind::Formula, false, false)]);
    let effect = app.handle_key(key(KeyCode::Enter));
    match effect {
        Effect::RunOperations(ops) => {
            assert_eq!(ops.len(), 1);
            assert_eq!(ops[0].command(), ["install", "--", "jq"]);
        }
        other => panic!("unexpected {:?}", other),
    }
    assert!(app.running);
    assert!(app.queue.is_empty());
    // nothing else may be staged or run while Homebrew runs
    assert!(matches!(app.handle_key(key(KeyCode::Enter)), Effect::Nothing));
    app.handle_key(control(KeyCode::Char('q')));
    assert!(!app.should_quit);
    assert_eq!(app.status, "Homebrew is still running; wait for it to finish");
}

#[test]
fn pinning_replaces_what_was_staged() {
    let mut app = app_with(vec![package("jq", PackageKind::Formula, true, false)]);
    app.handle_key(key(KeyCode::Tab));
    app.handle_key(control(KeyCode::Char('p')));
    assert_eq!(app.queue.len(), 1);
    assert!(matches!(app.queue[0], Operation::Pin { .. }));
    assert_eq!(app.status, "Staged: pin jq");
    let mut cask_app = app_with(vec![package("ghostty", PackageKind::Cask, true, false)]);
    cask_app.handle_key(control(KeyCode::Char('p')));
    assert!(cask_app.queue.is_empty());
    assert_eq!(cask_app.status, "Only installed formulae can be pinned");
}

#[test]
fn help_closes_on_escape_and_swallows_other_keys() {
    let mut app = app_with(vec![]);
    app.handle_key(key(KeyCode::Char('?')));
    assert_eq!(app.overlay, Overlay::Help);
    app.handle_key(key(KeyCode::Char('x')));
    assert_eq!(app.query, "");
    app.handle_key(key(KeyCode::Esc));
    assert_eq!(app.overlay, Overlay::Hidden);
}

#[test]
fn query_editing_and_preview_keys() {
    let mut app = app_with(vec![]);
    app.handle_key(key(KeyCode::Char('a')));
    app.handle_key(key(KeyCode::Char('b')));
    app.handle_key(key(KeyCode::Backspace));
    assert_eq!(app.query, "a");
    app.handle_key(key(KeyCode::Esc));
    assert_eq!(app.query, "");
    app.handle_key(alt(KeyCode::Char('k')));
    assert_eq!(app.preview_scroll, 0);
    app.handle_key(alt(KeyCode::Char('j')));
    assert_eq!(app.preview_scroll, 3);
    app.handle_key(alt(KeyCode::Char('p')));
    assert!(!app.preview_visible);
}

#[test]
fn listing_orders_follow_query_and_sort_mode() {
    let mut app = app_with(vec![
        package("bat", PackageKind::Cask, false, false),
        package("cat", PackageKind::Formula, true, false),
        package("rat", PackageKind::Formula, true, true),
        package("tab", PackageKind::Formula, false, false),
    ]);
    assert_eq!(names(&app), ["bat", "cat", "rat", "tab"]);
    app.sort = SortMode::Status;
    assert_eq!(names(&app), ["rat", "cat", "bat", "tab"]);
    app.sort = SortMode::Kind;
    assert_eq!(names(&app), ["bat", "cat", "rat", "tab"]);
    app.query = "at".to_string();
    // "bat", "cat", "rat" hold "at" one character in; "tab" does not match at all
    assert_eq!(names(&app), ["bat", "cat", "rat"]);
    app.query = "tab".to_string();
    assert_eq!(names(&app)[0], "tab");
    app.query = String::new();
    app.tab = Tab::Installed;
    assert_eq!(names(&app), ["cat", "rat"]);
    assert_eq!(tab_count(&app, Tab::Installed), 2);
    assert_eq!(tab_count(&app, Tab::Casks), 1);
    assert_eq!(tab_count(&app, Tab::Outdated), 1);
}

#[test]
fn details_are_requested_once_and_again_after_a_failure() {
    let mut app = app_with(vec![package("jq", PackageKind::Formula, false, false)]);
    match app.request_selected_detail() {
        Effect::LoadDetail { name, kind } => {
            assert_eq!(name, "jq");
            assert_eq!(kind, PackageKind::Formula);
        }
        other => panic!("unexpected {:?}", other),
    }
    assert!(matches!(app.request_selected_detail(), Effect::Nothing));
    app.handle_worker_event(WorkerEvent::DetailLoaded {
        requested_name: "jq".into(),
        requested_kind: PackageKind::Formula,
        result: Err("failed".into()),
    });
    assert!(matches!(app.request_selected_detail(), Effect::LoadDetail { .. }));
}

#[test]
fn loaded_details_keep_known_state() {
    let mut app = app_with(vec![package("jq", PackageKind::Formula, true, true)]);
    let mut details = Package::new("jq".into(), PackageKind::Formula);
    details.description = Some("JSON processor".into());
    app.handle_worker_event(WorkerEvent::DetailLoaded {
        requested_name: "jq".into(),
        requested_kind: PackageKind::Formula,
        result: Ok(details),
    });
    let jq = &app.catalog.packages[0];
    assert!(jq.installed && jq.outdated);
    assert_eq!(jq.description.as_deref(), Some("JSON processor"));
}

#[test]
fn a_loaded_catalog_reports_counts_and_keeps_the_cursor_in_range() {
    let mut app = app_with(vec![]);
    app.selected = 7;
    let catalog = Catalog {
        packages: vec![
            package("a", PackageKind::Formula, true, true),
            package("b", PackageKind::Formula, true, false),
        ],
        taps: vec![],
    };
    assert!(app.accepts(&WorkerEvent::CatalogLoaded(Ok(catalog.clone()))));
    app.handle_worker_event(WorkerEvent::CatalogLoaded(Ok(catalog)));
    assert_eq!(app.status, "Ready \u{b7} 2 installed \u{b7} 1 outdated");
    assert_eq!(app.selected, 1);
    assert!(!app.loading);
    app.handle_worker_event(WorkerEvent::CatalogLoaded(Err("no brew".into())));
    assert_eq!(app.status, "no brew");
}

#[test]
fn log_keeps_at_most_two_thousand_lines() {
    let mut app = app_with(vec![]);
    for i in 0..2001 {
        app.handle_worker_event(WorkerEvent::Log(format!("line {i}")));
    }
    assert_eq!(app.log.len(), 1501);
    assert_eq!(app.log[0], "line 500");
}

#[test]
fn finishing_the_queue_reports_and_refreshes() {
    let mut app = app_with(vec![]);
    app.running = true;
    app.handle_worker_event(WorkerEvent::OperationStarted("install jq".into()));
    assert_eq!(app.status, "Running: install jq");
    app.handle_worker_event(WorkerEvent::OperationFinished {
        summary: "install jq".into(),
        success: false,
    });
    assert_eq!(app.log, ["\u{2717} install jq"]);
    assert_eq!(app.failed_operations, 1);
    let effect = app.handle_worker_event(WorkerEvent::QueueFinished);
    assert!(matches!(effect, Effect::LoadCatalog { force_metadata: false }));
    assert!(!app.running);
    assert!(app.loading);
    assert_eq!(app.status, "Refreshing Homebrew catalog\u{2026}");
}

#[test]
fn staged_names_are_listed_once() {
    let mut app = app_with(vec![]);
    app.queue = vec![
        Operation::Install { name: "jq".into(), cask: false },
        Operation::Update,
        Operation::Pin { name: "jq".into() },
        Operation::Uninstall { name: "yq".into(), cask: false },
    ];
    assert_eq!(app.staged_names(), ["jq", "yq"]);
    assert_eq!(app.status_text(), "4 selected");
}

// ----- background work ------------------------------------------------------

#[test]
fn metadata_is_refreshed_when_forced_missing_or_six_hours_old() {
    assert!(needs_metadata_refresh(true, Some(100), 100));
    assert!(needs_metadata_refresh(false, None, 0));
    assert!(!needs_metadata_refresh(false, Some(1000), 1000 + 21599));
    assert!(needs_metadata_refresh(false, Some(1000), 1000 + 21600));
    assert!(!needs_metadata_refresh(false, Some(5000), 10));
    assert!(cache_is_current(1));
    assert!(!cache_is_current(2));
}

#[test]
fn command_lines_and_failures_name_the_command() {
    let args = vec!["install".to_string(), "--".to_string(), "jq".to_string()];
    assert_eq!(command_line(&args), "$ brew install -- jq");
    assert_eq!(capture_failure(&args, "  \n"), "brew install -- jq failed");
    assert_eq!(capture_failure(&args, "\nError: no such formula\n"), "Error: no such formula");
}

#[test]
fn collecting_an_empty_catalog_is_an_error() {
    let r = collect_catalog(
        false,
        Ok(String::new()),
        Err("no casks".into()),
        Ok(BrewJson::default()),
        None,
        Ok("homebrew/core\n".into()),
        None,
        None,
        42,
    );
    assert_eq!(r.unwrap_err(), "Homebrew returned an empty package catalog");
}

#[test]
fn collecting_merges_cache_and_dates_metadata() {
    let cached = Catalog {
        packages: vec![{
            let mut p = package("jq", PackageKind::Formula, false, false);
            p.description = Some("cached".into());
            p
        }],
        taps: vec![],
    };
    let (catalog, updated) = collect_catalog(
        false,
        Ok("jq\n".into()),
        Ok(String::new()),
        Ok(BrewJson::default()),
        None,
        Ok(String::new()),
        Some((cached.clone(), 7)),
        None,
        42,
    )
    .unwrap();
    assert_eq!(updated, 7);
    assert_eq!(catalog.packages[0].description.as_deref(), Some("cached"));
    let (_, updated) = collect_catalog(
        true,
        Ok("jq\n".into()),
        Ok(String::new()),
        Ok(BrewJson::default()),
        None,
        Ok(String::new()),
        Some((cached, 7)),
        Some((Ok(vec![]), Ok(vec![]))),
        42,
    )
    .unwrap();
    assert_eq!(updated, 42);
}

#[test]
fn operations_stop_after_the_first_failure() {
    let mut runner = OperationRunner::new(vec![
        Operation::Install { name: "a".into(), cask: false },
        Operation::Install { name: "b".into(), cask: false },
    ]);
    let (summary, args) = runner.start_next().unwrap();
    assert_eq!(summary, "install a");
    assert_eq!(args, ["install", "--", "a"]);
    runner.finish(false);
    assert!(runner.start_next().is_none());

    let mut runner = OperationRunner::new(vec![Operation::UpgradeAll]);
    assert_eq!(runner.start_next().unwrap().1, ["upgrade"]);
    runner.finish(true);
    assert!(runner.start_next().is_none());
}

#[test]
fn detail_request_reads_one_package_as_json() {
    assert_eq!(
        detail_command("wget", PackageKind::Formula),
        vec!["info", "--json=v2", "--formula", "wget"]
    );
    assert_eq!(
        detail_command("firefox", PackageKind::Cask),
        vec!["info", "--json=v2", "--cask", "firefox"]
    );
}

#[test]
fn packages_with_the_same_name_list_in_catalog_order_every_time() {
    let mut app = app_with(vec![
        package("docker", PackageKind::Formula, false, false),
        package("docker", PackageKind::Cask, false, false),
        package("colima", PackageKind::Formula, false, false),
    ]);
    assert_eq!(app.filtered_indices(), vec![2, 0, 1]);
    assert_eq!(app.filtered_indices(), app.filtered_indices());
    app.selected = 2;
    let chosen = app.selected_package().unwrap();
    assert_eq!(chosen.kind, PackageKind::Cask);
    let rows = app.result_rows(40);
    assert_eq!(rows[2].status.trim_end(), "cask");
    app.handle_key(key(KeyCode::Tab));
    assert_eq!(app.queue.len(), 1);
    assert!(matches!(
        &app.queue[0],
        Operation::Install { name, cask: true } if name == "docker"
    ));
    app.handle_key(key(KeyCode::Tab));
    assert!(app.queue.is_empty());
}

#[test]
fn nothing_is_staged_run_or_refreshed_while_homebrew_runs() {
    let mut app = app_with(vec![package("jq", PackageKind::Formula, true, false)]);
    app.queue.push(Operation::Update);
    app.running = true;
    for input in [
        key(KeyCode::Tab),
        key(KeyCode::Enter),
        key(KeyCode::Char(' ')),
        control(KeyCode::Char('a')),
        control(KeyCode::Char('p')),
        control(KeyCode::Char('r')),
        control(KeyCode::Char('u')),
    ] {
        assert!(matches!(app.handle_key(input), Effect::Nothing));
        assert_eq!(app.queue.len(), 1);
        assert!(app.running);
        assert!(!app.loading);
    }
}

#[test]
fn a_whole_query_outranks_a_scattered_one() {
    let whole = fuzzy_score("visual-studio-code", "studio").unwrap();
    let scattered = fuzzy_score("visual-studio-code", "vsc").unwrap();
    assert_eq!(whole, 5000 - 8 * 7 - 18);
    assert!(whole > scattered);
}

#[test]
fn details_are_requested_once_per_name() {
    let mut app = app_with(vec![package("jq", PackageKind::Formula, false, false)]);
    assert!(matches!(app.request_selected_detail(), Effect::LoadDetail { .. }));
    assert!(matches!(app.request_selected_detail(), Effect::Nothing));
    assert_eq!(app.detail_requested, vec!["jq".to_string()]);
}

#[test]
fn merging_the_cache_twice_changes_nothing_more() {
    let mut current = Catalog::from_outputs("jq\nwget\n", "", Ok(BrewJson::default()), None, "").unwrap();
    let mut cached_jq = package("jq", PackageKind::Formula, false, false);
    cached_jq.description = Some("JSON processor".into());
    let mut cached_app = package("abc", PackageKind::Cask, true, true);
    cached_app.license = Some("MIT".into());
    let cached = Catalog { packages: vec![cached_jq, cached_app], taps: vec![] };
    current.merge_cached_metadata(&cached);
    let summary = |c: &Catalog| -> Vec<(String, PackageKind, bool, Option<String>, Option<String>)> {
        c.packages
            .iter()
            .map(|p| (p.name.clone(), p.kind, p.installed, p.description.clone(), p.license.clone()))
            .collect()
    };
    let once = summary(&current);
    current.merge_cached_metadata(&cached);
    assert_eq!(summary(&current), once);
    assert_eq!(once.len(), 3);
}

#[test]
fn downloaded_metadata_is_used_only_when_due() {
    let cached = Catalog { packages: vec![package("jq", PackageKind::Formula, false, false)], taps: vec![] };
    let fresh = || {
        let mut item = BrewItem::default();
        item.name = Some(OneOrMany::One("jq".into()));
        item.desc = Some("fresh".into());
        item
    };
    let run = |force: bool, now: u64| {
        collect_catalog(
            force,
            Ok("jq\n".into()),
            Ok(String::new()),
            Ok(BrewJson::default()),
            None,
            Ok(String::new()),
            Some((cached.clone(), 1000)),
            Some((Ok(vec![fresh()]), Ok(vec![]))),
            now,
        )
        .unwrap()
    };
    let (c, updated) = run(false, 1000 + 21599);
    assert_eq!(updated, 1000);
    assert_eq!(c.packages[0].description, None);
    let (c, updated) = run(false, 1000 + 21600);
    assert_eq!(updated, 1000 + 21600);
    assert_eq!(c.packages[0].description.as_deref(), Some("fresh"));
    let (c, updated) = run(true, 1001);
    assert_eq!(updated, 1001);
    assert_eq!(c.packages[0].description.as_deref(), Some("fresh"));
}

#[test]
fn loaded_details_go_to_the_first_package_of_that_name() {
    let mut app = app_with(vec![
        package("docker", PackageKind::Formula, true, false),
        package("docker", PackageKind::Cask, false, false),
    ]);
    let mut details = Package::new("docker".into(), PackageKind::Cask);
    details.description = Some("container app".into());
    app.handle_worker_event(WorkerEvent::DetailLoaded {
        requested_name: "docker".into(),
        requested_kind: PackageKind::Cask,
        result: Ok(details),
    });
    assert_eq!(app.catalog.packages[0].description.as_deref(), Some("container app"));
    assert!(app.catalog.packages[0].installed);
    assert_eq!(app.catalog.packages[1].description, None);
}
