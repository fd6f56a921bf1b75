use brewy::catalog::{BrewItem, BrewJson, Catalog, InstalledField, InstalledVersion, OneOrMany, Versions};
use brewy::fuzzy::fuzzy_score;
use brewy::model::{operation_for, Operation, Package, PackageKind};

fn text(s: &str) -> Option<String> {
    Some(s.to_string())
}

fn named(name: &str) -> BrewItem {
    BrewItem { name: Some(OneOrMany::One(name.to_string())), ..BrewItem::default() }
}

fn tokened(token: &str) -> BrewItem {
    BrewItem { token: text(token), ..BrewItem::default() }
}

fn installed_entries(versions: &[&str]) -> Option<InstalledField> {
    Some(InstalledField::Entries(
        versions.iter().map(|v| InstalledVersion { version: text(v) }).collect(),
    ))
}

fn find<'a>(catalog: &'a Catalog, name: &str) -> &'a Package {
    catalog.packages.iter().find(|package| package.name == name).unwrap()
}

#[test]
fn fuzzy_matching_rewards_exact_and_contiguous_matches() {
    assert!(fuzzy_score("ripgrep", "ripgrep") > fuzzy_score("ripgrep", "rg"));
    assert!(fuzzy_score("visual-studio-code", "vsc").is_some());
    assert!(fuzzy_score("wget", "xyz").is_none());
}

#[test]
fn catalog_merges_brew_json_with_available_names() {
    // {"formulae":[{"name":"wget","desc":"Internet file retriever","installed":[{"version":"1.2"}],
    //   "versions":{"stable":"1.3"},"outdated":true}],"casks":[{"token":"ghostty","installed":[{"version":"2.0"}]}]}
    let installed = BrewJson {
        formulae: vec![BrewItem {
            desc: text("Internet file retriever"),
            installed: installed_entries(&["1.2"]),
            versions: Some(Versions { stable: text("1.3") }),
            outdated: true,
            ..named("wget")
        }],
        casks: vec![BrewItem { installed: installed_entries(&["2.0"]), ..tokened("ghostty") }],
    };
    // {"formulae":[{"name":"wget","installed_versions":["1.2"],"current_version":"1.3"}],"casks":[]}
    let outdated = BrewJson {
        formulae: vec![BrewItem { current_version: text("1.3"), ..named("wget") }],
        casks: vec![],
    };
    let catalog = Catalog::from_outputs(
        "wget\nripgrep\n",
        "ghostty\n",
        Ok(installed),
        Some(outdated),
        "homebrew/core\n",
    )
    .unwrap();
    assert_eq!(catalog.installed_count(), 2);
    assert_eq!(catalog.outdated_count(), 1);
    assert_eq!(catalog.taps, ["homebrew/core"]);
    let wget = find(&catalog, "wget");
    assert_eq!(wget.description.as_deref(), Some("Internet file retriever"));
    assert_eq!(wget.installed_version.as_deref(), Some("1.2"));
    assert_eq!(wget.latest_version.as_deref(), Some("1.3"));
}

#[test]
fn installed_package_stages_uninstall_unless_outdated() {
    let mut package = Package::new("demo".into(), PackageKind::Formula);
    package.installed = true;
    assert!(matches!(operation_for(&package), Operation::Uninstall { .. }));
    package.outdated = true;
    assert!(matches!(operation_for(&package), Operation::Upgrade { .. }));
}

#[test]
fn detail_json_does_not_mark_an_available_package_installed() {
    // {"formulae":[{"name":"jq","desc":"JSON processor","installed":[],"versions":{"stable":"1.8.2"}}],"casks":[]}
    let json = BrewJson {
        formulae: vec![BrewItem {
            desc: text("JSON processor"),
            installed: installed_entries(&[]),
            versions: Some(Versions { stable: text("1.8.2") }),
            ..named("jq")
        }],
        casks: vec![],
    };
    let package = Catalog::package_from_json(Ok(json)).unwrap();
    assert_eq!(package.name, "jq");
    assert!(!package.installed);
    assert_eq!(package.latest_version.as_deref(), Some("1.8.2"));
}

#[test]
fn package_names_are_passed_after_an_option_separator() {
    let package = Package::new("--debug".into(), PackageKind::Formula);
    assert_eq!(operation_for(&package).command(), ["install", "--", "--debug"]);
    assert_eq!(Operation::Pin { name: "--debug".into() }.command(), ["pin", "--", "--debug"]);
}

#[test]
fn modern_cask_detail_fields_are_supported() {
    // {"formulae":[],"casks":[{"token":"sample-app","name":["Sample App"],"installed":"2.0","version":"2.1"}]}
    let json = BrewJson {
        formulae: vec![],
        casks: vec![BrewItem {
            name: Some(OneOrMany::Many(vec!["Sample App".to_string()])),
            installed: Some(InstalledField::Version("2.0".to_string())),
            version: text("2.1"),
            ..tokened("sample-app")
        }],
    };
    let package = Catalog::package_from_json(Ok(json)).unwrap();
    assert_eq!(package.name, "sample-app");
    assert!(package.installed);
    assert_eq!(package.installed_version.as_deref(), Some("2.0"));
    assert_eq!(package.latest_version.as_deref(), Some("2.1"));
}

#[test]
fn available_cask_version_is_not_treated_as_installed() {
    // {"formulae":[],"casks":[{"token":"sample-app","installed":null,"version":"2.1"}]}
    let json = BrewJson {
        formulae: vec![],
        casks: vec![BrewItem { installed: None, version: text("2.1"), ..tokened("sample-app") }],
    };
    let package = Catalog::package_from_json(Ok(json)).unwrap();
    assert!(!package.installed);
    assert_eq!(package.installed_version, None);
    assert_eq!(package.latest_version.as_deref(), Some("2.1"));
}

#[test]
fn bulk_metadata_populates_descriptions_without_detail_commands() {
    let mut catalog = Catalog::from_outputs(
        "jq\n",
        "ghostty\n",
        Ok(BrewJson::default()),
        Some(BrewJson::default()),
        "",
    )
    .unwrap();
    // [{"name":"jq","desc":"JSON processor","homepage":"https://jqlang.org/","license":"MIT","versions":{"stable":"1.8.1"}}]
    let formulae = vec![BrewItem {
        desc: text("JSON processor"),
        homepage: text("https://jqlang.org/"),
        license: text("MIT"),
        versions: Some(Versions { stable: text("1.8.1") }),
        ..named("jq")
    }];
    // [{"token":"ghostty","desc":"Terminal emulator","homepage":"https://ghostty.org/","version":"1.2.3"},
    //  {"token":"undocumented","desc":null,"homepage":"https://example.com/","version":"1.0"}]
    let casks = vec![
        BrewItem {
            desc: text("Terminal emulator"),
            homepage: text("https://ghostty.org/"),
            version: text("1.2.3"),
            ..tokened("ghostty")
        },
        BrewItem {
            desc: None,
            homepage: text("https://example.com/"),
            version: text("1.0"),
            ..tokened("undocumented")
        },
    ];
    catalog.apply_metadata_outputs(Ok(formulae), Ok(casks)).unwrap();

    let jq = find(&catalog, "jq");
    assert_eq!(jq.description.as_deref(), Some("JSON processor"));
    assert_eq!(jq.latest_version.as_deref(), Some("1.8.1"));
    let ghostty = find(&catalog, "ghostty");
    assert_eq!(ghostty.description.as_deref(), Some("Terminal emulator"));
    let undocumented = find(&catalog, "undocumented");
    assert_eq!(
        undocumented.description.as_deref(),
        Some("No description provided by Homebrew")
    );
}

#[test]
fn upgrade_all_runs_homebrew_upgrade() {
    assert_eq!(Operation::UpgradeAll.command(), ["upgrade"]);
}
