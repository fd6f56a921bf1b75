//! Packages and the Homebrew operations that act on them.
use vstd::prelude::*;
use vstd::string::*;

use crate::text::{concat, owned};

verus! {

broadcast use vstd::string::group_string_axioms;

/// The two kinds of Homebrew package.
#[derive(Clone, Copy, Debug, PartialEq, Eq, Structural, Hash)]
pub enum PackageKind {
    Formula,
    Cask,
}

impl PackageKind {
    /// The lower-case name of the kind.
    pub open spec fn label_spec(self) -> Seq<char> {
        match self {
            PackageKind::Formula => "formula"@,
            PackageKind::Cask => "cask"@,
        }
    }

    /// The lower-case name of the kind: "formula" or "cask".
    pub fn label(self) -> (r: &'static str)
        ensures
            r@ == self.label_spec(),
    {
        match self {
            PackageKind::Formula => "formula",
            PackageKind::Cask => "cask",
        }
    }
}

/// The text of an optional string.
pub open spec fn opt_text(o: Option<String>) -> Option<Seq<char>> {
    match o {
        Some(s) => Some(s@),
        None => None,
    }
}

/// What a package is, as plain values.
pub struct PackageView {
    pub name: Seq<char>,
    pub kind: PackageKind,
    pub installed: bool,
    pub outdated: bool,
    pub pinned: bool,
    pub installed_version: Option<Seq<char>>,
    pub latest_version: Option<Seq<char>>,
    pub description: Option<Seq<char>>,
    pub homepage: Option<Seq<char>>,
    pub license: Option<Seq<char>>,
}

impl PackageView {
    /// A package known only by name and kind: not installed, not outdated,
    /// not pinned, with no metadata.
    pub open spec fn fresh(name: Seq<char>, kind: PackageKind) -> PackageView {
        PackageView {
            name,
            kind,
            installed: false,
            outdated: false,
            pinned: false,
            installed_version: None,
            latest_version: None,
            description: None,
            homepage: None,
            license: None,
        }
    }
}

/// Where a package stands: an update is available, it is installed, or it
/// can be installed.
#[derive(Clone, Copy, Debug, PartialEq, Eq, Structural)]
pub enum PackageState {
    Outdated,
    Installed,
    Available,
}

/// Where a package stands; being outdated comes before being installed.
pub open spec fn state_spec(p: PackageView) -> PackageState {
    if p.outdated {
        PackageState::Outdated
    } else if p.installed {
        PackageState::Installed
    } else {
        PackageState::Available
    }
}

/// The word the package list shows for a package: "upgrade" when it is
/// outdated, "installed" when it is installed, else its kind.
pub open spec fn list_status_spec(p: PackageView) -> Seq<char> {
    if p.outdated {
        "upgrade"@
    } else if p.installed {
        "installed"@
    } else {
        p.kind.label_spec()
    }
}

/// A formula or cask with what is known of its state and metadata.
#[derive(Clone, Debug)]
pub struct Package {
    pub name: String,
    pub kind: PackageKind,
    pub installed: bool,
    pub outdated: bool,
    pub pinned: bool,
    pub installed_version: Option<String>,
    pub latest_version: Option<String>,
    pub description: Option<String>,
    pub homepage: Option<String>,
    pub license: Option<String>,
}

impl View for Package {
    type V = PackageView;

    open spec fn view(&self) -> PackageView {
        PackageView {
            name: self.name@,
            kind: self.kind,
            installed: self.installed,
            outdated: self.outdated,
            pinned: self.pinned,
            installed_version: opt_text(self.installed_version),
            latest_version: opt_text(self.latest_version),
            description: opt_text(self.description),
            homepage: opt_text(self.homepage),
            license: opt_text(self.license),
        }
    }
}

/// A copy of an optional string.
pub fn copy_opt(o: &Option<String>) -> (r: Option<String>)
    ensures
        opt_text(r) == opt_text(*o),
{
    match o {
        Some(s) => Some(s.clone()),
        None => None,
    }
}

impl Package {
    /// A package known only by its name and kind.
    pub fn new(name: String, kind: PackageKind) -> (p: Package)
        ensures
            p@ == PackageView::fresh(name@, kind),
    {
        Package {
            name,
            kind,
            installed: false,
            outdated: false,
            pinned: false,
            installed_version: None,
            latest_version: None,
            description: None,
            homepage: None,
            license: None,
        }
    }

    /// The word the package list shows for the package: "upgrade" when it is
    /// outdated, "installed" when it is installed, else its kind.
    pub fn list_status(&self) -> (r: &'static str)
        ensures
            r@ == list_status_spec(self@),
    {
        if self.outdated {
            "upgrade"
        } else if self.installed {
            "installed"
        } else {
            self.kind.label()
        }
    }

    /// The state the package preview shows: "update available", "installed"
    /// or "available".
    pub fn preview_state(&self) -> (r: &'static str)
        ensures
            r@ == (if self.outdated {
                "update available"@
            } else if self.installed {
                "installed"@
            } else {
                "available"@
            }),
    {
        if self.outdated {
            "update available"
        } else if self.installed {
            "installed"
        } else {
            "available"
        }
    }

    /// Where the package stands.
    pub fn state(&self) -> (r: PackageState)
        ensures
            r == state_spec(self@),
    {
        if self.outdated {
            PackageState::Outdated
        } else if self.installed {
            PackageState::Installed
        } else {
            PackageState::Available
        }
    }

    /// A copy of this package.
    pub fn duplicate(&self) -> (p: Package)
        ensures
            p@ == self@,
    {
        Package {
            name: self.name.clone(),
            kind: self.kind,
            installed: self.installed,
            outdated: self.outdated,
            pinned: self.pinned,
            installed_version: copy_opt(&self.installed_version),
            latest_version: copy_opt(&self.latest_version),
            description: copy_opt(&self.description),
            homepage: copy_opt(&self.homepage),
            license: copy_opt(&self.license),
        }
    }
}

/// A Homebrew command that the user can stage and run.
#[derive(Clone, Debug)]
pub enum Operation {
    Install { name: String, cask: bool },
    Uninstall { name: String, cask: bool },
    Upgrade { name: String, cask: bool },
    Pin { name: String },
    Unpin { name: String },
    Update,
    UpgradeAll,
}

/// The arguments of a command on one package: the verb, `--cask` for a cask,
/// then `--` so that the name can never be taken for an option, then the name.
pub open spec fn package_command_spec(verb: Seq<char>, name: Seq<char>, cask: bool) -> Seq<
    Seq<char>,
> {
    if cask {
        seq![verb, "--cask"@, "--"@, name]
    } else {
        seq![verb, "--"@, name]
    }
}

/// The texts of a list of strings.
pub open spec fn texts(v: Seq<String>) -> Seq<Seq<char>> {
    Seq::new(v.len(), |i: int| v[i]@)
}

fn package_command(verb: &str, name: &str, cask: bool) -> (r: Vec<String>)
    ensures
        texts(r@) == package_command_spec(verb@, name@, cask),
{
    let mut args: Vec<String> = Vec::new();
    args.push(owned(verb));
    if cask {
        args.push(owned("--cask"));
    }
    args.push(owned("--"));
    args.push(owned(name));
    assert(texts(args@) =~= package_command_spec(verb@, name@, cask));
    args
}

/// What an operation is, as plain values.
pub enum OperationView {
    Install { name: Seq<char>, cask: bool },
    Uninstall { name: Seq<char>, cask: bool },
    Upgrade { name: Seq<char>, cask: bool },
    Pin { name: Seq<char> },
    Unpin { name: Seq<char> },
    Update,
    UpgradeAll,
}

impl View for Operation {
    type V = OperationView;

    open spec fn view(&self) -> OperationView {
        match self {
            Operation::Install { name, cask } => OperationView::Install { name: name@, cask: *cask },
            Operation::Uninstall { name, cask } => OperationView::Uninstall { name: name@, cask: *cask },
            Operation::Upgrade { name, cask } => OperationView::Upgrade { name: name@, cask: *cask },
            Operation::Pin { name } => OperationView::Pin { name: name@ },
            Operation::Unpin { name } => OperationView::Unpin { name: name@ },
            Operation::Update => OperationView::Update,
            Operation::UpgradeAll => OperationView::UpgradeAll,
        }
    }
}

impl OperationView {
    /// The name of the package the operation acts on, if any.
    pub open spec fn package_name(self) -> Option<Seq<char>> {
        match self {
            OperationView::Install { name, .. } => Some(name),
            OperationView::Uninstall { name, .. } => Some(name),
            OperationView::Upgrade { name, .. } => Some(name),
            OperationView::Pin { name } => Some(name),
            OperationView::Unpin { name } => Some(name),
            OperationView::Update => None,
            OperationView::UpgradeAll => None,
        }
    }

    /// What the operation does, in words.
    pub open spec fn verb(self) -> Seq<char> {
        match self {
            OperationView::Install { .. } => "install"@,
            OperationView::Uninstall { .. } => "uninstall"@,
            OperationView::Upgrade { .. } => "upgrade"@,
            OperationView::Pin { .. } => "pin"@,
            OperationView::Unpin { .. } => "unpin"@,
            OperationView::Update => "update metadata"@,
            OperationView::UpgradeAll => "upgrade all packages"@,
        }
    }

    /// The `brew` arguments that carry the operation out.
    pub open spec fn command(self) -> Seq<Seq<char>> {
        match self {
            OperationView::Install { name, cask } => package_command_spec("install"@, name, cask),
            OperationView::Uninstall { name, cask } => package_command_spec("uninstall"@, name, cask),
            OperationView::Upgrade { name, cask } => package_command_spec("upgrade"@, name, cask),
            OperationView::Pin { name } => seq!["pin"@, "--"@, name],
            OperationView::Unpin { name } => seq!["unpin"@, "--"@, name],
            OperationView::Update => seq!["update"@],
            OperationView::UpgradeAll => seq!["upgrade"@],
        }
    }

    /// The verb, then a space and the package name when there is one.
    pub open spec fn summary(self) -> Seq<char> {
        match self.package_name() {
            Some(name) => self.verb() + " "@ + name,
            None => self.verb(),
        }
    }
}

impl Operation {
    /// The name of the package the operation acts on, if any.
    pub fn package_name(&self) -> (r: Option<&str>)
        ensures
            match r {
                Some(s) => self@.package_name() == Some(s@),
                None => self@.package_name() is None,
            },
    {
        match self {
            Operation::Install { name, .. } => Some(name.as_str()),
            Operation::Uninstall { name, .. } => Some(name.as_str()),
            Operation::Upgrade { name, .. } => Some(name.as_str()),
            Operation::Pin { name } => Some(name.as_str()),
            Operation::Unpin { name } => Some(name.as_str()),
            Operation::Update => None,
            Operation::UpgradeAll => None,
        }
    }

    /// What the operation does, in words.
    pub fn verb(&self) -> (r: &'static str)
        ensures
            r@ == self@.verb(),
    {
        match self {
            Operation::Install { .. } => "install",
            Operation::Uninstall { .. } => "uninstall",
            Operation::Upgrade { .. } => "upgrade",
            Operation::Pin { .. } => "pin",
            Operation::Unpin { .. } => "unpin",
            Operation::Update => "update metadata",
            Operation::UpgradeAll => "upgrade all packages",
        }
    }

    /// The `brew` arguments that carry the operation out. A package name is
    /// always the last argument and always follows `--`.
    pub fn command(&self) -> (r: Vec<String>)
        ensures
            texts(r@) == self@.command(),
    {
        match self {
            Operation::Install { name, cask } => package_command("install", name.as_str(), *cask),
            Operation::Uninstall { name, cask } => package_command(
                "uninstall",
                name.as_str(),
                *cask,
            ),
            Operation::Upgrade { name, cask } => package_command("upgrade", name.as_str(), *cask),
            Operation::Pin { name } => {
                let v = vec![owned("pin"), owned("--"), name.clone()];
                assert(texts(v@) =~= self@.command());
                v
            },
            Operation::Unpin { name } => {
                let v = vec![owned("unpin"), owned("--"), name.clone()];
                assert(texts(v@) =~= self@.command());
                v
            },
            Operation::Update => {
                let v = vec![owned("update")];
                assert(texts(v@) =~= self@.command());
                v
            },
            Operation::UpgradeAll => {
                let v = vec![owned("upgrade")];
                assert(texts(v@) =~= self@.command());
                v
            },
        }
    }

    /// A one-line description: the verb, followed by the package name.
    pub fn summary(&self) -> (r: String)
        ensures
            r@ == self@.summary(),
    {
        match self.package_name() {
            Some(name) => {
                let head = concat(self.verb(), " ");
                concat(head.as_str(), name)
            },
            None => owned(self.verb()),
        }
    }
}

/// The operation that acting on a package stages: upgrade an outdated
/// package, otherwise uninstall an installed one, otherwise install it; it
/// names the package and says whether it is a cask.
pub open spec fn operation_for_spec(p: PackageView) -> OperationView {
    let cask = p.kind == PackageKind::Cask;
    if p.outdated {
        OperationView::Upgrade { name: p.name, cask }
    } else if p.installed {
        OperationView::Uninstall { name: p.name, cask }
    } else {
        OperationView::Install { name: p.name, cask }
    }
}

/// The operation that acting on `package` stages: upgrade when it is
/// outdated, otherwise uninstall when it is installed, otherwise install; it
/// names the package and says whether it is a cask.
pub fn operation_for(package: &Package) -> (op: Operation)
    ensures
        op@ == operation_for_spec(package@),
{
    let cask = package.kind == PackageKind::Cask;
    if package.outdated {
        Operation::Upgrade { name: package.name.clone(), cask }
    } else if package.installed {
        Operation::Uninstall { name: package.name.clone(), cask }
    } else {
        Operation::Install { name: package.name.clone(), cask }
    }
}

} // verus!

verus! {

/// An operation on a package passes its name as the last argument, right
/// after `--`, so that a name beginning with a dash is never taken for an
/// option.
pub proof fn law_name_follows_separator(op: OperationView)
    ensures
        op.package_name() is Some ==> {
            let c = op.command();
            &&& c.len() >= 3
            &&& c.last() == op.package_name()->0
            &&& c[c.len() - 2] == "--"@
        },
{
}


/// The `brew` arguments of each operation: an install, uninstall or upgrade
/// gives its verb, then `--cask` for a cask and nothing for a formula, then
/// `--` and the name; pinning and unpinning give their verb, `--` and the
/// name; updating gives `update`, and upgrading everything gives `upgrade`.
pub proof fn law_command_arguments(op: OperationView)
    ensures
        op.command() == match op {
            OperationView::Install { name, cask } => if cask {
                seq!["install"@, "--cask"@, "--"@, name]
            } else {
                seq!["install"@, "--"@, name]
            },
            OperationView::Uninstall { name, cask } => if cask {
                seq!["uninstall"@, "--cask"@, "--"@, name]
            } else {
                seq!["uninstall"@, "--"@, name]
            },
            OperationView::Upgrade { name, cask } => if cask {
                seq!["upgrade"@, "--cask"@, "--"@, name]
            } else {
                seq!["upgrade"@, "--"@, name]
            },
            OperationView::Pin { name } => seq!["pin"@, "--"@, name],
            OperationView::Unpin { name } => seq!["unpin"@, "--"@, name],
            OperationView::Update => seq!["update"@],
            OperationView::UpgradeAll => seq!["upgrade"@],
        },
{
}

/// A cask's install, uninstall or upgrade passes `--cask` right after the
/// verb; a formula's never passes it.
pub proof fn law_cask_flag_follows_kind(op: OperationView)
    ensures
        match op {
            OperationView::Install { cask, .. } | OperationView::Uninstall { cask, .. }
            | OperationView::Upgrade { cask, .. } => (op.command()[1] == "--cask"@) == cask
                && (!cask ==> !op.command().contains("--cask"@) || op.command().last() == "--cask"@),
            _ => true,
        },
{
    reveal_strlit("--cask");
    reveal_strlit("--");
    law_command_arguments(op);
    match op {
        OperationView::Install { name, cask } | OperationView::Uninstall { name, cask }
        | OperationView::Upgrade { name, cask } => {
            if !cask && op.command().contains("--cask"@) {
                let i = choose|i: int| 0 <= i < op.command().len() && op.command()[i] == "--cask"@;
                assert(op.command()[i] == "--cask"@);
                if i == 0 {
                    reveal_strlit("install");
                    reveal_strlit("uninstall");
                    reveal_strlit("upgrade");
                }
            }
        },
        _ => {},
    }
}
} // verus!
