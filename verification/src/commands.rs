//! The decisions behind each command. A command's facts (what the registry and
//! the file system hold) go in; the steps to perform come out, in order.

use vstd::prelude::*;

use crate::ini::{enable_extension, ExtensionEdit, ExtensionEditView, extension_edit};
use crate::releases::InstallUrl;
pub use crate::update::{is_newer_version, PVM_VERSION};

verus! {

broadcast use vstd::string::group_string_axioms;

/// A PHP installation known to the registry.
#[derive(Debug, Clone)]
pub struct PhpVersion {
    /// Row identifier.
    pub id: i32,
    /// The version, e.g. `8.3.3`.
    pub version: String,
    /// The directory that holds the installation.
    pub path: String,
    /// Whether this installation is the active one.
    pub is_current: bool,
}

/// The abstract form of a [`PhpVersion`].
pub struct PhpVersionView {
    pub id: i32,
    pub version: Seq<char>,
    pub path: Seq<char>,
    pub is_current: bool,
}

impl View for PhpVersion {
    type V = PhpVersionView;

    open spec fn view(&self) -> PhpVersionView {
        PhpVersionView {
            id: self.id,
            version: self.version@,
            path: self.path@,
            is_current: self.is_current,
        }
    }
}

/// A file system location: a start (the manager's base directory when `stored` is
/// `None`, else the stored path) with the components `parts` joined onto it in order.
#[derive(Debug)]
pub struct PathRef {
    pub stored: Option<String>,
    pub parts: Vec<String>,
}

/// The abstract form of a [`PathRef`].
pub struct PathView {
    pub stored: Option<Seq<char>>,
    pub parts: Seq<Seq<char>>,
}

impl View for PathRef {
    type V = PathView;

    open spec fn view(&self) -> PathView {
        PathView { stored: self.stored.deep_view(), parts: self.parts.deep_view() }
    }
}

/// The location `name` in the manager's base directory.
pub open spec fn in_base(name: Seq<char>) -> PathView {
    PathView { stored: None, parts: seq![name] }
}

/// The location `parts` under the base directory.
pub open spec fn under_base(parts: Seq<Seq<char>>) -> PathView {
    PathView { stored: None, parts }
}

/// The stored path `p` itself.
pub open spec fn stored_path(p: Seq<char>) -> PathView {
    PathView { stored: Some(p), parts: Seq::<Seq<char>>::empty() }
}

/// The location `name` inside the stored path `p`.
pub open spec fn inside_stored(p: Seq<char>, name: Seq<char>) -> PathView {
    PathView { stored: Some(p), parts: seq![name] }
}

/// The directory name an inactive installation of version `v` lives under: `php<v>`.
pub open spec fn version_dir_name(v: Seq<char>) -> Seq<char> {
    "php"@ + v
}

/// The directory of the active installation: `php` in the base directory.
pub open spec fn active_dir() -> PathView {
    in_base("php"@)
}

/// One step that a command performs.
#[derive(Debug)]
pub enum Step {
    /// Print a line.
    Say(String),
    /// Print `Moving <from> to <to>` (before) or `Moved <from> to <to>` (after a move).
    ReportMove { finished: bool, source: String, to: PathRef },
    /// Stop the command with this error.
    Fail(String),
    /// Copy a directory tree.
    CopyDir { from: PathRef, to: PathRef },
    /// Rename (move) a file or directory.
    Rename { from: PathRef, to: PathRef },
    /// Delete a directory tree.
    RemoveDir(PathRef),
    /// Copy one file.
    CopyFile { from: PathRef, to: PathRef },
    /// Replace a file's text.
    WriteFile { path: PathRef, content: String },
    /// Register an installation.
    AddVersion { version: String, path: PathRef, is_current: bool },
    /// Change the directory and the active flag of the installation with this id.
    SetPathAndCurrent { id: i32, path: PathRef, is_current: bool },
    /// Forget every installation of this version.
    RemoveVersionsNamed(String),
    /// Run the `setup` command.
    RunSetup,
    /// Open a file in the text editor.
    OpenInEditor(PathRef),
    /// Open a directory in the file browser.
    OpenFolder(PathRef),
    /// List the extensions of a directory, with the interpreter that reports which are loaded.
    ListExtensions { ext_dir: PathRef, php_exe: PathRef },
    /// Delete a file if it exists (a failure stops the command).
    RemoveFileIfPresent(PathRef),
    /// Delete a directory tree if it exists (a failure stops the command).
    RemoveDirIfPresent(PathRef),
    /// Delete a file if it exists, ignoring any failure.
    DiscardFile(PathRef),
    /// Download a URL to a file.
    Download { url: String, to: PathRef },
    /// Unpack a zip archive into a directory.
    Extract { archive: PathRef, to: PathRef },
    /// Prepare the `php.ini` of a fresh installation in this directory.
    ConfigureIni(PathRef),
}

/// The abstract form of a [`Step`].
pub enum StepView {
    Say(Seq<char>),
    ReportMove(bool, Seq<char>, PathView),
    Fail(Seq<char>),
    CopyDir(PathView, PathView),
    Rename(PathView, PathView),
    RemoveDir(PathView),
    CopyFile(PathView, PathView),
    WriteFile(PathView, Seq<char>),
    AddVersion(Seq<char>, PathView, bool),
    SetPathAndCurrent(i32, PathView, bool),
    RemoveVersionsNamed(Seq<char>),
    RunSetup,
    OpenInEditor(PathView),
    OpenFolder(PathView),
    ListExtensions(PathView, PathView),
    RemoveFileIfPresent(PathView),
    RemoveDirIfPresent(PathView),
    DiscardFile(PathView),
    Download(Seq<char>, PathView),
    Extract(PathView, PathView),
    ConfigureIni(PathView),
}

impl View for Step {
    type V = StepView;

    open spec fn view(&self) -> StepView {
        match self {
            Step::Say(s) => StepView::Say(s@),
            Step::ReportMove { finished, source, to } => StepView::ReportMove(*finished, source@, to@),
            Step::Fail(s) => StepView::Fail(s@),
            Step::CopyDir { from, to } => StepView::CopyDir(from@, to@),
            Step::Rename { from, to } => StepView::Rename(from@, to@),
            Step::RemoveDir(p) => StepView::RemoveDir(p@),
            Step::CopyFile { from, to } => StepView::CopyFile(from@, to@),
            Step::WriteFile { path, content } => StepView::WriteFile(path@, content@),
            Step::AddVersion { version, path, is_current } => StepView::AddVersion(
                version@,
                path@,
                *is_current,
            ),
            Step::SetPathAndCurrent { id, path, is_current } => StepView::SetPathAndCurrent(
                *id,
                path@,
                *is_current,
            ),
            Step::RemoveVersionsNamed(v) => StepView::RemoveVersionsNamed(v@),
            Step::RunSetup => StepView::RunSetup,
            Step::OpenInEditor(p) => StepView::OpenInEditor(p@),
            Step::OpenFolder(p) => StepView::OpenFolder(p@),
            Step::ListExtensions { ext_dir, php_exe } => StepView::ListExtensions(ext_dir@, php_exe@),
            Step::RemoveFileIfPresent(p) => StepView::RemoveFileIfPresent(p@),
            Step::RemoveDirIfPresent(p) => StepView::RemoveDirIfPresent(p@),
            Step::DiscardFile(p) => StepView::DiscardFile(p@),
            Step::Download { url, to } => StepView::Download(url@, to@),
            Step::Extract { archive, to } => StepView::Extract(archive@, to@),
            Step::ConfigureIni(p) => StepView::ConfigureIni(p@),
        }
    }
}

/// The views of a list of steps.
pub open spec fn step_views(v: Seq<Step>) -> Seq<StepView> {
    v.map_values(|s: Step| s@)
}

/// A copy of the text `s`.
pub fn text(s: &str) -> (res: String)
    ensures
        res@ == s@,
{
    String::from_str(s)
}

/// The text `a` followed by `b`.
pub fn cat2(a: &str, b: &str) -> (res: String)
    ensures
        res@ == a@ + b@,
{
    let mut s = String::from_str(a);
    s.append(b);
    s
}

/// The text `a`, then `b`, then `c`.
pub fn cat3(a: &str, b: &str, c: &str) -> (res: String)
    ensures
        res@ == a@ + b@ + c@,
{
    let mut s = String::from_str(a);
    s.append(b);
    s.append(c);
    s
}

fn parts_of(names: &[&str]) -> (res: Vec<String>)
    ensures
        res.deep_view() == names@.map_values(|n: &str| n@),
{
    let mut res: Vec<String> = Vec::new();
    let n = names.len();
    for i in 0..n
        invariant
            n == names@.len(),
            res.deep_view() == names@.take(i as int).map_values(|n: &str| n@),
    {
        let ghost before = res.deep_view();
        let t = text(names[i]);
        res.push(t);
        assert(res.deep_view() =~= before.push(names@[i as int]@));
        assert(names@.take(i + 1).map_values(|n: &str| n@) =~= names@.take(i as int).map_values(
            |n: &str| n@,
        ).push(names@[i as int]@));
    }
    assert(names@.take(n as int) =~= names@);
    res
}

/// The location `name` in the base directory.
pub fn base_path(name: &str) -> (res: PathRef)
    ensures
        res@ == in_base(name@),
{
    let parts = parts_of([name].as_slice());
    assert(parts.deep_view() =~= seq![name@]);
    PathRef { stored: None, parts }
}

/// The location `names` (joined in order) under the base directory.
pub fn base_path_parts(names: &[&str]) -> (res: PathRef)
    ensures
        res@ == under_base(names@.map_values(|n: &str| n@)),
{
    PathRef { stored: None, parts: parts_of(names) }
}

/// The stored path `p`.
pub fn stored(p: &str) -> (res: PathRef)
    ensures
        res@ == stored_path(p@),
{
    let parts: Vec<String> = Vec::new();
    assert(parts.deep_view() =~= Seq::<Seq<char>>::empty());
    PathRef { stored: Some(text(p)), parts }
}

/// The location `name` inside the stored path `p`.
pub fn inside(p: &str, name: &str) -> (res: PathRef)
    ensures
        res@ == inside_stored(p@, name@),
{
    let parts = parts_of([name].as_slice());
    assert(parts.deep_view() =~= seq![name@]);
    PathRef { stored: Some(text(p)), parts }
}

/// The directory of an inactive installation of version `v`.
pub fn version_dir(v: &str) -> (res: PathRef)
    ensures
        res@ == in_base(version_dir_name(v@)),
{
    let name = cat2("php", v);
    base_path(name.as_str())
}

// ---------------------------------------------------------------- add

/// The steps of `add <version> --path <path>`: nothing but a notice when the version is
/// registered already; an error when the source directory is missing; otherwise the
/// directory is copied to `php<version>` in the base directory and registered there,
/// not active.
pub open spec fn add_steps(version: Seq<char>, path: Seq<char>, registered: bool, source_exists: bool) -> Seq<StepView> {
    if registered {
        seq![StepView::Say("Version "@ + version + " already exists"@)]
    } else if !source_exists {
        seq![StepView::Fail("Source path '"@ + path + "' does not exist"@)]
    } else {
        seq![
            StepView::CopyDir(stored_path(path), in_base(version_dir_name(version))),
            StepView::AddVersion(version, in_base(version_dir_name(version)), false),
            StepView::Say("Added version "@ + version),
        ]
    }
}

/// Plans `add`, as [`add_steps`] says. `registered` is whether the registry holds this
/// exact version; `source_exists` whether `path` exists.
pub fn plan_add(version: &str, path: &str, registered: bool, source_exists: bool) -> (res: Vec<Step>)
    ensures
        step_views(res@) == add_steps(version@, path@, registered, source_exists),
{
    let mut res: Vec<Step> = Vec::new();
    if registered {
        res.push(Step::Say(cat3("Version ", version, " already exists")));
    } else if !source_exists {
        res.push(Step::Fail(cat3("Source path '", path, "' does not exist")));
    } else {
        res.push(Step::CopyDir { from: stored(path), to: version_dir(version) });
        res.push(Step::AddVersion { version: text(version), path: version_dir(version), is_current: false });
        res.push(Step::Say(cat2("Added version ", version)));
    }
    assert(step_views(res@) =~= add_steps(version@, path@, registered, source_exists));
    res
}

// ---------------------------------------------------------------- use

/// The steps of `use <version>`. `target` is the installation the registry matches to the
/// requested version, `target_exists` whether its directory exists; `current` is the active
/// installation, `current_exists` whether its directory exists. When the target can be
/// switched to, the active installation (if any) is moved to `php<its version>` and marked
/// inactive, the target is moved to the active directory `php` and marked active, and
/// `setup` runs.
pub open spec fn use_steps(
    requested: Seq<char>,
    target: Option<PhpVersionView>,
    target_exists: bool,
    current: Option<PhpVersionView>,
    current_exists: bool,
) -> Seq<StepView> {
    match target {
        None => seq![StepView::Say("Version "@ + requested + " not found"@)],
        Some(t) => if t.is_current {
            seq![StepView::Say("Version "@ + t.version + " is already in use"@)]
        } else if !target_exists {
            seq![
                StepView::Say("Using version "@ + t.path),
                StepView::Say("Path "@ + t.path + " not found"@),
            ]
        } else {
            seq![StepView::Say("Using version "@ + t.path)] + move_out_steps(current, current_exists)
                + seq![
                StepView::Rename(stored_path(t.path), active_dir()),
                StepView::SetPathAndCurrent(t.id, active_dir(), true),
                StepView::Say("Using version "@ + t.version),
                StepView::RunSetup,
            ]
        },
    }
}

/// The steps that retire the active installation to `php<its version>`.
pub open spec fn move_out_steps(current: Option<PhpVersionView>, current_exists: bool) -> Seq<StepView> {
    match current {
        None => Seq::<StepView>::empty(),
        Some(c) => {
            let dest = in_base(version_dir_name(c.version));
            seq![StepView::ReportMove(false, c.path, dest)] + (if current_exists {
                seq![StepView::Rename(stored_path(c.path), dest)]
            } else {
                Seq::<StepView>::empty()
            }) + seq![
                StepView::ReportMove(true, c.path, dest),
                StepView::SetPathAndCurrent(c.id, dest, false),
            ]
        },
    }
}

/// Plans `use`, as [`use_steps`] says.
pub fn plan_use(
    requested: &str,
    target: &Option<PhpVersion>,
    target_exists: bool,
    current: &Option<PhpVersion>,
    current_exists: bool,
) -> (res: Vec<Step>)
    ensures
        step_views(res@) == use_steps(
            requested@,
            match target {
                Some(t) => Some(t@),
                None => None,
            },
            target_exists,
            match current {
                Some(c) => Some(c@),
                None => None,
            },
            current_exists,
        ),
{
    let ghost tv = match target {
        Some(t) => Some(t@),
        None => None::<PhpVersionView>,
    };
    let ghost cv = match current {
        Some(c) => Some(c@),
        None => None::<PhpVersionView>,
    };
    let mut res: Vec<Step> = Vec::new();
    let t = match target {
        None => {
            res.push(Step::Say(cat3("Version ", requested, " not found")));
            assert(step_views(res@) =~= use_steps(requested@, tv, target_exists, cv, current_exists));
            return res;
        },
        Some(t) => t,
    };
    if t.is_current {
        res.push(Step::Say(cat3("Version ", t.version.as_str(), " is already in use")));
        assert(step_views(res@) =~= use_steps(requested@, tv, target_exists, cv, current_exists));
        return res;
    }
    res.push(Step::Say(cat2("Using version ", t.path.as_str())));
    if !target_exists {
        res.push(Step::Say(cat3("Path ", t.path.as_str(), " not found")));
        assert(step_views(res@) =~= use_steps(requested@, tv, target_exists, cv, current_exists));
        return res;
    }
    let ghost head = step_views(res@);
    match current {
        Some(c) => {
            res.push(Step::ReportMove { finished: false, source: text(c.path.as_str()), to: version_dir(c.version.as_str()) });
            if current_exists {
                res.push(Step::Rename { from: stored(c.path.as_str()), to: version_dir(c.version.as_str()) });
            }
            res.push(Step::ReportMove { finished: true, source: text(c.path.as_str()), to: version_dir(c.version.as_str()) });
            res.push(Step::SetPathAndCurrent { id: c.id, path: version_dir(c.version.as_str()), is_current: false });
        },
        None => {},
    }
    assert(step_views(res@) =~= head + move_out_steps(cv, current_exists));
    let ghost mid = step_views(res@);
    res.push(Step::Rename { from: stored(t.path.as_str()), to: base_path("php") });
    res.push(Step::SetPathAndCurrent { id: t.id, path: base_path("php"), is_current: true });
    res.push(Step::Say(cat2("Using version ", t.version.as_str())));
    res.push(Step::RunSetup);
    assert(step_views(res@) =~= use_steps(requested@, tv, target_exists, cv, current_exists));
    res
}

// ---------------------------------------------------------------- uninstall

/// The steps of `uninstall <version>`: a notice when the registry matches no installation
/// or matches the active one; otherwise its directory is deleted when it exists and every
/// installation of its version is forgotten.
pub open spec fn uninstall_steps(requested: Seq<char>, target: Option<PhpVersionView>, path_exists: bool) -> Seq<StepView> {
    match target {
        None => seq![StepView::Say("Version "@ + requested + " not found"@)],
        Some(t) => if t.is_current {
            seq![
                StepView::Say(
                    "Version "@ + t.version
                        + " is currently in use. Switch to another version before uninstalling."@,
                ),
            ]
        } else {
            (if path_exists {
                seq![
                    StepView::RemoveDir(stored_path(t.path)),
                    StepView::Say("Deleted folder: "@ + t.path),
                ]
            } else {
                seq![StepView::Say("Folder not found: "@ + t.path)]
            }) + seq![
                StepView::RemoveVersionsNamed(t.version),
                StepView::Say("Uninstalled version "@ + t.version),
            ]
        },
    }
}

/// Plans `uninstall`, as [`uninstall_steps`] says.
pub fn plan_uninstall(requested: &str, target: &Option<PhpVersion>, path_exists: bool) -> (res: Vec<Step>)
    ensures
        step_views(res@) == uninstall_steps(
            requested@,
            match target {
                Some(t) => Some(t@),
                None => None,
            },
            path_exists,
        ),
{
    let mut res: Vec<Step> = Vec::new();
    match target {
        None => {
            res.push(Step::Say(cat3("Version ", requested, " not found")));
        },
        Some(t) => {
            if t.is_current {
                res.push(Step::Say(cat3("Version ", t.version.as_str(), " is currently in use. Switch to another version before uninstalling.")));
            } else {
                if path_exists {
                    res.push(Step::RemoveDir(stored(t.path.as_str())));
                    res.push(Step::Say(cat2("Deleted folder: ", t.path.as_str())));
                } else {
                    res.push(Step::Say(cat2("Folder not found: ", t.path.as_str())));
                }
                res.push(Step::RemoveVersionsNamed(text(t.version.as_str())));
                res.push(Step::Say(cat2("Uninstalled version ", t.version.as_str())));
            }
        },
    }
    assert(step_views(res@) =~= uninstall_steps(
        requested@,
        match target {
            Some(t) => Some(t@),
            None => None,
        },
        path_exists,
    ));
    res
}

// ---------------------------------------------------------------- list

/// The line that `list` prints for one installation.
pub open spec fn version_line(v: PhpVersionView) -> Seq<char> {
    v.version + " - "@ + v.path + " "@ + (if v.is_current {
        "(current)"@
    } else {
        ""@
    })
}

/// The lines that `list` prints: the base directory, then one line per installation,
/// or a notice when there is none.
pub open spec fn list_lines_spec(base_dir: Seq<char>, versions: Seq<PhpVersionView>) -> Seq<Seq<char>> {
    seq!["Current working directory: "@ + base_dir] + (if versions.len() == 0 {
        seq!["No versions found"@]
    } else {
        versions.map_values(|v: PhpVersionView| version_line(v))
    })
}

/// The lines that `list` prints, as [`list_lines_spec`] says.
pub fn list_lines(base_dir: &str, versions: &Vec<PhpVersion>) -> (res: Vec<String>)
    ensures
        res.deep_view() == list_lines_spec(base_dir@, versions@.map_values(|v: PhpVersion| v@)),
{
    let ghost vs = versions@.map_values(|v: PhpVersion| v@);
    let mut res: Vec<String> = Vec::new();
    res.push(cat2("Current working directory: ", base_dir));
    if versions.len() == 0 {
        res.push(text("No versions found"));
        assert(res.deep_view() =~= list_lines_spec(base_dir@, vs));
        return res;
    }
    let n = versions.len();
    for i in 0..n
        invariant
            n == versions@.len(),
            vs == versions@.map_values(|v: PhpVersion| v@),
            res.deep_view() == seq!["Current working directory: "@ + base_dir@] + vs.take(i as int).map_values(
                |v: PhpVersionView| version_line(v),
            ),
    {
        let v = &versions[i];
        let mut line = cat3(v.version.as_str(), " - ", v.path.as_str());
        line.append(" ");
        line.append(if v.is_current { "(current)" } else { "" });
        let ghost before = res.deep_view();
        res.push(line);
        assert(vs[i as int] == v@);
        assert(res.deep_view() =~= before.push(version_line(v@)));
        assert(vs.take(i + 1).map_values(|v: PhpVersionView| version_line(v)) =~= vs.take(
            i as int,
        ).map_values(|v: PhpVersionView| version_line(v)).push(version_line(vs[i as int])));
    }
    assert(vs.take(n as int) =~= vs);
    res
}

// ---------------------------------------------------------------- ini

/// The steps of `ini`: with an active installation, its `php.ini` is opened in the editor,
/// first copied from `php.ini-development` when missing; notices otherwise.
pub open spec fn ini_steps(current: Option<PhpVersionView>, ini_exists: bool, dev_exists: bool) -> Seq<StepView> {
    match current {
        None => seq![StepView::Say("No current version found"@)],
        Some(c) => {
            let ini = inside_stored(c.path, "php.ini"@);
            if ini_exists {
                seq![StepView::OpenInEditor(ini)]
            } else if !dev_exists {
                seq![
                    StepView::Say("php.ini not found copying php.ini-development file"@),
                    StepView::Say("php.ini-development not found"@),
                ]
            } else {
                seq![
                    StepView::Say("php.ini not found copying php.ini-development file"@),
                    StepView::CopyFile(inside_stored(c.path, "php.ini-development"@), ini),
                    StepView::OpenInEditor(ini),
                ]
            }
        },
    }
}

/// Plans `ini`, as [`ini_steps`] says.
pub fn plan_ini(current: &Option<PhpVersion>, ini_exists: bool, dev_exists: bool) -> (res: Vec<Step>)
    ensures
        step_views(res@) == ini_steps(
            match current {
                Some(c) => Some(c@),
                None => None,
            },
            ini_exists,
            dev_exists,
        ),
{
    let mut res: Vec<Step> = Vec::new();
    match current {
        None => {
            res.push(Step::Say(text("No current version found")));
        },
        Some(c) => {
            let p = c.path.as_str();
            if ini_exists {
                res.push(Step::OpenInEditor(inside(p, "php.ini")));
            } else if !dev_exists {
                res.push(Step::Say(text("php.ini not found copying php.ini-development file")));
                res.push(Step::Say(text("php.ini-development not found")));
            } else {
                res.push(Step::Say(text("php.ini not found copying php.ini-development file")));
                res.push(Step::CopyFile { from: inside(p, "php.ini-development"), to: inside(p, "php.ini") });
                res.push(Step::OpenInEditor(inside(p, "php.ini")));
            }
        },
    }
    assert(step_views(res@) =~= ini_steps(
        match current {
            Some(c) => Some(c@),
            None => None,
        },
        ini_exists,
        dev_exists,
    ));
    res
}

// ---------------------------------------------------------------- ext

/// What `ext` does with the extension directory.
#[derive(Debug, Clone, Copy, PartialEq, Eq, Structural)]
pub enum ExtCommand {
    /// Open the directory in the file browser.
    Open,
    /// List the extensions and whether each is loaded.
    List,
}

/// The steps of `ext [version] [open|list]`: with an installation whose `ext` directory
/// exists, that directory is opened or its extensions listed (opening is the default);
/// notices otherwise.
pub open spec fn ext_steps(target: Option<PhpVersionView>, ext_exists: bool, command: Option<ExtCommand>) -> Seq<StepView> {
    match target {
        None => seq![StepView::Say("Version not found"@)],
        Some(t) => if !ext_exists {
            seq![StepView::Say("ext not found"@)]
        } else {
            match command {
                Some(ExtCommand::List) => seq![
                    StepView::ListExtensions(
                        inside_stored(t.path, "ext"@),
                        inside_stored(t.path, "php.exe"@),
                    ),
                ],
                _ => seq![StepView::OpenFolder(inside_stored(t.path, "ext"@))],
            }
        },
    }
}

/// Plans `ext`, as [`ext_steps`] says. `target` is the installation named by the
/// version, or the active one when none is named.
pub fn plan_ext(target: &Option<PhpVersion>, ext_exists: bool, command: Option<ExtCommand>) -> (res: Vec<Step>)
    ensures
        step_views(res@) == ext_steps(
            match target {
                Some(t) => Some(t@),
                None => None,
            },
            ext_exists,
            command,
        ),
{
    let mut res: Vec<Step> = Vec::new();
    match target {
        None => {
            res.push(Step::Say(text("Version not found")));
        },
        Some(t) => {
            let p = t.path.as_str();
            if !ext_exists {
                res.push(Step::Say(text("ext not found")));
            } else {
                match command {
                    Some(ExtCommand::List) => {
                        res.push(Step::ListExtensions { ext_dir: inside(p, "ext"), php_exe: inside(p, "php.exe") });
                    },
                    _ => {
                        res.push(Step::OpenFolder(inside(p, "ext")));
                    },
                }
            }
        },
    }
    assert(step_views(res@) =~= ext_steps(
        match target {
            Some(t) => Some(t@),
            None => None,
        },
        ext_exists,
        command,
    ));
    res
}

// ---------------------------------------------------------------- ext-enable

/// The file name of the library of extension `ext`: `php_<ext>.dll`.
pub open spec fn extension_dll_name(ext: Seq<char>) -> Seq<char> {
    "php_"@ + ext + ".dll"@
}

/// Where the library of extension `ext` lies in the active installation.
pub open spec fn extension_dll(ext: Seq<char>) -> PathView {
    under_base(seq!["php"@, "ext"@, extension_dll_name(ext)])
}

/// The `php.ini` of the active installation.
pub open spec fn active_ini() -> PathView {
    under_base(seq!["php"@, "php.ini"@])
}

/// The `php.ini-development` of the active installation.
pub open spec fn active_ini_development() -> PathView {
    under_base(seq!["php"@, "php.ini-development"@])
}

/// The location of the library of extension `ext` in the active installation, which
/// must exist for `ext-enable` to go on.
pub fn extension_dll_path(ext: &str) -> (res: PathRef)
    ensures
        res@ == extension_dll(ext@),
{
    let name = cat3("php_", ext, ".dll");
    let parts: [&str; 3] = ["php", "ext", name.as_str()];
    let r = base_path_parts(parts.as_slice());
    assert(parts@.map_values(|n: &str| n@) =~= seq!["php"@, "ext"@, extension_dll_name(ext@)]);
    r
}

/// The first steps of `ext-enable`, before the `php.ini` text is read: a notice when the
/// extension's library is missing; when `php.ini` is missing, it is copied from
/// `php.ini-development`, or a notice when that is missing too. The flag says whether
/// the command goes on to edit `php.ini`.
pub open spec fn ext_enable_prepare_steps(dll_exists: bool, ini_exists: bool, dev_exists: bool) -> (Seq<StepView>, bool) {
    if !dll_exists {
        (seq![StepView::Say("file not found"@)], false)
    } else if ini_exists {
        (Seq::<StepView>::empty(), true)
    } else if !dev_exists {
        (
            seq![
                StepView::Say("php.ini not found copying php.ini-development file"@),
                StepView::Say("php.ini-development not found"@),
            ],
            false,
        )
    } else {
        (
            seq![
                StepView::Say("php.ini not found copying php.ini-development file"@),
                StepView::CopyFile(active_ini_development(), active_ini()),
            ],
            true,
        )
    }
}

/// Plans the first part of `ext-enable`, as [`ext_enable_prepare_steps`] says.
pub fn plan_ext_enable_prepare(dll_exists: bool, ini_exists: bool, dev_exists: bool) -> (res: (Vec<Step>, bool))
    ensures
        (step_views(res.0@), res.1) == ext_enable_prepare_steps(dll_exists, ini_exists, dev_exists),
{
    let mut steps: Vec<Step> = Vec::new();
    let mut go_on = true;
    if !dll_exists {
        steps.push(Step::Say(text("file not found")));
        go_on = false;
    } else if !ini_exists {
        steps.push(Step::Say(text("php.ini not found copying php.ini-development file")));
        if !dev_exists {
            steps.push(Step::Say(text("php.ini-development not found")));
            go_on = false;
        } else {
            let dev_parts: [&str; 2] = ["php", "php.ini-development"];
            let ini_parts: [&str; 2] = ["php", "php.ini"];
            let from = base_path_parts(dev_parts.as_slice());
            let to = base_path_parts(ini_parts.as_slice());
            assert(dev_parts@.map_values(|n: &str| n@) =~= seq!["php"@, "php.ini-development"@]);
            assert(ini_parts@.map_values(|n: &str| n@) =~= seq!["php"@, "php.ini"@]);
            steps.push(Step::CopyFile { from, to });
        }
    }
    assert(step_views(steps@) =~= ext_enable_prepare_steps(dll_exists, ini_exists, dev_exists).0);
    (steps, go_on)
}

/// The last steps of `ext-enable`, once the edit of the `php.ini` text is known.
pub open spec fn ext_enable_finish_steps(edit: ExtensionEditView) -> Seq<StepView> {
    match edit {
        ExtensionEditView::AlreadyEnabled => seq![StepView::Say("extension already enabled"@)],
        ExtensionEditView::Enabled(c) => seq![
            StepView::WriteFile(active_ini(), c),
            StepView::Say("extension enabled"@),
        ],
        ExtensionEditView::NotListed => seq![StepView::Say("extension not found in ini file"@)],
    }
}

/// Plans the rest of `ext-enable` for the `php.ini` text `content`: the extension `ext`
/// is enabled as [`extension_edit`] says and the outcome reported.
pub fn plan_ext_enable_edit(content: &str, ext: &str) -> (res: Vec<Step>)
    ensures
        step_views(res@) == ext_enable_finish_steps(extension_edit(content@, ext@)),
{
    let mut steps: Vec<Step> = Vec::new();
    match enable_extension(content, ext) {
        ExtensionEdit::AlreadyEnabled => {
            steps.push(Step::Say(text("extension already enabled")));
        },
        ExtensionEdit::Enabled(c) => {
            let ini_parts: [&str; 2] = ["php", "php.ini"];
            let path = base_path_parts(ini_parts.as_slice());
            assert(ini_parts@.map_values(|n: &str| n@) =~= seq!["php"@, "php.ini"@]);
            steps.push(Step::WriteFile { path, content: c });
            steps.push(Step::Say(text("extension enabled")));
        },
        ExtensionEdit::NotListed => {
            steps.push(Step::Say(text("extension not found in ini file")));
        },
    }
    assert(step_views(steps@) =~= ext_enable_finish_steps(extension_edit(content@, ext@)));
    steps
}

// ---------------------------------------------------------------- install

/// The notice of `install` when the registry already matches the requested version.
pub open spec fn install_existing_steps(existing: Option<PhpVersionView>) -> Seq<StepView> {
    match existing {
        Some(v) => seq![StepView::Say("Version "@ + v.version + " already exists"@)],
        None => Seq::<StepView>::empty(),
    }
}

/// Plans the first part of `install`: a notice, and the command stops, when the registry
/// already matches the requested version (then the result is not empty).
pub fn plan_install_existing(existing: &Option<PhpVersion>) -> (res: Vec<Step>)
    ensures
        step_views(res@) == install_existing_steps(
            match existing {
                Some(v) => Some(v@),
                None => None,
            },
        ),
{
    let mut steps: Vec<Step> = Vec::new();
    match existing {
        Some(v) => {
            steps.push(Step::Say(cat3("Version ", v.version.as_str(), " already exists")));
        },
        None => {},
    }
    assert(step_views(steps@) =~= install_existing_steps(
        match existing {
            Some(v) => Some(v@),
            None => None,
        },
    ));
    steps
}

/// The steps of `install` once a download is chosen: the archive `php<ver>.zip` and the
/// directory `php<ver>` (in the base directory) are cleared, the archive is downloaded
/// and unpacked, `php.ini` is prepared, the archive is discarded, and the installation is
/// registered (inactive) in place of any earlier one of that version.
pub open spec fn install_steps(requested: Seq<char>, chosen: Option<(Seq<char>, Seq<char>)>) -> Seq<StepView> {
    match chosen {
        None => seq![StepView::Say("Download url not found for version "@ + requested)],
        Some((ver, url)) => {
            let zip = in_base("php"@ + ver + ".zip"@);
            let dir = in_base(version_dir_name(ver));
            seq![
                StepView::RemoveFileIfPresent(zip),
                StepView::Download(url, zip),
                StepView::RemoveDirIfPresent(dir),
                StepView::Extract(zip, dir),
                StepView::ConfigureIni(dir),
                StepView::DiscardFile(zip),
                StepView::RemoveVersionsNamed(ver),
                StepView::AddVersion(ver, dir, false),
                StepView::Say("installed successfully "@ + ver),
            ]
        },
    }
}

/// Plans the rest of `install`, as [`install_steps`] says, for the download `chosen`.
pub fn plan_install(requested: &str, chosen: &Option<InstallUrl>) -> (res: Vec<Step>)
    ensures
        step_views(res@) == install_steps(
            requested@,
            match chosen {
                Some(u) => Some((u.version@, u.url@)),
                None => None,
            },
        ),
{
    let mut steps: Vec<Step> = Vec::new();
    match chosen {
        None => {
            steps.push(Step::Say(cat2("Download url not found for version ", requested)));
        },
        Some(u) => {
            let ver = u.version.as_str();
            let zip_name = cat3("php", ver, ".zip");
            let zip = zip_name.as_str();
            steps.push(Step::RemoveFileIfPresent(base_path(zip)));
            steps.push(Step::Download { url: text(u.url.as_str()), to: base_path(zip) });
            steps.push(Step::RemoveDirIfPresent(version_dir(ver)));
            steps.push(Step::Extract { archive: base_path(zip), to: version_dir(ver) });
            steps.push(Step::ConfigureIni(version_dir(ver)));
            steps.push(Step::DiscardFile(base_path(zip)));
            steps.push(Step::RemoveVersionsNamed(text(ver)));
            steps.push(Step::AddVersion { version: text(ver), path: version_dir(ver), is_current: false });
            steps.push(Step::Say(cat2("installed successfully ", ver)));
        },
    }
    assert(step_views(steps@) =~= install_steps(
        requested@,
        match chosen {
            Some(u) => Some((u.version@, u.url@)),
            None => None,
        },
    ));
    steps
}

// ---------------------------------------------------------------- setup

/// The steps of `setup` for a PHP installation found on the `PATH` at `dir` reporting
/// version `version`: it is copied to `php<version>` and registered (inactive) unless the
/// registry holds that exact version or the destination exists already.
pub open spec fn import_steps(version: Seq<char>, dir: Seq<char>, registered: bool, dest_exists: bool) -> Seq<StepView> {
    seq![StepView::Say("Detected existing PHP version "@ + version + " installed at: "@ + dir)] + (if registered {
        seq![StepView::Say("Version "@ + version + " is already registered under PVM."@)]
    } else if dest_exists {
        Seq::<StepView>::empty()
    } else {
        seq![
            StepView::Say("Importing existing PHP into PVM local store..."@),
            StepView::CopyDir(stored_path(dir), in_base(version_dir_name(version))),
            StepView::AddVersion(version, in_base(version_dir_name(version)), false),
            StepView::Say("Imported version "@ + version + " successfully."@),
        ]
    })
}

/// Plans the import part of `setup`, as [`import_steps`] says.
pub fn plan_import(version: &str, dir: &str, registered: bool, dest_exists: bool) -> (res: Vec<Step>)
    ensures
        step_views(res@) == import_steps(version@, dir@, registered, dest_exists),
{
    let mut steps: Vec<Step> = Vec::new();
    let mut head = cat3("Detected existing PHP version ", version, " installed at: ");
    head.append(dir);
    steps.push(Step::Say(head));
    if registered {
        steps.push(Step::Say(cat3("Version ", version, " is already registered under PVM.")));
    } else if !dest_exists {
        steps.push(Step::Say(text("Importing existing PHP into PVM local store...")));
        steps.push(Step::CopyDir { from: stored(dir), to: version_dir(version) });
        steps.push(Step::AddVersion { version: text(version), path: version_dir(version), is_current: false });
        steps.push(Step::Say(cat3("Imported version ", version, " successfully.")));
    }
    assert(step_views(steps@) =~= import_steps(version@, dir@, registered, dest_exists));
    steps
}

// ---------------------------------------------------------------- laws

/// `ini` copies nothing but the current installation's `php.ini-development` onto its
/// `php.ini`, and does so exactly when `php.ini` is missing and `php.ini-development`
/// exists; the file it opens in the editor is always that installation's `php.ini`,
/// opened right after the copy when one was made.
pub proof fn lemma_ini_copies_development_onto_ini(c: PhpVersionView, ini_exists: bool, dev_exists: bool)
    ensures
        ({
            let s = ini_steps(Some(c), ini_exists, dev_exists);
            let dev = (PathView { stored: Some(c.path), parts: seq!["php.ini-development"@] });
            let ini = (PathView { stored: Some(c.path), parts: seq!["php.ini"@] });
            &&& forall|k: int|
                #![trigger s[k]]
                0 <= k < s.len() ==> (s[k] matches StepView::CopyFile(from, to) ==> from == dev && to == ini)
            &&& forall|k: int|
                #![trigger s[k]]
                0 <= k < s.len() ==> (s[k] matches StepView::OpenInEditor(p) ==> p == ini)
            &&& (exists|k: int| #![trigger s[k]] 0 <= k < s.len() && s[k] is CopyFile) <==> (!ini_exists
                && dev_exists)
            &&& !ini_exists && dev_exists ==> s.len() == 3 && s[1] == StepView::CopyFile(dev, ini)
                && s[2] == StepView::OpenInEditor(ini)
        }),
{
    let s = ini_steps(Some(c), ini_exists, dev_exists);
    if !ini_exists && dev_exists {
        assert(s[1] is CopyFile);
    }
}

/// The first part of `ext-enable` copies nothing but the active installation's
/// `php.ini-development` onto its `php.ini` (`php/php.ini-development` to `php/php.ini` in
/// the base directory), and does so exactly when the extension's library exists,
/// `php.ini` is missing and `php.ini-development` exists; the command goes on to edit
/// `php.ini` exactly when the library exists and `php.ini` exists or was just copied.
pub proof fn lemma_ext_enable_copies_development_onto_ini(dll_exists: bool, ini_exists: bool, dev_exists: bool)
    ensures
        ({
            let s = ext_enable_prepare_steps(dll_exists, ini_exists, dev_exists).0;
            let go_on = ext_enable_prepare_steps(dll_exists, ini_exists, dev_exists).1;
            let dev = (PathView { stored: None, parts: seq!["php"@, "php.ini-development"@] });
            let ini = (PathView { stored: None, parts: seq!["php"@, "php.ini"@] });
            &&& forall|k: int|
                #![trigger s[k]]
                0 <= k < s.len() ==> (s[k] matches StepView::CopyFile(from, to) ==> from == dev && to == ini)
            &&& (exists|k: int| #![trigger s[k]] 0 <= k < s.len() && s[k] is CopyFile) <==> (dll_exists
                && !ini_exists && dev_exists)
            &&& go_on <==> (dll_exists && (ini_exists || dev_exists))
            &&& dll_exists && !ini_exists && dev_exists ==> s.len() == 2 && s[1] == StepView::CopyFile(
                dev,
                ini,
            )
        }),
{
    let s = ext_enable_prepare_steps(dll_exists, ini_exists, dev_exists).0;
    if dll_exists && !ini_exists && dev_exists {
        assert(s[1] is CopyFile);
    }
}

/// `ext <version> list` asks the listed installation's own interpreter which extensions
/// are loaded: the extension directory and `php.exe` both lie directly in that
/// installation's stored path. A listing is planned exactly when the directory exists
/// and `list` was asked for.
pub proof fn lemma_ext_list_uses_own_interpreter(t: PhpVersionView, ext_exists: bool, command: Option<ExtCommand>)
    ensures
        ({
            let s = ext_steps(Some(t), ext_exists, command);
            &&& forall|k: int|
                #![trigger s[k]]
                0 <= k < s.len() ==> (s[k] matches StepView::ListExtensions(ext_dir, php_exe) ==> ext_dir
                    == (PathView { stored: Some(t.path), parts: seq!["ext"@] }) && php_exe == (PathView {
                    stored: Some(t.path),
                    parts: seq!["php.exe"@],
                }))
            &&& (exists|k: int| #![trigger s[k]] 0 <= k < s.len() && s[k] is ListExtensions) <==> (
            ext_exists && command == Some(ExtCommand::List))
        }),
        ext_steps(Some(t), true, Some(ExtCommand::List)) == seq![
            StepView::ListExtensions(
                (PathView { stored: Some(t.path), parts: seq!["ext"@] }),
                (PathView { stored: Some(t.path), parts: seq!["php.exe"@] }),
            ),
        ],
{
    let s = ext_steps(Some(t), ext_exists, command);
    if ext_exists && command == Some(ExtCommand::List) {
        assert(s[0] is ListExtensions);
    }
}

/// `install` unpacks the very archive it downloaded, `php<ver>.zip` in the base
/// directory, into `php<ver>` in the base directory, and then prepares the `php.ini` of
/// that same new directory and registers it, inactive, as version `ver`.
pub proof fn lemma_install_configures_new_installation(requested: Seq<char>, ver: Seq<char>, url: Seq<char>)
    ensures
        ({
            let s = install_steps(requested, Some((ver, url)));
            &&& s.len() == 9
            &&& s[3] matches StepView::Extract(archive, dest) && dest == (PathView {
                stored: None,
                parts: seq!["php"@ + ver],
            }) && archive == (PathView { stored: None, parts: seq!["php"@ + ver + ".zip"@] }) && s[1]
                == StepView::Download(url, archive) && s[4] == StepView::ConfigureIni(dest) && s[7]
                == StepView::AddVersion(ver, dest, false)
        }),
{
}

/// `add` copies the given directory into `php<version>` in the base directory and then
/// registers exactly that directory, inactive, as `version`; it copies and registers
/// nothing when the version is registered already or the source directory is missing.
pub proof fn lemma_add_registers_copied_dir(
    version: Seq<char>,
    path: Seq<char>,
    registered: bool,
    source_exists: bool,
)
    ensures
        ({
            let s = add_steps(version, path, registered, source_exists);
            let dest = (PathView { stored: None, parts: seq!["php"@ + version] });
            &&& forall|k: int|
                #![trigger s[k]]
                0 <= k < s.len() ==> (s[k] matches StepView::CopyDir(from, to) ==> from == (PathView {
                    stored: Some(path),
                    parts: Seq::<Seq<char>>::empty(),
                }) && to == dest)
            &&& forall|k: int|
                #![trigger s[k]]
                0 <= k < s.len() ==> (s[k] matches StepView::AddVersion(v, p, active) ==> v == version && p
                    == dest && !active)
            &&& (exists|k: int| #![trigger s[k]] 0 <= k < s.len() && s[k] is CopyDir) <==> (!registered
                && source_exists)
            &&& (exists|k: int| #![trigger s[k]] 0 <= k < s.len() && s[k] is AddVersion) <==> (!registered
                && source_exists)
            &&& !registered && source_exists ==> s[0] is CopyDir && s[1] is AddVersion
        }),
{
    let s = add_steps(version, path, registered, source_exists);
    if !registered && source_exists {
        assert(s[0] is CopyDir);
        assert(s[1] is AddVersion);
    }
}

/// The import part of `setup` copies the detected directory into `php<version>` in the
/// base directory and then registers exactly that directory, inactive, as `version`; it
/// copies and registers nothing when the version is registered already or the
/// destination exists.
pub proof fn lemma_import_registers_copied_dir(
    version: Seq<char>,
    dir: Seq<char>,
    registered: bool,
    dest_exists: bool,
)
    ensures
        ({
            let s = import_steps(version, dir, registered, dest_exists);
            let dest = (PathView { stored: None, parts: seq!["php"@ + version] });
            &&& forall|k: int|
                #![trigger s[k]]
                0 <= k < s.len() ==> (s[k] matches StepView::CopyDir(from, to) ==> from == (PathView {
                    stored: Some(dir),
                    parts: Seq::<Seq<char>>::empty(),
                }) && to == dest)
            &&& forall|k: int|
                #![trigger s[k]]
                0 <= k < s.len() ==> (s[k] matches StepView::AddVersion(v, p, active) ==> v == version && p
                    == dest && !active)
            &&& (exists|k: int| #![trigger s[k]] 0 <= k < s.len() && s[k] is CopyDir) <==> (!registered
                && !dest_exists)
            &&& (exists|k: int| #![trigger s[k]] 0 <= k < s.len() && s[k] is AddVersion) <==> (!registered
                && !dest_exists)
            &&& !registered && !dest_exists ==> s[2] is CopyDir && s[3] is AddVersion
        }),
{
    let s = import_steps(version, dir, registered, dest_exists);
    if !registered && !dest_exists {
        assert(s[2] is CopyDir);
        assert(s[3] is AddVersion);
    }
}

/// `uninstall` deletes no directory but the stored path of the installation it
/// uninstalls, and forgets the installations of that version only; it deletes and
/// forgets nothing when that installation is the active one. The directory is deleted
/// exactly when it exists.
pub proof fn lemma_uninstall_removes_only_target(
    requested: Seq<char>,
    target: Option<PhpVersionView>,
    path_exists: bool,
)
    ensures
        ({
            let s = uninstall_steps(requested, target, path_exists);
            &&& forall|k: int|
                #![trigger s[k]]
                0 <= k < s.len() ==> (s[k] matches StepView::RemoveDir(p) ==> target matches Some(t)
                    && !t.is_current && p == (PathView {
                    stored: Some(t.path),
                    parts: Seq::<Seq<char>>::empty(),
                }))
            &&& forall|k: int|
                #![trigger s[k]]
                0 <= k < s.len() ==> (s[k] matches StepView::RemoveVersionsNamed(v) ==> target matches Some(
                    t,
                ) && !t.is_current && v == t.version)
            &&& (exists|k: int| #![trigger s[k]] 0 <= k < s.len() && s[k] is RemoveDir) <==> (target matches Some(
                t,
            ) && !t.is_current && path_exists)
            &&& (exists|k: int| #![trigger s[k]] 0 <= k < s.len() && s[k] is RemoveVersionsNamed) <==> (
            target matches Some(t) && !t.is_current)
        }),
{
    let s = uninstall_steps(requested, target, path_exists);
    match target {
        Some(t) => {
            if !t.is_current {
                if path_exists {
                    assert(s[0] is RemoveDir);
                    assert(s[2] is RemoveVersionsNamed);
                } else {
                    assert(s[1] is RemoveVersionsNamed);
                }
            }
        },
        None => {},
    }
}

/// The rest of `ext-enable` writes nothing but the edited text, to the active
/// installation's `php.ini`, and writes exactly when the edit enables the extension.
pub proof fn lemma_ext_enable_writes_active_ini(edit: ExtensionEditView)
    ensures
        ({
            let s = ext_enable_finish_steps(edit);
            &&& forall|k: int|
                #![trigger s[k]]
                0 <= k < s.len() ==> (s[k] matches StepView::WriteFile(p, c) ==> p == (PathView {
                    stored: None,
                    parts: seq!["php"@, "php.ini"@],
                }) && edit == ExtensionEditView::Enabled(c))
            &&& (exists|k: int| #![trigger s[k]] 0 <= k < s.len() && s[k] is WriteFile) <==> edit is Enabled
        }),
{
    let s = ext_enable_finish_steps(edit);
    if edit is Enabled {
        assert(s[0] is WriteFile);
    }
}

/// `use` of an inactive installation whose directory exists moves that directory to the
/// active directory `php` and points its registry entry there, marked active, and then
/// runs `setup`. Before that, and only before that, the previously active installation,
/// if any, is moved out to `php<its version>` (when its directory exists) and its entry
/// pointed there, marked inactive: no other directory is moved and no other entry
/// changed, and the active directory is vacated before the target moves in.
pub proof fn lemma_use_moves_target_into_active_dir(
    requested: Seq<char>,
    t: PhpVersionView,
    current: Option<PhpVersionView>,
    current_exists: bool,
)
    requires
        !t.is_current,
    ensures
        ({
            let s = use_steps(requested, Some(t), true, current, current_exists);
            let n = s.len() - 4;
            let active = (PathView { stored: None, parts: seq!["php"@] });
            &&& s.len() >= 5
            &&& s[n] == StepView::Rename(
                (PathView { stored: Some(t.path), parts: Seq::<Seq<char>>::empty() }),
                active,
            )
            &&& s[n + 1] == StepView::SetPathAndCurrent(t.id, active, true)
            &&& s[n + 3] == StepView::RunSetup
            &&& !(s[n + 2] is Rename) && !(s[n + 2] is SetPathAndCurrent)
            &&& forall|k: int|
                #![trigger s[k]]
                0 <= k < n ==> (s[k] matches StepView::Rename(from, to) ==> current matches Some(c)
                    && current_exists && from == (PathView {
                    stored: Some(c.path),
                    parts: Seq::<Seq<char>>::empty(),
                }) && to == (PathView { stored: None, parts: seq!["php"@ + c.version] }))
            &&& forall|k: int|
                #![trigger s[k]]
                0 <= k < n ==> (s[k] matches StepView::SetPathAndCurrent(id, p, active_flag) ==> current matches Some(
                    c,
                ) && id == c.id && p == (PathView { stored: None, parts: seq!["php"@ + c.version] })
                    && !active_flag)
            &&& current matches Some(c) ==> exists|k: int|
                #![trigger s[k]]
                0 <= k < n && s[k] == StepView::SetPathAndCurrent(
                    c.id,
                    (PathView { stored: None, parts: seq!["php"@ + c.version] }),
                    false,
                )
            &&& current matches Some(c) ==> (current_exists ==> exists|k: int|
                #![trigger s[k]]
                0 <= k < n && s[k] == StepView::Rename(
                    (PathView { stored: Some(c.path), parts: Seq::<Seq<char>>::empty() }),
                    (PathView { stored: None, parts: seq!["php"@ + c.version] }),
                ))
        }),
{
    let s = use_steps(requested, Some(t), true, current, current_exists);
    let head = seq![StepView::Say("Using version "@ + t.path)];
    let mid = move_out_steps(current, current_exists);
    let tail = seq![
        StepView::Rename(stored_path(t.path), active_dir()),
        StepView::SetPathAndCurrent(t.id, active_dir(), true),
        StepView::Say("Using version "@ + t.version),
        StepView::RunSetup,
    ];
    assert(s == head + mid + tail);
    let n = s.len() - 4;
    assert(n == 1 + mid.len());
    assert forall|k: int| 0 <= k < 4 implies #[trigger] s[n + k] == tail[k] by {}
    assert forall|k: int| 1 <= k < n implies #[trigger] s[k] == mid[k - 1] by {}
    match current {
        Some(c) => {
            let dest = in_base(version_dir_name(c.version));
            if current_exists {
                assert(mid[1] == StepView::Rename(stored_path(c.path), dest));
                assert(s[2] == mid[1]);
                assert(mid[3] == StepView::SetPathAndCurrent(c.id, dest, false));
                assert(s[4] == mid[3]);
            } else {
                assert(mid[2] == StepView::SetPathAndCurrent(c.id, dest, false));
                assert(s[3] == mid[2]);
            }
        },
        None => {},
    }
}

} // verus!
