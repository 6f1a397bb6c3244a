//! A mod project, and where its files are.

use vstd::prelude::*;

use crate::config::{configured_path, resolve_configured_path, RustforgeConfig};
use crate::engine::{
    commit_can_be_cut, engine_message, load_engine_spec, locked_engine, locked_packages, Engine,
    EngineFault, EngineSpec, EngineSpecError,
};
use crate::host::{names, prefix_len, Host, Separators};
use crate::packaging::PackageError;
use crate::path::{
    are_told_apart, is_unseparated, is_verbatim_path, join_path,
    law_directory_holds_what_is_named_in_it, law_named_path_has_parent,
    lemma_join_ends_alike, lemma_joins_differ, lemma_plain_texts_are_told_apart, path_join,
    path_parent, stays_inside,
};
use crate::sync::{SyncTarget, Target};
use crate::text::{
    begins, concat, concat3, ends, law_character_is_replaced_everywhere,
    law_nothing_else_is_replaced, occurs_at, occurs_in, optional_text, optional_view, replace,
    replaced, views,
};

verus! {

/// The kinds of crate that a build target makes, as far as they are told apart.
#[derive(Debug, Clone, Copy, PartialEq, Eq, Structural)]
pub enum CrateType {
    /// A dynamic library with a C interface: what an engine loads.
    CDyLib,
    /// Any other kind.
    Other,
}

/// A build target of a package.
#[derive(Debug)]
pub struct BuildTarget {
    pub name: String,
    pub crate_types: Vec<CrateType>,
}

/// The package of a mod project.
#[derive(Debug)]
pub struct PackageInfo {
    pub name: String,
    pub version: String,
    pub targets: Vec<BuildTarget>,
}

/// A mod project that was loaded.
#[derive(Debug)]
pub struct App {
    /// The host that the tool runs on.
    pub host: Host,
    pub project_root: String,
    pub manifest_path: String,
    /// Where builds of the project are put.
    pub target_directory: String,
    pub package: PackageInfo,
    pub config: RustforgeConfig,
    /// The engine that the lockfile pins.
    pub engine: EngineSpec,
}

/// Why a project could not be loaded.
#[derive(Debug)]
pub enum LoadError {
    /// There is no manifest in the directory.
    NoManifest(String),
    /// The manifest is that of no package.
    NoRootPackage,
    /// There is no lockfile at the path.
    NoLock(String),
    /// The lockfile pins no engine.
    Engine(EngineSpecError),
}

/// A [`LoadError`] with its texts as sequences.
pub enum LoadFault {
    NoManifest(Seq<char>),
    NoRootPackage,
    NoLock(Seq<char>),
    Engine(EngineFault),
}

impl View for LoadError {
    type V = LoadFault;

    open spec fn view(&self) -> LoadFault {
        match self {
            LoadError::NoManifest(directory) => LoadFault::NoManifest(directory@),
            LoadError::NoRootPackage => LoadFault::NoRootPackage,
            LoadError::NoLock(path) => LoadFault::NoLock(path@),
            LoadError::Engine(error) => LoadFault::Engine(error@),
        }
    }
}

/// What a [`LoadError`] says.
pub open spec fn load_message(fault: LoadFault) -> Seq<char> {
    match fault {
        LoadFault::NoManifest(directory) => "Cargo.toml not found in "@ + directory
            + "; run rustforge from the mod project root"@,
        LoadFault::NoRootPackage => "no root package found for current Cargo project"@,
        LoadFault::NoLock(path) => "Cargo.lock not found at "@ + path
            + "; run `cargo generate-lockfile` or `cargo build` first"@,
        LoadFault::Engine(fault) => engine_message(fault),
    }
}

impl LoadError {
    /// What the error says.
    pub fn message(&self) -> (message: String)
        ensures
            message@ == load_message(self@),
    {
        match self {
            LoadError::NoManifest(directory) => concat3(
                "Cargo.toml not found in ",
                directory.as_str(),
                "; run rustforge from the mod project root",
            ),
            LoadError::NoRootPackage =>
                "no root package found for current Cargo project".to_owned(),
            LoadError::NoLock(path) => concat3(
                "Cargo.lock not found at ",
                path.as_str(),
                "; run `cargo generate-lockfile` or `cargo build` first",
            ),
            LoadError::Engine(error) => error.message(),
        }
    }
}

/// Why a project cannot be loaded, where it cannot: it needs a package, a lockfile
/// and an engine that the lockfile pins.
pub open spec fn load_fault(
    host: Host,
    project_root: Seq<char>,
    has_package: bool,
    lock: Option<Seq<char>>,
    configured_url: Option<Seq<char>>,
) -> Option<LoadFault> {
    if !has_package {
        Some(LoadFault::NoRootPackage)
    } else {
        match lock {
            None => Some(LoadFault::NoLock(path_join(host, project_root, "Cargo.lock"@))),
            Some(text) => match locked_packages(text) {
                Err(fault) => Some(LoadFault::Engine(fault)),
                Ok(packages) => match locked_engine(packages, configured_url) {
                    Err(fault) => Some(LoadFault::Engine(fault)),
                    Ok(_) => None,
                },
            },
        }
    }
}

/// Whether a build target makes a library that an engine loads.
pub open spec fn makes_cdylib(target: BuildTarget) -> bool {
    target.crate_types@.contains(CrateType::CDyLib)
}

/// The crate name of the first target that makes a library for an engine.
pub open spec fn cdylib_name(targets: Seq<BuildTarget>) -> Option<Seq<char>>
    decreases targets.len(),
{
    if targets.len() == 0 {
        None
    } else if makes_cdylib(targets[0]) {
        Some(replaced(targets[0].name@, "-"@, "_"@))
    } else {
        cdylib_name(targets.skip(1))
    }
}

/// The file name of a package: the mod, its version where it is a release,
/// the target where it is asked for, and the engine where it is a release.
pub open spec fn artifact_name(
    mod_id: Seq<char>,
    version: Seq<char>,
    commit_short: Seq<char>,
    release: bool,
    target: Option<Seq<char>>,
    include_target: bool,
) -> Seq<char> {
    let with_version = if release && version.len() > 0 {
        mod_id + "-"@ + version
    } else {
        mod_id
    };
    let with_target = match target {
        Some(triple) => if include_target {
            with_version + "-"@ + triple
        } else {
            with_version
        },
        None => with_version,
    };
    if release {
        with_target + "-engine-"@ + commit_short + ".rf"@
    } else {
        with_target + ".rf"@
    }
}

impl App {
    /// The name that the mod goes by.
    pub open spec fn id(&self) -> Seq<char> {
        match self.config.mod_id {
            Some(configured) => configured@,
            None => self.package.name@,
        }
    }

    pub open spec fn mirror_path(&self) -> Seq<char> {
        path_join(self.host, self.project_root@, ".rustforge/engine/mirror.git"@)
    }

    pub open spec fn worktree_path(&self) -> Seq<char> {
        configured_path(
            self.host,
            self.project_root@,
            optional_text(self.config.paths.engine_root),
            ".rustforge/engine/worktrees/"@ + self.engine.commit@,
            self.engine.commit@,
        )
    }

    pub open spec fn out_path(&self) -> Seq<char> {
        configured_path(
            self.host,
            self.project_root@,
            optional_text(self.config.paths.out_dir),
            ".rustforge/out"@,
            self.engine.commit@,
        )
    }

    pub open spec fn dist_path(&self) -> Seq<char> {
        path_join(self.host, self.project_root@, "dist"@)
    }

    /// Where a package is put: a release among those to hand out, any other
    /// one among the tool's own files.
    pub open spec fn artifact(
        &self,
        release: bool,
        target: Option<Seq<char>>,
        include_target: bool,
    ) -> Seq<char> {
        path_join(
            self.host,
            if release {
                self.dist_path()
            } else {
                self.out_path()
            },
            artifact_name(
                self.id(),
                self.package.version@,
                self.engine.commit_short@,
                release,
                target,
                include_target,
            ),
        )
    }

    /// Where the package for trying out is put.
    pub open spec fn test_path(&self) -> Seq<char> {
        path_join(self.host, self.out_path(), self.id() + ".rf"@)
    }

    /// Where the package to hand out is put.
    pub open spec fn final_path(&self) -> Seq<char> {
        let versioned = if self.package.version@.len() > 0 {
            self.id() + "-"@ + self.package.version@
        } else {
            self.id()
        };
        path_join(
            self.host,
            self.dist_path(),
            versioned + "-engine-"@ + self.engine.commit_short@ + ".rf"@,
        )
    }

    /// The binary that runs a mod.
    pub open spec fn bin(&self) -> Seq<char> {
        match self.config.engine.bin {
            Some(configured) => configured@,
            None => "server"@,
        }
    }

    /// What a sync of the project's engine works on.
    pub open spec fn synced(&self) -> Target {
        Target {
            host: self.host,
            project_root: self.project_root@,
            mirror_dir: self.mirror_path(),
            worktree_dir: self.worktree_path(),
            repo_url: self.engine.repo_url@,
            commit: self.engine.commit@,
        }
    }

    /// Puts a project together from what was read of it: the host, its directory,
    /// what `cargo` says of it, its configuration, and the text of its lockfile
    /// where there is one.
    ///
    /// Nothing comes back where the pinned commit cannot be shortened.
    pub fn load_from(
        host: Host,
        project_root: &str,
        target_directory: String,
        root_package: Option<PackageInfo>,
        config: RustforgeConfig,
        lock: Option<&str>,
    ) -> (loaded: Option<Result<App, LoadError>>)
        ensures
            match (root_package, lock) {
                (None, _) => loaded matches Some(Err(LoadError::NoRootPackage)),
                (Some(_), None) => loaded matches Some(Err(LoadError::NoLock(path))) && path@
                    == path_join(host, project_root@, "Cargo.lock"@),
                (Some(package), Some(text)) => match locked_packages(text@) {
                    Err(fault) => loaded matches Some(Err(LoadError::Engine(error))) && error@
                        == fault,
                    Ok(packages) => match loaded {
                        None => !commit_can_be_cut(packages),
                        Some(outcome) => commit_can_be_cut(packages) && match locked_engine(
                            packages,
                            optional_text(config.engine.repo_url),
                        ) {
                            Err(fault) => outcome matches Err(LoadError::Engine(error)) && error@
                                == fault,
                            Ok(engine) => outcome matches Ok(app) && {
                                &&& app.host == host
                                &&& app.project_root@ == project_root@
                                &&& app.manifest_path@ == path_join(host, project_root@, "Cargo.toml"@)
                                &&& app.target_directory == target_directory
                                &&& app.package == package
                                &&& app.config == config
                                &&& app.engine@ == engine
                            },
                        },
                    },
                },
            },
            match loaded {
                Some(Ok(_)) => load_fault(
                    host,
                    project_root@,
                    root_package is Some,
                    optional_view(lock),
                    optional_text(config.engine.repo_url),
                ) is None,
                Some(Err(error)) => load_fault(
                    host,
                    project_root@,
                    root_package is Some,
                    optional_view(lock),
                    optional_text(config.engine.repo_url),
                ) == Some(error@),
                None => true,
            },
    {
        let package = match root_package {
            Some(package) => package,
            None => {
                return Some(Err(LoadError::NoRootPackage));
            },
        };
        let text = match lock {
            Some(text) => text,
            None => {
                return Some(Err(LoadError::NoLock(join_path(host, project_root, "Cargo.lock"))));
            },
        };
        match load_engine_spec(text, &config) {
            None => None,
            Some(Err(error)) => Some(Err(LoadError::Engine(error))),
            Some(Ok(engine)) => Some(
                Ok(
                    App {
                        host,
                        project_root: project_root.to_owned(),
                        manifest_path: join_path(host, project_root, "Cargo.toml"),
                        target_directory,
                        package,
                        config,
                        engine,
                    },
                ),
            ),
        }
    }

    /// Goes on only where the directory has a manifest: `found` tells whether it
    /// is where it is looked for.
    pub fn require_manifest(host: Host, project_root: &str, found: bool) -> (outcome: Result<
        String,
        LoadError,
    >)
        ensures
            if found {
                outcome matches Ok(path) && path@ == path_join(
                    host,
                    project_root@,
                    "Cargo.toml"@,
                )
            } else {
                outcome matches Err(LoadError::NoManifest(directory)) && directory@
                    == project_root@
            },
    {
        if found {
            Ok(join_path(host, project_root, "Cargo.toml"))
        } else {
            Err(LoadError::NoManifest(project_root.to_owned()))
        }
    }

    /// The name that the mod goes by: the configured one, or the package's.
    pub fn mod_id(&self) -> (id: String)
        ensures
            id@ == self.id(),
    {
        match &self.config.mod_id {
            Some(configured) => configured.clone(),
            None => self.package.name.clone(),
        }
    }

    /// Where the mirror of the engine repository is kept.
    pub fn engine_mirror_dir(&self) -> (path: String)
        ensures
            path@ == self.mirror_path(),
    {
        join_path(self.host, self.project_root.as_str(), ".rustforge/engine/mirror.git")
    }

    /// Where the engine is checked out.
    pub fn engine_worktree_dir(&self) -> (path: String)
        ensures
            path@ == self.worktree_path(),
    {
        let default = concat(".rustforge/engine/worktrees/", self.engine.commit.as_str());
        let configured = match &self.config.paths.engine_root {
            Some(path) => Some(path.as_str()),
            None => None,
        };
        resolve_configured_path(
            self.host,
            self.project_root.as_str(),
            configured,
            default.as_str(),
            self.engine.commit.as_str(),
        )
    }

    /// Where packages for trying out are put.
    pub fn out_dir(&self) -> (path: String)
        ensures
            path@ == self.out_path(),
    {
        let configured = match &self.config.paths.out_dir {
            Some(path) => Some(path.as_str()),
            None => None,
        };
        resolve_configured_path(
            self.host,
            self.project_root.as_str(),
            configured,
            ".rustforge/out",
            self.engine.commit.as_str(),
        )
    }

    /// Where packages to hand out are put.
    pub fn dist_dir(&self) -> (path: String)
        ensures
            path@ == self.dist_path(),
    {
        join_path(self.host, self.project_root.as_str(), "dist")
    }

    /// Where the package for trying out is put.
    pub fn test_artifact_path(&self) -> (path: String)
        ensures
            path@ == self.test_path(),
    {
        join_path(self.host, self.out_dir().as_str(), concat(self.mod_id().as_str(), ".rf").as_str())
    }

    /// Where the package to hand out is put.
    pub fn final_artifact_path(&self) -> (path: String)
        ensures
            path@ == self.final_path(),
    {
        let mut name = self.mod_id();
        if !self.package.version.as_str().is_empty() {
            name.append("-");
            name.append(self.package.version.as_str());
        }
        name.append("-engine-");
        name.append(self.engine.commit_short.as_str());
        name.append(".rf");
        join_path(self.host, self.dist_dir().as_str(), name.as_str())
    }

    /// Where a package is put.
    pub fn artifact_path_for(
        &self,
        release: bool,
        target: Option<&str>,
        include_target: bool,
    ) -> (path: String)
        ensures
            path@ == self.artifact(release, optional_view(target), include_target),
    {
        let mut name = self.mod_id();
        if release {
            if !self.package.version.as_str().is_empty() {
                name.append("-");
                name.append(self.package.version.as_str());
            }
        }
        if include_target {
            if let Some(triple) = target {
                name.append("-");
                name.append(triple);
            }
        }
        if release {
            name.append("-engine-");
            name.append(self.engine.commit_short.as_str());
            name.append(".rf");
            join_path(self.host, self.dist_dir().as_str(), name.as_str())
        } else {
            name.append(".rf");
            join_path(self.host, self.out_dir().as_str(), name.as_str())
        }
    }

    /// The crate name of the library that an engine loads.
    pub fn mod_cdylib_target_name(&self) -> (outcome: Result<String, PackageError>)
        ensures
            match cdylib_name(self.package.targets@) {
                Some(name) => outcome matches Ok(text) && text@ == name,
                None => outcome matches Err(PackageError::NoCdylib(path)) && path@
                    == self.manifest_path@,
            },
    {
        let ghost all = self.package.targets@;
        let mut i: usize = 0;
        assert(all.skip(0) =~= all);
        while i < self.package.targets.len()
            invariant
                i <= all.len(),
                all == self.package.targets@,
                cdylib_name(all.skip(i as int)) == cdylib_name(all),
            decreases all.len() - i,
        {
            assert(all.skip(i as int).skip(1) =~= all.skip(i + 1));
            let target = &self.package.targets[i];
            if is_cdylib(target) {
                proof {
                    reveal_strlit("-");
                }
                return Ok(replace(target.name.as_str(), "-", "_"));
            }
            i += 1;
        }
        Err(PackageError::NoCdylib(self.manifest_path.clone()))
    }

    /// The binary that runs a mod: the configured one, or the server.
    pub fn engine_bin(&self) -> (bin: String)
        ensures
            bin@ == self.bin(),
    {
        match &self.config.engine.bin {
            Some(configured) => configured.clone(),
            None => "server".to_owned(),
        }
    }

    /// What a sync of the project's engine works on.
    pub fn sync_target(&self) -> (target: SyncTarget)
        ensures
            target@ == self.synced(),
    {
        SyncTarget {
            host: self.host,
            project_root: self.project_root.clone(),
            mirror_dir: self.engine_mirror_dir(),
            worktree_dir: self.engine_worktree_dir(),
            repo_url: self.engine.repo_url.clone(),
            commit: self.engine.commit.clone(),
        }
    }
}

fn is_cdylib(target: &BuildTarget) -> (found: bool)
    ensures
        found == makes_cdylib(*target),
{
    let mut i: usize = 0;
    while i < target.crate_types.len()
        invariant
            i <= target.crate_types@.len(),
            forall|j: int| 0 <= j < i ==> target.crate_types@[j] != CrateType::CDyLib,
        decreases target.crate_types@.len() - i,
    {
        if target.crate_types[i] == CrateType::CDyLib {
            return true;
        }
        i += 1;
    }
    false
}

/// A path, marked where nothing is there.
pub open spec fn marked(path: Seq<char>, exists: bool) -> Seq<char> {
    if exists {
        path
    } else {
        "missing ("@ + path + ")"@
    }
}

/// A path, marked where nothing is there.
pub fn exists_or_missing(path: &str, exists: bool) -> (text: String)
    ensures
        text@ == marked(path@, exists),
{
    if exists {
        path.to_owned()
    } else {
        concat3("missing (", path, ")")
    }
}

/// What is said of the state of a project.
pub open spec fn status_lines(app: App, mirror_exists: bool, worktree_exists: bool) -> Seq<
    Seq<char>,
> {
    seq![
        "Project: "@ + app.project_root@,
        "Engine repo: "@ + app.engine.repo_url@,
        "Engine commit: "@ + app.engine.commit@,
        "Mirror: "@ + marked(app.mirror_path(), mirror_exists),
        "Worktree: "@ + marked(app.worktree_path(), worktree_exists),
        "Test artifact: "@ + app.test_path(),
        "Final artifact: "@ + app.final_path(),
    ]
}

/// What is said of the state of a project.
pub fn status(app: &App, mirror_exists: bool, worktree_exists: bool) -> (lines: Vec<String>)
    ensures
        views(lines@) == status_lines(*app, mirror_exists, worktree_exists),
{
    let mirror = exists_or_missing(app.engine_mirror_dir().as_str(), mirror_exists);
    let worktree = exists_or_missing(app.engine_worktree_dir().as_str(), worktree_exists);
    let lines = vec![
        concat("Project: ", app.project_root.as_str()),
        concat("Engine repo: ", app.engine.repo_url.as_str()),
        concat("Engine commit: ", app.engine.commit.as_str()),
        concat("Mirror: ", mirror.as_str()),
        concat("Worktree: ", worktree.as_str()),
        concat("Test artifact: ", app.test_artifact_path().as_str()),
        concat("Final artifact: ", app.final_artifact_path().as_str()),
    ];
    assert(views(lines@) =~= status_lines(*app, mirror_exists, worktree_exists));
    lines
}

/// A package that names no target is put at the place that the status tells of,
/// whatever it was built for.
pub proof fn law_status_tells_where_packages_are(app: App, target: Option<Seq<char>>)
    ensures
        app.artifact(false, target, false) == app.test_path(),
        app.artifact(true, target, false) == app.final_path(),
{
}

/// A package and the mirror of the engine repository have a directory that they
/// are put in, wherever they are more than a path prefix.
pub proof fn law_package_and_mirror_have_a_directory(
    app: App,
    release: bool,
    target: Option<Seq<char>>,
    include_target: bool,
)
    ensures
        app.artifact(release, target, include_target).len() > prefix_len(
            app.host,
            app.artifact(release, target, include_target),
        ) ==> path_parent(app.host, app.artifact(release, target, include_target)) is Some,
        app.mirror_path().len() > prefix_len(app.host, app.mirror_path()) ==> path_parent(
            app.host,
            app.mirror_path(),
        ) is Some,
        app.host == Host::Unix ==> {
            &&& app.artifact(release, target, include_target).len() > prefix_len(
                app.host,
                app.artifact(release, target, include_target),
            )
            &&& app.mirror_path().len() > prefix_len(app.host, app.mirror_path())
        },
{
    reveal_strlit(".rf");
    reveal_strlit(".rustforge/engine/mirror.git");
    let artifact = app.artifact(release, target, include_target);
    let name = artifact_name(
        app.id(),
        app.package.version@,
        app.engine.commit_short@,
        release,
        target,
        include_target,
    );
    lemma_join_ends_alike(
        app.host,
        if release {
            app.dist_path()
        } else {
            app.out_path()
        },
        name,
    );
    lemma_join_ends_alike(app.host, app.project_root@, ".rustforge/engine/mirror.git"@);
    if artifact.len() > prefix_len(app.host, artifact) {
        law_named_path_has_parent(app.host, artifact);
    }
    if app.mirror_path().len() > prefix_len(app.host, app.mirror_path()) {
        law_named_path_has_parent(app.host, app.mirror_path());
    }
}

/// Where a package is put.
pub open spec fn package_directory(app: App, release: bool) -> Seq<char> {
    if release {
        app.dist_path()
    } else {
        app.out_path()
    }
}

/// What the package of a target is called that names its target.
pub open spec fn package_name(app: App, release: bool, target: Seq<char>) -> Seq<char> {
    artifact_name(
        app.id(),
        app.package.version@,
        app.engine.commit_short@,
        release,
        Some(target),
        true,
    )
}

/// The packages of two targets are put at different places where they name
/// their targets: none overwrites another. On Windows their names have to be
/// told apart by their directory.
pub proof fn law_each_target_has_its_own_package(
    app: App,
    release: bool,
    a: Seq<char>,
    b: Seq<char>,
)
    requires
        a != b,
        are_told_apart(
            app.host,
            package_directory(app, release),
            package_name(app, release, a),
            package_name(app, release, b),
        ),
    ensures
        app.artifact(release, Some(a), true) != app.artifact(release, Some(b), true),
{
    reveal_strlit("-");
    reveal_strlit(".rf");
    let (head, tail) = package_surroundings(app, release);
    let first = package_name(app, release, a);
    let second = package_name(app, release, b);
    assert(first =~= head + a + tail);
    assert(second =~= head + b + tail);
    assert(first[0] == head[0] && second[0] == head[0]);
    assert(first.last() == 'f' && second.last() == 'f');
    if first == second {
        let m = head.len() as int;
        assert(a.len() == b.len());
        assert(a =~= first.subrange(m, m + a.len()));
        assert(b =~= second.subrange(m, m + a.len()));
    }
    lemma_joins_differ(app.host, package_directory(app, release), first, second);
}

/// What stands before and behind the target in the name of a package.
spec fn package_surroundings(app: App, release: bool) -> (Seq<char>, Seq<char>) {
    let version = app.package.version@;
    (
        if release && version.len() > 0 {
            app.id() + "-"@ + version
        } else {
            app.id()
        } + "-"@,
        if release {
            "-engine-"@ + app.engine.commit_short@ + ".rf"@
        } else {
            ".rf"@
        },
    )
}

/// The packages of two targets without separators are put at different places
/// where they name their targets. Only below a verbatim directory, which follows
/// what it is given, nothing in their names may lead out.
pub proof fn law_plain_targets_have_their_own_packages(
    app: App,
    release: bool,
    a: Seq<char>,
    b: Seq<char>,
)
    requires
        a != b,
        is_unseparated(a),
        is_unseparated(b),
        is_verbatim_path(app.host, package_directory(app, release)) ==> stays_inside(
            names(Separators::Both, package_name(app, release, a)),
        ) && stays_inside(names(Separators::Both, package_name(app, release, b))),
    ensures
        app.artifact(release, Some(a), true) != app.artifact(release, Some(b), true),
{
    reveal_strlit("-");
    let (head, tail) = package_surroundings(app, release);
    assert(package_name(app, release, a) =~= head + a + tail);
    assert(package_name(app, release, b) =~= head + b + tail);
    assert(head.last() == '-');
    lemma_plain_texts_are_told_apart(
        app.host,
        package_directory(app, release),
        head,
        a,
        b,
        tail,
    );
    law_each_target_has_its_own_package(app, release, a, b);
}

/// The name of a package begins with the mod and, for a release, its version
/// where it has one, and ends with the engine, for a release, and `.rf`.
pub proof fn law_package_name_tells_mod_version_and_engine(
    mod_id: Seq<char>,
    version: Seq<char>,
    commit_short: Seq<char>,
    target: Option<Seq<char>>,
    include_target: bool,
)
    ensures
        begins(artifact_name(mod_id, version, commit_short, false, target, include_target), mod_id),
        ends(artifact_name(mod_id, version, commit_short, false, target, include_target), ".rf"@),
        begins(
            artifact_name(mod_id, version, commit_short, true, target, include_target),
            if version.len() > 0 {
                mod_id + "-"@ + version
            } else {
                mod_id
            },
        ),
        ends(
            artifact_name(mod_id, version, commit_short, true, target, include_target),
            "-engine-"@ + commit_short + ".rf"@,
        ),
{
    let tried = artifact_name(mod_id, version, commit_short, false, target, include_target);
    let released = artifact_name(mod_id, version, commit_short, true, target, include_target);
    let head = if version.len() > 0 {
        mod_id + "-"@ + version
    } else {
        mod_id
    };
    let tail = "-engine-"@ + commit_short + ".rf"@;
    assert(tried.subrange(0, mod_id.len() as int) =~= mod_id);
    assert(tried.skip(tried.len() - ".rf"@.len()) =~= ".rf"@);
    assert(released.subrange(0, head.len() as int) =~= head);
    assert(released.skip(released.len() - tail.len()) =~= tail);
}

/// Nothing else is in the name of a package: it is no longer than what it tells,
/// and the target stands in it, behind a hyphen, exactly where it is asked for.
pub proof fn law_package_name_tells_nothing_else(
    mod_id: Seq<char>,
    version: Seq<char>,
    commit_short: Seq<char>,
    release: bool,
    triple: Seq<char>,
)
    ensures
        artifact_name(mod_id, version, commit_short, false, None, true).len() == mod_id.len() + 3,
        artifact_name(mod_id, version, commit_short, true, None, true).len() == mod_id.len()
            + if version.len() > 0 {
            1 + version.len()
        } else {
            0
        } + 8 + commit_short.len() + 3,
        forall|target: Option<Seq<char>>| #[trigger]
            artifact_name(mod_id, version, commit_short, release, target, false) == artifact_name(
                mod_id,
                version,
                commit_short,
                release,
                None,
                true,
            ),
        exists|head: Seq<char>, tail: Seq<char>|
            {
                &&& artifact_name(mod_id, version, commit_short, release, None, true)
                    == #[trigger] (head + tail)
                &&& artifact_name(mod_id, version, commit_short, release, Some(triple), true)
                    == head + "-"@ + triple + tail
                &&& tail == if release {
                    "-engine-"@ + commit_short + ".rf"@
                } else {
                    ".rf"@
                }
            },
{
    reveal_strlit("-");
    reveal_strlit("-engine-");
    reveal_strlit(".rf");
    let head = if release && version.len() > 0 {
        mod_id + "-"@ + version
    } else {
        mod_id
    };
    let tail = if release {
        "-engine-"@ + commit_short + ".rf"@
    } else {
        ".rf"@
    };
    assert(artifact_name(mod_id, version, commit_short, release, None, true) =~= head + tail);
    assert(artifact_name(mod_id, version, commit_short, release, Some(triple), true) =~= head + "-"@
        + triple + tail);
}

/// What a mod goes by and what runs it is what the project configures, and only
/// where it configures nothing the name of its package and the server.
pub proof fn law_configured_names_come_first(app: App)
    ensures
        match app.config.mod_id {
            Some(configured) => app.id() == configured@,
            None => app.id() == app.package.name@,
        },
        match app.config.engine.bin {
            Some(configured) => app.bin() == configured@,
            None => app.bin() == "server"@,
        },
{
}

/// Releases are put into `dist` in the project. This is so on Unix, for a name
/// that leads nowhere else.
pub proof fn law_release_is_put_into_dist(
    app: App,
    target: Option<Seq<char>>,
    include_target: bool,
)
    requires
        app.host == Host::Unix,
        !artifact_name(
            app.id(),
            app.package.version@,
            app.engine.commit_short@,
            true,
            target,
            include_target,
        ).contains('/'),
    ensures
        path_parent(app.host, app.artifact(true, target, include_target)) == Some(app.dist_path()),
        app.dist_path() == path_join(app.host, app.project_root@, "dist"@),
{
    reveal_strlit("dist");
    reveal_strlit(".rf");
    let name = artifact_name(
        app.id(),
        app.package.version@,
        app.engine.commit_short@,
        true,
        target,
        include_target,
    );
    let directory = app.dist_path();
    lemma_join_ends_alike(app.host, app.project_root@, "dist"@);
    assert(name.last() == 'f');
    assert(name.contains(name[0]));
    assert(name != seq!['.']) by {
        assert(seq!['.'].last() == '.');
    }
    law_directory_holds_what_is_named_in_it(directory, name);
}

/// Packages for trying out are put into the directory that is configured for
/// them, or the tool's own. This is so on Unix, for a directory whose path ends
/// in a name, and for a name that leads nowhere else.
pub proof fn law_tried_package_is_put_out(app: App, target: Option<Seq<char>>, include_target: bool)
    requires
        app.host == Host::Unix,
        app.out_path().len() > 0,
        app.out_path().last() != '/',
        app.out_path().last() != '.',
        !artifact_name(
            app.id(),
            app.package.version@,
            app.engine.commit_short@,
            false,
            target,
            include_target,
        ).contains('/'),
    ensures
        path_parent(app.host, app.artifact(false, target, include_target)) == Some(app.out_path()),
{
    reveal_strlit(".rf");
    let name = artifact_name(
        app.id(),
        app.package.version@,
        app.engine.commit_short@,
        false,
        target,
        include_target,
    );
    assert(name.last() == 'f');
    assert(name.contains(name[0]));
    assert(name != seq!['.']) by {
        assert(seq!['.'].last() == '.');
    }
    law_directory_holds_what_is_named_in_it(app.out_path(), name);
}

/// Where the project configures a directory, that is the one, and otherwise it
/// is one of the tool's own in the project; that of the checkout is called after
/// the commit.
pub proof fn law_configured_directories_come_first(app: App)
    ensures
        app.config.paths.engine_root matches Some(path) ==> app.worktree_path() == path_join(
            app.host,
            app.project_root@,
            replaced(path@, "<sha>"@, app.engine.commit@),
        ),
        app.config.paths.out_dir matches Some(path) ==> app.out_path() == path_join(
            app.host,
            app.project_root@,
            replaced(path@, "<sha>"@, app.engine.commit@),
        ),
        app.config.paths.engine_root is None && !app.engine.commit@.contains('<')
            ==> app.worktree_path() == path_join(
            app.host,
            app.project_root@,
            ".rustforge/engine/worktrees/"@ + app.engine.commit@,
        ),
        app.config.paths.out_dir is None ==> app.out_path() == path_join(
            app.host,
            app.project_root@,
            ".rustforge/out"@,
        ),
{
    reveal_strlit("<sha>");
    reveal_strlit(".rustforge/engine/worktrees/");
    reveal_strlit(".rustforge/out");
    let commit = app.engine.commit@;
    let tree = ".rustforge/engine/worktrees/"@ + commit;
    let out = ".rustforge/out"@;
    assert forall|at: int| !occurs_at(out, "<sha>"@, at) by {
        if occurs_at(out, "<sha>"@, at) {
            assert(out.subrange(at, at + 5)[0] == '<');
        }
    }
    law_nothing_else_is_replaced(out, "<sha>"@, commit);
    if !commit.contains('<') {
        assert forall|at: int| !occurs_at(tree, "<sha>"@, at) by {
            if occurs_at(tree, "<sha>"@, at) {
                assert(tree.subrange(at, at + 5)[0] == '<');
                assert(tree[at] == '<');
                assert(at >= 28 ==> commit.contains(commit[at - 28]));
            }
        }
        law_nothing_else_is_replaced(tree, "<sha>"@, commit);
    }
}

/// Two engine commits have two checkouts, unless the project configures where
/// the engine goes. This is so on Unix.
pub proof fn law_each_commit_has_its_own_checkout(one: App, other: App)
    requires
        one.host == Host::Unix,
        other.host == Host::Unix,
        one.project_root@ == other.project_root@,
        one.config.paths.engine_root is None,
        other.config.paths.engine_root is None,
        one.engine.commit@ != other.engine.commit@,
        !one.engine.commit@.contains('<'),
        !other.engine.commit@.contains('<'),
    ensures
        one.worktree_path() != other.worktree_path(),
{
    law_configured_directories_come_first(one);
    law_configured_directories_come_first(other);
    reveal_strlit(".rustforge/engine/worktrees/");
    let a = one.engine.commit@;
    let b = other.engine.commit@;
    let first = one.worktree_path();
    let second = other.worktree_path();
    assert(first.skip(first.len() - a.len()) =~= a);
    assert(second.skip(second.len() - b.len()) =~= b);
}

/// The library that is packaged is that of the first target that makes one for
/// an engine, and there is none exactly where no target does. It is called after
/// the target, with an underscore for each hyphen.
pub proof fn law_first_library_is_packaged(targets: Seq<BuildTarget>)
    ensures
        cdylib_name(targets) is None <==> forall|i: int|
            0 <= i < targets.len() ==> !(#[trigger] targets[i]).crate_types@.contains(
                CrateType::CDyLib,
            ),
        cdylib_name(targets) matches Some(name) ==> exists|first: int|
            {
                &&& 0 <= first < targets.len()
                &&& (#[trigger] targets[first]).crate_types@.contains(CrateType::CDyLib)
                &&& forall|i: int|
                    0 <= i < first ==> !(#[trigger] targets[i]).crate_types@.contains(
                        CrateType::CDyLib,
                    )
                &&& name.len() == targets[first].name@.len()
                &&& forall|k: int|
                    0 <= k < name.len() ==> #[trigger] name[k] == if targets[first].name@[k] == '-' {
                        '_'
                    } else {
                        targets[first].name@[k]
                    }
            },
    decreases targets.len(),
{
    if targets.len() > 0 {
        let rest = targets.skip(1);
        if targets[0].crate_types@.contains(CrateType::CDyLib) {
            reveal_strlit("-");
            reveal_strlit("_");
            assert("-"@ =~= seq!['-']);
            assert("_"@ =~= seq!['_']);
            law_character_is_replaced_everywhere(targets[0].name@, '-', '_');
            assert(targets[0].crate_types@.contains(CrateType::CDyLib));
        } else {
            law_first_library_is_packaged(rest);
            assert forall|i: int| 0 <= i < rest.len() implies #[trigger] rest[i] == targets[i
                + 1] by {}
            if let Some(name) = cdylib_name(targets) {
                let first = choose|first: int|
                    {
                        &&& 0 <= first < rest.len()
                        &&& (#[trigger] rest[first]).crate_types@.contains(CrateType::CDyLib)
                        &&& forall|i: int|
                            0 <= i < first ==> !(#[trigger] rest[i]).crate_types@.contains(
                                CrateType::CDyLib,
                            )
                        &&& name.len() == rest[first].name@.len()
                        &&& forall|k: int|
                            0 <= k < name.len() ==> #[trigger] name[k] == if rest[first].name@[k]
                                == '-' {
                                '_'
                            } else {
                                rest[first].name@[k]
                            }
                    };
                let at = first + 1;
                assert(targets[at].crate_types@.contains(CrateType::CDyLib));
                assert forall|i: int| 0 <= i < at implies !(
                #[trigger] targets[i]).crate_types@.contains(CrateType::CDyLib) by {
                    if i > 0 {
                        assert(!rest[i - 1].crate_types@.contains(CrateType::CDyLib));
                    }
                }
                assert(rest[first].crate_types@.contains(CrateType::CDyLib));
            } else {
                assert forall|i: int| 0 <= i < targets.len() implies !(
                #[trigger] targets[i]).crate_types@.contains(CrateType::CDyLib) by {
                    if i > 0 {
                        assert(!rest[i - 1].crate_types@.contains(CrateType::CDyLib));
                    }
                }
            }
        }
    }
}

/// The status tells of what a sync works on and of where packages are put: each
/// line ends with it. A mirror and a checkout that are missing are marked, and
/// one that is there is not.
pub proof fn law_status_tells_of_the_sync(app: App, mirror_exists: bool, worktree_exists: bool)
    ensures
        ({
            let lines = status_lines(app, mirror_exists, worktree_exists);
            let target = app.synced();
            &&& lines.len() == 7
            &&& ends(lines[0], target.project_root)
            &&& ends(lines[1], target.repo_url)
            &&& ends(lines[2], target.commit)
            &&& mirror_exists ==> ends(lines[3], target.mirror_dir)
            &&& !mirror_exists ==> ends(lines[3], "missing ("@ + target.mirror_dir + ")"@)
            &&& worktree_exists ==> ends(lines[4], target.worktree_dir)
            &&& !worktree_exists ==> ends(lines[4], "missing ("@ + target.worktree_dir + ")"@)
            &&& ends(lines[5], app.artifact(false, None, false))
            &&& ends(lines[6], app.artifact(true, None, false))
        }),
{
    let lines = status_lines(app, mirror_exists, worktree_exists);
    let target = app.synced();
    assert(lines[0].skip(lines[0].len() - target.project_root.len()) =~= target.project_root);
    assert(lines[1].skip(lines[1].len() - target.repo_url.len()) =~= target.repo_url);
    assert(lines[2].skip(lines[2].len() - target.commit.len()) =~= target.commit);
    let mirror = marked(target.mirror_dir, mirror_exists);
    let worktree = marked(target.worktree_dir, worktree_exists);
    assert(lines[3].skip(lines[3].len() - mirror.len()) =~= mirror);
    assert(lines[4].skip(lines[4].len() - worktree.len()) =~= worktree);
    assert(lines[5].skip(lines[5].len() - app.test_path().len()) =~= app.test_path());
    assert(lines[6].skip(lines[6].len() - app.final_path().len()) =~= app.final_path());
}

/// What a line of the status begins with depends on the line alone, not on the
/// project.
pub proof fn law_status_lines_begin_alike(
    one: App,
    other: App,
    mirror_exists: bool,
    worktree_exists: bool,
)
    ensures
        ({
            let first = status_lines(one, mirror_exists, worktree_exists);
            let second = status_lines(other, mirror_exists, worktree_exists);
            &&& first[0].len() - one.project_root@.len() == second[0].len()
                - other.project_root@.len()
            &&& first[1].len() - one.engine.repo_url@.len() == second[1].len()
                - other.engine.repo_url@.len()
            &&& first[2].len() - one.engine.commit@.len() == second[2].len()
                - other.engine.commit@.len()
            &&& first[3].len() - one.mirror_path().len() == second[3].len()
                - other.mirror_path().len()
            &&& first[4].len() - one.worktree_path().len() == second[4].len()
                - other.worktree_path().len()
            &&& first[5].len() - one.test_path().len() == second[5].len() - other.test_path().len()
            &&& first[6].len() - one.final_path().len() == second[6].len()
                - other.final_path().len()
        }),
{
}

/// A path that is marked as missing can still be read.
pub proof fn law_missing_path_is_marked(path: Seq<char>)
    ensures
        marked(path, true) == path,
        marked(path, false) != path,
        occurs_in(marked(path, false), path),
{
    reveal_strlit("missing (");
    reveal_strlit(")");
    let text = marked(path, false);
    assert(text.len() == path.len() + 10);
    assert(text.subrange(9, 9 + path.len() as int) =~= path);
    assert(occurs_at(text, path, 9));
}

/// A sync works on the mirror and the checkout of the project's own engine: the
/// one that is pinned.
pub proof fn law_sync_is_of_the_pinned_engine(app: App)
    ensures
        app.synced().host == app.host,
        app.synced().project_root == app.project_root@,
        app.synced().commit == app.engine.commit@,
        app.synced().repo_url == app.engine.repo_url@,
        app.synced().worktree_dir == app.worktree_path(),
        app.synced().mirror_dir == path_join(
            app.host,
            app.project_root@,
            ".rustforge/engine/mirror.git"@,
        ),
{
}

/// What is said of a project that cannot be loaded names where it was looked for
/// in full, and is the same for every place but for that; an engine that is not
/// pinned speaks for itself.
pub proof fn law_load_error_names_the_place(place: Seq<char>, fault: EngineFault)
    ensures
        ({
            let none = Seq::<char>::empty();
            &&& occurs_in(load_message(LoadFault::NoManifest(place)), " "@ + place + ";"@)
            &&& load_message(LoadFault::NoManifest(place)).len() == load_message(
                LoadFault::NoManifest(none),
            ).len() + place.len()
            &&& occurs_in(load_message(LoadFault::NoLock(place)), " "@ + place + ";"@)
            &&& load_message(LoadFault::NoLock(place)).len() == load_message(
                LoadFault::NoLock(none),
            ).len() + place.len()
            &&& load_message(LoadFault::Engine(fault)) == engine_message(fault)
        }),
{
    reveal_strlit(" ");
    reveal_strlit(";");
    reveal_strlit("Cargo.toml not found in ");
    reveal_strlit("; run rustforge from the mod project root");
    reveal_strlit("Cargo.lock not found at ");
    reveal_strlit("; run `cargo generate-lockfile` or `cargo build` first");
    let named = " "@ + place + ";"@;
    let manifest = load_message(LoadFault::NoManifest(place));
    let lock = load_message(LoadFault::NoLock(place));
    assert(manifest.subrange(23, 23 + named.len() as int) =~= named);
    assert(occurs_at(manifest, named, 23));
    assert(lock.subrange(23, 23 + named.len() as int) =~= named);
    assert(occurs_at(lock, named, 23));
}

/// A project can be loaded exactly where it has a package and a lockfile that
/// pins an engine. Of what is missing, the package is told first, and then the
/// lockfile. Which url is configured for the engine plays no part.
pub proof fn law_project_needs_a_package_and_a_pinned_engine(
    host: Host,
    project_root: Seq<char>,
    has_package: bool,
    lock: Option<Seq<char>>,
    configured_url: Option<Seq<char>>,
)
    ensures
        ({
            let fault = load_fault(host, project_root, has_package, lock, configured_url);
            &&& fault == Some(LoadFault::NoRootPackage) <==> !has_package
            &&& fault == Some(LoadFault::NoLock(path_join(host, project_root, "Cargo.lock"@)))
                <==> has_package && lock is None
            &&& fault is None <==> has_package && (lock matches Some(text) && (locked_packages(
                text,
            ) matches Ok(packages) && locked_engine(packages, None) is Ok))
            &&& has_package && lock is Some && fault is Some ==> match locked_packages(lock->0) {
                Err(unread) => fault == Some(LoadFault::Engine(unread)),
                Ok(packages) => locked_engine(packages, None) matches Err(why) && fault == Some(
                    LoadFault::Engine(why),
                ),
            }
        }),
{
}

/// A release is put below `dist` in the project, and any other package below the
/// directory for trying out, each under the name of its kind. This is so on any
/// host.
pub proof fn law_packages_are_put_by_kind(
    app: App,
    target: Option<Seq<char>>,
    include_target: bool,
)
    ensures
        app.artifact(true, target, include_target) == path_join(
            app.host,
            path_join(app.host, app.project_root@, "dist"@),
            artifact_name(
                app.id(),
                app.package.version@,
                app.engine.commit_short@,
                true,
                target,
                include_target,
            ),
        ),
        app.artifact(false, target, include_target) == path_join(
            app.host,
            app.out_path(),
            artifact_name(
                app.id(),
                app.package.version@,
                app.engine.commit_short@,
                false,
                target,
                include_target,
            ),
        ),
{
}

} // verus!
