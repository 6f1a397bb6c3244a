//! Building a mod, packaging what was built, and installing the package.

use vstd::prelude::*;

use crate::command::{cargo, cargo_words, CommandLine, CommandWords};
use crate::host::{names, prefix_len, Host, Separators};
use crate::path::{
    is_verbatim_path, join_path, law_joined_path_keeps_its_ending, parent, path_join, path_parent,
    stays_inside,
};
use crate::platform::{
    binary_name, infer_platform, law_host_decides_where_no_triple_does,
    law_staged_library_ends_as_built, law_triple_decides_the_platform, library_ending,
    library_file, library_name, platform_of, profile, profile_name, staged_library,
    staged_library_name, PlatformKind,
};
use crate::process::engine_binary;
use crate::project::{
    cdylib_name, law_package_and_mirror_have_a_directory,
    law_plain_targets_have_their_own_packages, package_directory, package_name, App,
};
use crate::text::{
    begins, concat, concat3, cut, ends, join, joined, law_joined_parts_are_cut_again, occurs_at,
    occurs_in, optional_text, optional_view, views,
};

verus! {

/// Why a mod could not be packaged.
#[derive(Debug)]
pub enum PackageError {
    /// The package of the manifest makes no library for an engine.
    NoCdylib(String),
    /// The library is not at the path that a build puts it at.
    NotBuilt(String),
    /// The package would be put in no directory.
    InvalidOutput(String),
    /// Both one target and all platforms were asked for.
    TargetForAllPlatforms,
}

/// A [`PackageError`] with its text as a sequence.
pub enum PackageFault {
    NoCdylib(Seq<char>),
    NotBuilt(Seq<char>),
    InvalidOutput(Seq<char>),
    TargetForAllPlatforms,
}

impl View for PackageError {
    type V = PackageFault;

    open spec fn view(&self) -> PackageFault {
        match self {
            PackageError::NoCdylib(manifest) => PackageFault::NoCdylib(manifest@),
            PackageError::NotBuilt(path) => PackageFault::NotBuilt(path@),
            PackageError::InvalidOutput(path) => PackageFault::InvalidOutput(path@),
            PackageError::TargetForAllPlatforms => PackageFault::TargetForAllPlatforms,
        }
    }
}

/// What a [`PackageError`] says.
pub open spec fn package_message(fault: PackageFault) -> Seq<char> {
    match fault {
        PackageFault::NoCdylib(manifest) => "no cdylib target found in "@ + manifest,
        PackageFault::NotBuilt(path) => "built mod artifact not found at "@ + path
            + "; verify the package defines a cdylib target"@,
        PackageFault::InvalidOutput(path) => "invalid artifact output path "@ + path,
        PackageFault::TargetForAllPlatforms =>
            "cannot combine `--all-platforms` with `--target`"@,
    }
}

impl PackageError {
    /// What the error says.
    pub fn message(&self) -> (message: String)
        ensures
            message@ == package_message(self@),
    {
        match self {
            PackageError::NoCdylib(manifest) => concat(
                "no cdylib target found in ",
                manifest.as_str(),
            ),
            PackageError::NotBuilt(path) => concat3(
                "built mod artifact not found at ",
                path.as_str(),
                "; verify the package defines a cdylib target",
            ),
            PackageError::InvalidOutput(path) => concat(
                "invalid artifact output path ",
                path.as_str(),
            ),
            PackageError::TargetForAllPlatforms =>
                "cannot combine `--all-platforms` with `--target`".to_owned(),
        }
    }
}

/// How an engine binary is built.
pub open spec fn engine_build(app: App, release: bool, bin: Seq<char>) -> CommandWords {
    let features = views(app.config.engine.features@);
    cargo_words(
        seq!["build"@, "-p"@, "engine"@, "--bin"@, bin] + if release {
            seq!["--release"@]
        } else {
            Seq::empty()
        } + if features.len() > 0 {
            seq!["--features"@, joined(features, ","@)]
        } else {
            Seq::empty()
        },
        app.worktree_path(),
    )
}

/// How a mod is built.
pub open spec fn mod_build(app: App, release: bool, target: Option<Seq<char>>) -> CommandWords {
    cargo_words(
        seq!["build"@] + if release {
            seq!["--release"@]
        } else {
            Seq::empty()
        } + match target {
            Some(triple) => seq!["--target"@, triple],
            None => Seq::empty(),
        },
        app.project_root@,
    )
}

/// How an engine binary is built, in the engine checkout.
pub fn build_engine(app: &App, release: bool, bin: &str) -> (command: CommandLine)
    ensures
        command@ == engine_build(*app, release, bin@),
{
    let mut args: Vec<String> = vec![
        "build".to_owned(),
        "-p".to_owned(),
        "engine".to_owned(),
        "--bin".to_owned(),
        bin.to_owned(),
    ];
    if release {
        args.push("--release".to_owned());
    }
    if app.config.engine.features.len() > 0 {
        args.push("--features".to_owned());
        args.push(join(&app.config.engine.features, ","));
    }
    assert(views(args@) =~= engine_build(*app, release, bin@).args);
    cargo(args, app.engine_worktree_dir().as_str())
}

/// What is said of an engine binary that could not be built.
pub fn engine_build_failure(bin: &str) -> (message: String)
    ensures
        message@ == "failed to build Engine binary `"@ + bin@ + "`"@,
{
    concat3("failed to build Engine binary `", bin, "`")
}

/// What is said of an engine binary that was built.
pub fn engine_built(app: &App, bin: &str) -> (message: String)
    ensures
        message@ == "Built Engine binary `"@ + bin@ + "` in "@ + app.worktree_path(),
{
    let built = concat3("Built Engine binary `", bin, "` in ");
    concat(built.as_str(), app.engine_worktree_dir().as_str())
}

/// How a mod is built, in its project.
pub fn build_mod(app: &App, release: bool, target: Option<&str>) -> (command: CommandLine)
    ensures
        command@ == mod_build(*app, release, optional_view(target)),
{
    let mut args: Vec<String> = vec!["build".to_owned()];
    if release {
        args.push("--release".to_owned());
    }
    if let Some(triple) = target {
        args.push("--target".to_owned());
        args.push(triple.to_owned());
    }
    assert(views(args@) =~= mod_build(*app, release, optional_view(target)).args);
    cargo(args, app.project_root.as_str())
}

/// Where a build puts a library.
pub open spec fn built_library(
    host: Host,
    target_directory: Seq<char>,
    target: Option<Seq<char>>,
    release: bool,
    file: Seq<char>,
) -> Seq<char> {
    let directory = match target {
        Some(triple) => path_join(host, target_directory, triple),
        None => target_directory,
    };
    path_join(host, path_join(host, directory, profile_name(release)), file)
}

/// Where a build puts the library of a mod.
pub open spec fn mod_library(
    app: App,
    release: bool,
    target: Option<Seq<char>>,
    host_os: Seq<char>,
    crate_name: Seq<char>,
) -> Seq<char> {
    built_library(
        app.host,
        app.target_directory@,
        target,
        release,
        library_name(platform_of(target, host_os), crate_name),
    )
}

/// Where a build puts the library of a mod.
pub fn locate_mod_artifact(app: &App, release: bool, target: Option<&str>, host_os: &str) -> (
    outcome: Result<String, PackageError>)
    ensures
        match cdylib_name(app.package.targets@) {
            Some(name) => outcome matches Ok(path) && path@ == mod_library(
                *app,
                release,
                optional_view(target),
                host_os@,
                name,
            ),
            None => outcome matches Err(PackageError::NoCdylib(path)) && path@
                == app.manifest_path@,
        },
{
    let platform = infer_platform(target, host_os);
    let crate_name = match app.mod_cdylib_target_name() {
        Ok(name) => name,
        Err(error) => {
            return Err(error);
        },
    };
    let file = library_file(platform, crate_name.as_str());
    let directory = match target {
        Some(triple) => join_path(app.host, app.target_directory.as_str(), triple),
        None => app.target_directory.clone(),
    };
    let profile_directory = join_path(app.host, directory.as_str(), profile(release));
    Ok(join_path(app.host, profile_directory.as_str(), file.as_str()))
}

/// What goes into a package and where the package is put.
#[derive(Debug)]
pub struct PackagePlan {
    /// The host that the package is made on.
    pub host: Host,
    /// The library that was built.
    pub source: String,
    /// What the library is called in the package.
    pub staged_name: String,
    /// Where the package is put.
    pub output_path: String,
    /// The directory that the package is put in.
    pub directory: String,
}

/// A [`PackagePlan`] with its texts as sequences.
pub struct Packing {
    pub host: Host,
    pub source: Seq<char>,
    pub staged_name: Seq<char>,
    pub output_path: Seq<char>,
    pub directory: Seq<char>,
}

impl View for PackagePlan {
    type V = Packing;

    open spec fn view(&self) -> Packing {
        Packing {
            host: self.host,
            source: self.source@,
            staged_name: self.staged_name@,
            output_path: self.output_path@,
            directory: self.directory@,
        }
    }
}

/// How a mod that was built is packaged, or why it cannot be.
pub open spec fn packing(
    app: App,
    release: bool,
    target: Option<Seq<char>>,
    include_target: bool,
    host_os: Seq<char>,
    built: bool,
) -> Result<Packing, PackageFault> {
    match cdylib_name(app.package.targets@) {
        None => Err(PackageFault::NoCdylib(app.manifest_path@)),
        Some(name) => {
            let source = mod_library(app, release, target, host_os, name);
            let output_path = app.artifact(release, target, include_target);
            if !built {
                Err(PackageFault::NotBuilt(source))
            } else {
                match path_parent(app.host, output_path) {
                    None => Err(PackageFault::InvalidOutput(output_path)),
                    Some(directory) => Ok(
                        Packing {
                            host: app.host,
                            source,
                            staged_name: staged_library_name(platform_of(target, host_os)),
                            output_path,
                            directory,
                        },
                    ),
                }
            }
        },
    }
}

/// How a mod that was built is packaged. `built` tells whether the library is
/// where [`locate_mod_artifact`] says.
pub fn package_existing_build(
    app: &App,
    release: bool,
    target: Option<&str>,
    include_target: bool,
    host_os: &str,
    built: bool,
) -> (outcome: Result<PackagePlan, PackageError>)
    ensures
        match packing(*app, release, optional_view(target), include_target, host_os@, built) {
            Ok(packing) => outcome matches Ok(plan) && plan@ == packing,
            Err(fault) => outcome matches Err(error) && error@ == fault,
        },
{
    let source = match locate_mod_artifact(app, release, target, host_os) {
        Ok(path) => path,
        Err(error) => {
            return Err(error);
        },
    };
    if !built {
        return Err(PackageError::NotBuilt(source));
    }
    let staged_name = staged_library(infer_platform(target, host_os));
    let output_path = app.artifact_path_for(release, target, include_target);
    match parent(app.host, output_path.as_str()) {
        None => Err(PackageError::InvalidOutput(output_path)),
        Some(directory) => Ok(
            PackagePlan { host: app.host, source, staged_name, output_path, directory },
        ),
    }
}

impl PackagePlan {
    /// Where the library is staged.
    pub fn staged_path(&self, staging_directory: &str) -> (path: String)
        ensures
            path@ == path_join(self.host, staging_directory@, self.staged_name@),
    {
        join_path(self.host, staging_directory, self.staged_name.as_str())
    }

    /// What is said of a directory that could not be made.
    pub fn directory_failure(&self) -> (message: String)
        ensures
            message@ == "failed to create "@ + self.directory@,
    {
        concat("failed to create ", self.directory.as_str())
    }

    /// What is said of a library that could not be staged.
    pub fn stage_failure(&self, staging_directory: &str) -> (message: String)
        ensures
            message@ == "failed to stage built library from "@ + self.source@ + " to "@
                + path_join(self.host, staging_directory@, self.staged_name@),
    {
        let from = concat3("failed to stage built library from ", self.source.as_str(), " to ");
        concat(from.as_str(), self.staged_path(staging_directory).as_str())
    }

    /// What is said of a package that could not be made.
    pub fn archive_failure(&self) -> (message: String)
        ensures
            message@ == "failed to create archive "@ + self.output_path@,
    {
        concat("failed to create archive ", self.output_path.as_str())
    }

    /// What is said of a library that could not be put into the package.
    pub fn entry_failure(&self) -> (message: String)
        ensures
            message@ == "failed to add `"@ + self.staged_name@ + "` to archive"@,
    {
        concat3("failed to add `", self.staged_name.as_str(), "` to archive")
    }

    /// What is said of a package that was made.
    pub fn packaged(&self) -> (message: String)
        ensures
            message@ == "Packaged "@ + self.output_path@,
    {
        concat("Packaged ", self.output_path.as_str())
    }
}

/// One package to make.
#[derive(Debug)]
pub struct PackageJob {
    /// What the mod is built for; the host where nothing is said.
    pub target: Option<String>,
    /// Whether the package names its target.
    pub include_target: bool,
}

/// The targets of the packages to make.
pub open spec fn job_targets(jobs: Seq<PackageJob>) -> Seq<Option<Seq<char>>> {
    jobs.map_values(|job: PackageJob| optional_text(job.target))
}

/// The targets that stand for all platforms.
pub open spec fn all_targets() -> Seq<Option<Seq<char>>> {
    seq![
        Some("x86_64-unknown-linux-gnu"@),
        Some("x86_64-apple-darwin"@),
        Some("x86_64-pc-windows-msvc"@),
    ]
}

/// The targets to make packages for, where they can be told: the one that is
/// asked for, or those that stand for all platforms.
pub open spec fn wanted_targets(target: Option<Seq<char>>, all_platforms: bool) -> Option<
    Seq<Option<Seq<char>>>,
> {
    match (target, all_platforms) {
        (Some(_), true) => None,
        (None, true) => Some(all_targets()),
        (_, false) => Some(seq![target]),
    }
}

/// The packages to make: one for the target, or one for each platform. Only
/// where there are several do they name their targets.
pub fn package_mod_targets(target: Option<&str>, all_platforms: bool) -> (outcome: Result<
    Vec<PackageJob>,
    PackageError,
>)
    ensures
        if wanted_targets(optional_view(target), all_platforms) is None {
            outcome matches Err(PackageError::TargetForAllPlatforms)
        } else {
            outcome matches Ok(jobs) && {
                &&& wanted_targets(optional_view(target), all_platforms) == Some(
                    job_targets(jobs@),
                )
                &&& forall|i: int| 0 <= i < jobs@.len() ==> jobs@[i].include_target
                    == all_platforms
            }
        },
{
    if all_platforms {
        if target.is_some() {
            return Err(PackageError::TargetForAllPlatforms);
        }
        let jobs = vec![
            PackageJob {
                target: Some("x86_64-unknown-linux-gnu".to_owned()),
                include_target: true,
            },
            PackageJob { target: Some("x86_64-apple-darwin".to_owned()), include_target: true },
            PackageJob { target: Some("x86_64-pc-windows-msvc".to_owned()), include_target: true },
        ];
        assert(job_targets(jobs@) =~= all_targets());
        Ok(jobs)
    } else {
        let copy = match target {
            Some(triple) => Some(triple.to_owned()),
            None => None,
        };
        let jobs = vec![PackageJob { target: copy, include_target: false }];
        assert(job_targets(jobs@) =~= seq![optional_view(target)]);
        Ok(jobs)
    }
}

/// What is installed and where it is put.
#[derive(Debug)]
pub struct InstallPlan {
    pub artifact: String,
    /// The directory that the engine loads mods from.
    pub mods_dir: String,
    pub destination: String,
}

/// The directory that the engine loads mods from.
pub open spec fn mods_path(app: App) -> Seq<char> {
    path_join(app.host, app.worktree_path(), "mods"@)
}

/// Where the package of a mod is installed.
pub open spec fn installed_path(app: App) -> Seq<char> {
    path_join(app.host, mods_path(app), app.id() + ".rf"@)
}

/// Where a package is installed.
pub fn install_test_artifact(app: &App, artifact: &str) -> (plan: InstallPlan)
    ensures
        plan.artifact@ == artifact@,
        plan.mods_dir@ == mods_path(*app),
        plan.destination@ == installed_path(*app),
{
    let mods_dir = join_path(app.host, app.engine_worktree_dir().as_str(), "mods");
    let file = concat(app.mod_id().as_str(), ".rf");
    let destination = join_path(app.host, mods_dir.as_str(), file.as_str());
    InstallPlan { artifact: artifact.to_owned(), mods_dir, destination }
}

impl InstallPlan {
    /// What is said of a directory that could not be made.
    pub fn directory_failure(&self) -> (message: String)
        ensures
            message@ == "failed to create "@ + self.mods_dir@,
    {
        concat("failed to create ", self.mods_dir.as_str())
    }

    /// What is said of a package that could not be installed.
    pub fn install_failure(&self) -> (message: String)
        ensures
            message@ == "failed to install "@ + self.artifact@ + " into "@ + self.destination@,
    {
        let from = concat3("failed to install ", self.artifact.as_str(), " into ");
        concat(from.as_str(), self.destination.as_str())
    }

    /// What is said of a package that was installed.
    pub fn installed(&self) -> (message: String)
        ensures
            message@ == "Installed "@ + self.destination@,
    {
        concat("Installed ", self.destination.as_str())
    }
}

/// The packages for all platforms are put at different places: none overwrites
/// another. Only below a verbatim directory nothing in their names may lead out.
pub proof fn law_packages_for_all_platforms_are_kept_apart(
    app: App,
    release: bool,
    i: int,
    j: int,
)
    requires
        0 <= i < j < all_targets().len(),
        is_verbatim_path(app.host, package_directory(app, release)) ==> stays_inside(
            names(Separators::Both, package_name(app, release, all_targets()[i]->0)),
        ) && stays_inside(
            names(Separators::Both, package_name(app, release, all_targets()[j]->0)),
        ),
    ensures
        app.artifact(release, all_targets()[i], true) != app.artifact(
            release,
            all_targets()[j],
            true,
        ),
{
    reveal_strlit("x86_64-unknown-linux-gnu");
    reveal_strlit("x86_64-apple-darwin");
    reveal_strlit("x86_64-pc-windows-msvc");
    law_plain_targets_have_their_own_packages(
        app,
        release,
        all_targets()[i]->0,
        all_targets()[j]->0,
    );
}

/// A mod that makes a library and was built can be packaged, wherever the
/// package is more than a path prefix.
pub proof fn law_built_mod_can_be_packaged(
    app: App,
    release: bool,
    target: Option<Seq<char>>,
    include_target: bool,
    host_os: Seq<char>,
)
    requires
        app.artifact(release, target, include_target).len() > prefix_len(
            app.host,
            app.artifact(release, target, include_target),
        ),
    ensures
        packing(app, release, target, include_target, host_os, true) is Ok <==> cdylib_name(
            app.package.targets@,
        ) is Some,
{
    law_package_and_mirror_have_a_directory(app, release, target, include_target);
}

/// A mod build asks for the release profile exactly where a release is built,
/// whatever it is built for.
pub proof fn law_mod_build_asks_for_its_profile(
    app: App,
    release: bool,
    target: Option<Seq<char>>,
)
    requires
        target != Some("--release"@),
    ensures
        mod_build(app, release, target).args.contains("--release"@) <==> release,
{
    reveal_strlit("build");
    reveal_strlit("--release");
    reveal_strlit("--target");
    let args = mod_build(app, release, target).args;
    if release {
        assert(args[1] == "--release"@);
    }
    if args.contains("--release"@) && !release {
        let i = choose|i: int| 0 <= i < args.len() && args[i] == "--release"@;
        assert("build"@.len() == 5 && "--release"@.len() == 9 && "--target"@.len() == 8);
        assert(i == 0 || i == 1 || i == 2);
    }
}

/// A mod is built by `cargo build` in its project. A release is asked for by one
/// word more, and a target by two more, the last of which is the target.
pub proof fn law_mod_build_passes_on_what_it_is_for(app: App, release: bool, triple: Seq<char>)
    ensures
        mod_build(app, release, Some(triple)).args == mod_build(app, release, None).args + seq![
            "--target"@,
            triple,
        ],
        mod_build(app, true, None).args == mod_build(app, false, None).args + seq!["--release"@],
        mod_build(app, false, None).args == seq!["build"@],
        forall|target: Option<Seq<char>>|
            {
                &&& (#[trigger] mod_build(app, release, target)).program == "cargo"@
                &&& mod_build(app, release, target).dir == app.project_root@
            },
{
    assert(mod_build(app, release, Some(triple)).args =~= mod_build(app, release, None).args
        + seq!["--target"@, triple]);
    assert(mod_build(app, true, None).args =~= mod_build(app, false, None).args + seq![
        "--release"@,
    ]);
    assert(mod_build(app, false, None).args =~= seq!["build"@]);
}

/// Where `cargo build` puts what it makes, as its words tell: below the target
/// directory, in a directory of the target where they name one last, and there in
/// that of the profile.
pub open spec fn build_output(
    host: Host,
    target_directory: Seq<char>,
    args: Seq<Seq<char>>,
) -> Seq<char> {
    let directory = if args.len() >= 2 && args[args.len() - 2] == "--target"@ {
        path_join(host, target_directory, args.last())
    } else {
        target_directory
    };
    path_join(
        host,
        directory,
        if args.contains("--release"@) {
            "release"@
        } else {
            "debug"@
        },
    )
}

/// The library of a mod is looked for in the directory that the build of the mod
/// puts it in, under the name that it has on the platform.
pub proof fn law_library_is_looked_for_where_it_is_built(
    app: App,
    release: bool,
    target: Option<Seq<char>>,
    host_os: Seq<char>,
    crate_name: Seq<char>,
)
    requires
        target != Some("--release"@),
    ensures
        mod_library(app, release, target, host_os, crate_name) == path_join(
            app.host,
            build_output(
                app.host,
                app.target_directory@,
                mod_build(app, release, target).args,
            ),
            library_name(platform_of(target, host_os), crate_name),
        ),
{
    reveal_strlit("build");
    reveal_strlit("--target");
    law_mod_build_asks_for_its_profile(app, release, target);
    assert("build"@.len() != "--target"@.len());
}

/// Where a target is given, it alone decides what is packaged and how: the host
/// plays no part.
pub proof fn law_plan_for_a_target_is_the_same_on_every_host(
    app: App,
    release: bool,
    triple: Seq<char>,
    include_target: bool,
    built: bool,
    one: Seq<char>,
    other: Seq<char>,
)
    ensures
        packing(app, release, Some(triple), include_target, one, built) == packing(
            app,
            release,
            Some(triple),
            include_target,
            other,
            built,
        ),
{
}

/// The library in a package for a target is called `mod.dll` exactly where the
/// target holds `windows`, and `mod.so` for any other target.
pub proof fn law_staged_library_is_one_of_the_target(
    app: App,
    release: bool,
    triple: Seq<char>,
    include_target: bool,
    host_os: Seq<char>,
    built: bool,
)
    ensures
        packing(app, release, Some(triple), include_target, host_os, built) matches Ok(plan) ==> {
            let windows = exists|before: Seq<char>, after: Seq<char>|
                triple == #[trigger] (before + "windows"@ + after);
            &&& windows ==> plan.staged_name == "mod.dll"@
            &&& !windows ==> plan.staged_name == "mod.so"@
        },
{
    law_triple_decides_the_platform(triple, host_os);
}

/// Without a target, the library in a package is called `mod.dll` exactly where
/// the host is Windows, and `mod.so` anywhere else.
pub proof fn law_staged_library_is_one_of_the_host(
    app: App,
    release: bool,
    include_target: bool,
    host_os: Seq<char>,
    built: bool,
)
    ensures
        packing(app, release, None, include_target, host_os, built) matches Ok(plan) ==> {
            &&& host_os == "windows"@ ==> plan.staged_name == "mod.dll"@
            &&& host_os != "windows"@ ==> plan.staged_name == "mod.so"@
        },
{
    law_host_decides_where_no_triple_does(host_os);
}

/// The library that is packaged and its name in the package are of one platform:
/// both end as on Windows, or neither does.
pub proof fn law_staged_library_ends_as_its_source(
    app: App,
    release: bool,
    target: Option<Seq<char>>,
    include_target: bool,
    host_os: Seq<char>,
    built: bool,
)
    ensures
        packing(app, release, target, include_target, host_os, built) matches Ok(plan) ==> (ends(
            plan.source,
            ".dll"@,
        ) <==> ends(plan.staged_name, ".dll"@)),
{
    if let Ok(plan) = packing(app, release, target, include_target, host_os, built) {
        let platform = platform_of(target, host_os);
        let crate_name = cdylib_name(app.package.targets@)->0;
        let tail = library_ending(platform);
        let file = library_name(platform, crate_name);
        let directory = match target {
            Some(triple) => path_join(app.host, app.target_directory@, triple),
            None => app.target_directory@,
        };
        law_staged_library_ends_as_built(platform, crate_name);
        reveal_strlit(".dll");
        reveal_strlit(".dylib");
        reveal_strlit(".so");
        assert(file.skip(file.len() - tail.len()) =~= tail);
        law_joined_path_keeps_its_ending(
            app.host,
            path_join(app.host, directory, profile_name(release)),
            file,
            tail,
        );
        let source = plan.source;
        assert(source.last() == source.skip(source.len() - tail.len()).last());
        if ends(source, ".dll"@) {
            assert(source.last() == source.skip(source.len() - 4).last());
        }
    }
}

/// A package is put where packages of its kind are put, and the directory that
/// is made for it is the one above it.
pub proof fn law_package_is_put_where_it_is_looked_for(
    app: App,
    release: bool,
    target: Option<Seq<char>>,
    include_target: bool,
    host_os: Seq<char>,
    built: bool,
)
    ensures
        packing(app, release, target, include_target, host_os, built) matches Ok(plan) ==> {
            &&& plan.host == app.host
            &&& plan.output_path == app.artifact(release, target, include_target)
            &&& path_parent(app.host, plan.output_path) == Some(plan.directory)
        },
        packing(app, release, target, false, host_os, built) matches Ok(plan) ==> plan.output_path
            == if release {
            app.final_path()
        } else {
            app.test_path()
        },
{
}

/// Whether a package names its target changes nothing of what is in it, and
/// whether it is a release nothing of what its library is called.
pub proof fn law_name_of_a_package_changes_nothing_in_it(
    app: App,
    release: bool,
    target: Option<Seq<char>>,
    host_os: Seq<char>,
    built: bool,
)
    ensures
        match (
            packing(app, release, target, true, host_os, built),
            packing(app, release, target, false, host_os, built),
        ) {
            (Ok(named), Ok(plain)) => named.source == plain.source && named.staged_name
                == plain.staged_name,
            _ => true,
        },
        match (
            packing(app, true, target, false, host_os, built),
            packing(app, false, target, false, host_os, built),
        ) {
            (Ok(released), Ok(tried)) => released.staged_name == tried.staged_name,
            _ => true,
        },
{
}

/// A mod without a library for an engine is not packaged, nor is one that was
/// not built; the error names the manifest, or the library that is missing: the
/// one that would have been packaged.
pub proof fn law_only_what_was_built_is_packaged(
    app: App,
    release: bool,
    target: Option<Seq<char>>,
    include_target: bool,
    host_os: Seq<char>,
)
    ensures
        cdylib_name(app.package.targets@) is None ==> forall|built: bool| #[trigger]
            packing(app, release, target, include_target, host_os, built) == Err::<
                Packing,
                PackageFault,
            >(PackageFault::NoCdylib(app.manifest_path@)),
        cdylib_name(app.package.targets@) is Some ==> (packing(
            app,
            release,
            target,
            include_target,
            host_os,
            false,
        ) matches Err(PackageFault::NotBuilt(missing)) && (packing(
            app,
            release,
            target,
            include_target,
            host_os,
            true,
        ) matches Ok(plan) ==> plan.source == missing)),
{
}

/// All platforms are covered by the targets that stand for them, each by one of
/// them, whatever the host is.
pub proof fn law_all_platforms_are_covered(host_os: Seq<char>)
    ensures
        wanted_targets(None, true) matches Some(targets) && {
            &&& targets.len() == 3
            &&& platform_of(targets[0], host_os) == PlatformKind::Unix
            &&& platform_of(targets[1], host_os) == PlatformKind::MacOs
            &&& platform_of(targets[2], host_os) == PlatformKind::Windows
            &&& forall|i: int| 0 <= i < 3 ==> #[trigger] targets[i] is Some
        },
{
    reveal_strlit("windows");
    reveal_strlit("darwin");
    reveal_strlit("apple-darwin");
    reveal_strlit("x86_64-unknown-linux-gnu");
    reveal_strlit("x86_64-apple-darwin");
    reveal_strlit("x86_64-pc-windows-msvc");
    let linux = "x86_64-unknown-linux-gnu"@;
    let mac = "x86_64-apple-darwin"@;
    let windows = "x86_64-pc-windows-msvc"@;
    assert forall|at: int| !occurs_at(linux, "windows"@, at) && !occurs_at(linux, "darwin"@, at)
        && !occurs_at(linux, "apple-darwin"@, at) by {
        if occurs_at(linux, "windows"@, at) {
            assert(linux.subrange(at, at + 7)[1] == 'i' && linux.subrange(at, at + 7)[0] == 'w');
        }
        if occurs_at(linux, "darwin"@, at) {
            assert(linux.subrange(at, at + 6)[0] == 'd');
        }
        if occurs_at(linux, "apple-darwin"@, at) {
            assert(linux.subrange(at, at + 12)[0] == 'a');
        }
    }
    assert forall|at: int| !occurs_at(mac, "windows"@, at) by {
        if occurs_at(mac, "windows"@, at) {
            assert(mac.subrange(at, at + 7)[6] == 's');
        }
    }
    assert(mac.subrange(13, 19) =~= "darwin"@);
    assert(occurs_at(mac, "darwin"@, 13));
    assert(windows.subrange(10, 17) =~= "windows"@);
    assert(occurs_at(windows, "windows"@, 10));
}

/// One target is packaged for where all platforms are not asked for, and it is
/// the one that is asked for; to ask for both makes no sense.
pub proof fn law_one_target_is_packaged_for(target: Option<Seq<char>>)
    ensures
        wanted_targets(target, false) matches Some(targets) && targets.len() == 1 && targets[0]
            == target,
        wanted_targets(target, true) is None <==> target is Some,
{
}

/// A mod is installed in the engine checkout under the name that it is packaged
/// under for trying out.
pub proof fn law_mod_is_installed_under_its_name(app: App)
    ensures
        exists|name: Seq<char>|
            {
                &&& installed_path(app) == #[trigger] path_join(app.host, mods_path(app), name)
                &&& app.test_path() == path_join(app.host, app.out_path(), name)
                &&& ends(name, ".rf"@)
                &&& name.len() == app.id().len() + 3
                &&& begins(name, app.id())
            },
        mods_path(app) == path_join(app.host, engine_build(app, true, Seq::empty()).dir, "mods"@),
{
    reveal_strlit(".rf");
    let name = app.id() + ".rf"@;
    assert(name.skip(name.len() - 3) =~= ".rf"@);
    assert(name.subrange(0, app.id().len() as int) =~= app.id());
    assert(installed_path(app) == path_join(app.host, mods_path(app), name));
}

/// An engine build asks for the release profile exactly where a release is built,
/// whatever binary and features it is for.
pub proof fn law_engine_build_asks_for_its_profile(app: App, release: bool, bin: Seq<char>)
    requires
        bin != "--release"@,
        joined(views(app.config.engine.features@), ","@) != "--release"@,
    ensures
        engine_build(app, release, bin).args.contains("--release"@) <==> release,
{
    reveal_strlit("build");
    reveal_strlit("-p");
    reveal_strlit("engine");
    reveal_strlit("--bin");
    reveal_strlit("--release");
    reveal_strlit("--features");
    let args = engine_build(app, release, bin).args;
    if release {
        assert(args[5] == "--release"@);
    }
    if args.contains("--release"@) && !release {
        let i = choose|i: int| 0 <= i < args.len() && args[i] == "--release"@;
        assert("build"@.len() == 5 && "-p"@.len() == 2 && "engine"@.len() == 6 && "--bin"@.len()
            == 5 && "--features"@.len() == 10 && "--release"@.len() == 9);
        assert(0 <= i < 7);
        assert(i == 0 || i == 1 || i == 2 || i == 3 || i == 4 || i == 5 || i == 6);
    }
}

/// An engine is built by `cargo build` in its checkout. The binary is the one
/// asked for; a release is asked for by one word more; features are asked for by
/// two more, exactly where there are any, and can be read from the last of them.
pub proof fn law_engine_build_passes_on_what_it_is_for(app: App, release: bool, bin: Seq<char>)
    requires
        forall|i: int|
            0 <= i < app.config.engine.features@.len() ==> !(
            #[trigger] app.config.engine.features@[i])@.contains(','),
    ensures
        ({
            let features = views(app.config.engine.features@);
            let command = engine_build(app, release, bin);
            let args = command.args;
            &&& command.program == "cargo"@
            &&& command.dir == app.worktree_path()
            &&& args.take(5) == seq!["build"@, "-p"@, "engine"@, "--bin"@, bin]
            &&& args.len() == 5 + if release {
                1int
            } else {
                0
            } + if features.len() > 0 {
                2int
            } else {
                0
            }
            &&& features.len() > 0 ==> args[args.len() - 2] == "--features"@ && cut(
                args.last(),
                ',',
            ) == features
        }),
{
    reveal_strlit(",");
    let features = views(app.config.engine.features@);
    let args = engine_build(app, release, bin).args;
    assert(args.take(5) =~= seq!["build"@, "-p"@, "engine"@, "--bin"@, bin]);
    if features.len() > 0 {
        assert forall|i: int| 0 <= i < features.len() implies !(#[trigger] features[i]).contains(
            ',',
        ) by {
            assert(features[i] == app.config.engine.features@[i]@);
        }
        assert(","@ =~= seq![',']);
        law_joined_parts_are_cut_again(features, ',');
    }
}

/// The engine binary is looked for in the directory that the build of the engine
/// puts it in, under the name that the build was asked for.
pub proof fn law_engine_is_looked_for_where_it_is_built(
    app: App,
    target_directory: Seq<char>,
    release: bool,
    bin: Seq<char>,
)
    requires
        bin != "--release"@,
        joined(views(app.config.engine.features@), ","@) != "--release"@,
        bin != "--target"@,
    ensures
        engine_binary(app.host, target_directory, release, bin) == path_join(
            app.host,
            build_output(app.host, target_directory, engine_build(app, release, bin).args),
            binary_name(engine_build(app, release, bin).args[4], app.host),
        ),
{
    reveal_strlit("--target");
    reveal_strlit("--bin");
    reveal_strlit("--release");
    reveal_strlit("--features");
    law_engine_build_asks_for_its_profile(app, release, bin);
    assert("--bin"@.len() == 5 && "--features"@.len() == 10 && "--target"@.len() == 8);
}

/// What is said of a mod that cannot be packaged names the path in full, and is
/// the same for every path but for that.
pub proof fn law_package_error_names_the_path(path: Seq<char>)
    ensures
        ({
            let none = Seq::<char>::empty();
            &&& package_message(PackageFault::NoCdylib(path)) == package_message(
                PackageFault::NoCdylib(none),
            ) + path
            &&& package_message(PackageFault::InvalidOutput(path)) == package_message(
                PackageFault::InvalidOutput(none),
            ) + path
            &&& occurs_in(package_message(PackageFault::NotBuilt(path)), " "@ + path + ";"@)
            &&& package_message(PackageFault::NotBuilt(path)).len() == package_message(
                PackageFault::NotBuilt(none),
            ).len() + path.len()
        }),
{
    reveal_strlit(" ");
    reveal_strlit(";");
    reveal_strlit("built mod artifact not found at ");
    reveal_strlit("; verify the package defines a cdylib target");
    let none = Seq::<char>::empty();
    assert(package_message(PackageFault::NoCdylib(path)) =~= package_message(
        PackageFault::NoCdylib(none),
    ) + path);
    assert(package_message(PackageFault::InvalidOutput(path)) =~= package_message(
        PackageFault::InvalidOutput(none),
    ) + path);
    let missing = package_message(PackageFault::NotBuilt(path));
    let named = " "@ + path + ";"@;
    assert(missing.subrange(31, 31 + named.len() as int) =~= named);
    assert(occurs_at(missing, named, 31));
}

} // verus!
