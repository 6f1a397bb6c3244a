//! The configuration of a mod project, and where it is found.

use vstd::prelude::*;

use crate::host::Host;
use crate::path::{is_absolute_path, join_path, path_join};
use crate::text::{begins, occurs_at, occurs_in, optional_view, replace, replaced};
use crate::toml_tree::{entry, parse_toml, toml_document, toml_get, toml_tree, TomlTree};

verus! {

/// The configuration of a mod project.
#[derive(Debug, Clone)]
pub struct RustforgeConfig {
    /// The name that the mod goes by; the package's own name where missing.
    pub mod_id: Option<String>,
    pub engine: EngineConfig,
    pub paths: PathConfig,
}

/// What a project says of the engine that it runs in.
#[derive(Debug, Clone)]
pub struct EngineConfig {
    /// Where the engine is cloned from, in place of what the lockfile says.
    pub repo_url: Option<String>,
    /// The engine binary that is built and run.
    pub bin: Option<String>,
    /// The features that the engine is built with.
    pub features: Vec<String>,
}

/// Where a project keeps what the tool makes.
#[derive(Debug, Clone)]
pub struct PathConfig {
    pub engine_root: Option<String>,
    pub out_dir: Option<String>,
}

impl Default for EngineConfig {
    fn default() -> (config: Self)
        ensures
            config.repo_url is None,
            config.bin is None,
            config.features@.len() == 0,
    {
        EngineConfig { repo_url: None, bin: None, features: Vec::new() }
    }
}

impl Default for PathConfig {
    fn default() -> (config: Self)
        ensures
            config.engine_root is None,
            config.out_dir is None,
    {
        PathConfig { engine_root: None, out_dir: None }
    }
}

impl Default for RustforgeConfig {
    fn default() -> (config: Self)
        ensures
            config.mod_id is None,
            config.engine.repo_url is None,
            config.engine.bin is None,
            config.engine.features@.len() == 0,
            config.paths.engine_root is None,
            config.paths.out_dir is None,
    {
        RustforgeConfig {
            mod_id: None,
            engine: EngineConfig::default(),
            paths: PathConfig::default(),
        }
    }
}

/// The part of a manifest that a configuration was found in.
#[derive(Debug, Clone, Copy, PartialEq, Eq, Structural)]
pub enum ConfigSection {
    /// `[package.metadata.rustforge]`
    PackageMetadata,
    /// `[metadata.rustforge]`
    Metadata,
}

/// A configuration that was found in a manifest, still to be read.
pub struct ConfigTable {
    pub section: ConfigSection,
    pub table: toml::Value,
}

impl ConfigSection {
    /// What is said of a configuration in this part that cannot be read.
    pub fn parse_failure(self) -> (message: String)
        ensures
            message@ == match self {
                ConfigSection::PackageMetadata =>
                    "failed to parse [package.metadata.rustforge]"@,
                ConfigSection::Metadata => "failed to parse [metadata.rustforge]"@,
            },
    {
        match self {
            ConfigSection::PackageMetadata =>
                "failed to parse [package.metadata.rustforge]".to_owned(),
            ConfigSection::Metadata => "failed to parse [metadata.rustforge]".to_owned(),
        }
    }
}

/// Where the configuration of a project is.
pub enum ConfigPlace {
    /// In a table of the manifest.
    Manifest(ConfigTable),
    /// In a file of its own, at the path.
    File(String),
    /// Nowhere: the default configuration holds.
    Nowhere,
}

/// The value under a path of keys.
pub open spec fn lookup(tree: TomlTree, keys: Seq<Seq<char>>) -> Option<TomlTree>
    decreases keys.len(),
{
    if keys.len() == 0 {
        Some(tree)
    } else {
        match entry(tree, keys[0]) {
            Some(inner) => lookup(inner, keys.skip(1)),
            None => None,
        }
    }
}

/// Of two places that may hold a configuration, the first wins.
pub open spec fn preferred<T>(package_metadata: Option<T>, metadata: Option<T>) -> Option<
    (ConfigSection, T),
> {
    match (package_metadata, metadata) {
        (Some(table), _) => Some((ConfigSection::PackageMetadata, table)),
        (None, Some(table)) => Some((ConfigSection::Metadata, table)),
        (None, None) => None,
    }
}

/// The configuration that a manifest holds.
pub open spec fn config_in(manifest: TomlTree) -> Option<(ConfigSection, TomlTree)> {
    preferred(
        lookup(manifest, seq!["package"@, "metadata"@, "rustforge"@]),
        lookup(manifest, seq!["metadata"@, "rustforge"@]),
    )
}

/// A configured path, seen from the project root: the configured text or the
/// default one, with each `<sha>` in it standing for the engine commit.
pub open spec fn configured_path(
    host: Host,
    project_root: Seq<char>,
    configured: Option<Seq<char>>,
    default: Seq<char>,
    commit: Seq<char>,
) -> Seq<char> {
    let raw = match configured {
        Some(text) => text,
        None => default,
    };
    path_join(host, project_root, replaced(raw, "<sha>"@, commit))
}

/// The path that a project configured, or the default one, with each `<sha>`
/// replaced by the engine commit.
pub fn resolve_configured_path(
    host: Host,
    project_root: &str,
    configured: Option<&str>,
    default: &str,
    commit: &str,
) -> (path: String)
    ensures
        path@ == configured_path(
            host,
            project_root@,
            optional_view(configured),
            default@,
            commit@,
        ),
{
    proof {
        reveal_strlit("<sha>");
    }
    let raw = match configured {
        Some(text) => text,
        None => default,
    };
    join_path(host, project_root, replace(raw, "<sha>", commit).as_str())
}

/// Of two places that may hold a configuration, the first one that does.
pub fn prefer_config<T>(package_metadata: Option<T>, metadata: Option<T>) -> (found: Option<
    (ConfigSection, T),
>)
    ensures
        found == preferred(package_metadata, metadata),
{
    match package_metadata {
        Some(table) => Some((ConfigSection::PackageMetadata, table)),
        None => match metadata {
            Some(table) => Some((ConfigSection::Metadata, table)),
            None => None,
        },
    }
}

fn find<'a>(value: &'a toml::Value, keys: &Vec<&str>) -> (found: Option<&'a toml::Value>)
    ensures
        match found {
            Some(inner) => lookup(toml_tree(*value), keys@.map_values(|key: &str| key@)) == Some(
                toml_tree(*inner),
            ),
            None => lookup(toml_tree(*value), keys@.map_values(|key: &str| key@)) is None,
        },
{
    let ghost path = keys@.map_values(|key: &str| key@);
    let mut current = value;
    let mut i: usize = 0;
    assert(path.skip(0) =~= path);
    while i < keys.len()
        invariant
            i <= keys@.len(),
            path == keys@.map_values(|key: &str| key@),
            lookup(toml_tree(*current), path.skip(i as int)) == lookup(toml_tree(*value), path),
        decreases keys@.len() - i,
    {
        assert(path.skip(i as int).skip(1) =~= path.skip(i + 1));
        assert(path.skip(i as int)[0] == keys@[i as int]@);
        match toml_get(current, keys[i]) {
            Some(inner) => {
                current = inner;
            },
            None => {
                return None;
            },
        }
        i += 1;
    }
    Some(current)
}

/// Finds the configuration in the text of a project's manifest.
///
/// `Ok(None)` means that the manifest holds none, and an error is the text of
/// what makes the manifest no TOML document.
pub fn load_config(manifest: &str) -> (found: Result<Option<ConfigTable>, String>)
    ensures
        match found {
            Ok(Some(config)) => toml_document(manifest@) matches Ok(tree) && config_in(tree)
                == Some((config.section, toml_tree(config.table))),
            Ok(None) => toml_document(manifest@) matches Ok(tree) && config_in(tree) is None,
            Err(message) => toml_document(manifest@) == Err::<TomlTree, Seq<char>>(message@),
        },
{
    let value = match parse_toml(manifest) {
        Ok(value) => value,
        Err(message) => {
            return Err(message);
        },
    };
    let inner = vec!["package", "metadata", "rustforge"];
    let outer = vec!["metadata", "rustforge"];
    assert(inner@.map_values(|key: &str| key@) =~= seq!["package"@, "metadata"@, "rustforge"@]);
    assert(outer@.map_values(|key: &str| key@) =~= seq!["metadata"@, "rustforge"@]);
    match prefer_config(find(&value, &inner), find(&value, &outer)) {
        Some((section, table)) => Ok(Some(ConfigTable { section, table: table.clone() })),
        None => Ok(None),
    }
}

/// The file that may hold the configuration of a project.
pub fn fallback_path(host: Host, project_root: &str) -> (path: String)
    ensures
        path@ == path_join(host, project_root@, "rustforge.toml"@),
{
    join_path(host, project_root, "rustforge.toml")
}

/// A [`ConfigPlace`] with its path as a sequence, and without what was found.
pub enum Place {
    Manifest,
    File(Seq<char>),
    Nowhere,
}

/// Which place a [`ConfigPlace`] is.
pub open spec fn place_of(place: ConfigPlace) -> Place {
    match place {
        ConfigPlace::Manifest(_) => Place::Manifest,
        ConfigPlace::File(path) => Place::File(path@),
        ConfigPlace::Nowhere => Place::Nowhere,
    }
}

/// Where the configuration of a project is.
pub open spec fn chosen_place(
    host: Host,
    in_manifest: bool,
    project_root: Seq<char>,
    has_file: bool,
) -> Place {
    if in_manifest {
        Place::Manifest
    } else if has_file {
        Place::File(path_join(host, project_root, "rustforge.toml"@))
    } else {
        Place::Nowhere
    }
}

/// Where the configuration of a project is: what the manifest holds comes
/// before the file, and `has_file` tells whether there is one at
/// [`fallback_path`].
pub fn config_place(
    host: Host,
    found: Option<ConfigTable>,
    project_root: &str,
    has_file: bool,
) -> (place: ConfigPlace)
    ensures
        place_of(place) == chosen_place(host, found is Some, project_root@, has_file),
        found matches Some(config) ==> place == ConfigPlace::Manifest(config),
{
    match found {
        Some(config) => ConfigPlace::Manifest(config),
        None => {
            if has_file {
                ConfigPlace::File(fallback_path(host, project_root))
            } else {
                ConfigPlace::Nowhere
            }
        },
    }
}

/// An absolute path is taken as configured; the project root plays no part.
pub proof fn law_absolute_path_stands_alone(
    host: Host,
    project_root: Seq<char>,
    other_root: Seq<char>,
    configured: Seq<char>,
    default: Seq<char>,
    commit: Seq<char>,
)
    requires
        is_absolute_path(host, replaced(configured, "<sha>"@, commit)),
    ensures
        configured_path(host, project_root, Some(configured), default, commit) == replaced(
            configured,
            "<sha>"@,
            commit,
        ),
        configured_path(host, project_root, Some(configured), default, commit) == configured_path(
            host,
            other_root,
            Some(configured),
            default,
            commit,
        ),
{
}

/// A text without the placeholder is taken as it is, whatever the commit.
pub proof fn law_text_without_placeholder_is_kept(text: Seq<char>, commit: Seq<char>)
    requires
        !occurs_in(text, "<sha>"@),
    ensures
        replaced(text, "<sha>"@, commit) == text,
    decreases text.len(),
{
    reveal_strlit("<sha>");
    if text.len() > 0 {
        let rest = text.skip(1);
        assert(!occurs_at(text, "<sha>"@, 0));
        assert forall|at: int| !occurs_at(rest, "<sha>"@, at) by {
            if occurs_at(rest, "<sha>"@, at) {
                assert(rest.subrange(at, at + 5) =~= text.subrange(at + 1, at + 6));
                assert(occurs_at(text, "<sha>"@, at + 1));
            }
        }
        law_text_without_placeholder_is_kept(rest, commit);
        assert(seq![text[0]] + rest =~= text);
    }
}

/// What stands before a placeholder is kept and the placeholder is filled.
pub proof fn law_placeholder_is_filled(before: Seq<char>, after: Seq<char>, commit: Seq<char>)
    requires
        !before.contains('<'),
    ensures
        replaced(before + "<sha>"@ + after, "<sha>"@, commit) == before + commit + replaced(
            after,
            "<sha>"@,
            commit,
        ),
    decreases before.len(),
{
    reveal_strlit("<sha>");
    let mark = "<sha>"@;
    let text = before + mark + after;
    if before.len() == 0 {
        assert(text.subrange(0, 5) =~= mark);
        assert(text.skip(5) =~= after);
        assert(before + commit =~= commit);
    } else {
        let rest = before.skip(1);
        assert(text[0] == before[0]);
        assert(before.contains(before[0]));
        assert(text.subrange(0, 5)[0] != mark[0]);
        assert(text.skip(1) =~= rest + mark + after);
        assert forall|i: int| 0 <= i < rest.len() implies rest[i] != '<' by {
            assert(before.contains(before[i + 1]));
        }
        law_placeholder_is_filled(rest, after, commit);
        assert(seq![text[0]] + (rest + commit + replaced(after, mark, commit)) =~= before + commit
            + replaced(after, mark, commit));
    }
}

/// Where a filled text begins with `head`, which ends in `>` and holds no `<`,
/// the text itself does.
proof fn lemma_filled_head(text: Seq<char>, commit: Seq<char>, head: Seq<char>)
    requires
        commit.len() >= head.len(),
        !commit.contains('>'),
        head.len() > 0,
        head.last() == '>',
        !head.contains('<'),
        begins(replaced(text, "<sha>"@, commit), head),
    ensures
        begins(text, head),
    decreases head.len(),
{
    reveal_strlit("<sha>");
    let mark = "<sha>"@;
    let filled = replaced(text, mark, commit);
    assert(filled.subrange(0, head.len() as int) == head);
    if text.len() == 0 {
    } else if begins(text, mark) {
        assert(filled[head.len() - 1] == filled.subrange(0, head.len() as int)[head.len() - 1]);
        assert(commit[head.len() - 1] == '>');
        assert(false);
    } else {
        let rest = text.skip(1);
        let inner = replaced(rest, mark, commit);
        assert(filled == seq![text[0]] + inner);
        assert(filled.subrange(0, head.len() as int)[0] == text[0]);
        if head.len() > 1 {
            let tail = head.skip(1);
            assert(inner.subrange(0, tail.len() as int) =~= filled.subrange(
                0,
                head.len() as int,
            ).skip(1));
            assert forall|i: int| 0 <= i < tail.len() implies tail[i] != '<' by {
                assert(head.contains(head[i + 1]));
            }
            lemma_filled_head(rest, commit, tail);
            assert(rest.subrange(0, tail.len() as int) == tail);
            assert(text.subrange(0, head.len() as int) =~= head) by {
                assert forall|i: int| 0 <= i < head.len() implies text[i] == head[i] by {
                    if i > 0 {
                        assert(rest.subrange(0, tail.len() as int)[i - 1] == tail[i - 1]);
                    }
                }
            }
        } else {
            assert(text.subrange(0, 1) =~= head);
        }
    }
}

/// No placeholder is left in a filled text, for any commit that is longer than
/// the tail of the placeholder and holds no angle bracket.
pub proof fn law_no_placeholder_is_left(text: Seq<char>, commit: Seq<char>)
    requires
        commit.len() >= 4,
        !commit.contains('<'),
        !commit.contains('>'),
    ensures
        !occurs_in(replaced(text, "<sha>"@, commit), "<sha>"@),
    decreases text.len(),
{
    reveal_strlit("<sha>");
    let mark = "<sha>"@;
    let filled = replaced(text, mark, commit);
    assert forall|at: int| !occurs_at(filled, mark, at) by {
        if occurs_at(filled, mark, at) {
            assert(filled.subrange(at, at + 5)[0] == '<');
            assert(filled[at] == '<');
            if text.len() == 0 {
            } else if begins(text, mark) {
                let rest = text.skip(5);
                law_no_placeholder_is_left(rest, commit);
                if at < commit.len() {
                    assert(commit.contains(commit[at]));
                } else {
                    let inner = replaced(rest, mark, commit);
                    assert(inner.subrange(at - commit.len(), at - commit.len() + 5)
                        =~= filled.subrange(at, at + 5));
                    assert(occurs_at(inner, mark, at - commit.len()));
                }
            } else {
                let rest = text.skip(1);
                let inner = replaced(rest, mark, commit);
                law_no_placeholder_is_left(rest, commit);
                if at > 0 {
                    assert(inner.subrange(at - 1, at + 4) =~= filled.subrange(at, at + 5));
                    assert(occurs_at(inner, mark, at - 1));
                } else {
                    let head = mark.skip(1);
                    assert(inner.subrange(0, 4) =~= filled.subrange(0, 5).skip(1));
                    lemma_filled_head(rest, commit, head);
                    assert(rest.subrange(0, 4) == head);
                    assert(text.subrange(0, 5) =~= mark) by {
                        assert forall|i: int| 0 <= i < 5 implies text[i] == mark[i] by {
                            if i > 0 {
                                assert(rest.subrange(0, 4)[i - 1] == head[i - 1]);
                            }
                        }
                    }
                }
            }
        }
    }
}

/// The entry of what may be a table under a key.
pub open spec fn entry_of(tree: Option<TomlTree>, key: Seq<char>) -> Option<TomlTree> {
    match tree {
        Some(TomlTree::Table(entries)) => if entries.contains_key(key) {
            Some(entries[key])
        } else {
            None
        },
        _ => None,
    }
}

/// The configuration of a manifest is what stands under `rustforge` in the
/// metadata of its package; only where nothing does, it is what stands there in
/// the metadata of the manifest itself; and where nothing does there either,
/// there is none.
pub proof fn law_package_metadata_comes_first(manifest: TomlTree)
    ensures
        ({
            let package = entry_of(
                entry_of(entry_of(Some(manifest), "package"@), "metadata"@),
                "rustforge"@,
            );
            let outer = entry_of(entry_of(Some(manifest), "metadata"@), "rustforge"@);
            match config_in(manifest) {
                Some((ConfigSection::PackageMetadata, table)) => package == Some(table),
                Some((ConfigSection::Metadata, table)) => package is None && outer == Some(table),
                None => package is None && outer is None,
            }
        }),
{
    let inner = seq!["package"@, "metadata"@, "rustforge"@];
    let outer = seq!["metadata"@, "rustforge"@];
    assert(inner.skip(1) =~= outer);
    assert(outer.skip(1) =~= seq!["rustforge"@]);
    assert(seq!["rustforge"@].skip(1) =~= Seq::empty());
    reveal_with_fuel(lookup, 4);
}

/// What is configured takes the place of the default, and plays the part that
/// the default would.
pub proof fn law_default_counts_only_where_nothing_is_configured(
    host: Host,
    project_root: Seq<char>,
    configured: Seq<char>,
    default: Seq<char>,
    commit: Seq<char>,
)
    ensures
        configured_path(host, project_root, None, default, commit) == configured_path(
            host,
            project_root,
            Some(default),
            configured,
            commit,
        ),
        configured_path(host, project_root, Some(configured), default, commit) == configured_path(
            host,
            project_root,
            None,
            configured,
            commit,
        ),
{
}

/// A configured path without a placeholder is seen from the project, and the
/// commit plays no part in it.
pub proof fn law_path_without_placeholder_is_seen_from_the_project(
    host: Host,
    project_root: Seq<char>,
    configured: Seq<char>,
    default: Seq<char>,
    commit: Seq<char>,
)
    requires
        !occurs_in(configured, "<sha>"@),
    ensures
        configured_path(host, project_root, Some(configured), default, commit) == path_join(
            host,
            project_root,
            configured,
        ),
{
    law_text_without_placeholder_is_kept(configured, commit);
}

/// A configured path with one placeholder has the commit in its place.
pub proof fn law_commit_takes_the_place_of_the_placeholder(
    host: Host,
    project_root: Seq<char>,
    before: Seq<char>,
    after: Seq<char>,
    default: Seq<char>,
    commit: Seq<char>,
)
    requires
        !before.contains('<'),
        !occurs_in(after, "<sha>"@),
    ensures
        configured_path(host, project_root, Some(before + "<sha>"@ + after), default, commit)
            == path_join(host, project_root, before + commit + after),
{
    law_placeholder_is_filled(before, after, commit);
    law_text_without_placeholder_is_kept(after, commit);
}

/// A file of its own holds the configuration of a project only where the manifest
/// does not, and only where there is one; whether there is one makes no
/// difference to a manifest that does.
pub proof fn law_manifest_comes_before_the_file(
    host: Host,
    in_manifest: bool,
    project_root: Seq<char>,
    has_file: bool,
)
    ensures
        chosen_place(host, in_manifest, project_root, has_file) is Manifest <==> in_manifest,
        chosen_place(host, in_manifest, project_root, has_file) is File <==> !in_manifest
            && has_file,
        chosen_place(host, in_manifest, project_root, has_file) matches Place::File(path)
            ==> path == path_join(host, project_root, "rustforge.toml"@),
{
}

} // verus!
