//! The engine that a mod project is pinned to, as its lockfile says.

use vstd::prelude::*;
use vstd::utf8::{decode_utf8, encode_utf8, is_ascii_chars, is_char_boundary};

use crate::config::RustforgeConfig;
use crate::text::{
    begins, chars_of, concat, ends, last_position, occurs_at, occurs_in, optional_text, same_text,
    starts_with, text_of,
};
use crate::toml_tree::{entry, parse_toml, toml_document, toml_get, toml_tree, toml_trees, TomlTree};

verus! {

/// The engine commit that a project is pinned to, and where it comes from.
#[derive(Debug, Clone)]
pub struct EngineSpec {
    pub repo_url: String,
    pub commit: String,
    /// The first bytes of the commit, enough to tell it from others.
    pub commit_short: String,
}

/// How many bytes of a commit its short form has, and a commit has at least.
pub const SHORT_COMMIT: usize = 12;

/// One `[[package]]` of a lockfile, as far as it is read: a field is missing
/// where it is absent or no string.
#[derive(Debug)]
pub struct LockPackage {
    pub name: Option<String>,
    pub source: Option<String>,
}

/// The texts of a [`LockPackage`].
pub struct PackageEntry {
    pub name: Option<Seq<char>>,
    pub source: Option<Seq<char>>,
}

impl View for LockPackage {
    type V = PackageEntry;

    open spec fn view(&self) -> PackageEntry {
        PackageEntry { name: optional_text(self.name), source: optional_text(self.source) }
    }
}

/// Why a source names no engine commit.
#[derive(Debug)]
pub enum SourceError {
    /// The source is no git source.
    NotGit,
    /// The source has no part behind a `#`.
    MissingCommit(String),
    /// The url or the commit of the source is empty.
    Invalid(String),
}

/// A [`SourceError`] with its text as a sequence.
pub enum SourceFault {
    NotGit,
    MissingCommit(Seq<char>),
    Invalid(Seq<char>),
}

impl View for SourceError {
    type V = SourceFault;

    open spec fn view(&self) -> SourceFault {
        match self {
            SourceError::NotGit => SourceFault::NotGit,
            SourceError::MissingCommit(source) => SourceFault::MissingCommit(source@),
            SourceError::Invalid(source) => SourceFault::Invalid(source@),
        }
    }
}

/// Why a lockfile names no engine commit.
#[derive(Debug)]
pub enum EngineSpecError {
    /// The lockfile is no TOML document, and why.
    InvalidLock(String),
    /// The lockfile has no list of packages.
    NoPackages,
    /// No package is the engine library.
    NotFound,
    /// More than one package is the engine library.
    Ambiguous,
    /// The engine library has no source.
    MissingSource,
    /// The source of the engine library names no commit.
    Source(SourceError),
    /// The commit is no full one.
    CommitTooShort(String),
}

/// An [`EngineSpecError`] with its texts as sequences.
pub enum EngineFault {
    InvalidLock(Seq<char>),
    NoPackages,
    NotFound,
    Ambiguous,
    MissingSource,
    Source(SourceFault),
    CommitTooShort(Seq<char>),
}

impl View for EngineSpecError {
    type V = EngineFault;

    open spec fn view(&self) -> EngineFault {
        match self {
            EngineSpecError::InvalidLock(message) => EngineFault::InvalidLock(message@),
            EngineSpecError::NoPackages => EngineFault::NoPackages,
            EngineSpecError::NotFound => EngineFault::NotFound,
            EngineSpecError::Ambiguous => EngineFault::Ambiguous,
            EngineSpecError::MissingSource => EngineFault::MissingSource,
            EngineSpecError::Source(error) => EngineFault::Source(error@),
            EngineSpecError::CommitTooShort(commit) => EngineFault::CommitTooShort(commit@),
        }
    }
}

/// The texts of an [`EngineSpec`].
pub struct Engine {
    pub repo_url: Seq<char>,
    pub commit: Seq<char>,
    pub commit_short: Seq<char>,
}

impl View for EngineSpec {
    type V = Engine;

    open spec fn view(&self) -> Engine {
        Engine { repo_url: self.repo_url@, commit: self.commit@, commit_short: self.commit_short@ }
    }
}

/// The position of the last `#`; -1 where there is none.
pub open spec fn last_hash(text: Seq<char>) -> int
    decreases text.len(),
{
    if text.len() == 0 {
        -1
    } else if text.last() == '#' {
        text.len() - 1
    } else {
        last_hash(text.drop_last())
    }
}

/// The url and the commit that a source is made of: `git+`, the url, the last
/// `#` of the text and the commit.
pub open spec fn parsed_source(source: Seq<char>) -> Result<(Seq<char>, Seq<char>), SourceFault> {
    let rest = source.skip(4);
    let at = last_hash(rest);
    if !begins(source, "git+"@) {
        Err(SourceFault::NotGit)
    } else if at < 0 {
        Err(SourceFault::MissingCommit(source))
    } else if at == 0 || at + 1 == rest.len() {
        Err(SourceFault::Invalid(source))
    } else {
        Ok((rest.take(at), rest.skip(at + 1)))
    }
}

/// The packages that are the engine library.
pub open spec fn engine_packages(packages: Seq<PackageEntry>) -> Seq<PackageEntry> {
    packages.filter(|package: PackageEntry| package.name == Some("enginelib"@))
}

/// The url and the commit of the one package that is the engine library.
pub open spec fn locked_source(packages: Seq<PackageEntry>) -> Result<
    (Seq<char>, Seq<char>),
    EngineFault,
> {
    let engines = engine_packages(packages);
    if engines.len() == 0 {
        Err(EngineFault::NotFound)
    } else if engines.len() > 1 {
        Err(EngineFault::Ambiguous)
    } else {
        match engines[0].source {
            None => Err(EngineFault::MissingSource),
            Some(source) => match parsed_source(source) {
                Err(fault) => Err(EngineFault::Source(fault)),
                Ok((url, commit)) => if encode_utf8(commit).len() < SHORT_COMMIT {
                    Err(EngineFault::CommitTooShort(commit))
                } else {
                    Ok((url, commit))
                },
            },
        }
    }
}

/// The characters that the first bytes of a commit encode.
pub open spec fn short_commit(commit: Seq<char>) -> Seq<char> {
    decode_utf8(encode_utf8(commit).take(SHORT_COMMIT as int))
}

/// Whether the locked commit, where there is one, can be cut behind its first
/// bytes: no character lies across the cut.
pub open spec fn commit_can_be_cut(packages: Seq<PackageEntry>) -> bool {
    locked_source(packages) matches Ok((_, commit)) ==> is_char_boundary(
        encode_utf8(commit),
        SHORT_COMMIT as int,
    )
}

/// The engine that a list of packages and a configured url make up.
pub open spec fn locked_engine(
    packages: Seq<PackageEntry>,
    configured_url: Option<Seq<char>>,
) -> Result<Engine, EngineFault> {
    match locked_source(packages) {
        Err(fault) => Err(fault),
        Ok((url, commit)) => Ok(
            Engine {
                repo_url: match configured_url {
                    Some(configured) => configured,
                    None => url,
                },
                commit,
                commit_short: short_commit(commit),
            },
        ),
    }
}

/// The text of a field, where it is a string.
pub open spec fn text_field(tree: TomlTree, key: Seq<char>) -> Option<Seq<char>> {
    match entry(tree, key) {
        Some(TomlTree::Text(text)) => Some(text),
        _ => None,
    }
}

/// A package of a lockfile.
pub open spec fn package_in(tree: TomlTree) -> PackageEntry {
    PackageEntry { name: text_field(tree, "name"@), source: text_field(tree, "source"@) }
}

/// The packages of a lockfile; nothing where it has no list of them.
pub open spec fn packages_in(lock: TomlTree) -> Option<Seq<PackageEntry>> {
    match entry(lock, "package"@) {
        Some(TomlTree::List(trees)) => Some(trees.map_values(|tree: TomlTree| package_in(tree))),
        _ => None,
    }
}

/// What a lockfile says: its packages, or why it has none.
pub open spec fn locked_packages(lock: Seq<char>) -> Result<Seq<PackageEntry>, EngineFault> {
    match toml_document(lock) {
        Err(message) => Err(EngineFault::InvalidLock(message)),
        Ok(tree) => match packages_in(tree) {
            None => Err(EngineFault::NoPackages),
            Some(packages) => Ok(packages),
        },
    }
}

/// What the outcome of loading says, with its texts as sequences.
pub open spec fn outcome(loaded: Result<EngineSpec, EngineSpecError>) -> Result<
    Engine,
    EngineFault,
> {
    match loaded {
        Ok(engine) => Ok(engine@),
        Err(error) => Err(error@),
    }
}

/// The entries of a list of packages.
pub open spec fn entries(packages: Seq<LockPackage>) -> Seq<PackageEntry> {
    packages.map_values(|package: LockPackage| package@)
}

proof fn lemma_last_hash(text: Seq<char>, at: int)
    requires
        -1 <= at < text.len(),
        at >= 0 ==> text[at] == '#',
        forall|i: int| at < i < text.len() ==> text[i] != '#',
    ensures
        last_hash(text) == at,
    decreases text.len(),
{
    if text.len() > 0 && at < text.len() - 1 {
        lemma_last_hash(text.drop_last(), at);
    }
}

/// Splits the source of a git dependency into its url and its commit.
pub fn parse_engine_source(source: &str) -> (parsed: Result<(String, String), SourceError>)
    ensures
        match parsed {
            Ok((url, commit)) => parsed_source(source@) == Ok::<
                (Seq<char>, Seq<char>),
                SourceFault,
            >((url@, commit@)),
            Err(error) => parsed_source(source@) == Err::<(Seq<char>, Seq<char>), SourceFault>(
                error@,
            ),
        },
{
    proof {
        reveal_strlit("git+");
    }
    if !starts_with(source, "git+") {
        return Err(SourceError::NotGit);
    }
    let chars = chars_of(source);
    let ghost rest = source@.skip(4);
    match last_position(&chars, '#') {
        None => {
            proof {
                assert forall|i: int| 0 <= i < rest.len() implies rest[i] != '#' by {
                    assert(chars@.contains(chars@[i + 4]));
                }
                lemma_last_hash(rest, -1);
            }
            Err(SourceError::MissingCommit(source.to_owned()))
        },
        Some(at) => {
            proof {
                let head = source@.subrange(0, 4);
                assert(head == "git+"@);
                assert(at < 4 ==> head[at as int] == '#');
                assert(at >= 4);
                assert(rest[at - 4] == '#');
                assert forall|i: int| at - 4 < i < rest.len() implies rest[i] != '#' by {
                    assert(rest[i] == chars@[i + 4]);
                }
                lemma_last_hash(rest, at - 4);
            }
            if at == 4 || at == chars.len() - 1 {
                return Err(SourceError::Invalid(source.to_owned()));
            }
            assert(rest.take(at - 4) =~= chars@.subrange(4, at as int));
            assert(rest.skip(at - 3) =~= chars@.subrange(at + 1, chars@.len() as int));
            Ok((text_of(&chars, 4, at), text_of(&chars, at + 1, chars.len())))
        },
    }
}

fn text_at(value: &toml::Value, key: &str) -> (text: Option<String>)
    ensures
        optional_text(text) == text_field(toml_tree(*value), key@),
{
    match toml_get(value, key) {
        Some(inner) => match inner.as_str() {
            Some(chars) => Some(chars.to_owned()),
            None => None,
        },
        None => None,
    }
}

/// Reads the packages of a lockfile.
pub fn lock_packages(lock: &str) -> (packages: Result<Vec<LockPackage>, EngineSpecError>)
    ensures
        match packages {
            Ok(list) => locked_packages(lock@) == Ok::<Seq<PackageEntry>, EngineFault>(
                entries(list@),
            ),
            Err(error) => locked_packages(lock@) == Err::<Seq<PackageEntry>, EngineFault>(error@),
        },
{
    let value = match parse_toml(lock) {
        Ok(value) => value,
        Err(message) => {
            return Err(EngineSpecError::InvalidLock(message));
        },
    };
    let values = match toml_get(&value, "package") {
        Some(inner) => match inner.as_array() {
            Some(values) => values,
            None => {
                return Err(EngineSpecError::NoPackages);
            },
        },
        None => {
            return Err(EngineSpecError::NoPackages);
        },
    };
    let ghost wanted = toml_trees(values@).map_values(|tree: TomlTree| package_in(tree));
    let mut packages: Vec<LockPackage> = Vec::new();
    let mut i: usize = 0;
    while i < values.len()
        invariant
            i <= values@.len(),
            wanted == toml_trees(values@).map_values(|tree: TomlTree| package_in(tree)),
            entries(packages@) =~= wanted.take(i as int),
        decreases values@.len() - i,
    {
        let ghost before = entries(packages@);
        let package = LockPackage {
            name: text_at(&values[i], "name"),
            source: text_at(&values[i], "source"),
        };
        proof {
            assert(package@ == package_in(toml_tree(values@[i as int])));
            assert(wanted[i as int] == package@);
        }
        packages.push(package);
        proof {
            assert(entries(packages@) =~= before.push(package@));
            assert(wanted.take(i + 1) =~= wanted.take(i as int).push(wanted[i as int]));
        }
        i += 1;
    }
    assert(wanted.take(i as int) =~= wanted);
    Ok(packages)
}

fn is_engine(package: &LockPackage) -> (found: bool)
    ensures
        found == (package@.name == Some("enginelib"@)),
{
    match &package.name {
        Some(name) => same_text(name.as_str(), "enginelib"),
        None => false,
    }
}

/// The url and the commit of the one package that is the engine library.
fn engine_source(packages: &Vec<LockPackage>) -> (found: Result<(String, String), EngineSpecError>)
    ensures
        match found {
            Ok((url, commit)) => locked_source(entries(packages@)) == Ok::<
                (Seq<char>, Seq<char>),
                EngineFault,
            >((url@, commit@)),
            Err(error) => locked_source(entries(packages@)) == Err::<
                (Seq<char>, Seq<char>),
                EngineFault,
            >(error@),
        },
{
    let ghost all = entries(packages@);
    let ghost engine = |package: PackageEntry| package.name == Some("enginelib"@);
    let mut first: Option<usize> = None;
    let mut more = false;
    let mut i: usize = 0;
    proof {
        reveal(Seq::filter);
        assert(all.take(0) =~= Seq::empty());
    }
    while i < packages.len()
        invariant
            i <= packages@.len(),
            all == entries(packages@),
            engine == (|package: PackageEntry| package.name == Some("enginelib"@)),
            match first {
                None => all.take(i as int).filter(engine).len() == 0 && !more,
                Some(at) => {
                    &&& at < packages@.len()
                    &&& all.take(i as int).filter(engine).len() > 0
                    &&& all.take(i as int).filter(engine)[0] == all[at as int]
                    &&& more == (all.take(i as int).filter(engine).len() > 1)
                },
            },
        decreases packages@.len() - i,
    {
        proof {
            reveal(Seq::filter);
            assert(all.take(i + 1).drop_last() =~= all.take(i as int));
            assert(all.take(i + 1).last() == all[i as int]);
        }
        if is_engine(&packages[i]) {
            match first {
                None => {
                    first = Some(i);
                },
                Some(_) => {
                    more = true;
                },
            }
        }
        i += 1;
    }
    assert(all.take(i as int) =~= all);
    let at: usize = match first {
        None => {
            return Err(EngineSpecError::NotFound);
        },
        Some(at) => at,
    };
    if more {
        return Err(EngineSpecError::Ambiguous);
    }
    match &packages[at].source {
        None => Err(EngineSpecError::MissingSource),
        Some(source) => match parse_engine_source(source.as_str()) {
            Err(error) => Err(EngineSpecError::Source(error)),
            Ok((url, commit)) => {
                if commit.as_str().as_bytes().len() < SHORT_COMMIT {
                    Err(EngineSpecError::CommitTooShort(commit))
                } else {
                    Ok((url, commit))
                }
            },
        },
    }
}

/// The engine that a list of packages pins, cloned from the configured url
/// where there is one.
pub fn engine_from_packages(packages: &Vec<LockPackage>, config: &RustforgeConfig) -> (found: Result<
    EngineSpec,
    EngineSpecError,
>)
    requires
        commit_can_be_cut(entries(packages@)),
    ensures
        outcome(found) == locked_engine(
            entries(packages@),
            optional_text(config.engine.repo_url),
        ),
{
    match engine_source(packages) {
        Err(error) => Err(error),
        Ok((url, commit)) => {
            let (head, tail) = commit.as_str().split_at(SHORT_COMMIT);
            let commit_short = head.to_owned();
            proof {
                vstd::utf8::encode_utf8_decode_utf8(commit_short@);
                assert(encode_utf8(commit@).subrange(0, SHORT_COMMIT as int) =~= encode_utf8(
                    commit@,
                ).take(SHORT_COMMIT as int));
            }
            let repo_url = match &config.engine.repo_url {
                Some(configured) => configured.clone(),
                None => url,
            };
            Ok(EngineSpec { repo_url, commit, commit_short })
        },
    }
}

/// The engine that a lockfile pins, cloned from the configured url where there
/// is one.
///
/// Nothing comes back where the commit is long enough but cannot be cut behind
/// its first bytes.
pub fn load_engine_spec(lock: &str, config: &RustforgeConfig) -> (found: Option<
    Result<EngineSpec, EngineSpecError>,
>)
    ensures
        match locked_packages(lock@) {
            Err(fault) => found matches Some(Err(error)) && error@ == fault,
            Ok(packages) => match found {
                Some(loaded) => commit_can_be_cut(packages) && outcome(loaded) == locked_engine(
                    packages,
                    optional_text(config.engine.repo_url),
                ),
                None => !commit_can_be_cut(packages),
            },
        },
{
    let packages = match lock_packages(lock) {
        Ok(packages) => packages,
        Err(error) => {
            return Some(Err(error));
        },
    };
    match engine_source(&packages) {
        Err(error) => Some(Err(error)),
        Ok((_, commit)) => {
            if commit.as_str().is_char_boundary(SHORT_COMMIT) {
                Some(engine_from_packages(&packages, config))
            } else {
                None
            }
        },
    }
}

/// How each [`SourceError`] begins.
pub open spec fn source_complaint() -> Seq<char> {
    "Only git-pinned Engine/enginelib is supported"@
}

/// What a [`SourceError`] says.
pub open spec fn source_message(fault: SourceFault) -> Seq<char> {
    source_complaint() + match fault {
        SourceFault::NotGit => "; update dependency to a git source."@,
        SourceFault::MissingCommit(source) => "; missing commit in source `"@ + source + "`"@,
        SourceFault::Invalid(source) => "; invalid source `"@ + source + "`"@,
    }
}

/// What an [`EngineSpecError`] says.
pub open spec fn engine_message(fault: EngineFault) -> Seq<char> {
    match fault {
        EngineFault::InvalidLock(message) => "failed to parse Cargo.lock as TOML: "@ + message,
        EngineFault::NoPackages => "Cargo.lock does not contain a `package` array"@,
        EngineFault::NotFound =>
            "`enginelib` not found in Cargo.lock; is this a mod project lockfile?"@,
        EngineFault::Ambiguous =>
            "multiple `enginelib` entries found in Cargo.lock; add configuration to disambiguate before continuing"@,
        EngineFault::MissingSource =>
            "`enginelib` entry in Cargo.lock is missing a `source` field"@,
        EngineFault::Source(fault) => source_message(fault),
        EngineFault::CommitTooShort(commit) => "engine commit `"@ + commit
            + "` is too short; expected full git SHA"@,
    }
}

impl SourceError {
    /// What the error says.
    pub fn message(&self) -> (message: String)
        ensures
            message@ == source_message(self@),
    {
        let complaint = "Only git-pinned Engine/enginelib is supported";
        match self {
            SourceError::NotGit => concat(complaint, "; update dependency to a git source."),
            SourceError::MissingCommit(source) => {
                let inner = concat(
                    concat("; missing commit in source `", source.as_str()).as_str(),
                    "`",
                );
                concat(complaint, inner.as_str())
            },
            SourceError::Invalid(source) => {
                let inner = concat(concat("; invalid source `", source.as_str()).as_str(), "`");
                concat(complaint, inner.as_str())
            },
        }
    }
}

impl EngineSpecError {
    /// What the error says.
    pub fn message(&self) -> (message: String)
        ensures
            message@ == engine_message(self@),
    {
        match self {
            EngineSpecError::InvalidLock(message) => concat(
                "failed to parse Cargo.lock as TOML: ",
                message.as_str(),
            ),
            EngineSpecError::NoPackages =>
                "Cargo.lock does not contain a `package` array".to_owned(),
            EngineSpecError::NotFound =>
                "`enginelib` not found in Cargo.lock; is this a mod project lockfile?".to_owned(),
            EngineSpecError::Ambiguous =>
                "multiple `enginelib` entries found in Cargo.lock; add configuration to disambiguate before continuing".to_owned(),
            EngineSpecError::MissingSource =>
                "`enginelib` entry in Cargo.lock is missing a `source` field".to_owned(),
            EngineSpecError::Source(error) => error.message(),
            EngineSpecError::CommitTooShort(commit) => concat(
                concat("engine commit `", commit.as_str()).as_str(),
                "` is too short; expected full git SHA",
            ),
        }
    }
}

proof fn lemma_last_hash_facts(text: Seq<char>)
    ensures
        -1 <= last_hash(text) < text.len() || text.len() == 0,
        last_hash(text) >= 0 ==> text[last_hash(text)] == '#',
        forall|i: int| last_hash(text) < i < text.len() && 0 <= i ==> text[i] != '#',
        last_hash(text) >= -1,
    decreases text.len(),
{
    if text.len() > 0 && text.last() != '#' {
        let shorter = text.drop_last();
        lemma_last_hash_facts(shorter);
        assert forall|i: int| last_hash(text) < i < text.len() && 0 <= i implies text[i]
            != '#' by {
            if i < shorter.len() {
                assert(text[i] == shorter[i]);
            }
        }
    }
}

/// A source that is put together from a url and a commit is split into them.
pub proof fn law_source_is_split(url: Seq<char>, commit: Seq<char>)
    requires
        url.len() > 0,
        commit.len() > 0,
        !commit.contains('#'),
    ensures
        parsed_source("git+"@ + url + "#"@ + commit) == Ok::<(Seq<char>, Seq<char>), SourceFault>(
            (url, commit),
        ),
{
    reveal_strlit("git+");
    reveal_strlit("#");
    let source = "git+"@ + url + "#"@ + commit;
    let rest = source.skip(4);
    assert(source.subrange(0, 4) =~= "git+"@);
    assert(rest =~= url + "#"@ + commit);
    assert forall|i: int| url.len() < i < rest.len() implies rest[i] != '#' by {
        assert(commit.contains(commit[i - url.len() - 1]));
    }
    lemma_last_hash(rest, url.len() as int);
    assert(rest.take(url.len() as int) =~= url);
    assert(rest.skip(url.len() as int + 1) =~= commit);
}

/// The url and the commit that a source is split into make it up again; neither
/// is empty, and the commit holds no `#`.
pub proof fn law_split_source_is_put_together(source: Seq<char>)
    requires
        parsed_source(source) is Ok,
    ensures
        source == "git+"@ + parsed_source(source)->Ok_0.0 + "#"@ + parsed_source(source)->Ok_0.1,
        parsed_source(source)->Ok_0.0.len() > 0,
        parsed_source(source)->Ok_0.1.len() > 0,
        !parsed_source(source)->Ok_0.1.contains('#'),
{
    reveal_strlit("git+");
    reveal_strlit("#");
    let rest = source.skip(4);
    let at = last_hash(rest);
    lemma_last_hash_facts(rest);
    let commit = rest.skip(at + 1);
    assert forall|i: int| 0 <= i < commit.len() implies commit[i] != '#' by {
        assert(commit[i] == rest[i + at + 1]);
    }
    assert(source.subrange(0, 4) == "git+"@);
    assert(source =~= source.subrange(0, 4) + rest);
    assert(rest =~= rest.take(at) + "#"@ + commit);
    assert(source =~= "git+"@ + rest.take(at) + "#"@ + commit);
}

/// Whatever is wrong with a source, the message begins the same way.
pub proof fn law_source_message_begins_alike(fault: SourceFault)
    ensures
        begins(source_message(fault), source_complaint()),
{
    let complaint = source_complaint();
    assert(source_message(fault).subrange(0, complaint.len() as int) =~= complaint);
}

/// A configured url takes the place of the locked one and changes nothing else.
pub proof fn law_configured_url_changes_only_the_url(
    packages: Seq<PackageEntry>,
    configured: Seq<char>,
)
    requires
        locked_engine(packages, None) is Ok,
    ensures
        locked_engine(packages, Some(configured)) == Ok::<Engine, EngineFault>(
            Engine { repo_url: configured, ..locked_engine(packages, None)->Ok_0 },
        ),
{
}

/// A commit of ASCII characters, as every commit hash is, can always be cut.
pub proof fn law_ascii_commit_can_be_cut(commit: Seq<char>)
    requires
        is_ascii_chars(commit),
        commit.len() >= SHORT_COMMIT,
    ensures
        encode_utf8(commit).len() >= SHORT_COMMIT,
        is_char_boundary(encode_utf8(commit), SHORT_COMMIT as int),
        short_commit(commit) == commit.take(SHORT_COMMIT as int),
{
    let bytes = encode_utf8(commit);
    vstd::utf8::is_ascii_chars_encode_utf8(commit);
    vstd::utf8::encode_utf8_valid_utf8(commit);
    if commit.len() == SHORT_COMMIT {
        vstd::utf8::is_char_boundary_start_end_of_seq(bytes);
    } else {
        vstd::utf8::is_char_boundary_iff_not_is_continuation_byte(bytes, SHORT_COMMIT as int);
    }
    let head = commit.take(SHORT_COMMIT as int);
    assert(is_ascii_chars(head));
    vstd::utf8::is_ascii_chars_encode_utf8(head);
    assert(encode_utf8(head) =~= bytes.take(SHORT_COMMIT as int));
    vstd::utf8::encode_utf8_decode_utf8(head);
}

/// The short form of a commit is the beginning of it.
pub proof fn law_short_commit_begins_the_commit(commit: Seq<char>)
    requires
        encode_utf8(commit).len() >= SHORT_COMMIT,
        is_char_boundary(encode_utf8(commit), SHORT_COMMIT as int),
    ensures
        encode_utf8(short_commit(commit)) == encode_utf8(commit).take(SHORT_COMMIT as int),
        begins(commit, short_commit(commit)),
{
    let bytes = encode_utf8(commit);
    vstd::utf8::encode_utf8_valid_utf8(commit);
    vstd::utf8::encode_utf8_decode_utf8(commit);
    vstd::utf8::valid_utf8_split(bytes, SHORT_COMMIT as int);
    vstd::utf8::decode_utf8_split(bytes, SHORT_COMMIT as int);
    assert(bytes.take(SHORT_COMMIT as int) =~= bytes.subrange(0, SHORT_COMMIT as int));
    vstd::utf8::decode_utf8_encode_utf8(bytes.take(SHORT_COMMIT as int));
    assert(commit.subrange(0, short_commit(commit).len() as int) =~= short_commit(commit));
}

/// A source names no commit exactly where it is no git source, has no `#` behind
/// the mark of one, or has nothing before or behind its last `#`; the error says
/// which, and names the source.
pub proof fn law_source_is_refused_where_it_names_no_commit(source: Seq<char>)
    ensures
        parsed_source(source) == Err::<(Seq<char>, Seq<char>), SourceFault>(SourceFault::NotGit)
            <==> !begins(source, "git+"@),
        parsed_source(source) == Err::<(Seq<char>, Seq<char>), SourceFault>(
            SourceFault::MissingCommit(source),
        ) <==> begins(source, "git+"@) && !source.skip(4).contains('#'),
        parsed_source(source) == Err::<(Seq<char>, Seq<char>), SourceFault>(
            SourceFault::Invalid(source),
        ) <==> {
            &&& begins(source, "git+"@)
            &&& source.skip(4).contains('#')
            &&& source.last() == '#' || !source.skip(5).contains('#')
        },
        parsed_source(source) matches Err(fault) ==> fault == SourceFault::NotGit || fault
            == SourceFault::MissingCommit(source) || fault == SourceFault::Invalid(source),
{
    reveal_strlit("git+");
    let rest = source.skip(4);
    let at = last_hash(rest);
    lemma_last_hash_facts(rest);
    if begins(source, "git+"@) {
        assert(rest.contains('#') <==> at >= 0) by {
            if rest.contains('#') {
                let i = choose|i: int| 0 <= i < rest.len() && rest[i] == '#';
                assert(i <= at);
            } else if at >= 0 {
                assert(rest.contains(rest[at]));
            }
        }
        if at >= 0 {
            let later = source.skip(5);
            assert(later.contains('#') <==> at > 0) by {
                if later.contains('#') {
                    let i = choose|i: int| 0 <= i < later.len() && later[i] == '#';
                    assert(rest[i + 1] == '#');
                } else if at > 0 {
                    assert(later[at - 1] == rest[at]);
                    assert(later.contains(later[at - 1]));
                }
            }
            assert(source.last() == rest.last());
        }
    }
}

/// Whether a package of a list is the engine library.
pub open spec fn is_engine_at(packages: Seq<PackageEntry>, at: int) -> bool {
    0 <= at < packages.len() && packages[at].name == Some("enginelib"@)
}

proof fn lemma_engine_packages(packages: Seq<PackageEntry>)
    ensures
        engine_packages(packages).len() == 0 <==> forall|i: int| !is_engine_at(packages, i),
        forall|i: int|
            #[trigger] is_engine_at(packages, i) && (forall|j: int|
                is_engine_at(packages, j) ==> i == j) ==> engine_packages(packages) == seq![packages[i]],
        forall|i: int, j: int|
            #[trigger] is_engine_at(packages, i) && #[trigger] is_engine_at(packages, j) && i != j
                ==> engine_packages(packages).len() > 1,
    decreases packages.len(),
{
    reveal(Seq::filter);
    let all = engine_packages(packages);
    if packages.len() > 0 {
        let shorter = packages.drop_last();
        let last = packages.len() - 1;
        let before = engine_packages(shorter);
        lemma_engine_packages(shorter);
        assert(forall|i: int|
            i != last ==> (#[trigger] is_engine_at(packages, i) <==> is_engine_at(shorter, i)));
        assert(all == if is_engine_at(packages, last) {
            before.push(packages[last])
        } else {
            before
        });
        if all.len() == 0 {
            assert forall|i: int| !is_engine_at(packages, i) by {
                assert(i != last ==> !is_engine_at(shorter, i));
            }
        } else if !is_engine_at(packages, last) {
            let i = choose|i: int| is_engine_at(shorter, i);
            assert(is_engine_at(packages, i));
        }
        assert forall|i: int|
            #[trigger] is_engine_at(packages, i) && (forall|j: int|
                is_engine_at(packages, j) ==> i == j) implies all == seq![packages[i]] by {
            if i == last {
                assert forall|j: int| !is_engine_at(shorter, j) by {
                    assert(is_engine_at(shorter, j) ==> is_engine_at(packages, j) && j != last);
                }
                assert(before =~= Seq::empty());
                assert(all =~= seq![packages[i]]);
            } else {
                assert(!is_engine_at(packages, last));
                assert forall|j: int| is_engine_at(shorter, j) implies i == j by {
                    assert(is_engine_at(packages, j));
                }
                assert(is_engine_at(shorter, i));
                assert(shorter[i] == packages[i]);
            }
        }
        assert forall|i: int, j: int|
            #[trigger] is_engine_at(packages, i) && #[trigger] is_engine_at(packages, j) && i
                != j implies all.len() > 1 by {
            if i == last {
                assert(is_engine_at(shorter, j));
            } else if j == last {
                assert(is_engine_at(shorter, i));
            } else {
                assert(is_engine_at(shorter, i) && is_engine_at(shorter, j));
            }
        }
    }
}

/// The engine is that of the one package that is the engine library: no such
/// package is an error, and so is more than one. What the other packages are
/// plays no part.
pub proof fn law_engine_is_that_of_the_one_library(packages: Seq<PackageEntry>)
    ensures
        locked_source(packages) == Err::<(Seq<char>, Seq<char>), EngineFault>(EngineFault::NotFound)
            <==> forall|i: int| !is_engine_at(packages, i),
        locked_source(packages) == Err::<(Seq<char>, Seq<char>), EngineFault>(
            EngineFault::Ambiguous,
        ) <==> exists|i: int, j: int|
            #[trigger] is_engine_at(packages, i) && #[trigger] is_engine_at(packages, j) && i != j,
        forall|i: int|
            #[trigger] is_engine_at(packages, i) && (forall|j: int|
                is_engine_at(packages, j) ==> i == j) ==> locked_source(packages) == match packages[i].source {
                None => Err::<(Seq<char>, Seq<char>), EngineFault>(EngineFault::MissingSource),
                Some(source) => match parsed_source(source) {
                    Err(fault) => Err(EngineFault::Source(fault)),
                    Ok((url, commit)) => if encode_utf8(commit).len() < 12 {
                        Err(EngineFault::CommitTooShort(commit))
                    } else {
                        Ok((url, commit))
                    },
                },
            },
{
    lemma_engine_packages(packages);
    if engine_packages(packages).len() > 0 {
        let i = choose|i: int| is_engine_at(packages, i);
        if forall|j: int| is_engine_at(packages, j) ==> i == j {
            assert(engine_packages(packages) == seq![packages[i]]);
        } else {
            let j = choose|j: int| is_engine_at(packages, j) && i != j;
            assert(is_engine_at(packages, i) && is_engine_at(packages, j));
        }
    }
}

/// A locked engine is at the commit that its source names, which is long enough
/// to be a full one; its short commit is made of the first bytes of it; and it
/// comes from the configured url, or else from the one that its source names.
pub proof fn law_locked_engine_is_at_the_named_commit(
    packages: Seq<PackageEntry>,
    configured_url: Option<Seq<char>>,
)
    ensures
        match (locked_source(packages), locked_engine(packages, configured_url)) {
            (Ok((url, commit)), Ok(engine)) => {
                &&& engine.commit == commit
                &&& encode_utf8(commit).len() >= 12
                &&& engine.commit_short == decode_utf8(encode_utf8(commit).take(12))
                &&& configured_url is None ==> engine.repo_url == url
                &&& configured_url matches Some(configured) ==> engine.repo_url == configured
            },
            (Err(fault), Err(same)) => fault == same,
            _ => false,
        },
{
}

/// A lockfile has packages exactly where it has a list `package`.
pub proof fn law_packages_are_those_of_the_list(entries: Map<Seq<char>, TomlTree>)
    ensures
        packages_in(TomlTree::Table(entries)) is Some <==> entries.contains_key("package"@)
            && entries["package"@] is List,
{
}

/// The packages of a lockfile are those of its list, in order, each with its name
/// and its source where those are strings.
pub proof fn law_packages_are_read_in_order(
    entries: Map<Seq<char>, TomlTree>,
    trees: Seq<TomlTree>,
    at: int,
    fields: Map<Seq<char>, TomlTree>,
)
    requires
        entries.contains_key("package"@),
        entries["package"@] == TomlTree::List(trees),
        0 <= at < trees.len(),
        trees[at] == TomlTree::Table(fields),
    ensures
        packages_in(TomlTree::Table(entries)) matches Some(packages) && {
            &&& packages.len() == trees.len()
            &&& packages[at].name is Some <==> fields.contains_key("name"@)
                && fields["name"@] is Text
            &&& packages[at].name matches Some(text) ==> fields["name"@] == TomlTree::Text(text)
            &&& packages[at].source is Some <==> fields.contains_key("source"@)
                && fields["source"@] is Text
            &&& packages[at].source matches Some(text) ==> fields["source"@] == TomlTree::Text(
                text,
            )
        },
{
}

/// What is said of a commit or a source that is refused names it, and what is
/// said of a lockfile that cannot be read ends with why.
pub proof fn law_engine_error_tells_why(text: Seq<char>)
    ensures
        ends(engine_message(EngineFault::InvalidLock(text)), text),
        occurs_in(engine_message(EngineFault::CommitTooShort(text)), "`"@ + text + "`"@),
        occurs_in(
            engine_message(EngineFault::Source(SourceFault::MissingCommit(text))),
            "`"@ + text + "`"@,
        ),
        occurs_in(
            engine_message(EngineFault::Source(SourceFault::Invalid(text))),
            "`"@ + text + "`"@,
        ),
{
    reveal_strlit("`");
    reveal_strlit("engine commit `");
    reveal_strlit("` is too short; expected full git SHA");
    reveal_strlit("; missing commit in source `");
    reveal_strlit("; invalid source `");
    let quoted = "`"@ + text + "`"@;
    let lock = engine_message(EngineFault::InvalidLock(text));
    let short = engine_message(EngineFault::CommitTooShort(text));
    let missing = engine_message(EngineFault::Source(SourceFault::MissingCommit(text)));
    let invalid = engine_message(EngineFault::Source(SourceFault::Invalid(text)));
    assert(lock.skip(lock.len() - text.len()) =~= text);
    assert(short.subrange(14, 14 + quoted.len() as int) =~= quoted);
    assert(occurs_at(short, quoted, 14));
    let behind = source_complaint().len() as int;
    assert(missing.subrange(behind + 27, behind + 27 + quoted.len()) =~= quoted);
    assert(occurs_at(missing, quoted, behind + 27));
    assert(invalid.subrange(behind + 17, behind + 17 + quoted.len()) =~= quoted);
    assert(occurs_at(invalid, quoted, behind + 17));
}

} // verus!
