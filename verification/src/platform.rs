//! What the tool's files are called on each platform.

use vstd::prelude::*;

use crate::host::Host;
use crate::text::{
    begins, concat, contains, ends, law_pattern_occurs_between, occurs_at, occurs_in, optional_view,
    same_text,
};

verus! {

/// The platforms that a mod library is built for.
#[derive(Debug, Clone, Copy, PartialEq, Eq, Structural)]
pub enum PlatformKind {
    Windows,
    MacOs,
    Unix,
}

/// The platform of a target triple, or of the host where there is none.
pub open spec fn platform_of(target: Option<Seq<char>>, host_os: Seq<char>) -> PlatformKind {
    match target {
        Some(triple) => if occurs_in(triple, "windows"@) {
            PlatformKind::Windows
        } else if occurs_in(triple, "apple-darwin"@) || occurs_in(triple, "darwin"@) {
            PlatformKind::MacOs
        } else {
            PlatformKind::Unix
        },
        None => if host_os == "windows"@ {
            PlatformKind::Windows
        } else if host_os == "macos"@ {
            PlatformKind::MacOs
        } else {
            PlatformKind::Unix
        },
    }
}

/// What a library is called where it is built.
pub open spec fn library_name(platform: PlatformKind, crate_name: Seq<char>) -> Seq<char> {
    match platform {
        PlatformKind::Windows => crate_name + ".dll"@,
        PlatformKind::MacOs => "lib"@ + crate_name + ".dylib"@,
        PlatformKind::Unix => "lib"@ + crate_name + ".so"@,
    }
}

/// What a library is called inside a package.
pub open spec fn staged_library_name(platform: PlatformKind) -> Seq<char> {
    match platform {
        PlatformKind::Windows => "mod.dll"@,
        PlatformKind::MacOs | PlatformKind::Unix => "mod.so"@,
    }
}

/// The directory of a build profile.
pub open spec fn profile_name(release: bool) -> Seq<char> {
    if release {
        "release"@
    } else {
        "debug"@
    }
}

/// What a binary is called where it is built.
pub open spec fn binary_name(bin: Seq<char>, host: Host) -> Seq<char> {
    match host {
        Host::Windows => bin + ".exe"@,
        Host::Unix => bin,
    }
}

/// The platform of a target triple, or of the host where there is none.
pub fn infer_platform(target: Option<&str>, host_os: &str) -> (platform: PlatformKind)
    ensures
        platform == platform_of(optional_view(target), host_os@),
{
    match target {
        Some(triple) => {
            if contains(triple, "windows") {
                PlatformKind::Windows
            } else if contains(triple, "apple-darwin") || contains(triple, "darwin") {
                PlatformKind::MacOs
            } else {
                PlatformKind::Unix
            }
        },
        None => {
            if same_text(host_os, "windows") {
                PlatformKind::Windows
            } else if same_text(host_os, "macos") {
                PlatformKind::MacOs
            } else {
                PlatformKind::Unix
            }
        },
    }
}

/// What a library is called where it is built.
pub(crate) fn library_file(platform: PlatformKind, crate_name: &str) -> (name: String)
    ensures
        name@ == library_name(platform, crate_name@),
{
    match platform {
        PlatformKind::Windows => concat(crate_name, ".dll"),
        PlatformKind::MacOs => concat(concat("lib", crate_name).as_str(), ".dylib"),
        PlatformKind::Unix => concat(concat("lib", crate_name).as_str(), ".so"),
    }
}

/// What a library is called inside a package.
pub(crate) fn staged_library(platform: PlatformKind) -> (name: String)
    ensures
        name@ == staged_library_name(platform),
{
    match platform {
        PlatformKind::Windows => "mod.dll".to_owned(),
        PlatformKind::MacOs | PlatformKind::Unix => "mod.so".to_owned(),
    }
}

/// The directory of a build profile.
pub(crate) fn profile(release: bool) -> (name: &'static str)
    ensures
        name@ == profile_name(release),
{
    if release {
        "release"
    } else {
        "debug"
    }
}

/// What a binary is called where it is built.
pub(crate) fn binary_file(bin: &str, host: Host) -> (name: String)
    ensures
        name@ == binary_name(bin@, host),
{
    match host {
        Host::Windows => concat(bin, ".exe"),
        Host::Unix => bin.to_owned(),
    }
}

proof fn lemma_darwin(triple: Seq<char>)
    ensures
        occurs_in(triple, "apple-darwin"@) ==> occurs_in(triple, "darwin"@),
{
    reveal_strlit("apple-darwin");
    reveal_strlit("darwin");
    if occurs_in(triple, "apple-darwin"@) {
        let at = choose|at: int| occurs_at(triple, "apple-darwin"@, at);
        let whole = triple.subrange(at, at + 12);
        assert(whole == "apple-darwin"@);
        assert(triple.subrange(at + 6, at + 12) =~= whole.subrange(6, 12));
        assert(whole.subrange(6, 12) =~= "darwin"@);
        assert(occurs_at(triple, "darwin"@, at + 6));
    }
}

/// A target triple is one of Windows exactly where it holds `windows`, and one of
/// macOS exactly where it holds `darwin` and not `windows`. The host plays no
/// part.
pub proof fn law_triple_decides_the_platform(triple: Seq<char>, host_os: Seq<char>)
    ensures
        platform_of(Some(triple), host_os) == PlatformKind::Windows <==> exists|
            before: Seq<char>,
            after: Seq<char>,
        | triple == #[trigger] (before + "windows"@ + after),
        platform_of(Some(triple), host_os) == PlatformKind::MacOs <==> {
            &&& platform_of(Some(triple), host_os) != PlatformKind::Windows
            &&& exists|before: Seq<char>, after: Seq<char>|
                triple == #[trigger] (before + "darwin"@ + after)
        },
        forall|other: Seq<char>|
            #[trigger] platform_of(Some(triple), other) == platform_of(Some(triple), host_os),
{
    law_pattern_occurs_between(triple, "windows"@);
    law_pattern_occurs_between(triple, "darwin"@);
    lemma_darwin(triple);
}

/// Without a target triple the host decides, and each platform is that of hosts
/// of its own.
pub proof fn law_host_decides_where_no_triple_does(host_os: Seq<char>)
    ensures
        platform_of(None, host_os) == PlatformKind::Windows <==> host_os == "windows"@,
        platform_of(None, host_os) == PlatformKind::MacOs <==> host_os == "macos"@,
{
    reveal_strlit("windows");
    reveal_strlit("macos");
    assert("windows"@.len() != "macos"@.len());
}

/// What the file of a library ends with.
pub open spec fn library_ending(platform: PlatformKind) -> Seq<char> {
    match platform {
        PlatformKind::Windows => ".dll"@,
        PlatformKind::MacOs => ".dylib"@,
        PlatformKind::Unix => ".so"@,
    }
}

/// A library is called after its crate: the name ends with that of the crate and
/// the ending of the platform, and begins with `lib` anywhere but on Windows.
pub proof fn law_library_is_called_after_its_crate(platform: PlatformKind, crate_name: Seq<char>)
    ensures
        ends(library_name(platform, crate_name), crate_name + library_ending(platform)),
        platform == PlatformKind::Windows ==> library_name(platform, crate_name).len()
            == crate_name.len() + library_ending(platform).len(),
        platform != PlatformKind::Windows ==> library_name(platform, crate_name).len()
            == crate_name.len() + library_ending(platform).len() + 3 && begins(
            library_name(platform, crate_name),
            "lib"@,
        ),
{
    reveal_strlit("lib");
    let name = library_name(platform, crate_name);
    let tail = crate_name + library_ending(platform);
    assert(name.skip(name.len() - tail.len()) =~= tail);
    if platform != PlatformKind::Windows {
        assert(name.subrange(0, 3) =~= "lib"@);
    }
}

/// A library keeps its ending in a package where that is one of Windows, and is
/// staged as a shared object anywhere else.
pub proof fn law_staged_library_ends_as_built(platform: PlatformKind, crate_name: Seq<char>)
    ensures
        ends(library_name(platform, crate_name), ".dll"@) <==> platform == PlatformKind::Windows,
        ends(staged_library_name(platform), ".dll"@) <==> platform == PlatformKind::Windows,
        ends(staged_library_name(platform), ".so"@) <==> platform != PlatformKind::Windows,
        platform == PlatformKind::Windows ==> staged_library_name(platform) == "mod.dll"@,
        platform != PlatformKind::Windows ==> staged_library_name(platform) == "mod.so"@,
{
    reveal_strlit("lib");
    reveal_strlit(".dll");
    reveal_strlit(".dylib");
    reveal_strlit(".so");
    reveal_strlit("mod.dll");
    reveal_strlit("mod.so");
    let name = library_name(platform, crate_name);
    let staged = staged_library_name(platform);
    match platform {
        PlatformKind::Windows => {
            assert(name.skip(name.len() - 4) =~= ".dll"@);
            assert(staged.skip(3) =~= ".dll"@);
            assert(staged.skip(4)[0] != ".so"@[0]);
        },
        PlatformKind::MacOs => {
            assert(name.last() == 'b');
            assert(name.skip(name.len() - 4)[3] == name.last());
            assert(staged.skip(3) =~= ".so"@);
            assert(staged.skip(2)[0] != ".dll"@[0]);
        },
        PlatformKind::Unix => {
            assert(name.last() == 'o');
            assert(name.skip(name.len() - 4)[3] == name.last());
            assert(staged.skip(3) =~= ".so"@);
            assert(staged.skip(2)[0] != ".dll"@[0]);
        },
    }
}

/// A binary is called by its own name, with `.exe` behind it on Windows alone.
pub proof fn law_binary_is_called_by_its_name(bin: Seq<char>)
    ensures
        binary_name(bin, Host::Unix) == bin,
        binary_name(bin, Host::Windows).len() == bin.len() + 4,
        begins(binary_name(bin, Host::Windows), bin),
        ends(binary_name(bin, Host::Windows), ".exe"@),
{
    reveal_strlit(".exe");
    let name = binary_name(bin, Host::Windows);
    assert(name.subrange(0, bin.len() as int) =~= bin);
    assert(name.skip(bin.len() as int) =~= ".exe"@);
}

} // verus!
