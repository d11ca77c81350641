//! The platforms for which builds are published, and the names by which the
//! remote services know them.

use vstd::prelude::*;
use vstd::string::*;
use crate::text::same_text;

verus! {

/// An operating system for which builds are published.
#[derive(Debug, PartialEq, Eq, Copy, Clone, Structural)]
pub enum Os {
    Windows,
    Linux,
    Mac,
}

/// A processor architecture for which builds are published.
#[derive(Debug, PartialEq, Eq, Copy, Clone, Structural)]
pub enum Arch {
    X86,
    X86_64,
}

/// Why a platform could not be named.
#[derive(Debug, PartialEq, Eq, Clone)]
pub enum PlatformError {
    /// No builds are published for the operating system of this name.
    UnsupportedOs(String),
}

/// The operating system that `name` names, if it names one.
pub open spec fn os_named(name: Seq<char>) -> Option<Os> {
    if name == "windows"@ {
        Some(Os::Windows)
    } else if name == "linux"@ {
        Some(Os::Linux)
    } else if name == "macos"@ {
        Some(Os::Mac)
    } else {
        None
    }
}

impl Os {
    /// The operating system named `s`: one of `windows`, `linux`, `macos`.
    /// Any other name is refused, and the refusal carries the name.
    pub fn from_str(s: &str) -> (os: Result<Os, PlatformError>)
        ensures
            os is Ok <==> os_named(s@) is Some,
            os is Ok ==> os->Ok_0 == os_named(s@)->0,
            os is Err ==> (os->Err_0 matches PlatformError::UnsupportedOs(name) && name@ == s@),
    {
        if same_text(s, "windows") {
            Ok(Os::Windows)
        } else if same_text(s, "linux") {
            Ok(Os::Linux)
        } else if same_text(s, "macos") {
            Ok(Os::Mac)
        } else {
            Err(PlatformError::UnsupportedOs(s.to_owned()))
        }
    }
}

/// The folder of the object store that holds the 64-bit builds for the
/// operating system that `name` names, where such builds are looked up by
/// the system's name alone.
pub open spec fn os_prefix_of(name: Seq<char>) -> Option<Seq<char>> {
    if name == "windows"@ {
        Some("Win_x64"@)
    } else if name == "macos"@ {
        Some("Mac"@)
    } else {
        None
    }
}

/// The folder of the object store for the operating system named `os`:
/// `Win_x64` for `windows`, `Mac` for `macos`. Any other name is refused, and
/// the refusal carries the name.
pub fn get_os_prefix(os: &str) -> (prefix: Result<&'static str, PlatformError>)
    ensures
        prefix is Ok <==> os_prefix_of(os@) is Some,
        prefix is Ok ==> prefix->Ok_0@ == os_prefix_of(os@)->0,
        prefix is Err ==> (prefix->Err_0 matches PlatformError::UnsupportedOs(name) && name@ == os@),
{
    if same_text(os, "windows") {
        Ok("Win_x64")
    } else if same_text(os, "macos") {
        Ok("Mac")
    } else {
        Err(PlatformError::UnsupportedOs(os.to_owned()))
    }
}

/// A platform: an operating system on an architecture.
#[derive(Debug, PartialEq, Eq, Copy, Clone, Structural)]
pub struct Platform(pub Os, pub Arch);

/// The folder of the object store that holds the builds of `platform`.
pub open spec fn prefix_of(platform: Platform) -> Seq<char> {
    match (platform.0, platform.1) {
        (Os::Windows, Arch::X86) => "Win"@,
        (Os::Windows, Arch::X86_64) => "Win_x64"@,
        (Os::Linux, Arch::X86) => "Linux"@,
        (Os::Linux, Arch::X86_64) => "Linux_x64"@,
        (Os::Mac, Arch::X86) => "Mac"@,
        (Os::Mac, Arch::X86_64) => "Mac"@,
    }
}

/// The name by which the release history knows `platform`.
pub open spec fn arg_name_of(platform: Platform) -> Seq<char> {
    match (platform.0, platform.1) {
        (Os::Windows, Arch::X86) => "win"@,
        (Os::Windows, Arch::X86_64) => "win64"@,
        (Os::Linux, Arch::X86) => "linux"@,
        (Os::Linux, Arch::X86_64) => "linux"@,
        (Os::Mac, Arch::X86) => "mac"@,
        (Os::Mac, Arch::X86_64) => "mac"@,
    }
}

impl Platform {
    /// The platform of `os` on `arch`.
    pub fn new(os: Os, arch: Arch) -> (platform: Self)
        ensures
            platform == Platform(os, arch),
    {
        Platform(os, arch)
    }

    /// The folder of the object store that holds the builds of the platform.
    pub fn prefix(&self) -> (tag: &'static str)
        ensures
            tag@ == prefix_of(*self),
    {
        match (self.0, self.1) {
            (Os::Windows, Arch::X86) => "Win",
            (Os::Windows, Arch::X86_64) => "Win_x64",
            (Os::Linux, Arch::X86) => "Linux",
            (Os::Linux, Arch::X86_64) => "Linux_x64",
            (Os::Mac, Arch::X86) => "Mac",
            (Os::Mac, Arch::X86_64) => "Mac",
        }
    }

    /// The name by which the release history knows the platform.
    pub fn arg_name(&self) -> (name: &'static str)
        ensures
            name@ == arg_name_of(*self),
    {
        match (self.0, self.1) {
            (Os::Windows, Arch::X86) => "win",
            (Os::Windows, Arch::X86_64) => "win64",
            (Os::Linux, Arch::X86) => "linux",
            (Os::Linux, Arch::X86_64) => "linux",
            (Os::Mac, Arch::X86) => "mac",
            (Os::Mac, Arch::X86_64) => "mac",
        }
    }

    /// Whether the remote services cannot tell the two platforms apart: both
    /// have the same folder and the same name in the release history.
    pub fn eq_impl(&self, other: &Self) -> (same: bool)
        ensures
            same == (prefix_of(*self) == prefix_of(*other) && arg_name_of(*self) == arg_name_of(
                *other,
            )),
    {
        same_text(self.prefix(), other.prefix()) && same_text(self.arg_name(), other.arg_name())
    }
}

/// Two platforms are served alike exactly when they share the operating
/// system and either share the architecture too or run on a Mac, where one
/// build serves both architectures.
pub proof fn lemma_served_alike(a: Platform, b: Platform)
    ensures
        (prefix_of(a) == prefix_of(b) && arg_name_of(a) == arg_name_of(b)) <==> (a.0 == b.0 && (a.1
            == b.1 || a.0 == Os::Mac)),
{
    reveal_strlit("Win");
    reveal_strlit("Win_x64");
    reveal_strlit("Linux");
    reveal_strlit("Linux_x64");
    reveal_strlit("Mac");
    assert("Win"@.len() == 3 && "Win"@[0] == 'W');
    assert("Win_x64"@.len() == 7);
    assert("Linux"@.len() == 5);
    assert("Linux_x64"@.len() == 9);
    assert("Mac"@.len() == 3 && "Mac"@[0] == 'M');
}

} // verus!
