use vstd::prelude::*;
use crate::text::str_eq;

verus! {

/// The operating system family the program runs on.
#[derive(Debug, Clone, Copy, PartialEq, Eq, Structural)]
pub enum Platform {
    Linux,
    Windows,
    MacOS,
    Unknown,
}

/// The platform that an operating-system identifier (the values of
/// `std::env::consts::OS`) stands for.
pub open spec fn platform_of(os: Seq<char>) -> Platform {
    if os == "linux"@ {
        Platform::Linux
    } else if os == "windows"@ {
        Platform::Windows
    } else if os == "macos"@ {
        Platform::MacOS
    } else {
        Platform::Unknown
    }
}

/// The platform for the operating-system identifier `os`.
pub fn platform_from_os(os: &str) -> (p: Platform)
    ensures
        p == platform_of(os@),
{
    if str_eq(os, "linux") {
        Platform::Linux
    } else if str_eq(os, "windows") {
        Platform::Windows
    } else if str_eq(os, "macos") {
        Platform::MacOS
    } else {
        Platform::Unknown
    }
}

/// How the platform is shown to people.
pub open spec fn display_name(p: Platform) -> Seq<char> {
    match p {
        Platform::Linux => "Linux"@,
        Platform::Windows => "Windows"@,
        Platform::MacOS => "macOS"@,
        Platform::Unknown => "Unknown"@,
    }
}

/// The name under which the platform's variant is declared, as `{:?}` shows it.
pub open spec fn variant_name(p: Platform) -> Seq<char> {
    match p {
        Platform::Linux => "Linux"@,
        Platform::Windows => "Windows"@,
        Platform::MacOS => "MacOS"@,
        Platform::Unknown => "Unknown"@,
    }
}

impl Platform {
    /// The platform's name for display.
    pub fn name(&self) -> (s: &'static str)
        ensures
            s@ == display_name(*self),
    {
        match self {
            Platform::Linux => "Linux",
            Platform::Windows => "Windows",
            Platform::MacOS => "macOS",
            Platform::Unknown => "Unknown",
        }
    }

    /// The name of the platform's variant.
    pub fn variant(&self) -> (s: &'static str)
        ensures
            s@ == variant_name(*self),
    {
        match self {
            Platform::Linux => "Linux",
            Platform::Windows => "Windows",
            Platform::MacOS => "MacOS",
            Platform::Unknown => "Unknown",
        }
    }
}

} // verus!
