//! The machines that code can be generated for, and their LLVM names.
use vstd::prelude::*;
use crate::text::{str_eq, owned};

verus! {

/// A code generation target.
#[allow(non_camel_case_types)]
#[derive(Debug, Clone, Copy, PartialEq, Eq, Structural)]
pub enum Target {
    wasm,
    arm32,
    arm64,
    x86_32,
    x86_64,
}

/// The target that a name on the command line selects, if any.
pub open spec fn target_named(s: Seq<char>) -> Option<Target> {
    if s == "wasm"@ {
        Some(Target::wasm)
    } else if s == "arm32"@ {
        Some(Target::arm32)
    } else if s == "arm64"@ {
        Some(Target::arm64)
    } else if s == "x86_32"@ {
        Some(Target::x86_32)
    } else if s == "x86_64"@ {
        Some(Target::x86_64)
    } else {
        None
    }
}

/// A target's name: the name of its variant, as `{:?}` writes it.
pub open spec fn target_name(t: Target) -> Seq<char> {
    match t {
        Target::wasm => "wasm"@,
        Target::arm32 => "arm32"@,
        Target::arm64 => "arm64"@,
        Target::x86_32 => "x86_32"@,
        Target::x86_64 => "x86_64"@,
    }
}

/// A target's name selects that target, and a name that selects a target
/// is that target's name: `from_str` and the variant names are inverse.
pub proof fn law_target_names_round_trip(t: Target, s: Seq<char>)
    ensures
        target_named(target_name(t)) == Some(t),
        target_named(s) matches Some(u) ==> s == target_name(u),
{
    reveal_strlit("wasm");
    reveal_strlit("arm32");
    reveal_strlit("arm64");
    reveal_strlit("x86_32");
    reveal_strlit("x86_64");
    assert("wasm"@.len() != "arm32"@.len());
    assert("wasm"@.len() != "x86_32"@.len());
    assert("arm32"@.len() != "x86_32"@.len());
    assert("arm32"@[3] != "arm64"@[3]);
    assert("x86_32"@[4] != "x86_64"@[4]);
}

/// The LLVM target triple of a target.
pub open spec fn llvm_target_name(t: Target) -> Seq<char> {
    match t {
        Target::wasm => "wasm32-unknown-unknown-wasm"@,
        Target::arm32 => "arm-unknown-linux-gnueabihf"@,
        Target::arm64 => "aarch64-unknown-linux-gnu"@,
        Target::x86_32 => "i386-unknown-unknown-elf"@,
        Target::x86_64 => "x86_64-unknown-unknown-elf"@,
    }
}

impl Target {
    /// The target named `s` (`wasm`, `arm32`, `arm64`, `x86_32`, `x86_64`).
    pub fn from_str(s: &str) -> (r: Option<Self>)
        ensures
            r == target_named(s@),
    {
        if str_eq(s, "wasm") {
            Some(Target::wasm)
        } else if str_eq(s, "arm32") {
            Some(Target::arm32)
        } else if str_eq(s, "arm64") {
            Some(Target::arm64)
        } else if str_eq(s, "x86_32") {
            Some(Target::x86_32)
        } else if str_eq(s, "x86_64") {
            Some(Target::x86_64)
        } else {
            None
        }
    }

    /// The LLVM target triple for this target.
    pub fn get_llvm_target_name(&self) -> (r: String)
        ensures
            r@ == llvm_target_name(*self),
    {
        match self {
            Target::wasm => owned("wasm32-unknown-unknown-wasm"),
            Target::arm32 => owned("arm-unknown-linux-gnueabihf"),
            Target::arm64 => owned("aarch64-unknown-linux-gnu"),
            Target::x86_32 => owned("i386-unknown-unknown-elf"),
            Target::x86_64 => owned("x86_64-unknown-unknown-elf"),
        }
    }
}

/// The target selected by an optional command-line argument: none when the
/// argument is absent or names no target.
pub fn get_target(target: Option<String>) -> (r: Option<Target>)
    ensures
        r == match target {
            Some(s) => target_named(s@),
            None => None,
        },
{
    match target {
        Some(s) => Target::from_str(s.as_str()),
        None => None,
    }
}

} // verus!
