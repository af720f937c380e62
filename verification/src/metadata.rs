//! Choosing the package and target to map from `cargo metadata`.
//!
//! Running Cargo and reading its JSON is the caller's part; the package list arrives as
//! plain values, with whether each package's manifest is the requested one.
use vstd::prelude::*;

use crate::docs::{replace_all, replace_text};
use crate::text::{append, string_lit};

verus! {

/// One target of a package: its name, its kinds and its crate root.
#[derive(Debug)]
pub struct TargetInfo {
    pub name: String,
    pub kind: Vec<String>,
    pub src_path: String,
}

/// Mathematical value of a [`TargetInfo`].
pub struct TargetInfoV {
    pub name: Seq<char>,
    pub kind: Seq<Seq<char>>,
    pub src_path: Seq<char>,
}

impl DeepView for TargetInfo {
    type V = TargetInfoV;

    open spec fn deep_view(&self) -> TargetInfoV {
        TargetInfoV { name: self.name@, kind: self.kind.deep_view(), src_path: self.src_path@ }
    }
}

/// One package of a workspace: its name, its manifest and its targets.
#[derive(Debug)]
pub struct PackageInfo {
    pub name: String,
    pub manifest_path: String,
    pub targets: Vec<TargetInfo>,
}

/// Mathematical value of a [`PackageInfo`].
pub struct PackageInfoV {
    pub name: Seq<char>,
    pub manifest_path: Seq<char>,
    pub targets: Seq<TargetInfoV>,
}

impl DeepView for PackageInfo {
    type V = PackageInfoV;

    open spec fn deep_view(&self) -> PackageInfoV {
        PackageInfoV {
            name: self.name@,
            manifest_path: self.manifest_path@,
            targets: self.targets.deep_view(),
        }
    }
}

/// Position of the first package at or after `i` named `name`.
pub open spec fn first_named(pkgs: Seq<PackageInfoV>, name: Seq<char>, i: int) -> Option<int>
    decreases pkgs.len() - i,
{
    if i < 0 || i >= pkgs.len() {
        None
    } else if pkgs[i].name == name {
        Some(i)
    } else {
        first_named(pkgs, name, i + 1)
    }
}

/// Position of the first set flag at or after `i`.
pub open spec fn first_set(flags: Seq<bool>, i: int) -> Option<int>
    decreases flags.len() - i,
{
    if i < 0 || i >= flags.len() {
        None
    } else if flags[i] {
        Some(i)
    } else {
        first_set(flags, i + 1)
    }
}

/// Diagnostic for a requested package that the workspace lacks.
pub open spec fn missing_package_msg(name: Seq<char>) -> Seq<char> {
    "package `"@ + name + "` was not found"@
}

/// Diagnostic for a workspace manifest without a selected package.
pub open spec fn workspace_msg() -> Seq<char> {
    "the manifest is a workspace; select one crate with `--package <name>`"@
}

/// The package to map: the requested one by name; otherwise the one whose manifest is
/// the given manifest (`matches`), or the only package.
pub open spec fn package_choice(pkgs: Seq<PackageInfoV>, requested: Option<Seq<char>>, matches: Seq<bool>) -> Result<int, Seq<char>> {
    match requested {
        Some(r) => match first_named(pkgs, r, 0) {
            Some(k) => Ok(k),
            None => Err(missing_package_msg(r)),
        },
        None => match first_set(matches, 0) {
            Some(k) => Ok(k),
            None => if pkgs.len() == 1 {
                Ok(0)
            } else {
                Err(workspace_msg())
            },
        },
    }
}

/// Selects the requested package or infers it from the manifest; `matches[i]` tells
/// whether package `i`'s manifest is the manifest the build was given.
pub fn select_package(packages: &Vec<PackageInfo>, requested: &Option<String>, matches: &Vec<bool>) -> (r: Result<usize, String>)
    requires
        matches@.len() == packages@.len(),
    ensures
        match r {
            Ok(k) => package_choice(packages.deep_view(), requested.deep_view(), matches@) == Ok::<
                int,
                Seq<char>,
            >(k as int),
            Err(m) => package_choice(packages.deep_view(), requested.deep_view(), matches@) == Err::<
                int,
                Seq<char>,
            >(m@),
        },
{
    proof {
        reveal_strlit("package `");
        reveal_strlit("` was not found");
        reveal_strlit("the manifest is a workspace; select one crate with `--package <name>`");
    }
    let ghost pv = packages.deep_view();
    match requested {
        Some(name) => {
            let mut i: usize = 0;
            while i < packages.len()
                invariant
                    i <= packages.len(),
                    pv == packages.deep_view(),
                    first_named(pv, name@, 0) == first_named(pv, name@, i as int),
                    requested.deep_view() == Some(name@),
                decreases packages.len() - i,
            {
                assert(pv[i as int].name == packages@[i as int].name@);
                if crate::text::strings_equal(&packages[i].name, name) {
                    return Ok(i);
                }
                i = i + 1;
            }
            let mut m = string_lit("package `");
            append(&mut m, name.as_str());
            append(&mut m, "` was not found");
            Err(m)
        },
        None => {
            let mut i: usize = 0;
            while i < packages.len()
                invariant
                    i <= packages.len(),
                    matches@.len() == packages@.len(),
                    pv == packages.deep_view(),
                    first_set(matches@, 0) == first_set(matches@, i as int),
                    requested.deep_view() == None::<Seq<char>>,
                decreases packages.len() - i,
            {
                if matches[i] {
                    return Ok(i);
                }
                i = i + 1;
            }
            if packages.len() == 1 {
                Ok(0)
            } else {
                Err(string_lit("the manifest is a workspace; select one crate with `--package <name>`"))
            }
        },
    }
}

/// Position of the first target at or after `i` with kind `kind`.
pub open spec fn first_target(ts: Seq<TargetInfoV>, kind: Seq<char>, i: int) -> Option<int>
    decreases ts.len() - i,
{
    if i < 0 || i >= ts.len() {
        None
    } else if ts[i].kind.contains(kind) {
        Some(i)
    } else {
        first_target(ts, kind, i + 1)
    }
}

/// Diagnostic for a package with nothing to scan.
pub open spec fn no_target_msg(name: Seq<char>) -> Seq<char> {
    "package `"@ + name + "` has no library or binary target"@
}

/// The target to scan: the package's library, or else its first binary.
pub open spec fn target_choice(pkg: PackageInfoV) -> Result<int, Seq<char>> {
    match first_target(pkg.targets, "lib"@, 0) {
        Some(k) => Ok(k),
        None => match first_target(pkg.targets, "bin"@, 0) {
            Some(k) => Ok(k),
            None => Err(no_target_msg(pkg.name)),
        },
    }
}

fn target_with(targets: &Vec<TargetInfo>, kind: &str) -> (r: Option<usize>)
    ensures
        match r {
            Some(k) => first_target(targets.deep_view(), kind@, 0) == Some(k as int),
            None => first_target(targets.deep_view(), kind@, 0) is None,
        },
{
    let ghost tv = targets.deep_view();
    let mut i: usize = 0;
    while i < targets.len()
        invariant
            i <= targets.len(),
            tv == targets.deep_view(),
            first_target(tv, kind@, 0) == first_target(tv, kind@, i as int),
        decreases targets.len() - i,
    {
        assert(tv[i as int].kind == targets@[i as int].kind.deep_view());
        if crate::sets::has_string(&targets[i].kind, kind) {
            return Some(i);
        }
        i = i + 1;
    }
    None
}

/// Selects the package's library target or first binary target.
pub fn select_target(package: &PackageInfo) -> (r: Result<usize, String>)
    ensures
        match r {
            Ok(k) => target_choice(package.deep_view()) == Ok::<int, Seq<char>>(k as int),
            Err(m) => target_choice(package.deep_view()) == Err::<int, Seq<char>>(m@),
        },
{
    proof {
        reveal_strlit("lib");
        reveal_strlit("bin");
        reveal_strlit("package `");
        reveal_strlit("` has no library or binary target");
    }
    match target_with(&package.targets, "lib") {
        Some(k) => Ok(k),
        None => match target_with(&package.targets, "bin") {
            Some(k) => Ok(k),
            None => {
                let mut m = string_lit("package `");
                append(&mut m, package.name.as_str());
                append(&mut m, "` has no library or binary target");
                Err(m)
            },
        },
    }
}

/// The crate name of a target: its name with `_` for `-`.
pub fn crate_name_of(target: &str) -> (r: String)
    ensures
        r@ == replace_all(target@, "-"@, "_"@),
{
    proof {
        reveal_strlit("-");
        reveal_strlit("_");
    }
    replace_text(target, "-", "_")
}

} // verus!
