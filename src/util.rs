//! Errors, path building, and the files that make up a BepInEx install.

use vstd::prelude::*;

verus! {

/// Why a step of a synchronisation was refused.
#[derive(Debug, Clone, PartialEq, Eq)]
pub enum LCError {
    /// A plugin archive does not have the digest that the manifest declares
    /// for it.
    CheckSumDiscrepency {
        /// The archive's file name.
        tar_name: String,
        /// The digest the manifest declares.
        server: String,
        /// The digest of what was downloaded.
        download: String,
    },
    /// The manifest does not have the digest published beside it.
    ManifestCheckSum,
    /// The BepInEx archive does not have the digest published beside it.
    BepInExCheckSum,
    /// The manifest's identifiers are not in strictly ascending
    /// case-insensitive order.
    UnorderedManifest,
}

/// A path to delete if it is present.
#[derive(Debug, Clone, PartialEq, Eq)]
pub enum Removal {
    /// A single file.
    File(String),
    /// A directory and everything under it.
    Dir(String),
}

impl Removal {
    /// The path as text, with whether it names a directory.
    pub open spec fn spec_target(self) -> (Seq<char>, bool) {
        match self {
            Removal::File(p) => (p@, false),
            Removal::Dir(p) => (p@, true),
        }
    }
}

/// `a` followed by `b`.
pub fn concat(a: &str, b: &str) -> (r: String)
    ensures
        r@ == a@ + b@,
{
    let mut s = String::from_str(a);
    s.append(b);
    s
}

/// The directory that BepInEx occupies under a game install.
pub open spec fn bepinex_dir(path: Seq<char>) -> Seq<char> {
    path + "/BepInEx"@
}

/// The directory whose presence shows that BepInEx is installed under the
/// game install at `path`.
pub fn check_bepinex(path: &str) -> (r: String)
    ensures
        r@ == bepinex_dir(path@),
{
    concat(path, "/BepInEx")
}

/// What removing BepInEx from the game install at `path` deletes: its
/// directory, then the loader files it leaves beside the game.
pub open spec fn uninstall_spec(path: Seq<char>) -> Seq<(Seq<char>, bool)> {
    seq![
        (bepinex_dir(path), true),
        (path + "/winhttp.dll"@, false),
        (path + "/doorstop_config.ini"@, false),
        (path + "/changelog.txt"@, false),
    ]
}

/// The paths to delete, in order, to remove BepInEx from the game install
/// at `path`; each one that is absent is skipped.
pub fn uninstall_targets(path: &str) -> (r: Vec<Removal>)
    ensures
        r@.map_values(|t: Removal| t.spec_target()) == uninstall_spec(path@),
{
    let mut r: Vec<Removal> = Vec::new();
    r.push(Removal::Dir(check_bepinex(path)));
    r.push(Removal::File(concat(path, "/winhttp.dll")));
    r.push(Removal::File(concat(path, "/doorstop_config.ini")));
    r.push(Removal::File(concat(path, "/changelog.txt")));
    assert(r@.map_values(|t: Removal| t.spec_target()) =~= uninstall_spec(path@));
    r
}

} // verus!
