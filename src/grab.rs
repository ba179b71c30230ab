//! The plugin manifest and the plan that brings an install in step with it.

use vstd::prelude::*;
use crate::digest::{digest_matches, digestible, sha256_hex, sha256_sum, text_equal, trim_of};
use crate::key::{key_equal, key_less, lex_lt, lower_of, lowercase};
use crate::steam::Steam;
use crate::util::{concat, LCError, Removal};

verus! {

/// One plugin as a manifest declares it.
#[derive(Debug, Clone, PartialEq, Eq)]
pub struct Plugin {
    /// Unique within a manifest, compared without regard to case.
    pub identifier: String,
    /// Lowercase hexadecimal SHA-256 digest of the plugin's archive.
    pub sha256: String,
    pub version: String,
    /// The archive's file name on the download server.
    pub tar_name: String,
    /// Files the archive leaves behind, relative to its install directory.
    pub files: Option<Vec<String>>,
    /// Directories the archive leaves behind, relative to its install directory.
    pub folders: Option<Vec<String>>,
    /// Installed into the BepInEx directory itself rather than its plugins
    /// directory.
    pub root: bool,
}

/// The plugin set to install, and where.
pub struct Grab {
    /// Base URL of the download server.
    pub lc_download: String,
    /// The game's install directory.
    pub lc_path: String,
    /// The manifest fetched from the server.
    pub plugins: Vec<Plugin>,
    /// Reinstall every plugin, whatever is installed now.
    pub wipe: bool,
    pub steam: Steam,
}

/// One action of a synchronisation plan.
#[derive(Debug, Clone, Copy, PartialEq, Eq, Structural)]
pub enum Step {
    /// Create the plugins directory, which is missing.
    CreateContentDir,
    /// Delete the plugins directory with all it holds, and create it empty.
    ClearContentDir,
    /// Remove BepInEx and install it anew.
    ResetRuntime,
    /// Remove the installed plugin at this index of the local manifest.
    Remove(usize),
    /// Download, check and unpack the plugin at this index of the fetched
    /// manifest.
    Install(usize),
}

/// What was found of the manifest that the last synchronisation left behind.
#[derive(Debug, Clone, PartialEq, Eq)]
pub enum LocalManifest {
    /// No manifest file.
    Absent,
    /// A manifest file that does not parse.
    Corrupt,
    /// The parsed manifest.
    Parsed(Vec<Plugin>),
}

/// The key by which plugins are ordered and matched.
pub open spec fn key_of(p: Plugin) -> Seq<char> {
    lower_of(p.identifier@)
}

/// Keys strictly ascending: sorted, and no identifier twice.
pub open spec fn ordered(ps: Seq<Plugin>) -> bool {
    forall|a: int, b: int| 0 <= a < b < ps.len() ==> lex_lt(key_of(#[trigger] ps[a]), key_of(#[trigger] ps[b]))
}

/// The names in an optional list, as text.
pub open spec fn names_of(o: Option<Vec<String>>) -> Seq<Seq<char>> {
    match o {
        Some(v) => v@.map_values(|s: String| s@),
        None => Seq::empty(),
    }
}

/// The paths a plugin declares, files first, relative to its install directory.
pub open spec fn entries_of(p: Plugin) -> Seq<Seq<char>> {
    names_of(p.files) + names_of(p.folders)
}

/// How many of a plugin's declared paths are files.
pub open spec fn file_count(p: Plugin) -> int {
    names_of(p.files).len() as int
}

/// The directory a plugin's archive unpacks into, under the game at `lc`.
pub open spec fn install_dir(lc: Seq<char>, root: bool) -> Seq<char> {
    if root {
        lc + "/BepInEx"@
    } else {
        lc + "/BepInEx/plugins"@
    }
}

/// The full path of the `k`-th path that `p` declares.
pub open spec fn plugin_path(lc: Seq<char>, p: Plugin, k: int) -> Seq<char> {
    install_dir(lc, p.root) + "/"@ + entries_of(p)[k]
}

/// A local plugin must be replaced by its fetched counterpart: its files are
/// not all present, or its version or digest has changed.
pub open spec fn stale(l: Plugin, r: Plugin, present: bool) -> bool {
    !present || l.version@ != r.version@ || l.sha256@ != r.sha256@
}

/// Whether the local plugin at `i` was found whole on disk.
pub open spec fn valid_at(valid: Seq<bool>, i: int) -> bool {
    0 <= i < valid.len() && valid[i]
}

/// Installs every plugin of a manifest of `n`, in order.
pub open spec fn install_all(n: nat) -> Seq<Step> {
    Seq::new(n, |j: int| Step::Install(j as usize))
}

/// The keys of a sequence of plugins.
pub open spec fn keys_of(ps: Seq<Plugin>) -> Seq<Seq<char>> {
    Seq::new(ps.len(), |k: int| key_of(ps[k]))
}

/// The keys held in a sequence of character vectors.
pub open spec fn views(ks: Seq<Vec<char>>) -> Seq<Seq<char>> {
    ks.map_values(|k: Vec<char>| k@)
}

/// Keys strictly ascending.
pub open spec fn sorted_keys(ks: Seq<Seq<char>>) -> bool {
    forall|a: int, b: int| 0 <= a < b < ks.len() ==> lex_lt(#[trigger] ks[a], #[trigger] ks[b])
}

/// The merge of local plugins `l` from `i` on with fetched plugins `r` from
/// `j` on, where `lk` and `rk` give their keys: a local plugin whose key
/// precedes the next fetched key is removed; a fetched plugin whose key
/// precedes the next local key is installed; a pair with equal keys is
/// replaced when stale and kept otherwise.
pub open spec fn keyed_merge_from(
    l: Seq<Plugin>,
    r: Seq<Plugin>,
    lk: Seq<Seq<char>>,
    rk: Seq<Seq<char>>,
    valid: Seq<bool>,
    i: nat,
    j: nat,
) -> Seq<Step>
    decreases (if i < l.len() { l.len() - i } else { 0 }) + (if j < r.len() { r.len() - j } else { 0 }),
{
    if i >= l.len() && j >= r.len() {
        Seq::empty()
    } else if j >= r.len() || (i < l.len() && lex_lt(lk[i as int], rk[j as int])) {
        seq![Step::Remove(i as usize)] + keyed_merge_from(l, r, lk, rk, valid, i + 1, j)
    } else if i < l.len() && lk[i as int] == rk[j as int] {
        (if stale(l[i as int], r[j as int], valid_at(valid, i as int)) {
            seq![Step::Remove(i as usize), Step::Install(j as usize)]
        } else {
            Seq::empty()
        }) + keyed_merge_from(l, r, lk, rk, valid, i + 1, j + 1)
    } else {
        seq![Step::Install(j as usize)] + keyed_merge_from(l, r, lk, rk, valid, i, j + 1)
    }
}

/// The merge of local plugins from `i` on with fetched plugins from `j` on,
/// by their case-insensitive keys.
pub open spec fn merge_from(l: Seq<Plugin>, r: Seq<Plugin>, valid: Seq<bool>, i: nat, j: nat) -> Seq<Step> {
    keyed_merge_from(l, r, keys_of(l), keys_of(r), valid, i, j)
}

/// The plan for fetched manifest `remote`: a missing plugins directory is
/// created, and a wiped one or one without a manifest cleared, before every
/// plugin is installed; a corrupt or disordered manifest calls for BepInEx
/// to be reinstalled before every plugin is; otherwise the two manifests
/// are merged.
pub open spec fn plan_spec(
    remote: Seq<Plugin>,
    wipe: bool,
    dir_exists: bool,
    local: LocalManifest,
    valid: Seq<bool>,
) -> Seq<Step> {
    if !dir_exists {
        seq![Step::CreateContentDir] + install_all(remote.len())
    } else if wipe {
        seq![Step::ClearContentDir] + install_all(remote.len())
    } else {
        match local {
            LocalManifest::Absent => seq![Step::ClearContentDir] + install_all(remote.len()),
            LocalManifest::Corrupt => seq![Step::ResetRuntime] + install_all(remote.len()),
            LocalManifest::Parsed(l) => if ordered(l@) {
                merge_from(l@, remote, valid, 0, 0)
            } else {
                seq![Step::ResetRuntime] + install_all(remote.len())
            },
        }
    }
}

/// The keys of a manifest's plugins.
pub fn keys(ps: &Vec<Plugin>) -> (r: Vec<Vec<char>>)
    ensures
        r@.len() == ps@.len(),
        forall|k: int| 0 <= k < ps@.len() ==> (#[trigger] r@[k])@ == key_of(ps@[k]),
        views(r@) == keys_of(ps@),
{
    let mut r: Vec<Vec<char>> = Vec::new();
    let mut k: usize = 0;
    while k < ps.len()
        invariant
            k <= ps@.len(),
            r@.len() == k,
            forall|m: int| 0 <= m < k ==> (#[trigger] r@[m])@ == key_of(ps@[m]),
        decreases ps@.len() - k,
    {
        r.push(lowercase(ps[k].identifier.as_str()));
        k = k + 1;
    }
    assert(views(r@) =~= keys_of(ps@));
    r
}

/// Whether keys are strictly ascending.
pub fn keys_ordered(ks: &Vec<Vec<char>>) -> (r: bool)
    ensures
        r == sorted_keys(views(ks@)),
{
    let ghost v = views(ks@);
    if ks.len() == 0 {
        return true;
    }
    let mut k: usize = 1;
    while k < ks.len()
        invariant
            1 <= k <= ks@.len(),
            v == views(ks@),
            forall|a: int, b: int| 0 <= a < b < k ==> lex_lt(#[trigger] v[a], #[trigger] v[b]),
        decreases ks@.len() - k,
    {
        if !key_less(&ks[k - 1], &ks[k]) {
            assert(!lex_lt(v[k - 1], v[k as int]));
            return false;
        }
        assert forall|a: int, b: int| 0 <= a < b < k + 1 implies lex_lt(#[trigger] v[a], #[trigger] v[b]) by {
            if b == k && a < k - 1 {
                crate::key::lemma_lex_transitive(v[a], v[k - 1], v[b]);
            }
        }
        k = k + 1;
    }
    true
}

/// Whether a manifest's keys are strictly ascending.
pub fn is_ordered(ps: &Vec<Plugin>) -> (r: bool)
    ensures
        r == ordered(ps@),
{
    let ks = keys(ps);
    let r = keys_ordered(&ks);
    proof {
        if r != ordered(ps@) {
            if r {
                let (a, b) = choose|a: int, b: int| 0 <= a < b < ps@.len() && !lex_lt(key_of(#[trigger] ps@[a]), key_of(#[trigger] ps@[b]));
                assert(lex_lt(views(ks@)[a], views(ks@)[b]));
            } else {
                let (a, b) = choose|a: int, b: int| 0 <= a < b < ks@.len() && !lex_lt(#[trigger] views(ks@)[a], #[trigger] views(ks@)[b]);
                assert(lex_lt(key_of(ps@[a]), key_of(ps@[b])));
            }
        }
    }
    r
}

/// The merge of a local manifest with a fetched one, from the start of
/// both, given the keys of each.
pub fn merge_keyed(
    local: &Vec<Plugin>,
    remote: &Vec<Plugin>,
    lk: &Vec<Vec<char>>,
    rk: &Vec<Vec<char>>,
    valid: &Vec<bool>,
) -> (r: Vec<Step>)
    requires
        lk@.len() == local@.len(),
        rk@.len() == remote@.len(),
    ensures
        r@ == keyed_merge_from(local@, remote@, views(lk@), views(rk@), valid@, 0, 0),
{
    let ghost l = local@;
    let ghost rm = remote@;
    let ghost v = valid@;
    let ghost lks = views(lk@);
    let ghost rks = views(rk@);
    let mut steps: Vec<Step> = Vec::new();
    let mut i: usize = 0;
    let mut j: usize = 0;
    while j < remote.len()
        invariant
            i <= l.len(),
            j <= rm.len(),
            l == local@,
            rm == remote@,
            v == valid@,
            lk@.len() == l.len(),
            rk@.len() == rm.len(),
            lks == views(lk@),
            rks == views(rk@),
            steps@ + keyed_merge_from(l, rm, lks, rks, v, i as nat, j as nat) == keyed_merge_from(l, rm, lks, rks, v, 0, 0),
        decreases rm.len() - j,
    {
        while i < local.len() && key_less(&lk[i], &rk[j])
            invariant
                i <= l.len(),
                j < rm.len(),
                l == local@,
                rm == remote@,
                v == valid@,
                lk@.len() == l.len(),
                rk@.len() == rm.len(),
                lks == views(lk@),
                rks == views(rk@),
                steps@ + keyed_merge_from(l, rm, lks, rks, v, i as nat, j as nat) == keyed_merge_from(l, rm, lks, rks, v, 0, 0),
            decreases l.len() - i,
        {
            proof {
                let rest = keyed_merge_from(l, rm, lks, rks, v, (i + 1) as nat, j as nat);
                assert(keyed_merge_from(l, rm, lks, rks, v, i as nat, j as nat) == seq![Step::Remove(i)] + rest);
                assert(steps@.push(Step::Remove(i)) + rest =~= steps@ + (seq![Step::Remove(i)] + rest));
            }
            steps.push(Step::Remove(i));
            i = i + 1;
        }
        if i < local.len() && key_equal(&lk[i], &rk[j]) {
            let present = i < valid.len() && valid[i];
            let renew = !present || local[i].version != remote[j].version || local[i].sha256 != remote[j].sha256;
            proof {
                let rest = keyed_merge_from(l, rm, lks, rks, v, (i + 1) as nat, (j + 1) as nat);
                assert(!lex_lt(lks[i as int], rks[j as int]));
                assert(renew == stale(l[i as int], rm[j as int], valid_at(v, i as int)));
                if renew {
                    assert(keyed_merge_from(l, rm, lks, rks, v, i as nat, j as nat) == seq![Step::Remove(i), Step::Install(j)] + rest);
                    assert(steps@.push(Step::Remove(i)).push(Step::Install(j)) + rest =~= steps@ + (seq![Step::Remove(i), Step::Install(j)] + rest));
                } else {
                    assert(keyed_merge_from(l, rm, lks, rks, v, i as nat, j as nat) == Seq::<Step>::empty() + rest);
                    assert(Seq::<Step>::empty() + rest =~= rest);
                }
            }
            if renew {
                steps.push(Step::Remove(i));
                steps.push(Step::Install(j));
            }
            i = i + 1;
        } else {
            proof {
                let rest = keyed_merge_from(l, rm, lks, rks, v, i as nat, (j + 1) as nat);
                if i < l.len() {
                    assert(!lex_lt(lks[i as int], rks[j as int]));
                    assert(lks[i as int] != rks[j as int]);
                }
                assert(keyed_merge_from(l, rm, lks, rks, v, i as nat, j as nat) == seq![Step::Install(j)] + rest);
                assert(steps@.push(Step::Install(j)) + rest =~= steps@ + (seq![Step::Install(j)] + rest));
            }
            steps.push(Step::Install(j));
        }
        j = j + 1;
    }
    while i < local.len()
        invariant
            i <= l.len(),
            j == rm.len(),
            l == local@,
            rm == remote@,
            v == valid@,
            steps@ + keyed_merge_from(l, rm, lks, rks, v, i as nat, j as nat) == keyed_merge_from(l, rm, lks, rks, v, 0, 0),
        decreases l.len() - i,
    {
        proof {
            let rest = keyed_merge_from(l, rm, lks, rks, v, (i + 1) as nat, j as nat);
            assert(keyed_merge_from(l, rm, lks, rks, v, i as nat, j as nat) == seq![Step::Remove(i)] + rest);
            assert(steps@.push(Step::Remove(i)) + rest =~= steps@ + (seq![Step::Remove(i)] + rest));
        }
        steps.push(Step::Remove(i));
        i = i + 1;
    }
    proof {
        assert(keyed_merge_from(l, rm, lks, rks, v, i as nat, j as nat) == Seq::<Step>::empty());
        assert(steps@ + Seq::<Step>::empty() =~= steps@);
    }
    steps
}

/// The merge of a local manifest with a fetched one, from the start of both.
pub fn merge(local: &Vec<Plugin>, remote: &Vec<Plugin>, valid: &Vec<bool>) -> (r: Vec<Step>)
    ensures
        r@ == merge_from(local@, remote@, valid@, 0, 0),
{
    let lk = keys(local);
    let rk = keys(remote);
    merge_keyed(local, remote, &lk, &rk, valid)
}

/// `first`, then installs of every plugin of a manifest of `n`.
fn then_install_all(first: Step, n: usize) -> (r: Vec<Step>)
    ensures
        r@ == seq![first] + install_all(n as nat),
{
    let mut r: Vec<Step> = Vec::new();
    r.push(first);
    let mut j: usize = 0;
    while j < n
        invariant
            j <= n,
            r@ =~= seq![first] + install_all(j as nat),
        decreases n - j,
    {
        r.push(Step::Install(j));
        j = j + 1;
        assert(r@ =~= seq![first] + install_all(j as nat));
    }
    r
}

/// Whether the fetched digest text matches the manifest's own bytes.
pub fn verify_manifest(body: &[u8], published: &str) -> (r: Result<(), LCError>)
    requires
        digestible(body@),
    ensures
        r is Ok <==> sha256_hex(body@) == trim_of(published@),
        r is Err ==> r == Err::<(), LCError>(LCError::ManifestCheckSum),
{
    if digest_matches(body, published) {
        Ok(())
    } else {
        Err(LCError::ManifestCheckSum)
    }
}

impl Grab {
    /// The plugins directory, which holds the installed manifest too.
    pub open spec fn content_dir_spec(&self) -> Seq<char> {
        install_dir(self.lc_path@, false)
    }

    /// The directory a plugin unpacks into: BepInEx itself for a root
    /// plugin, its plugins directory otherwise.
    pub fn install_dir(&self, root: bool) -> (r: String)
        ensures
            r@ == install_dir(self.lc_path@, root),
    {
        if root {
            concat(self.lc_path.as_str(), "/BepInEx")
        } else {
            concat(self.lc_path.as_str(), "/BepInEx/plugins")
        }
    }

    /// The plugins directory.
    pub fn content_dir(&self) -> (r: String)
        ensures
            r@ == self.content_dir_spec(),
    {
        self.install_dir(false)
    }

    /// Where the manifest of the last synchronisation is kept.
    pub fn local_manifest_path(&self) -> (r: String)
        ensures
            r@ == self.content_dir_spec() + "/plugins.json"@,
    {
        let d = self.content_dir();
        concat(d.as_str(), "/plugins.json")
    }

    /// Where the manifest is fetched from.
    pub fn manifest_url(&self) -> (r: String)
        ensures
            r@ == self.lc_download@ + "/plugins.json"@,
    {
        concat(self.lc_download.as_str(), "/plugins.json")
    }

    /// Where the manifest's digest is fetched from.
    pub fn manifest_digest_url(&self) -> (r: String)
        ensures
            r@ == self.lc_download@ + "/plugins.sha256"@,
    {
        concat(self.lc_download.as_str(), "/plugins.sha256")
    }

    /// Where a plugin's archive is fetched from.
    pub fn archive_url(&self, server_plugin: &Plugin) -> (r: String)
        ensures
            r@ == self.lc_download@ + "/"@ + server_plugin.tar_name@,
    {
        let base = concat(self.lc_download.as_str(), "/");
        concat(base.as_str(), server_plugin.tar_name.as_str())
    }

    /// The full paths of the files, then the folders, that a plugin declares.
    pub fn plugin_paths(&self, client_plugin: &Plugin) -> (r: Vec<String>)
        ensures
            r@.len() == entries_of(*client_plugin).len(),
            forall|k: int| 0 <= k < r@.len() ==> (#[trigger] r@[k])@ == plugin_path(self.lc_path@, *client_plugin, k),
    {
        let dir = self.install_dir(client_plugin.root);
        let prefix = concat(dir.as_str(), "/");
        let ghost lc = self.lc_path@;
        let ghost p = *client_plugin;
        let mut r: Vec<String> = Vec::new();
        let empty: Vec<String> = Vec::new();
        let files = match &client_plugin.files {
            Some(v) => v,
            None => &empty,
        };
        let folders = match &client_plugin.folders {
            Some(v) => v,
            None => &empty,
        };
        assert(names_of(p.files) =~= files@.map_values(|s: String| s@));
        assert(names_of(p.folders) =~= folders@.map_values(|s: String| s@));
        let mut k: usize = 0;
        while k < files.len()
            invariant
                k <= files@.len(),
                r@.len() == k,
                prefix@ == install_dir(lc, p.root) + "/"@,
                names_of(p.files) == files@.map_values(|s: String| s@),
                forall|m: int| 0 <= m < k ==> (#[trigger] r@[m])@ == plugin_path(lc, p, m),
            decreases files@.len() - k,
        {
            r.push(concat(prefix.as_str(), files[k].as_str()));
            k = k + 1;
        }
        let mut k: usize = 0;
        while k < folders.len()
            invariant
                k <= folders@.len(),
                r@.len() == files@.len() + k,
                prefix@ == install_dir(lc, p.root) + "/"@,
                names_of(p.files) == files@.map_values(|s: String| s@),
                names_of(p.folders) == folders@.map_values(|s: String| s@),
                forall|m: int| 0 <= m < r@.len() ==> (#[trigger] r@[m])@ == plugin_path(lc, p, m),
            decreases folders@.len() - k,
        {
            r.push(concat(prefix.as_str(), folders[k].as_str()));
            k = k + 1;
        }
        r
    }

    /// Whether a local plugin is whole on disk: `present` tells, for each of
    /// its paths in the order of `plugin_paths`, whether that path exists.
    pub fn validate(&self, client_plugin: &Plugin, present: &Vec<bool>) -> (r: bool)
        ensures
            r == (forall|k: int| 0 <= k < entries_of(*client_plugin).len() ==> valid_at(present@, k)),
    {
        let n = self.plugin_paths(client_plugin).len();
        let mut k: usize = 0;
        while k < n
            invariant
                n == entries_of(*client_plugin).len(),
                k <= n,
                forall|m: int| 0 <= m < k ==> valid_at(present@, m),
            decreases n - k,
        {
            if k >= present.len() || !present[k] {
                assert(!valid_at(present@, k as int));
                return false;
            }
            k = k + 1;
        }
        true
    }

    /// What removing an installed plugin deletes, each path only if present:
    /// nothing for a root plugin, whose files lie among BepInEx's own;
    /// otherwise its files, then its folders with their contents.
    pub fn remove_plugin(&self, client_plugin: &Plugin) -> (r: Vec<Removal>)
        ensures
            client_plugin.root ==> r@.len() == 0,
            !client_plugin.root ==> r@.len() == entries_of(*client_plugin).len(),
            !client_plugin.root ==> forall|k: int| 0 <= k < r@.len() ==> (#[trigger] r@[k]).spec_target()
                == (plugin_path(self.lc_path@, *client_plugin, k), k >= file_count(*client_plugin)),
    {
        let mut r: Vec<Removal> = Vec::new();
        if client_plugin.root {
            return r;
        }
        let paths = self.plugin_paths(client_plugin);
        let n_files: usize = match &client_plugin.files {
            Some(v) => v.len(),
            None => 0,
        };
        let mut k: usize = 0;
        while k < paths.len()
            invariant
                k <= paths@.len(),
                r@.len() == k,
                n_files == file_count(*client_plugin),
                paths@.len() == entries_of(*client_plugin).len(),
                forall|m: int| 0 <= m < paths@.len() ==> (#[trigger] paths@[m])@ == plugin_path(self.lc_path@, *client_plugin, m),
                forall|m: int| 0 <= m < k ==> (#[trigger] r@[m]).spec_target()
                    == (plugin_path(self.lc_path@, *client_plugin, m), m >= file_count(*client_plugin)),
            decreases paths@.len() - k,
        {
            let path = paths[k].clone();
            if k < n_files {
                r.push(Removal::File(path));
            } else {
                r.push(Removal::Dir(path));
            }
            k = k + 1;
        }
        r
    }

    /// Where a plugin's archive may be unpacked, given the digest computed of
    /// its download: its install directory if that digest is the one the
    /// manifest declares, and the discrepancy otherwise.
    pub fn unpack_target(&self, server_plugin: &Plugin, computed: &str) -> (r: Result<String, LCError>)
        ensures
            computed@ == server_plugin.sha256@ ==> r is Ok && r->Ok_0@ == install_dir(self.lc_path@, server_plugin.root),
            computed@ != server_plugin.sha256@ ==> (r matches Err(LCError::CheckSumDiscrepency { tar_name, server, download })
                && tar_name@ == server_plugin.tar_name@ && server@ == server_plugin.sha256@ && download@ == computed@),
    {
        if text_equal(computed, server_plugin.sha256.as_str()) {
            Ok(self.install_dir(server_plugin.root))
        } else {
            Err(LCError::CheckSumDiscrepency {
                tar_name: server_plugin.tar_name.clone(),
                server: server_plugin.sha256.clone(),
                download: String::from_str(computed),
            })
        }
    }

    /// Checks a downloaded archive against the manifest: its install
    /// directory when its digest is the declared one, so that only a checked
    /// archive is ever unpacked, and the discrepancy otherwise.
    pub fn create_plugin(&self, server_plugin: &Plugin, body: &[u8]) -> (r: Result<String, LCError>)
        requires
            digestible(body@),
        ensures
            sha256_hex(body@) == server_plugin.sha256@ ==> r is Ok && r->Ok_0@ == install_dir(self.lc_path@, server_plugin.root),
            sha256_hex(body@) != server_plugin.sha256@ ==> (r matches Err(LCError::CheckSumDiscrepency { tar_name, server, download })
                && tar_name@ == server_plugin.tar_name@ && server@ == server_plugin.sha256@ && download@ == sha256_hex(body@)),
    {
        let computed = sha256_sum(body);
        self.unpack_target(server_plugin, computed.as_str())
    }

    /// Takes a fetched manifest as the plugin set, if its keys are strictly
    /// ascending; refuses it, and keeps the set it had, otherwise.
    pub fn accept_plugins(&mut self, plugins: Vec<Plugin>) -> (r: Result<(), LCError>)
        ensures
            r is Ok <==> ordered(plugins@),
            r is Ok ==> final(self).plugins@ == plugins@,
            r is Err ==> r == Err::<(), LCError>(LCError::UnorderedManifest) && final(self).plugins@ == old(self).plugins@,
            final(self).lc_path == old(self).lc_path,
            final(self).lc_download == old(self).lc_download,
            final(self).wipe == old(self).wipe,
            final(self).steam == old(self).steam,
    {
        if is_ordered(&plugins) {
            self.plugins = plugins;
            Ok(())
        } else {
            Err(LCError::UnorderedManifest)
        }
    }

    /// The steps that bring the install in step with the fetched manifest.
    /// `dir_exists` tells whether the plugins directory exists, `local` what
    /// was found of its manifest, and `valid` whether each local plugin was
    /// found whole (see `validate`); a missing entry of `valid` counts as not.
    pub fn plan(&self, dir_exists: bool, local: &LocalManifest, valid: &Vec<bool>) -> (r: Vec<Step>)
        ensures
            r@ == plan_spec(self.plugins@, self.wipe, dir_exists, *local, valid@),
    {
        let n = self.plugins.len();
        if !dir_exists {
            then_install_all(Step::CreateContentDir, n)
        } else if self.wipe {
            then_install_all(Step::ClearContentDir, n)
        } else {
            match local {
                LocalManifest::Absent => then_install_all(Step::ClearContentDir, n),
                LocalManifest::Corrupt => then_install_all(Step::ResetRuntime, n),
                LocalManifest::Parsed(l) => {
                    if is_ordered(l) {
                        merge(l, &self.plugins, valid)
                    } else {
                        then_install_all(Step::ResetRuntime, n)
                    }
                },
            }
        }
    }
}

} // verus!
