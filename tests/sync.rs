use lc_grab::grab::{is_ordered, keys, keys_ordered, merge, merge_keyed, verify_manifest, Grab, LocalManifest, Plugin, Step};
use lc_grab::steam::Steam;
use lc_grab::util::LCError;

fn plugin(id: &str, version: &str, sha: &str) -> Plugin {
    Plugin {
        identifier: id.to_string(),
        sha256: sha.to_string(),
        version: version.to_string(),
        tar_name: format!("{}.tar.gz", id),
        files: Some(vec![format!("{}.dll", id)]),
        folders: None,
        root: false,
    }
}

fn grab(plugins: Vec<Plugin>, wipe: bool) -> Grab {
    Grab {
        lc_download: "https://example.org/lc".to_string(),
        lc_path: "/games/lc".to_string(),
        plugins,
        wipe,
        steam: Steam {
            lc_path: "/games/lc".to_string(),
            run_command: "steam".to_string(),
            bepinex_download: "https://example.org/BepInEx.tar.gz".to_string(),
            bepinex_sha256: "https://example.org/BepInEx.sha256".to_string(),
            flatpak: false,
        },
    }
}

#[test]
fn merge_removes_installs_and_keeps() {
    let local = vec![plugin("A", "v1", "h"), plugin("C", "v1", "h"), plugin("D", "v1", "h")];
    let remote = vec![plugin("B", "v1", "h"), plugin("C", "v1", "h"), plugin("E", "v1", "h")];
    let g = grab(remote, false);
    let plan = g.plan(true, &LocalManifest::Parsed(local), &vec![true, true, true]);
    assert_eq!(plan, vec![Step::Remove(0), Step::Install(0), Step::Remove(2), Step::Install(2)]);
}

#[test]
fn drifted_plugin_is_replaced() {
    let local = vec![plugin("A", "v1", "h1")];
    let remote = vec![plugin("A", "v2", "h2")];
    let g = grab(remote, false);
    let plan = g.plan(true, &LocalManifest::Parsed(local), &vec![true]);
    assert_eq!(plan, vec![Step::Remove(0), Step::Install(0)]);
}

#[test]
fn changed_digest_alone_replaces() {
    let local = vec![plugin("A", "v1", "h1")];
    let remote = vec![plugin("A", "v1", "h2")];
    let plan = grab(remote, false).plan(true, &LocalManifest::Parsed(local), &vec![true]);
    assert_eq!(plan, vec![Step::Remove(0), Step::Install(0)]);
}

#[test]
fn incomplete_plugin_is_replaced() {
    let local = vec![plugin("A", "v1", "h")];
    let remote = vec![plugin("A", "v1", "h")];
    let plan = grab(remote, false).plan(true, &LocalManifest::Parsed(local), &vec![false]);
    assert_eq!(plan, vec![Step::Remove(0), Step::Install(0)]);
}

#[test]
fn missing_validity_counts_as_incomplete() {
    let local = vec![plugin("A", "v1", "h")];
    let remote = vec![plugin("A", "v1", "h")];
    let plan = grab(remote, false).plan(true, &LocalManifest::Parsed(local), &vec![]);
    assert_eq!(plan, vec![Step::Remove(0), Step::Install(0)]);
}

#[test]
fn second_run_does_nothing() {
    let remote = vec![plugin("A", "v1", "h"), plugin("B", "v2", "g")];
    let g = grab(remote.clone(), false);
    let plan = g.plan(true, &LocalManifest::Parsed(remote), &vec![true, true]);
    assert!(plan.is_empty());
}

#[test]
fn identifiers_match_without_case() {
    let local = vec![plugin("abc", "v1", "h")];
    let remote = vec![plugin("ABC", "v1", "h")];
    let plan = grab(remote, false).plan(true, &LocalManifest::Parsed(local), &vec![true]);
    assert!(plan.is_empty());
}

#[test]
fn unlisted_plugins_are_removed() {
    let local = vec![plugin("A", "v1", "h"), plugin("Z", "v1", "h")];
    let remote = vec![plugin("M", "v1", "h")];
    let plan = grab(remote, false).plan(true, &LocalManifest::Parsed(local), &vec![true, true]);
    assert_eq!(plan, vec![Step::Remove(0), Step::Install(0), Step::Remove(1)]);
}

#[test]
fn empty_remote_removes_everything() {
    let local = vec![plugin("A", "v1", "h"), plugin("B", "v1", "h")];
    let plan = grab(vec![], false).plan(true, &LocalManifest::Parsed(local), &vec![true, true]);
    assert_eq!(plan, vec![Step::Remove(0), Step::Remove(1)]);
}

#[test]
fn empty_local_installs_everything() {
    let remote = vec![plugin("A", "v1", "h"), plugin("B", "v1", "h")];
    let plan = merge(&vec![], &remote, &vec![]);
    assert_eq!(plan, vec![Step::Install(0), Step::Install(1)]);
}

#[test]
fn wipe_reinstalls_everything() {
    let local = vec![plugin("A", "v1", "h"), plugin("B", "v1", "h")];
    let remote = vec![plugin("A", "v1", "h"), plugin("B", "v1", "h")];
    let g = grab(remote, true);
    let wiped = g.plan(true, &LocalManifest::Parsed(local), &vec![true, true]);
    assert_eq!(wiped, vec![Step::ClearContentDir, Step::Install(0), Step::Install(1)]);
    let fresh = grab(g.plugins.clone(), false).plan(true, &LocalManifest::Absent, &vec![]);
    assert_eq!(wiped, fresh);
}

#[test]
fn missing_plugins_dir_is_created() {
    let remote = vec![plugin("A", "v1", "h")];
    let plan = grab(remote, false).plan(false, &LocalManifest::Corrupt, &vec![]);
    assert_eq!(plan, vec![Step::CreateContentDir, Step::Install(0)]);
}

#[test]
fn corrupt_manifest_resets_and_reinstalls() {
    let remote = vec![plugin("A", "v1", "h"), plugin("B", "v1", "h")];
    let plan = grab(remote, false).plan(true, &LocalManifest::Corrupt, &vec![]);
    assert_eq!(plan, vec![Step::ResetRuntime, Step::Install(0), Step::Install(1)]);
}

#[test]
fn disordered_local_manifest_counts_as_corrupt() {
    let local = vec![plugin("B", "v1", "h"), plugin("A", "v1", "h")];
    let remote = vec![plugin("A", "v1", "h")];
    let plan = grab(remote, false).plan(true, &LocalManifest::Parsed(local), &vec![true, true]);
    assert_eq!(plan, vec![Step::ResetRuntime, Step::Install(0)]);
}

#[test]
fn order_ignores_case() {
    assert!(is_ordered(&vec![plugin("a", "v", "h"), plugin("B", "v", "h")]));
    assert!(!is_ordered(&vec![plugin("B", "v", "h"), plugin("a", "v", "h")]));
    assert!(!is_ordered(&vec![plugin("abc", "v", "h"), plugin("ABC", "v", "h")]));
    assert!(is_ordered(&vec![]));
    assert!(is_ordered(&vec![plugin("ab", "v", "h"), plugin("abc", "v", "h")]));
}

#[test]
fn unordered_manifest_is_refused() {
    let mut g = grab(vec![plugin("A", "v1", "h")], false);
    let r = g.accept_plugins(vec![plugin("C", "v1", "h"), plugin("B", "v1", "h")]);
    assert_eq!(r, Err(LCError::UnorderedManifest));
    assert_eq!(g.plugins, vec![plugin("A", "v1", "h")]);
    let r = g.accept_plugins(vec![plugin("B", "v1", "h"), plugin("C", "v1", "h")]);
    assert_eq!(r, Ok(()));
    assert_eq!(g.plugins.len(), 2);
}

#[test]
fn manifest_digest_is_checked() {
    let body = b"[]".to_vec();
    let digest = lc_grab::digest::sha256_sum(&body);
    assert_eq!(verify_manifest(&body, &format!("  {}\n", digest)), Ok(()));
    assert_eq!(verify_manifest(&body, "0000"), Err(LCError::ManifestCheckSum));
    assert_eq!(verify_manifest(b"[ ]", &digest), Err(LCError::ManifestCheckSum));
}

fn key(s: &str) -> Vec<char> {
    s.chars().collect()
}

#[test]
fn keyed_merge_follows_the_given_keys() {
    let local = vec![plugin("x", "v1", "h"), plugin("y", "v1", "h")];
    let remote = vec![plugin("p", "v1", "h"), plugin("q", "v1", "h")];
    let plan = merge_keyed(&local, &remote, &vec![key("a"), key("c")], &vec![key("b"), key("c")], &vec![true, true]);
    assert_eq!(plan, vec![Step::Remove(0), Step::Install(0)]);
    let plan = merge_keyed(&local, &remote, &vec![key("b"), key("c")], &vec![key("b"), key("c")], &vec![true, true]);
    assert!(plan.is_empty());
    let plan = merge_keyed(&local, &remote, &vec![key("b"), key("c")], &vec![key("b"), key("c")], &vec![true, false]);
    assert_eq!(plan, vec![Step::Remove(1), Step::Install(1)]);
}

#[test]
fn keyed_merge_keeps_unchanged_pairs() {
    let local = vec![plugin("a", "v1", "h"), plugin("c", "v1", "h")];
    let remote = vec![plugin("a", "v1", "h"), plugin("b", "v1", "h"), plugin("c", "v1", "h")];
    let plan = merge_keyed(&local, &remote, &vec![key("a"), key("c")], &vec![key("a"), key("b"), key("c")], &vec![true, true]);
    assert_eq!(plan, vec![Step::Install(1)]);
}

#[test]
fn keys_are_lowercased() {
    let ks = keys(&vec![plugin("MoreCompany", "v", "h"), plugin("ÄBC", "v", "h")]);
    assert_eq!(ks, vec![key("morecompany"), key("äbc")]);
}

#[test]
fn key_order_by_code_point() {
    assert!(keys_ordered(&vec![key("a"), key("ab"), key("b")]));
    assert!(!keys_ordered(&vec![key("b"), key("a")]));
    assert!(!keys_ordered(&vec![key("a"), key("a")]));
    assert!(keys_ordered(&vec![key("Z"), key("a")]));
    assert!(keys_ordered(&vec![]));
    assert!(keys_ordered(&vec![key("")]));
}
