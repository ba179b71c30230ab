use lc_grab::digest::{digest_matches, sha256_sum, text_equal};
use lc_grab::grab::{Grab, Plugin};
use lc_grab::steam::Steam;
use lc_grab::util::{check_bepinex, uninstall_targets, LCError, Removal};

fn steam(flatpak: bool) -> Steam {
    Steam {
        lc_path: "/games/lc".to_string(),
        run_command: "flatpak".to_string(),
        bepinex_download: "https://example.org/BepInEx.tar.gz".to_string(),
        bepinex_sha256: "https://example.org/BepInEx.sha256".to_string(),
        flatpak,
    }
}

fn grab() -> Grab {
    Grab {
        lc_download: "https://example.org/lc".to_string(),
        lc_path: "/games/lc".to_string(),
        plugins: vec![],
        wipe: false,
        steam: steam(false),
    }
}

fn bundle(root: bool, sha: &str) -> Plugin {
    Plugin {
        identifier: "MoreCompany".to_string(),
        sha256: sha.to_string(),
        version: "1.0".to_string(),
        tar_name: "MoreCompany.tar.gz".to_string(),
        files: Some(vec!["MoreCompany.dll".to_string(), "cfg.txt".to_string()]),
        folders: Some(vec!["assets".to_string()]),
        root,
    }
}

const ABC_SHA256: &str = "ba7816bf8f01cfea414140de5dae2223b00361a396177a9cb410ff61f20015ad";

#[test]
fn sha256_of_known_inputs() {
    assert_eq!(sha256_sum(b"abc"), ABC_SHA256);
    assert_eq!(sha256_sum(b""), "e3b0c44298fc1c149afbf4c8996fb92427ae41e4649b934ca495991b7852b855");
}

#[test]
fn digest_comparison_trims_published_text() {
    assert!(digest_matches(b"abc", &format!("{}\n", ABC_SHA256)));
    assert!(digest_matches(b"abc", &format!("\t {} ", ABC_SHA256)));
    assert!(digest_matches(b"abc", &format!("\u{3000}{}\r\n\u{85}", ABC_SHA256)));
    assert!(!digest_matches(b"abd", ABC_SHA256));
    assert!(!digest_matches(b"abc", &ABC_SHA256.to_uppercase()));
}

#[test]
fn text_equality() {
    assert!(text_equal("héllo", "héllo"));
    assert!(!text_equal("hello", "hellO"));
    assert!(!text_equal("hell", "hello"));
}

#[test]
fn matching_archive_unpacks_into_plugins_dir() {
    let g = grab();
    assert_eq!(g.create_plugin(&bundle(false, ABC_SHA256), b"abc"), Ok("/games/lc/BepInEx/plugins".to_string()));
    assert_eq!(g.create_plugin(&bundle(true, ABC_SHA256), b"abc"), Ok("/games/lc/BepInEx".to_string()));
}

#[test]
fn mismatching_archive_is_refused() {
    let g = grab();
    let r = g.create_plugin(&bundle(false, ABC_SHA256), b"abd");
    assert_eq!(
        r,
        Err(LCError::CheckSumDiscrepency {
            tar_name: "MoreCompany.tar.gz".to_string(),
            server: ABC_SHA256.to_string(),
            download: sha256_sum(b"abd"),
        })
    );
    let r = g.unpack_target(&bundle(false, "beef"), "BEEF");
    assert_eq!(
        r,
        Err(LCError::CheckSumDiscrepency {
            tar_name: "MoreCompany.tar.gz".to_string(),
            server: "beef".to_string(),
            download: "BEEF".to_string(),
        })
    );
}

#[test]
fn plugin_paths_files_then_folders() {
    let g = grab();
    assert_eq!(
        g.plugin_paths(&bundle(false, "h")),
        vec![
            "/games/lc/BepInEx/plugins/MoreCompany.dll".to_string(),
            "/games/lc/BepInEx/plugins/cfg.txt".to_string(),
            "/games/lc/BepInEx/plugins/assets".to_string(),
        ]
    );
    assert_eq!(g.plugin_paths(&bundle(true, "h"))[0], "/games/lc/BepInEx/MoreCompany.dll");
    let mut bare = bundle(false, "h");
    bare.files = None;
    bare.folders = None;
    assert!(g.plugin_paths(&bare).is_empty());
}

#[test]
fn validate_needs_every_path() {
    let g = grab();
    let p = bundle(false, "h");
    assert!(g.validate(&p, &vec![true, true, true]));
    assert!(!g.validate(&p, &vec![true, false, true]));
    assert!(!g.validate(&p, &vec![true, true]));
    let mut bare = p.clone();
    bare.files = None;
    bare.folders = None;
    assert!(g.validate(&bare, &vec![]));
}

#[test]
fn removal_deletes_files_then_folders() {
    let g = grab();
    assert_eq!(
        g.remove_plugin(&bundle(false, "h")),
        vec![
            Removal::File("/games/lc/BepInEx/plugins/MoreCompany.dll".to_string()),
            Removal::File("/games/lc/BepInEx/plugins/cfg.txt".to_string()),
            Removal::Dir("/games/lc/BepInEx/plugins/assets".to_string()),
        ]
    );
}

#[test]
fn root_plugin_removal_is_skipped() {
    assert!(grab().remove_plugin(&bundle(true, "h")).is_empty());
}

#[test]
fn locations() {
    let g = grab();
    assert_eq!(g.archive_url(&bundle(false, "h")), "https://example.org/lc/MoreCompany.tar.gz");
    assert_eq!(g.manifest_url(), "https://example.org/lc/plugins.json");
    assert_eq!(g.manifest_digest_url(), "https://example.org/lc/plugins.sha256");
    assert_eq!(g.local_manifest_path(), "/games/lc/BepInEx/plugins/plugins.json");
    assert_eq!(g.content_dir(), "/games/lc/BepInEx/plugins");
    assert_eq!(check_bepinex("/games/lc"), "/games/lc/BepInEx");
}

#[test]
fn uninstall_removes_loader_files() {
    assert_eq!(
        uninstall_targets("/g"),
        vec![
            Removal::Dir("/g/BepInEx".to_string()),
            Removal::File("/g/winhttp.dll".to_string()),
            Removal::File("/g/doorstop_config.ini".to_string()),
            Removal::File("/g/changelog.txt".to_string()),
        ]
    );
}

#[test]
fn launch_arguments() {
    assert_eq!(steam(true).launch_args(), vec!["run", "com.valvesoftware.Steam", "steam://rungameid/1966720"]);
    assert_eq!(steam(false).launch_args(), vec!["steam://rungameid/1966720"]);
    assert_eq!(steam(false).ready_dir(), "/games/lc/BepInEx/plugins");
}

#[test]
fn bepinex_download_is_checked() {
    let s = steam(false);
    assert_eq!(s.check_download(b"abc", &format!("{}\n", ABC_SHA256)), Ok(()));
    assert_eq!(s.check_download(b"abc", "nope"), Err(LCError::BepInExCheckSum));
}
