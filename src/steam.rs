//! The BepInEx loader and the Steam client that launches the game.

use vstd::prelude::*;
use crate::digest::{digest_matches, digestible, sha256_hex, trim_of};
use crate::util::{concat, LCError};

verus! {

/// How to fetch BepInEx and start the game.
pub struct Steam {
    /// The game's install directory.
    pub lc_path: String,
    /// The program that starts Steam.
    pub run_command: String,
    /// URL of the BepInEx archive.
    pub bepinex_download: String,
    /// URL of the BepInEx archive's digest.
    pub bepinex_sha256: String,
    /// Steam runs as a Flatpak.
    pub flatpak: bool,
}

/// The Steam URL that starts the game.
pub open spec fn game_url() -> Seq<char> {
    "steam://rungameid/1966720"@
}

impl Steam {
    /// The arguments to `run_command` that start the game: through Flatpak's
    /// `run` when Steam is a Flatpak, directly otherwise.
    pub fn launch_args(&self) -> (r: Vec<String>)
        ensures
            self.flatpak ==> r@.map_values(|a: String| a@) == seq!["run"@, "com.valvesoftware.Steam"@, game_url()],
            !self.flatpak ==> r@.map_values(|a: String| a@) == seq![game_url()],
    {
        let mut r: Vec<String> = Vec::new();
        if self.flatpak {
            r.push(String::from_str("run"));
            r.push(String::from_str("com.valvesoftware.Steam"));
        }
        r.push(String::from_str("steam://rungameid/1966720"));
        assert(self.flatpak ==> r@.map_values(|a: String| a@) =~= seq!["run"@, "com.valvesoftware.Steam"@, game_url()]);
        assert(!self.flatpak ==> r@.map_values(|a: String| a@) =~= seq![game_url()]);
        r
    }

    /// The directory whose appearance shows that the game has finished
    /// setting BepInEx up.
    pub fn ready_dir(&self) -> (r: String)
        ensures
            r@ == self.lc_path@ + "/BepInEx/plugins"@,
    {
        concat(self.lc_path.as_str(), "/BepInEx/plugins")
    }

    /// Checks the downloaded BepInEx archive against the digest text
    /// published beside it.
    pub fn check_download(&self, body: &[u8], published: &str) -> (r: Result<(), LCError>)
        requires
            digestible(body@),
        ensures
            r is Ok <==> sha256_hex(body@) == trim_of(published@),
            r is Err ==> r == Err::<(), LCError>(LCError::BepInExCheckSum),
    {
        if digest_matches(body, published) {
            Ok(())
        } else {
            Err(LCError::BepInExCheckSum)
        }
    }
}

} // verus!
