//! Where the model and the voices are taken from.

use crate::text;
use std::path::PathBuf;
use vstd::prelude::*;

verus! {

/// The repository that holds the monolithic model and all voices.
pub const REPO: &'static str = "onnx-community/Kokoro-82M-v1.0-ONNX";

/// `std::path::PathBuf`.
#[verifier::external_type_specification]
#[verifier::external_body]
pub struct ExPathBuf(PathBuf);

/// Model + voice files.
pub struct Assets {
    pub model_path: PathBuf,
    pub voice_path: PathBuf,
}

/// Assets for the split model: the directory that holds its two stages, plus the voice file.
/// Deliberately not [`Assets`]: the monolithic model is never read here, so it must not be
/// asked for.
pub struct TractAssets {
    pub dir: PathBuf,
    pub voice_path: PathBuf,
}

/// A path, and whether what is looked for stands there.
pub struct Place {
    pub path: PathBuf,
    pub exists: bool,
}

/// The directory that is checked for a local asset bundle before hitting the network, in
/// this order: the explicit override, which always wins; the user data directory, which is
/// the standard install target; a bundle in the working directory; one beside the
/// executable. A missing one falls through; if there is none, the install target is named.
pub open spec fn assets_dir(
    explicit: Option<PathBuf>,
    user: Option<Place>,
    cwd: Place,
    exe: Option<Place>,
) -> PathBuf {
    if explicit is Some {
        explicit->0
    } else if user is Some && user->0.exists {
        user->0.path
    } else if cwd.exists {
        cwd.path
    } else if exe is Some && exe->0.exists {
        exe->0.path
    } else if user is Some {
        user->0.path
    } else {
        cwd.path
    }
}

/// Picks the asset directory. The places tell whether a directory stands there; `explicit`
/// is what `KOKORO_TRACT_DIR` holds.
pub fn local_assets_dir(
    explicit: Option<PathBuf>,
    user: Option<Place>,
    cwd: Place,
    exe: Option<Place>,
) -> (r: PathBuf)
    ensures
        r == assets_dir(explicit, user, cwd, exe),
{
    if let Some(dir) = explicit {
        return dir;
    }
    let target: PathBuf = match user {
        Some(place) => {
            if place.exists {
                return place.path;
            }
            if cwd.exists {
                return cwd.path;
            }
            place.path
        },
        None => cwd.path,
    };
    if let Some(place) = exe {
        if !cwd.exists && place.exists {
            return place.path;
        }
    }
    target
}

/// Why the split model can't be used.
#[derive(Clone, Copy, PartialEq, Eq, Structural, Debug)]
pub enum AssetsError {
    /// A stage is missing from the asset directory.
    SplitModelMissing,
}

/// What is left to do for the split model.
pub enum TractPlan {
    /// Everything is there.
    Ready(TractAssets),
    /// The voice has to be fetched; the stages are in this directory.
    FetchVoice { dir: PathBuf },
}

/// Resolve the split model and a voice without ever fetching the model: its stages are not
/// published in [`REPO`], so a missing one is a clear error, not a silent download. Only a
/// missing voice is fetched.
pub fn resolve_assets_tract(
    dir: PathBuf,
    has_stage1: bool,
    has_stage2: bool,
    local_voice: Place,
) -> (r: Result<TractPlan, AssetsError>)
    ensures
        match r {
            Ok(TractPlan::Ready(assets)) => has_stage1 && has_stage2 && local_voice.exists
                && assets.dir == dir && assets.voice_path == local_voice.path,
            Ok(TractPlan::FetchVoice { dir: d }) => has_stage1 && has_stage2 && !local_voice.exists
                && d == dir,
            Err(e) => !(has_stage1 && has_stage2) && e == AssetsError::SplitModelMissing,
        },
{
    if !has_stage1 || !has_stage2 {
        return Err(AssetsError::SplitModelMissing);
    }
    if local_voice.exists {
        Ok(TractPlan::Ready(TractAssets { dir, voice_path: local_voice.path }))
    } else {
        Ok(TractPlan::FetchVoice { dir })
    }
}

/// The local bundle, if it holds both the model and the voice; that is what makes an offline
/// run possible. `None` means that both are to be fetched.
pub fn resolve_assets(local_model: Place, local_voice: Place) -> (r: Option<Assets>)
    ensures
        match r {
            Some(assets) => local_model.exists && local_voice.exists && assets.model_path
                == local_model.path && assets.voice_path == local_voice.path,
            None => !(local_model.exists && local_voice.exists),
        },
{
    if local_model.exists && local_voice.exists {
        Some(Assets { model_path: local_model.path, voice_path: local_voice.path })
    } else {
        None
    }
}

/// The name of a voice's file in its directory.
pub fn voice_file(voice: &str) -> (r: String)
    ensures
        r@ == voice@ + ".bin"@,
{
    text::concat2(voice, ".bin")
}

/// The path of a voice's file in [`REPO`].
pub fn repo_voice_file(voice: &str) -> (r: String)
    ensures
        r@ == "voices/"@ + voice@ + ".bin"@,
{
    text::concat3("voices/", voice, ".bin")
}

impl AssetsError {
    pub open spec fn text(&self, dir: Seq<char>) -> Seq<char> {
        "split model not found in "@ + dir
            + " (need stage1.onnx + stage2.onnx).\n  run `ryk --install-assets` to fetch the bundle, or point KOKORO_TRACT_DIR at a directory that has them."@
    }

    /// The error as it is reported of a directory.
    pub fn message(&self, dir: &str) -> (r: String)
        ensures
            r@ == self.text(dir@),
    {
        text::concat3(
            "split model not found in ",
            dir,
            " (need stage1.onnx + stage2.onnx).\n  run `ryk --install-assets` to fetch the bundle, or point KOKORO_TRACT_DIR at a directory that has them.",
        )
    }
}

/// If there is a bundle anywhere, one is used: unless overridden, the directory that is
/// picked exists whenever any of the candidates does.
pub proof fn law_an_existing_bundle_is_found(
    user: Option<Place>,
    cwd: Place,
    exe: Option<Place>,
)
    requires
        (user is Some && user->0.exists) || cwd.exists || (exe is Some && exe->0.exists),
    ensures
        ({
            let dir = assets_dir(None, user, cwd, exe);
            ||| user is Some && user->0.exists && dir == user->0.path
            ||| cwd.exists && dir == cwd.path
            ||| exe is Some && exe->0.exists && dir == exe->0.path
        }),
{
}

/// The first place counts that has a bundle: the override in any case, then the user's data
/// directory, the working directory, and the one beside the executable. Without any the user's
/// data directory is named, where a bundle would be installed, and if there is none the working
/// directory.
pub proof fn law_places_are_tried_in_order(
    dir: PathBuf,
    user: Place,
    maybe_user: Option<Place>,
    cwd: Place,
    exe: Place,
    maybe_exe: Option<Place>,
)
    ensures
        assets_dir(Some(dir), maybe_user, cwd, maybe_exe) == dir,
        user.exists ==> assets_dir(None, Some(user), cwd, maybe_exe) == user.path,
        (maybe_user is Some ==> !maybe_user->0.exists) && cwd.exists ==> assets_dir(
            None,
            maybe_user,
            cwd,
            maybe_exe,
        ) == cwd.path,
        (maybe_user is Some ==> !maybe_user->0.exists) && !cwd.exists && exe.exists ==> assets_dir(
            None,
            maybe_user,
            cwd,
            Some(exe),
        ) == exe.path,
        !user.exists && !cwd.exists && (maybe_exe is Some ==> !maybe_exe->0.exists) ==> assets_dir(
            None,
            Some(user),
            cwd,
            maybe_exe,
        ) == user.path,
        !cwd.exists && (maybe_exe is Some ==> !maybe_exe->0.exists) ==> assets_dir(
            None,
            None,
            cwd,
            maybe_exe,
        ) == cwd.path,
{
}

} // verus!
