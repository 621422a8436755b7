//! The voices that the daemon has used before.

use std::path::PathBuf;
use crate::kokoro::assets::Place;
use vstd::hash_map::StringHashMap;
use vstd::prelude::*;

verus! {

/// `PathBuf::clone` gives the same path.
pub assume_specification[ <PathBuf as Clone>::clone ](path: &PathBuf) -> (r: PathBuf)
    ensures
        r == *path,
;

/// The file of every voice that was asked for.
pub struct VoiceCache {
    paths: StringHashMap<PathBuf>,
}

impl View for VoiceCache {
    type V = Map<Seq<char>, PathBuf>;

    closed spec fn view(&self) -> Map<Seq<char>, PathBuf> {
        self.paths@
    }
}

/// Where a voice is.
pub enum VoiceStep {
    /// In this file.
    Known(PathBuf),
    /// The bundle doesn't carry it; it has to be fetched, and then remembered.
    Fetch,
}

impl VoiceCache {
    pub fn new() -> (r: VoiceCache)
        ensures
            r@ == Map::<Seq<char>, PathBuf>::empty(),
    {
        VoiceCache { paths: StringHashMap::new() }
    }

    /// Remembers the file of a voice.
    pub fn remember(&mut self, voice: &str, path: PathBuf)
        ensures
            final(self)@ == old(self)@.insert(voice@, path),
    {
        self.paths.insert(voice.to_string(), path);
    }
}

/// The voice file for `voice`, cached. Prefers the daemon's bundle, where `local` is; only a
/// voice that the bundle doesn't carry is fetched.
pub fn resolve_voice(cache: &mut VoiceCache, voice: &str, local: Place) -> (r: VoiceStep)
    ensures
        match r {
            VoiceStep::Known(path) => if old(cache)@.contains_key(voice@) {
                path == old(cache)@[voice@] && final(cache)@ == old(cache)@
            } else {
                local.exists && path == local.path && final(cache)@ == old(cache)@.insert(
                    voice@,
                    path,
                )
            },
            VoiceStep::Fetch => !old(cache)@.contains_key(voice@) && !local.exists && final(cache)@
                == old(cache)@,
        },
{
    if let Some(path) = cache.paths.get(voice) {
        return VoiceStep::Known(path.clone());
    }
    if local.exists {
        let path: PathBuf = local.path.clone();
        cache.remember(voice, local.path);
        VoiceStep::Known(path)
    } else {
        VoiceStep::Fetch
    }
}

} // verus!
