//! What is remembered between two runs.

use vstd::prelude::*;

verus! {

/// What is remembered between two runs.
#[derive(Debug)]
pub struct Cache {
    /// The geckodriver version that was installed last.
    pub geckodriver_version: Option<String>,
    /// When yt-dlp was last found up to date or installed, in seconds since the epoch.
    pub ytdlp_last_check: Option<u64>,
    /// When ffmpeg was last installed.
    pub ffmpeg_last_dl: Option<u64>,
    /// When deno was last found up to date or installed.
    pub deno_last_check: Option<u64>,
}

/// The mathematical counterpart of a `Cache`.
pub struct CacheView {
    pub geckodriver_version: Option<Seq<char>>,
    pub ytdlp_last_check: Option<u64>,
    pub ffmpeg_last_dl: Option<u64>,
    pub deno_last_check: Option<u64>,
}

impl View for Cache {
    type V = CacheView;

    open spec fn view(&self) -> CacheView {
        CacheView {
            geckodriver_version: self.geckodriver_version.deep_view(),
            ytdlp_last_check: self.ytdlp_last_check,
            ffmpeg_last_dl: self.ffmpeg_last_dl,
            deno_last_check: self.deno_last_check,
        }
    }
}

/// The cache that remembers nothing.
pub open spec fn empty_cache() -> CacheView {
    CacheView {
        geckodriver_version: None,
        ytdlp_last_check: None,
        ffmpeg_last_dl: None,
        deno_last_check: None,
    }
}

impl Default for Cache {
    fn default() -> (c: Self)
        ensures
            c@ == empty_cache(),
    {
        Cache {
            geckodriver_version: None,
            ytdlp_last_check: None,
            ffmpeg_last_dl: None,
            deno_last_check: None,
        }
    }
}

/// The cache to start with: the stored one, or an empty one if none could be read.
pub fn load_cache(stored: Option<Cache>) -> (c: Cache)
    ensures
        stored is Some ==> c == stored->Some_0,
        stored is None ==> c@ == empty_cache(),
{
    match stored {
        Some(c) => c,
        None => Cache::default(),
    }
}

// ---- Laws -------------------------------------------------------------------------

/// The contracts speak of a cache field by field, and of an empty one as one that remembers
/// nothing.
pub proof fn a_cache_is_seen_as_it_is(cache: Cache)
    ensures
        cache.geckodriver_version is None <==> cache@.geckodriver_version is None,
        cache.geckodriver_version matches Some(v) ==> cache@.geckodriver_version == Some(v@),
        cache@.ytdlp_last_check == cache.ytdlp_last_check,
        cache@.ffmpeg_last_dl == cache.ffmpeg_last_dl,
        cache@.deno_last_check == cache.deno_last_check,
        empty_cache().geckodriver_version is None,
        empty_cache().ytdlp_last_check is None,
        empty_cache().ffmpeg_last_dl is None,
        empty_cache().deno_last_check is None,
{
}

} // verus!
