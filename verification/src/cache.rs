//! Where cached artifacts go: every cache lives in a subdirectory of one
//! cache root, so that one setting moves them all.
use vstd::prelude::*;

verus! {

/// The subdirectory of the cache root that holds compiled plugins
pub const PLUGIN_CACHE_SUBDIR: &'static str = "plugins";

/// What `Path::join` gives for `base` and `part`, as text; it follows the
/// path rules of the platform the library is built for (its separator, and
/// which paths are absolute), the same for every call in one build
pub uninterp spec fn path_join(base: Seq<char>, part: Seq<char>) -> Seq<char>;

/// `Path::new(base).join(part)`, as text
#[verifier::external_body]
pub(crate) fn join_path(base: &str, part: &str) -> (r: String)
    ensures
        r@ == path_join(base@, part@),
{
    std::path::Path::new(base).join(part).to_string_lossy().into_owned()
}

/// The directory for compiled plugins under the cache root `root`
pub fn plugin_cache_dir(root: &str) -> (r: String)
    ensures
        r@ == path_join(root@, PLUGIN_CACHE_SUBDIR@),
{
    join_path(root, PLUGIN_CACHE_SUBDIR)
}

} // verus!
