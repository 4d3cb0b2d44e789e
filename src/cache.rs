//! The cache layout: where images are staged and unpacked, all derived from the
//! working directory, and how an image name becomes a directory name.
use vstd::prelude::*;
use crate::paths::{join_path, path_join};
use crate::text::{replace_text, replaced};

verus! {

/// The name of the cache directory, kept beside the workspace root.
pub open spec fn cache_segment() -> Seq<char> {
    seq!['.', 'n', 'a', 'n', 'o', 's', 'e', 'r', 'v', 'i', 'c', 'e', 's', '_', 'c', 'a', 'c', 'h', 'e']
}

/// The tag suffix that is dropped from image names.
pub open spec fn latest_tag() -> Seq<char> {
    seq![':', 'l', 'a', 't', 'e', 's', 't']
}

/// The directory name for an image: its `:latest` tag dropped, then every `/` and
/// every `:` turned into `_`.
pub open spec fn sanitized(image: Seq<char>) -> Seq<char> {
    replaced(replaced(replaced(image, latest_tag(), Seq::empty()), seq!['/'], seq!['_']), seq![':'], seq!['_'])
}

/// Turns an image name into a name that can stand as one directory in a path.
pub fn process_image_name(image_name: &str) -> (r: String)
    ensures
        r@ == sanitized(image_name@),
{
    proof {
        reveal_strlit(":latest");
        reveal_strlit("");
        reveal_strlit("/");
        reveal_strlit("_");
        reveal_strlit(":");
    }
    assert(":latest"@ =~= latest_tag());
    assert(""@ =~= Seq::<char>::empty());
    assert("/"@ =~= seq!['/']);
    assert("_"@ =~= seq!['_']);
    assert(":"@ =~= seq![':']);
    let untagged = replace_text(image_name, ":latest", "");
    let slashes = replace_text(untagged.as_str(), "/", "_");
    replace_text(slashes.as_str(), ":", "_")
}

/// `s` with each character `a` turned into `b`.
pub open spec fn swap_char(s: Seq<char>, a: char, b: char) -> Seq<char> {
    s.map_values(|c: char| if c == a { b } else { c })
}

/// Replacing a single character is a character-by-character map.
pub proof fn lemma_replace_single_char(s: Seq<char>, a: char, b: char)
    ensures
        replaced(s, seq![a], seq![b]) == swap_char(s, a, b),
    decreases s.len(),
{
    if s.len() > 0 {
        let rest = s.subrange(1, s.len() as int);
        lemma_replace_single_char(rest, a, b);
        if s[0] == a {
            assert(s.subrange(0, 1) =~= seq![a]);
        } else {
            assert(s.subrange(0, 1) != seq![a]) by {
                assert(s.subrange(0, 1)[0] != seq![a][0]);
            }
        }
        assert(replaced(s, seq![a], seq![b]) =~= swap_char(s, a, b));
    } else {
        assert(replaced(s, seq![a], seq![b]) =~= swap_char(s, a, b));
    }
}

/// Replacing text that starts with a character absent from `s` leaves `s` unchanged.
pub proof fn lemma_replace_absent(s: Seq<char>, from: Seq<char>, to: Seq<char>)
    requires
        from.len() > 0,
        !s.contains(from[0]),
    ensures
        replaced(s, from, to) == s,
    decreases s.len(),
{
    if s.len() > 0 {
        let rest = s.subrange(1, s.len() as int);
        assert(!rest.contains(from[0])) by {
            if rest.contains(from[0]) {
                let k = choose|k: int| 0 <= k < rest.len() && rest[k] == from[0];
                assert(s[k + 1] == from[0]);
            }
        }
        lemma_replace_absent(rest, from, to);
        assert(!crate::text::occurs_at(s, from, 0)) by {
            if crate::text::occurs_at(s, from, 0) {
                assert(s.subrange(0, from.len() as int)[0] == from[0]);
                assert(s.contains(s[0]));
            }
        }
        assert(seq![s[0]] + rest =~= s);
    }
}

/// For image names written without `_` and without `:` (a registry path such as
/// `org/name`), distinct names always get distinct cache directories.
pub proof fn lemma_sanitize_injective(a: Seq<char>, b: Seq<char>)
    requires
        !a.contains('_'),
        !a.contains(':'),
        !b.contains('_'),
        !b.contains(':'),
        sanitized(a) == sanitized(b),
    ensures
        a == b,
{
    lemma_replace_absent(a, latest_tag(), Seq::empty());
    lemma_replace_absent(b, latest_tag(), Seq::empty());
    lemma_replace_single_char(a, '/', '_');
    lemma_replace_single_char(b, '/', '_');
    let sa = swap_char(a, '/', '_');
    let sb = swap_char(b, '/', '_');
    assert(!sa.contains(':')) by {
        if sa.contains(':') {
            let k = choose|k: int| 0 <= k < sa.len() && sa[k] == ':';
            assert(a[k] == ':');
        }
    }
    assert(!sb.contains(':')) by {
        if sb.contains(':') {
            let k = choose|k: int| 0 <= k < sb.len() && sb[k] == ':';
            assert(b[k] == ':');
        }
    }
    lemma_replace_absent(sa, seq![':'], seq!['_']);
    lemma_replace_absent(sb, seq![':'], seq!['_']);
    assert(sa == sb);
    assert forall|k: int| 0 <= k < a.len() implies a[k] == b[k] by {
        assert(sa[k] == sb[k]);
        assert(!(a[k] == '_')) by {
            if a[k] == '_' {
                assert(a.contains('_'));
            }
        }
        assert(!(b[k] == '_')) by {
            if b[k] == '_' {
                assert(b.contains('_'));
            }
        }
    }
    assert(a =~= b);
}

/// The directories of the cache, all derived from one working directory.
pub struct CacheLayout {
    /// The working directory that everything is relative to.
    pub working_dir: String,
    /// The cache root.
    pub cache_dir: String,
    /// Where images are unpacked, one directory per sanitized image name.
    pub nanoservices_dir: String,
    /// Where image archives are staged, one entry per sanitized image name.
    pub nanoservices_tar_dir: String,
}

impl CacheLayout {
    /// Whether the directories are those that `working_dir` gives.
    pub open spec fn derived_from(&self, working_dir: Seq<char>) -> bool {
        let cache = path_join(working_dir, cache_segment());
        &&& self.working_dir@ == working_dir
        &&& self.cache_dir@ == cache
        &&& self.nanoservices_dir@ == path_join(
            path_join(cache, "domain_services"@),
            "nanoservices"@,
        )
        &&& self.nanoservices_tar_dir@ == path_join(
            path_join(cache, "domain_services_tar"@),
            "nanoservices_tar"@,
        )
    }

    /// The cache layout for a process whose working directory is `working_dir`.
    pub fn new(working_dir: &str) -> (r: CacheLayout)
        ensures
            r.derived_from(working_dir@),
    {
        proof {
            reveal_strlit(".nanoservices_cache");
        }
        assert(".nanoservices_cache"@ =~= cache_segment());
        let cache_dir = join_path(working_dir, ".nanoservices_cache");
        let services = join_path(cache_dir.as_str(), "domain_services");
        let services_tar = join_path(cache_dir.as_str(), "domain_services_tar");
        let nanoservices_dir = join_path(services.as_str(), "nanoservices");
        let nanoservices_tar_dir = join_path(services_tar.as_str(), "nanoservices_tar");
        CacheLayout {
            working_dir: crate::paths::to_owned_text(working_dir),
            cache_dir,
            nanoservices_dir,
            nanoservices_tar_dir,
        }
    }
}

} // verus!
