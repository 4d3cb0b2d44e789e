//! Choosing the manifests among the entries of a directory walk.
use vstd::prelude::*;
use vstd::string::*;
use crate::cache::cache_segment;
use crate::manifest::strings_view;
use crate::paths::{has_path_prefix, last_separator, to_owned_text};

verus! {

/// The file name of a manifest.
pub open spec fn manifest_name() -> Seq<char> {
    seq!['C', 'a', 'r', 'g', 'o', '.', 't', 'o', 'm', 'l']
}

/// The last component of a path.
pub open spec fn file_name(p: Seq<char>) -> Seq<char> {
    p.subrange(last_separator(p) + 1, p.len() as int)
}

/// Whether a path (relative to the walked root) names a manifest.
pub open spec fn is_manifest(p: Seq<char>) -> bool {
    file_name(p) == manifest_name()
}

/// Whether a path (relative to the walked root) lies inside the cache directory.
pub open spec fn in_cache(p: Seq<char>) -> bool {
    has_path_prefix(p, cache_segment())
}

/// The manifests among the walked paths, in walk order; those inside the cache only
/// when `include_cache` holds.
pub open spec fn selected(paths: Seq<Seq<char>>, include_cache: bool) -> Seq<Seq<char>>
    decreases paths.len(),
{
    if paths.len() == 0 {
        paths
    } else {
        let prev = selected(paths.drop_last(), include_cache);
        let p = paths.last();
        if is_manifest(p) && (include_cache || !in_cache(p)) {
            prev.push(p)
        } else {
            prev
        }
    }
}

/// The last component of `p`.
pub fn file_name_of(p: &str) -> (r: String)
    ensures
        r@ == file_name(p@),
{
    let n = p.unicode_len();
    let mut i: usize = n;
    assert(p@.subrange(0, n as int) =~= p@);
    while i > 0 && p.get_char(i - 1) != '/'
        invariant
            n == p@.len(),
            i <= n,
            last_separator(p@) == last_separator(p@.subrange(0, i as int)),
        decreases i,
    {
        assert(p@.subrange(0, i - 1) =~= p@.subrange(0, i as int).drop_last());
        i = i - 1;
    }
    proof {
        if i == 0 {
            assert(p@.subrange(0, 0) =~= Seq::<char>::empty());
        } else {
            assert(p@.subrange(0, i as int).last() == '/');
        }
    }
    to_owned_text(p.substring_char(i, n))
}

/// Whether an entry of a directory walk is a manifest.
pub fn is_cargo_toml(entry: &str) -> (r: bool)
    ensures
        r == is_manifest(entry@),
{
    proof {
        reveal_strlit("Cargo.toml");
    }
    let name = file_name_of(entry);
    let expected = to_owned_text("Cargo.toml");
    assert(expected@ =~= manifest_name());
    name == expected
}

/// Whether a walked path lies inside the cache directory.
pub fn is_in_cache(p: &str) -> (r: bool)
    ensures
        r == in_cache(p@),
{
    proof {
        reveal_strlit(".nanoservices_cache");
    }
    let base = ".nanoservices_cache";
    assert(base@ =~= cache_segment());
    let n = p.unicode_len();
    let m = base.unicode_len();
    if m > n || !crate::text::occurs_at_index(p, base, 0) {
        return false;
    }
    m == n || base.get_char(m - 1) == '/' || p.get_char(m) == '/'
}

/// The manifests among the entries of a walk (paths relative to its root), leaving out
/// those inside the cache when `include_cache` is false.
pub fn find_all_cargos_interface(entries: &Vec<String>, include_cache: bool) -> (r: Vec<String>)
    ensures
        strings_view(r@) == selected(strings_view(entries@), include_cache),
{
    let mut out: Vec<String> = Vec::new();
    let mut i: usize = 0;
    assert(strings_view(entries@).subrange(0, 0) =~= Seq::<Seq<char>>::empty());
    assert(strings_view(out@) =~= Seq::<Seq<char>>::empty());
    while i < entries.len()
        invariant
            i <= entries.len(),
            strings_view(out@) == selected(strings_view(entries@).subrange(0, i as int), include_cache),
        decreases entries.len() - i,
    {
        let ghost all = strings_view(entries@);
        assert(all.subrange(0, i + 1).drop_last() =~= all.subrange(0, i as int));
        assert(all.subrange(0, i + 1).last() == entries@[i as int]@);
        let e = &entries[i];
        if is_cargo_toml(e.as_str()) && (include_cache || !is_in_cache(e.as_str())) {
            let ghost before = out@;
            out.push(e.clone());
            assert(strings_view(out@) =~= strings_view(before).push(entries@[i as int]@));
        }
        i = i + 1;
    }
    assert(strings_view(entries@).subrange(0, i as int) =~= strings_view(entries@));
    out
}

/// The manifests among the entries of a walk, outside the cache.
pub fn find_all_cargos(entries: &Vec<String>) -> (r: Vec<String>)
    ensures
        strings_view(r@) == selected(strings_view(entries@), false),
{
    find_all_cargos_interface(entries, false)
}

/// The manifests among the entries of a walk, the cache included.
pub fn find_all_cargos_inc_cache(entries: &Vec<String>) -> (r: Vec<String>)
    ensures
        strings_view(r@) == selected(strings_view(entries@), true),
{
    find_all_cargos_interface(entries, true)
}

/// A path is chosen exactly when it was walked, names a manifest, and lies outside the
/// cache unless the cache is included.
pub proof fn lemma_selected_contains(paths: Seq<Seq<char>>, include_cache: bool, p: Seq<char>)
    ensures
        selected(paths, include_cache).contains(p) == (paths.contains(p) && is_manifest(p) && (include_cache
            || !in_cache(p))),
    decreases paths.len(),
{
    if paths.len() > 0 {
        let prev = paths.drop_last();
        lemma_selected_contains(prev, include_cache, p);
        let s = selected(paths, include_cache);
        if paths.contains(p) && paths.last() != p {
            let i = choose|i: int| 0 <= i < paths.len() && paths[i] == p;
            assert(prev[i] == p);
        }
        if prev.contains(p) {
            let i = choose|i: int| 0 <= i < prev.len() && prev[i] == p;
            assert(paths[i] == p);
        }
        if paths.last() == p {
            assert(paths[paths.len() - 1] == p);
        }
        let sp = selected(prev, include_cache);
        if s != sp {
            assert(s == sp.push(paths.last()));
            if sp.contains(p) {
                let j = choose|j: int| 0 <= j < sp.len() && sp[j] == p;
                assert(s[j] == p);
            }
            if s.contains(p) && paths.last() != p {
                let j = choose|j: int| 0 <= j < s.len() && s[j] == p;
                assert(sp[j] == p);
            }
            if paths.last() == p {
                assert(s[s.len() - 1] == p);
            }
        }
    }
}

/// A walked manifest inside the cache is left out of a scan that excludes the cache
/// and found by one that includes it.
pub proof fn lemma_scan_cache_exclusion(paths: Seq<Seq<char>>, p: Seq<char>)
    requires
        paths.contains(p),
        is_manifest(p),
        in_cache(p),
    ensures
        !selected(paths, false).contains(p),
        selected(paths, true).contains(p),
{
    lemma_selected_contains(paths, false, p);
    lemma_selected_contains(paths, true, p);
}

} // verus!
