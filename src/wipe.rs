//! Removing the dependencies that an earlier run injected.
use vstd::prelude::*;
use crate::manifest::{
    entries_view, is_injected, keys_unique, lemma_table_map_keys, lemma_table_view, table_map,
    view_lookup, wipe_map, RawCargoToml, TomlValue, TomlView,
};
use crate::text::contains_text;

verus! {

/// The entries of a dependency table that were not injected by this tool, in order.
pub open spec fn kept_entries(t: Seq<(String, TomlValue)>) -> Seq<(String, TomlValue)>
    decreases t.len(),
{
    if t.len() == 0 {
        t
    } else if is_injected(t.last().1.view()) {
        kept_entries(t.drop_last())
    } else {
        kept_entries(t.drop_last()).push(t.last())
    }
}

/// Each kept entry is an entry of the table.
pub proof fn lemma_kept_from(t: Seq<(String, TomlValue)>)
    ensures
        forall|j: int|
            0 <= j < kept_entries(t).len() ==> exists|i: int| 0 <= i < t.len() && #[trigger] kept_entries(t)[j] == t[i],
    decreases t.len(),
{
    if t.len() > 0 {
        lemma_kept_from(t.drop_last());
        let k = kept_entries(t);
        assert forall|j: int| 0 <= j < k.len() implies exists|i: int| 0 <= i < t.len() && #[trigger] k[j] == t[i] by {
            let prev = kept_entries(t.drop_last());
            if j < prev.len() {
                let i = choose|i: int| 0 <= i < t.len() - 1 && prev[j] == t.drop_last()[i];
                assert(k[j] == t[i]);
            } else {
                assert(k[j] == t[t.len() - 1]);
            }
        }
    }
}

/// Dropping injected entries keeps keys unique, and acts on the map as `wipe_map`.
pub proof fn lemma_kept_map(t: Seq<(String, TomlValue)>)
    requires
        keys_unique(t),
    ensures
        keys_unique(kept_entries(t)),
        table_map(kept_entries(t)) == wipe_map(table_map(t)),
    decreases t.len(),
{
    if t.len() == 0 {
        assert(wipe_map(table_map(t)) =~= table_map(t));
    } else {
        let p = t.drop_last();
        let e = t.last();
        assert(keys_unique(p));
        lemma_kept_map(p);
        lemma_kept_from(p);
        lemma_table_map_keys(p, e.0@);
        assert(!table_map(p).contains_key(e.0@)) by {
            if table_map(p).contains_key(e.0@) {
                let i = choose|i: int| 0 <= i < p.len() && p[i].0@ == e.0@;
                assert(t[i].0@ == t[t.len() - 1].0@);
            }
        }
        let m = table_map(p);
        let kp = kept_entries(p);
        if is_injected(e.1.view()) {
            assert(wipe_map(m.insert(e.0@, e.1.view())) =~= wipe_map(m));
        } else {
            assert(wipe_map(m.insert(e.0@, e.1.view())) =~= wipe_map(m).insert(e.0@, e.1.view()));
            assert(kept_entries(t).drop_last() =~= kp);
            assert(keys_unique(kept_entries(t))) by {
                assert forall|a: int, b: int| 0 <= a < b < kept_entries(t).len() implies kept_entries(
                    t,
                )[a].0@ != kept_entries(t)[b].0@ by {
                    if b == kp.len() {
                        let i = choose|i: int| 0 <= i < p.len() && kp[a] == p[i];
                        assert(t[i].0@ != t[t.len() - 1].0@);
                    }
                }
            }
        }
    }
}

/// Whether a dependency value is one that this tool injected: a table whose `path`
/// names the cache directory.
pub fn is_injected_dependency(v: &TomlValue) -> (r: bool)
    ensures
        r == is_injected(v.view()),
{
    match v {
        TomlValue::Table(entries) => {
            proof {
                lemma_table_view(*entries);
                reveal_strlit("path");
                reveal_strlit(".nanoservices_cache");
            }
            let ghost ev = entries_view(entries@);
            let ghost key = seq!['p', 'a', 't', 'h'];
            assert("path"@ =~= key);
            let path_key = crate::paths::to_owned_text("path");
            let mut i: usize = entries.len();
            assert(ev.subrange(0, i as int) =~= ev);
            while i > 0
                invariant
                    i <= entries.len(),
                    ev == entries_view(entries@),
                    v.view() == TomlView::Table(ev),
                    path_key@ == key,
                    key == seq!['p', 'a', 't', 'h'],
                    view_lookup(ev, key) == view_lookup(ev.subrange(0, i as int), key),
                decreases i,
            {
                assert(ev.subrange(0, i - 1) =~= ev.subrange(0, i as int).drop_last());
                if entries[i - 1].0 == path_key {
                    assert(ev.subrange(0, i as int).last() == ev[i - 1]);
                    assert(ev[i - 1] == (entries@[i - 1].0@, entries@[i - 1].1.view()));
                    assert(ev[i - 1].0 == key);
                    assert(view_lookup(ev, key) == Some(entries@[i - 1].1.view()));
                    match &entries[i - 1].1 {
                        TomlValue::String(p) => {
                            proof {
                                reveal_strlit(".nanoservices_cache");
                            }
                            assert(".nanoservices_cache"@ =~= crate::cache::cache_segment());
                            assert(entries@[i - 1].1.view() == TomlView::Text(p@));
                            assert(view_lookup(ev, seq!['p', 'a', 't', 'h']) == Some(TomlView::Text(p@)));
                            return contains_text(p.as_str(), ".nanoservices_cache");
                        },
                        _ => {
                            assert(!(entries@[i - 1].1.view() is Text));
                            assert(view_lookup(ev, seq!['p', 'a', 't', 'h']) == Some(entries@[i - 1].1.view()));
                            return false;
                        },
                    }
                }
                i = i - 1;
            }
            false
        },
        _ => false,
    }
}

/// Removes from the dependencies every entry that this tool injected on an earlier
/// run, so that a rewrite starts from what the user wrote.
pub fn wipe_nanoservices(cargo_toml_file: &mut RawCargoToml)
    requires
        keys_unique(old(cargo_toml_file).dependencies@),
    ensures
        final(cargo_toml_file).dependencies@ == kept_entries(old(cargo_toml_file).dependencies@),
        keys_unique(final(cargo_toml_file).dependencies@),
        table_map(final(cargo_toml_file).dependencies@) == wipe_map(
            table_map(old(cargo_toml_file).dependencies@),
        ),
        final(cargo_toml_file).package == old(cargo_toml_file).package,
        final(cargo_toml_file).nanoservices == old(cargo_toml_file).nanoservices,
{
    let mut rest: Vec<(String, TomlValue)> = Vec::new();
    std::mem::swap(&mut rest, &mut cargo_toml_file.dependencies);
    let ghost all = rest@;
    let mut kept: Vec<(String, TomlValue)> = Vec::new();
    assert(all.subrange(0, 0) =~= Seq::<(String, TomlValue)>::empty());
    while rest.len() > 0
        invariant
            rest@.len() <= all.len(),
            rest@ == all.subrange(all.len() - rest@.len(), all.len() as int),
            kept@ == kept_entries(all.subrange(0, all.len() - rest@.len())),
        decreases rest@.len(),
    {
        let ghost done = all.len() - rest@.len();
        let e = rest.remove(0);
        assert(e == all[done]);
        assert(all.subrange(0, done + 1).drop_last() =~= all.subrange(0, done));
        assert(rest@ =~= all.subrange(done + 1, all.len() as int));
        if !is_injected_dependency(&e.1) {
            kept.push(e);
        }
    }
    assert(all.subrange(0, all.len() as int) =~= all);
    proof {
        lemma_kept_map(all);
    }
    cargo_toml_file.dependencies = kept;
}

} // verus!
