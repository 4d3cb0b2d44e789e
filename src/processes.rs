//! One pass of the fixpoint (which manifests are new, which images to fetch, how each
//! manifest is rewritten) and the state machine that decides when the passes end.
use vstd::prelude::*;
use crate::cache::CacheLayout;
use crate::collect::{
    declared_in, deps_unique, get_all_nanoservices, has_declaration, plan_for, ManifestPlan,
};
use crate::configure::{config_cargo, declaration_views, declared_entries, rewrite_map};
use crate::error::ForgeError;
use crate::manifest::{
    keys_unique, strings_view, table_map, CargoToml, NanoView, Nanoservice, RawCargoToml,
};

verus! {

/// Whether `v` holds no text twice.
pub open spec fn no_repeats(v: Seq<String>) -> bool {
    forall|a: int, b: int| 0 <= a < b < v.len() ==> v[a]@ != v[b]@
}

/// Whether `v` holds exactly the texts of `s`, each once.
pub open spec fn lists_exactly(v: Seq<String>, s: Set<Seq<char>>) -> bool {
    &&& no_repeats(v)
    &&& forall|x: Seq<char>| #[trigger] strings_view(v).contains(x) == s.contains(x)
}

/// The images that a set of declarations names.
pub open spec fn images_of(ds: Set<(Seq<char>, NanoView)>) -> Set<Seq<char>> {
    Set::new(|x: Seq<char>| exists|d: (Seq<char>, NanoView)| #[trigger] ds.contains(d) && d.1.dev_image == x)
}

/// The images to fetch for a set of declarations: those named by a declaration that is
/// not marked local, and not fetched before.
pub open spec fn downloads_of(ds: Set<(Seq<char>, NanoView)>, existing: Seq<Seq<char>>) -> Set<Seq<char>> {
    Set::new(
        |x: Seq<char>|
            (exists|d: (Seq<char>, NanoView)|
                #[trigger] ds.contains(d) && d.1.dev_image == x && d.1.local != Some(true))
                && !existing.contains(x),
    )
}

/// An image a pass fetches is one it names and one no earlier pass fetched; since the
/// images a pass names join the run's fetched images, each image is fetched at most
/// once per run.
pub proof fn lemma_downloads_fresh(ds: Set<(Seq<char>, NanoView)>, existing: Seq<Seq<char>>, x: Seq<char>)
    requires
        downloads_of(ds, existing).contains(x),
    ensures
        images_of(ds).contains(x),
        !existing.contains(x),
{
    let d = choose|d: (Seq<char>, NanoView)| #[trigger] ds.contains(d) && d.1.dev_image == x && d.1.local != Some(true);
    assert(ds.contains(d) && d.1.dev_image == x);
}

/// The paths of `scanned` that are not in `existing`, in order.
pub open spec fn unseen(scanned: Seq<Seq<char>>, existing: Seq<Seq<char>>) -> Seq<Seq<char>>
    decreases scanned.len(),
{
    if scanned.len() == 0 {
        scanned
    } else if existing.contains(scanned.last()) {
        unseen(scanned.drop_last(), existing)
    } else {
        unseen(scanned.drop_last(), existing).push(scanned.last())
    }
}

/// Whether `v` holds the text `s`.
pub fn holds_text(v: &Vec<String>, s: &String) -> (r: bool)
    ensures
        r == strings_view(v@).contains(s@),
{
    let mut i: usize = 0;
    while i < v.len()
        invariant
            i <= v.len(),
            forall|j: int| 0 <= j < i ==> v@[j]@ != s@,
        decreases v.len() - i,
    {
        if v[i] == *s {
            assert(strings_view(v@)[i as int] == s@);
            return true;
        }
        i = i + 1;
    }
    assert forall|j: int| 0 <= j < strings_view(v@).len() implies strings_view(v@)[j] != s@ by {
        assert(strings_view(v@)[j] == v@[j]@);
    }
    false
}

/// Appends `s` to `v` unless `v` holds it.
fn push_once(v: &mut Vec<String>, s: &String)
    requires
        no_repeats(old(v)@),
    ensures
        no_repeats(final(v)@),
        forall|x: Seq<char>| #[trigger] strings_view(final(v)@).contains(x) == (strings_view(old(v)@).contains(x) || x == s@),
{
    if holds_text(v, s) {
        return;
    }
    let ghost before = v@;
    v.push(s.clone());
    assert(strings_view(v@) =~= strings_view(before).push(s@));
    assert forall|x: Seq<char>| #[trigger] strings_view(v@).contains(x) == (strings_view(before).contains(x) || x == s@) by {
        if strings_view(v@).contains(x) && x != s@ {
            let k = choose|k: int| 0 <= k < strings_view(v@).len() && strings_view(v@)[k] == x;
            assert(strings_view(before)[k] == x);
        }
        if strings_view(before).contains(x) {
            let k = choose|k: int| 0 <= k < strings_view(before).len() && strings_view(before)[k] == x;
            assert(strings_view(v@)[k] == x);
        }
        if x == s@ {
            assert(strings_view(v@)[before.len() as int] == x);
        }
    }
    assert forall|a: int, b: int| 0 <= a < b < v@.len() implies v@[a]@ != v@[b]@ by {
        if b == before.len() {
            assert(strings_view(before)[a] == v@[a]@);
        } else {
            assert(v@[a] == before[a] && v@[b] == before[b]);
        }
    }
}

/// The manifests of a scan that no earlier pass of this run has seen, in scan order.
pub fn get_nanoservices_once(scanned: &Vec<String>, existing_tomls: &Vec<String>) -> (r: Vec<String>)
    ensures
        strings_view(r@) == unseen(strings_view(scanned@), strings_view(existing_tomls@)),
{
    let mut out: Vec<String> = Vec::new();
    let mut i: usize = 0;
    let ghost all = strings_view(scanned@);
    let ghost old_ones = strings_view(existing_tomls@);
    assert(all.subrange(0, 0) =~= Seq::<Seq<char>>::empty());
    assert(strings_view(out@) =~= Seq::<Seq<char>>::empty());
    while i < scanned.len()
        invariant
            i <= scanned.len(),
            all == strings_view(scanned@),
            old_ones == strings_view(existing_tomls@),
            strings_view(out@) == unseen(all.subrange(0, i as int), old_ones),
        decreases scanned.len() - i,
    {
        assert(all.subrange(0, i + 1).drop_last() =~= all.subrange(0, i as int));
        assert(all.subrange(0, i + 1).last() == scanned@[i as int]@);
        if !holds_text(existing_tomls, &scanned[i]) {
            let ghost before = out@;
            out.push(scanned[i].clone());
            assert(strings_view(out@) =~= strings_view(before).push(scanned@[i as int]@));
        }
        i = i + 1;
    }
    assert(all.subrange(0, i as int) =~= all);
    out
}

/// A path that an earlier pass saw is never handed to a later one, so each manifest is
/// rewritten at most once per run.
pub proof fn lemma_unseen_excludes(scanned: Seq<Seq<char>>, existing: Seq<Seq<char>>, p: Seq<char>)
    ensures
        unseen(scanned, existing).contains(p) == (scanned.contains(p) && !existing.contains(p)),
    decreases scanned.len(),
{
    if scanned.len() > 0 {
        let prev = scanned.drop_last();
        lemma_unseen_excludes(prev, existing, p);
        let u = unseen(scanned, existing);
        let up = unseen(prev, existing);
        if scanned.contains(p) && scanned.last() != p {
            let i = choose|i: int| 0 <= i < scanned.len() && scanned[i] == p;
            assert(prev[i] == p);
        }
        if prev.contains(p) {
            let i = choose|i: int| 0 <= i < prev.len() && prev[i] == p;
            assert(scanned[i] == p);
        }
        if scanned.last() == p {
            assert(scanned[scanned.len() - 1] == p);
        }
        if u != up {
            if up.contains(p) {
                let j = choose|j: int| 0 <= j < up.len() && up[j] == p;
                assert(u[j] == p);
            }
            if u.contains(p) && scanned.last() != p {
                let j = choose|j: int| 0 <= j < u.len() && u[j] == p;
                assert(up[j] == p);
            }
            if scanned.last() == p {
                assert(u[u.len() - 1] == p);
            }
        }
    }
}

/// The images a pass names, and those of them it fetches.
pub struct InstallPlan {
    /// The images to fetch, each once.
    pub downloads: Vec<String>,
    /// Every image that the pass's declarations name, each once.
    pub images: Vec<String>,
}

/// Decides which images a pass fetches: every image named by a declaration that is
/// not marked local, unless an earlier pass of the run fetched it.
pub fn install_nanoservices_once(
    all_nanoservices: &Vec<(String, Nanoservice)>,
    existing_nanoservices: &Vec<String>,
) -> (r: InstallPlan)
    ensures
        lists_exactly(
            r.images@,
            images_of(Set::new(|d: (Seq<char>, NanoView)| has_declaration(all_nanoservices@, d))),
        ),
        lists_exactly(
            r.downloads@,
            downloads_of(
                Set::new(|d: (Seq<char>, NanoView)| has_declaration(all_nanoservices@, d)),
                strings_view(existing_nanoservices@),
            ),
        ),
{
    let ghost ds = Set::new(|d: (Seq<char>, NanoView)| has_declaration(all_nanoservices@, d));
    let mut images: Vec<String> = Vec::new();
    let mut downloads: Vec<String> = Vec::new();
    let mut i: usize = 0;
    while i < all_nanoservices.len()
        invariant
            i <= all_nanoservices.len(),
            no_repeats(images@),
            no_repeats(downloads@),
            forall|x: Seq<char>| #[trigger] strings_view(images@).contains(x) == exists|k: int|
                0 <= k < i && all_nanoservices@[k].1.dev_image@ == x,
            forall|x: Seq<char>| #[trigger] strings_view(downloads@).contains(x) == ((exists|k: int|
                0 <= k < i && all_nanoservices@[k].1.dev_image@ == x && all_nanoservices@[k].1.local != Some(true))
                && !strings_view(existing_nanoservices@).contains(x)),
        decreases all_nanoservices.len() - i,
    {
        let n = &all_nanoservices[i].1;
        push_once(&mut images, &n.dev_image);
        let local = match n.local {
            Some(v) => v,
            None => false,
        };
        if !local && !holds_text(existing_nanoservices, &n.dev_image) {
            push_once(&mut downloads, &n.dev_image);
        }
        i = i + 1;
    }
    assert forall|x: Seq<char>| #[trigger] images_of(ds).contains(x) == exists|k: int|
        0 <= k < all_nanoservices@.len() && all_nanoservices@[k].1.dev_image@ == x by {
        if images_of(ds).contains(x) {
            let d = choose|d: (Seq<char>, NanoView)| #[trigger] ds.contains(d) && d.1.dev_image == x;
            let k = choose|k: int| 0 <= k < all_nanoservices@.len() && crate::collect::declaration_view(all_nanoservices@[k]) == d;
        }
        if exists|k: int| 0 <= k < all_nanoservices@.len() && all_nanoservices@[k].1.dev_image@ == x {
            let k = choose|k: int| 0 <= k < all_nanoservices@.len() && all_nanoservices@[k].1.dev_image@ == x;
            let d = crate::collect::declaration_view(all_nanoservices@[k]);
            assert(ds.contains(d));
        }
    }
    assert forall|x: Seq<char>| #[trigger] downloads_of(ds, strings_view(existing_nanoservices@)).contains(x) == ((exists|k: int|
        0 <= k < all_nanoservices@.len() && all_nanoservices@[k].1.dev_image@ == x && all_nanoservices@[k].1.local != Some(true))
        && !strings_view(existing_nanoservices@).contains(x)) by {
        if downloads_of(ds, strings_view(existing_nanoservices@)).contains(x) {
            let d = choose|d: (Seq<char>, NanoView)| #[trigger] ds.contains(d) && d.1.dev_image == x && d.1.local != Some(true);
            let k = choose|k: int| 0 <= k < all_nanoservices@.len() && crate::collect::declaration_view(all_nanoservices@[k]) == d;
        }
        if exists|k: int| 0 <= k < all_nanoservices@.len() && all_nanoservices@[k].1.dev_image@ == x && all_nanoservices@[k].1.local != Some(true) {
            let k = choose|k: int| 0 <= k < all_nanoservices@.len() && all_nanoservices@[k].1.dev_image@ == x && all_nanoservices@[k].1.local != Some(true);
            let d = crate::collect::declaration_view(all_nanoservices@[k]);
            assert(ds.contains(d));
        }
    }
    InstallPlan { downloads, images }
}

/// Whether a plan can go to the rewriter: a manifest to rewrite has unique dependency
/// keys and its declarations.
pub open spec fn plan_ready(plan: ManifestPlan) -> bool {
    match plan {
        ManifestPlan::Declared(raw) => keys_unique(raw.dependencies@) && raw.nanoservices is Some,
        _ => true,
    }
}

/// The failure of rewriting a manifest by its plan, if any.
pub open spec fn plan_error(plan: ManifestPlan, path: Seq<char>, layout: CacheLayout) -> Option<ForgeError> {
    match plan {
        ManifestPlan::Declared(raw) => match declared_entries(
            declaration_views(raw.nanoservices->0@),
            path,
            layout.nanoservices_dir@,
            layout.working_dir@,
        ) {
            Err(e) => Some(e),
            Ok(_) => None,
        },
        _ => None,
    }
}

/// Whether `out` is what is written for the manifest at `path` under its plan: nothing
/// for a skipped one, the manifest as it stands for one to flush, and the rewritten
/// manifest for one with declarations.
pub open spec fn write_for(out: Option<RawCargoToml>, plan: ManifestPlan, path: Seq<char>, layout: CacheLayout) -> bool {
    match plan {
        ManifestPlan::Skip => out is None,
        ManifestPlan::Flush(raw) => out == Some(raw),
        ManifestPlan::Declared(raw) => match declared_entries(
            declaration_views(raw.nanoservices->0@),
            path,
            layout.nanoservices_dir@,
            layout.working_dir@,
        ) {
            Ok(es) => out is Some && keys_unique(out->0.dependencies@) && table_map(out->0.dependencies@)
                == rewrite_map(table_map(raw.dependencies@), es) && out->0.package == raw.package
                && out->0.nanoservices == raw.nanoservices,
            Err(_) => false,
        },
    }
}

/// A copy of a list of declarations.
fn copy_declarations(v: &Vec<(String, Nanoservice)>) -> (r: Vec<(String, Nanoservice)>)
    ensures
        declaration_views(r@) == declaration_views(v@),
{
    let mut out: Vec<(String, Nanoservice)> = Vec::new();
    let mut i: usize = 0;
    while i < v.len()
        invariant
            i <= v.len(),
            out@.len() == i,
            forall|j: int| 0 <= j < i ==> out@[j].0@ == v@[j].0@ && out@[j].1.view() == v@[j].1.view(),
        decreases v.len() - i,
    {
        out.push((v[i].0.clone(), v[i].1.copy_declaration()));
        i = i + 1;
    }
    assert(declaration_views(out@) =~= declaration_views(v@));
    out
}

/// Rewrites the manifests of one pass by their plans, in order; the first manifest
/// whose rewrite fails ends the pass.
pub fn config_nanoservices_once(
    plans: Vec<(String, ManifestPlan)>,
    layout: &CacheLayout,
) -> (r: Result<Vec<(String, Option<RawCargoToml>)>, ForgeError>)
    requires
        forall|i: int| 0 <= i < plans.len() ==> #[trigger] plan_ready(plans@[i].1),
    ensures
        r matches Ok(out) ==> out@.len() == plans@.len() && forall|i: int|
            0 <= i < plans@.len() ==> #[trigger] out@[i].0@ == plans@[i].0@ && write_for(
                out@[i].1,
                plans@[i].1,
                plans@[i].0@,
                *layout,
            ),
        r matches Err(e) ==> exists|i: int|
            0 <= i < plans@.len() && #[trigger] plan_error(plans@[i].1, plans@[i].0@, *layout) == Some(e),
        (forall|i: int| 0 <= i < plans@.len() ==> #[trigger] plan_error(plans@[i].1, plans@[i].0@, *layout) is None)
            ==> r is Ok,
{
    let ghost input = plans@;
    let mut out: Vec<(String, Option<RawCargoToml>)> = Vec::new();
    let mut rest = plans;
    while rest.len() > 0
        invariant
            input == plans@,
            rest@.len() <= input.len(),
            rest@ == input.subrange(input.len() - rest@.len(), input.len() as int),
            out@.len() == input.len() - rest@.len(),
            forall|i: int| 0 <= i < input.len() ==> #[trigger] plan_ready(input[i].1),
            forall|i: int|
                0 <= i < out@.len() ==> #[trigger] out@[i].0@ == input[i].0@ && write_for(
                    out@[i].1,
                    input[i].1,
                    input[i].0@,
                    *layout,
                ),
        decreases rest@.len(),
    {
        let ghost done = out@.len() as int;
        let (path, plan) = rest.remove(0);
        assert((path, plan) == input[done]);
        assert(rest@ =~= input.subrange(done + 1, input.len() as int));
        assert(plan_ready(input[done].1));
        let written = match plan {
            ManifestPlan::Skip => None,
            ManifestPlan::Flush(raw) => Some(raw),
            ManifestPlan::Declared(raw) => {
                let nanos = match &raw.nanoservices {
                    Some(ns) => copy_declarations(ns),
                    None => {
                        assert(false);
                        Vec::new()
                    },
                };
                match config_cargo(
                    raw,
                    nanos,
                    layout.nanoservices_dir.as_str(),
                    path.as_str(),
                    layout.working_dir.as_str(),
                ) {
                    Ok(m) => Some(m),
                    Err(e) => {
                        assert(plan_error(input[done].1, input[done].0@, *layout) == Some(e));
                        return Err(e);
                    },
                }
            },
        };
        out.push((path, written));
    }
    Ok(out)
}

/// Removing injected entries twice removes no more than once.
pub proof fn lemma_wipe_idempotent(m: Map<Seq<char>, crate::manifest::TomlView>)
    ensures
        crate::manifest::wipe_map(crate::manifest::wipe_map(m)) == crate::manifest::wipe_map(m),
{
    assert(crate::manifest::wipe_map(crate::manifest::wipe_map(m)) =~= crate::manifest::wipe_map(m));
}

/// Whether `out` is what a pass writes for the manifest `c` found at `path`: nothing
/// when it lacks a package or dependencies; without its stale injected dependencies
/// when it declares nothing; rewritten with its declarations otherwise.
pub open spec fn pass_write(out: Option<RawCargoToml>, c: CargoToml, path: Seq<char>, layout: CacheLayout) -> bool {
    if !crate::collect::has_raw(c) {
        out is None
    } else if !crate::collect::declares(c) {
        out is Some && Some(out->0.package) == c.package && out->0.nanoservices == c.nanoservices
            && keys_unique(out->0.dependencies@) && table_map(out->0.dependencies@)
            == crate::manifest::wipe_map(table_map(c.dependencies->0@))
    } else {
        match declared_entries(declaration_views(c.nanoservices->0@), path, layout.nanoservices_dir@, layout.working_dir@) {
            Ok(es) => out is Some && Some(out->0.package) == c.package && out->0.nanoservices == c.nanoservices
                && keys_unique(out->0.dependencies@) && table_map(out->0.dependencies@)
                == rewrite_map(table_map(c.dependencies->0@), es),
            Err(_) => false,
        }
    }
}

/// The failure of rewriting the manifest `c` found at `path`, if any.
pub open spec fn manifest_error(c: CargoToml, path: Seq<char>, layout: CacheLayout) -> Option<ForgeError> {
    if crate::collect::declares(c) {
        match declared_entries(declaration_views(c.nanoservices->0@), path, layout.nanoservices_dir@, layout.working_dir@) {
            Err(e) => Some(e),
            Ok(_) => None,
        }
    } else {
        None
    }
}

/// What one pass does: the images it fetches, every image it names, and what it
/// writes for each manifest.
pub struct PassPlan {
    pub downloads: Vec<String>,
    pub images: Vec<String>,
    pub writes: Vec<(String, Option<RawCargoToml>)>,
}

/// The decisions of one pass over the new manifests that it read: which images to
/// fetch (those named by a declaration not marked local and not fetched earlier in the
/// run) and what to write back for each manifest.
pub fn prep_nanoservices_once(
    cargo_files: Vec<(String, CargoToml)>,
    existing_nanoservices: &Vec<String>,
    layout: &CacheLayout,
) -> (r: Result<PassPlan, ForgeError>)
    requires
        forall|i: int| 0 <= i < cargo_files.len() ==> #[trigger] deps_unique(cargo_files@[i].1),
    ensures
        r matches Ok(p) ==> {
            &&& lists_exactly(p.images@, images_of(Set::new(|d: (Seq<char>, NanoView)| declared_in(cargo_files@, d))))
            &&& lists_exactly(
                p.downloads@,
                downloads_of(
                    Set::new(|d: (Seq<char>, NanoView)| declared_in(cargo_files@, d)),
                    strings_view(existing_nanoservices@),
                ),
            )
            &&& p.writes@.len() == cargo_files@.len()
            &&& forall|i: int|
                0 <= i < cargo_files@.len() ==> #[trigger] p.writes@[i].0@ == cargo_files@[i].0@ && pass_write(
                    p.writes@[i].1,
                    cargo_files@[i].1,
                    cargo_files@[i].0@,
                    *layout,
                )
        },
        r matches Err(e) ==> exists|i: int|
            0 <= i < cargo_files@.len() && #[trigger] manifest_error(cargo_files@[i].1, cargo_files@[i].0@, *layout)
                == Some(e),
        (forall|i: int|
            0 <= i < cargo_files@.len() ==> #[trigger] manifest_error(cargo_files@[i].1, cargo_files@[i].0@, *layout)
                is None) ==> r is Ok,
{
    let ghost input = cargo_files@;
    let collected = get_all_nanoservices(cargo_files);
    let install = install_nanoservices_once(&collected.all_nanoservices, existing_nanoservices);
    let ghost plans = collected.plans@;
    assert(Set::new(|d: (Seq<char>, NanoView)| has_declaration(collected.all_nanoservices@, d)) =~= Set::new(
        |d: (Seq<char>, NanoView)| declared_in(input, d),
    ));
    assert forall|i: int| 0 <= i < plans.len() implies #[trigger] plan_ready(plans[i].1) by {
        assert(plans[i].0@ == input[i].0@ && plan_for(plans[i].1, input[i].1));
    }
    assert(plans.len() == input.len());
    assert forall|i: int| 0 <= i < plans.len() implies plans[i].0@ == input[i].0@ && #[trigger] plan_for(
        plans[i].1,
        input[i].1,
    ) by {
        assert(plans[i].0@ == input[i].0@ && plan_for(plans[i].1, input[i].1));
    }
    assert forall|i: int| 0 <= i < plans.len() implies #[trigger] plan_error(plans[i].1, plans[i].0@, *layout)
        == manifest_error(input[i].1, input[i].0@, *layout) by {
        assert(plans[i].0@ == input[i].0@ && plan_for(plans[i].1, input[i].1));
    }
    let writes = match config_nanoservices_once(collected.plans, layout) {
        Ok(w) => w,
        Err(e) => {
            proof {
                let i = choose|i: int| 0 <= i < plans.len() && #[trigger] plan_error(plans[i].1, plans[i].0@, *layout) == Some(e);
                assert(manifest_error(input[i].1, input[i].0@, *layout) == Some(e));
            }
            return Err(e);
        },
    };
    assert forall|i: int| 0 <= i < plans.len() implies #[trigger] writes@[i].0@ == input[i].0@ && pass_write(
        writes@[i].1,
        input[i].1,
        input[i].0@,
        *layout,
    ) by {
        assert(plan_for(plans[i].1, input[i].1));
        assert(writes@[i].0@ == plans[i].0@ && write_for(writes@[i].1, plans[i].1, plans[i].0@, *layout));
        lemma_wipe_idempotent(table_map(input[i].1.dependencies->0@));
    }
    Ok(PassPlan { downloads: install.downloads, images: install.images, writes })
}

/// The commands that run passes until no new manifest turns up.
#[derive(Debug, Clone, Copy, PartialEq, Eq, Structural)]
pub enum Command {
    /// Fetch the images and rewrite the manifests.
    Prep,
    /// Fetch the images only.
    Install,
    /// Rewrite the manifests only, with images fetched before.
    Config,
}

/// How the next pass scans.
#[derive(Debug, Clone, Copy, PartialEq, Eq)]
pub struct PassRequest {
    /// Wipe and recreate the cache before scanning.
    pub wipe_cache: bool,
    /// Scan inside the cache too.
    pub include_cache: bool,
}

/// The state of a run: what earlier passes saw and fetched, how many passes found
/// work, and whether the run is over.
pub struct Fixpoint {
    pub command: Command,
    /// The manifests handled by earlier passes.
    pub seen_manifests: Vec<String>,
    /// The images named by earlier passes.
    pub fetched_images: Vec<String>,
    /// The passes that were followed by another.
    pub passes: usize,
    /// Whether the last pass found no new manifest.
    pub finished: bool,
}

/// The count of passes and whether the run is over, after a pass that found `found`
/// new manifests. The first pass is always followed by one that also scans the cache;
/// after that, the run ends at the first pass that finds nothing new.
pub open spec fn step(passes: nat, found: nat) -> (nat, bool) {
    if passes == 0 {
        (1, false)
    } else if found == 0 {
        (passes, true)
    } else {
        (passes + 1, false)
    }
}

/// The count of passes and whether the run is over, after passes that found the
/// given numbers of new manifests.
pub open spec fn run_outcome(found: Seq<nat>) -> (nat, bool)
    decreases found.len(),
{
    if found.len() == 0 {
        (0, false)
    } else {
        let (p, done) = run_outcome(found.drop_last());
        if done {
            (p, done)
        } else {
            step(p, found.last())
        }
    }
}

/// A run starting for `command`.
fn start_run(command: Command) -> (r: Fixpoint)
    ensures
        r.command == command,
        r.seen_manifests@.len() == 0,
        r.fetched_images@.len() == 0,
        r.passes == 0,
        !r.finished,
{
    Fixpoint { command, seen_manifests: Vec::new(), fetched_images: Vec::new(), passes: 0, finished: false }
}

/// The start of a run of the prep command: fetch every image and rewrite every
/// manifest, pass after pass, until no new manifest turns up.
pub fn recursive_prep_nanoservices() -> (r: Fixpoint)
    ensures
        r.command == Command::Prep,
        r.seen_manifests@.len() == 0,
        r.fetched_images@.len() == 0,
        r.passes == 0,
        !r.finished,
{
    start_run(Command::Prep)
}

/// The start of a run of the install command: fetch every image, pass after pass.
pub fn recurrsive_install_nanoservices() -> (r: Fixpoint)
    ensures
        r.command == Command::Install,
        r.seen_manifests@.len() == 0,
        r.fetched_images@.len() == 0,
        r.passes == 0,
        !r.finished,
{
    start_run(Command::Install)
}

/// The start of a run of the config command: rewrite every manifest, pass after pass.
pub fn recursive_config_nanoservices() -> (r: Fixpoint)
    ensures
        r.command == Command::Config,
        r.seen_manifests@.len() == 0,
        r.fetched_images@.len() == 0,
        r.passes == 0,
        !r.finished,
{
    start_run(Command::Config)
}

impl Fixpoint {
    /// How the next pass scans: the first pass of a run that fetches wipes the cache,
    /// and every pass after the first scans inside it.
    pub fn next_request(&self) -> (r: PassRequest)
        ensures
            r.wipe_cache == (self.passes == 0 && self.command != Command::Config),
            r.include_cache == (self.passes > 0),
    {
        let fetches = match self.command {
            Command::Config => false,
            _ => true,
        };
        PassRequest { wipe_cache: self.passes == 0 && fetches, include_cache: self.passes > 0 }
    }

    /// Records a pass that found the new manifests `found` and named the images
    /// `images`; returns whether another pass follows.
    pub fn record_pass(&mut self, found: &Vec<String>, images: &Vec<String>) -> (more: bool)
        requires
            !old(self).finished,
            old(self).passes < usize::MAX,
            no_repeats(old(self).fetched_images@),
        ensures
            (final(self).passes as nat, final(self).finished) == step(old(self).passes as nat, found@.len()),
            more == !final(self).finished,
            final(self).command == old(self).command,
            strings_view(final(self).seen_manifests@) == strings_view(old(self).seen_manifests@) + strings_view(found@),
            no_repeats(final(self).fetched_images@),
            forall|x: Seq<char>| #[trigger] strings_view(final(self).fetched_images@).contains(x) == (strings_view(
                old(self).fetched_images@,
            ).contains(x) || strings_view(images@).contains(x)),
    {
        let ghost seen0 = strings_view(self.seen_manifests@);
        let ghost fetched0 = self.fetched_images@;
        let mut i: usize = 0;
        assert(found@.subrange(0, 0) =~= Seq::<String>::empty());
        assert(seen0 + strings_view(found@.subrange(0, 0)) =~= seen0);
        while i < found.len()
            invariant
                i <= found.len(),
                strings_view(self.seen_manifests@) == seen0 + strings_view(found@.subrange(0, i as int)),
                self.fetched_images@ == fetched0,
                fetched0 == old(self).fetched_images@,
                self.passes == old(self).passes,
                self.finished == old(self).finished,
                self.command == old(self).command,
            decreases found.len() - i,
        {
            let ghost before = self.seen_manifests@;
            self.seen_manifests.push(found[i].clone());
            assert(strings_view(self.seen_manifests@) =~= strings_view(before).push(found@[i as int]@));
            assert(strings_view(found@.subrange(0, i + 1)) =~= strings_view(found@.subrange(0, i as int)).push(
                found@[i as int]@,
            ));
            assert(strings_view(self.seen_manifests@) =~= seen0 + strings_view(found@.subrange(0, i + 1)));
            i = i + 1;
        }
        assert(found@.subrange(0, i as int) =~= found@);
        let mut j: usize = 0;
        assert(images@.subrange(0, 0) =~= Seq::<String>::empty());
        while j < images.len()
            invariant
                j <= images.len(),
                no_repeats(self.fetched_images@),
                fetched0 == old(self).fetched_images@,
                strings_view(self.seen_manifests@) == seen0 + strings_view(found@),
                self.passes == old(self).passes,
                self.finished == old(self).finished,
                self.command == old(self).command,
                forall|x: Seq<char>| #[trigger] strings_view(self.fetched_images@).contains(x) == (strings_view(
                    fetched0,
                ).contains(x) || strings_view(images@.subrange(0, j as int)).contains(x)),
            decreases images.len() - j,
        {
            push_once(&mut self.fetched_images, &images[j]);
            assert forall|x: Seq<char>| #[trigger] strings_view(images@.subrange(0, j + 1)).contains(x) == (strings_view(
                images@.subrange(0, j as int),
            ).contains(x) || x == images@[j as int]@) by {
                assert(strings_view(images@.subrange(0, j + 1)) =~= strings_view(images@.subrange(0, j as int)).push(
                    images@[j as int]@,
                ));
                let a = strings_view(images@.subrange(0, j as int));
                let b = a.push(images@[j as int]@);
                if b.contains(x) && x != images@[j as int]@ {
                    let k = choose|k: int| 0 <= k < b.len() && b[k] == x;
                    assert(a[k] == x);
                }
                if a.contains(x) {
                    let k = choose|k: int| 0 <= k < a.len() && a[k] == x;
                    assert(b[k] == x);
                }
                if x == images@[j as int]@ {
                    assert(b[a.len() as int] == x);
                }
            }
            j = j + 1;
        }
        assert(images@.subrange(0, j as int) =~= images@);
        if self.passes == 0 {
            self.passes = 1;
        } else if found.len() == 0 {
            self.finished = true;
        } else {
            self.passes = self.passes + 1;
        }
        !self.finished
    }
}

/// A run whose second pass finds no new manifest (a workspace whose manifests declare
/// nothing, so nothing is unpacked into the cache) ends there, after one pass with
/// work; a run whose second pass finds the manifests of the images fetched in the
/// first, and whose third finds nothing, ends after two.
pub proof fn lemma_fixpoint_passes(first: nat, second: nat)
    ensures
        run_outcome(seq![first, 0]) == (1nat, true),
        second > 0 ==> run_outcome(seq![first, second, 0]) == (2nat, true),
{
    reveal_with_fuel(run_outcome, 4);
    assert(seq![first, 0].drop_last() =~= seq![first]);
    assert(seq![first].drop_last() =~= Seq::<nat>::empty());
    assert(seq![first, second, 0].drop_last() =~= seq![first, second]);
    assert(seq![first, second].drop_last() =~= seq![first]);
}

} // verus!
