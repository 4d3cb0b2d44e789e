//! Reading the declarations out of the manifests found in one pass.
use vstd::prelude::*;
use crate::manifest::{
    keys_unique, table_map, wipe_map, CargoToml, NanoView, Nanoservice,
    RawCargoToml,
};
use crate::wipe::wipe_nanoservices;

verus! {

/// What a pass does with one manifest it found.
#[derive(Debug, PartialEq)]
pub enum ManifestPlan {
    /// It lacks a package or a dependency table: nothing is written.
    Skip,
    /// It declares no nanoservice: its stale injected dependencies are removed and it is
    /// written back as it stands here.
    Flush(RawCargoToml),
    /// It declares nanoservices: it is rewritten with them.
    Declared(RawCargoToml),
}

/// Whether a manifest can be rewritten: it has a package and a dependency table.
pub open spec fn has_raw(c: CargoToml) -> bool {
    c.package is Some && c.dependencies is Some
}

/// Whether a manifest that can be rewritten declares at least one nanoservice.
pub open spec fn declares(c: CargoToml) -> bool {
    has_raw(c) && c.nanoservices is Some && c.nanoservices->0.len() > 0
}

/// Whether `raw` is the manifest `c` with its injected dependencies removed.
pub open spec fn wiped_from(raw: RawCargoToml, c: CargoToml) -> bool {
    &&& Some(raw.package) == c.package
    &&& keys_unique(raw.dependencies@)
    &&& table_map(raw.dependencies@) == wipe_map(table_map(c.dependencies->0@))
    &&& raw.nanoservices == c.nanoservices
}

/// Whether `plan` is what a pass does with the manifest `c`.
pub open spec fn plan_for(plan: ManifestPlan, c: CargoToml) -> bool {
    match plan {
        ManifestPlan::Skip => !has_raw(c),
        ManifestPlan::Flush(raw) => has_raw(c) && !declares(c) && wiped_from(raw, c),
        ManifestPlan::Declared(raw) => declares(c) && wiped_from(raw, c),
    }
}

/// A declaration as its name and what it holds.
pub open spec fn declaration_view(e: (String, Nanoservice)) -> (Seq<char>, NanoView) {
    (e.0@, e.1.view())
}

/// Whether the `j`-th declaration of a manifest that can be rewritten is `d`.
pub open spec fn declares_at(c: CargoToml, j: int, d: (Seq<char>, NanoView)) -> bool {
    has_raw(c) && c.nanoservices is Some && 0 <= j < c.nanoservices->0.len() && declaration_view(
        c.nanoservices->0@[j],
    ) == d
}

/// Whether `d` is declared by one of the manifests that can be rewritten.
pub open spec fn declared_in(manifests: Seq<(String, CargoToml)>, d: (Seq<char>, NanoView)) -> bool {
    exists|i: int, j: int| 0 <= i < manifests.len() && #[trigger] declares_at(manifests[i].1, j, d)
}

/// Whether the dependency table of a manifest, where it has one, has each key once.
pub open spec fn deps_unique(c: CargoToml) -> bool {
    c.dependencies is Some ==> keys_unique(c.dependencies->0@)
}

/// What a pass read from its manifests.
pub struct Collected {
    /// One plan per manifest, in the order they were given.
    pub plans: Vec<(String, ManifestPlan)>,
    /// The declarations of all manifests, each once: the same name and the same fields
    /// make the same declaration.
    pub all_nanoservices: Vec<(String, Nanoservice)>,
}

/// Whether `ds` holds no declaration twice.
pub open spec fn distinct_declarations(ds: Seq<(String, Nanoservice)>) -> bool {
    forall|a: int, b: int| 0 <= a < b < ds.len() ==> declaration_view(ds[a]) != declaration_view(ds[b])
}

/// Whether `d` is among `ds`.
pub open spec fn has_declaration(ds: Seq<(String, Nanoservice)>, d: (Seq<char>, NanoView)) -> bool {
    exists|k: int| 0 <= k < ds.len() && declaration_view(ds[k]) == d
}

/// Adds a declaration to `all` unless the same one is there.
fn add_declaration(all: &mut Vec<(String, Nanoservice)>, name: &String, n: &Nanoservice)
    requires
        distinct_declarations(old(all)@),
    ensures
        distinct_declarations(final(all)@),
        forall|d: (Seq<char>, NanoView)|
            has_declaration(final(all)@, d) == (has_declaration(old(all)@, d) || d == (name@, n.view())),
{
    let mut k: usize = 0;
    while k < all.len()
        invariant
            k <= all.len(),
            all@ == old(all)@,
            distinct_declarations(all@),
            forall|j: int| 0 <= j < k ==> declaration_view(all@[j]) != (name@, n.view()),
        decreases all.len() - k,
    {
        if all[k].0 == *name && all[k].1.same_as(n) {
            assert(declaration_view(all@[k as int]) == (name@, n.view()));
            return;
        }
        k = k + 1;
    }
    let ghost before = all@;
    assert(before == old(all)@);
    let copy = n.copy_declaration();
    let copied_name = name.clone();
    all.push((copied_name, copy));
    assert(declaration_view(all@[before.len() as int]) == (name@, n.view()));
    assert(distinct_declarations(all@)) by {
        assert forall|a: int, b: int| 0 <= a < b < all@.len() implies declaration_view(all@[a])
            != declaration_view(all@[b]) by {
            if b < before.len() {
                assert(all@[a] == before[a] && all@[b] == before[b]);
            } else {
                assert(all@[a] == before[a]);
            }
        }
    }
    assert forall|d: (Seq<char>, NanoView)|
        has_declaration(all@, d) == (has_declaration(before, d) || d == (name@, n.view())) by {
        if has_declaration(all@, d) && d != (name@, n.view()) {
            let k = choose|k: int| 0 <= k < all@.len() && declaration_view(all@[k]) == d;
            assert(before[k] == all@[k]);
        }
        if has_declaration(before, d) {
            let k = choose|k: int| 0 <= k < before.len() && declaration_view(before[k]) == d;
            assert(all@[k] == before[k]);
        }
        if d == (name@, n.view()) {
            assert(declaration_view(all@[before.len() as int]) == d);
        }
    }
}

/// Taking in one more manifest adds its declarations.
pub proof fn lemma_declared_in_extend(ms: Seq<(String, CargoToml)>, n: int, d: (Seq<char>, NanoView))
    requires
        0 <= n < ms.len(),
    ensures
        declared_in(ms.subrange(0, n + 1), d) == (declared_in(ms.subrange(0, n), d) || exists|j: int|
            declares_at(ms[n].1, j, d)),
{
    let a = ms.subrange(0, n);
    let b = ms.subrange(0, n + 1);
    if declared_in(b, d) {
        let (i, j) = choose|i: int, j: int| 0 <= i < b.len() && #[trigger] declares_at(b[i].1, j, d);
        if i < n {
            assert(declares_at(a[i].1, j, d));
        } else {
            assert(declares_at(ms[n].1, j, d));
        }
    }
    if declared_in(a, d) {
        let (i, j) = choose|i: int, j: int| 0 <= i < a.len() && #[trigger] declares_at(a[i].1, j, d);
        assert(declares_at(b[i].1, j, d));
    }
    if exists|j: int| declares_at(ms[n].1, j, d) {
        let j = choose|j: int| declares_at(ms[n].1, j, d);
        assert(declares_at(b[n].1, j, d));
    }
}

/// Sorts the manifests of one pass: those without a package or dependencies are
/// skipped, the others lose their stale injected dependencies, and every declared
/// nanoservice is collected once over the whole pass.
pub fn get_all_nanoservices(cargo_files: Vec<(String, CargoToml)>) -> (r: Collected)
    requires
        forall|i: int| 0 <= i < cargo_files.len() ==> #[trigger] deps_unique(cargo_files@[i].1),
    ensures
        r.plans@.len() == cargo_files@.len(),
        forall|i: int|
            0 <= i < cargo_files@.len() ==> #[trigger] r.plans@[i].0@ == cargo_files@[i].0@ && plan_for(
                r.plans@[i].1,
                cargo_files@[i].1,
            ),
        distinct_declarations(r.all_nanoservices@),
        forall|d: (Seq<char>, NanoView)| has_declaration(r.all_nanoservices@, d) == declared_in(cargo_files@, d),
{
    let ghost input = cargo_files@;
    let mut plans: Vec<(String, ManifestPlan)> = Vec::new();
    let mut all: Vec<(String, Nanoservice)> = Vec::new();
    let mut rest = cargo_files;
    while rest.len() > 0
        invariant
            rest@.len() <= input.len(),
            rest@ == input.subrange(input.len() - rest@.len(), input.len() as int),
            plans@.len() == input.len() - rest@.len(),
            forall|i: int| 0 <= i < input.len() ==> #[trigger] deps_unique(input[i].1),
            forall|i: int|
                0 <= i < plans@.len() ==> #[trigger] plans@[i].0@ == input[i].0@ && plan_for(
                    plans@[i].1,
                    input[i].1,
                ),
            distinct_declarations(all@),
            forall|d: (Seq<char>, NanoView)|
                has_declaration(all@, d) == declared_in(input.subrange(0, plans@.len() as int), d),
        decreases rest@.len(),
    {
        let ghost done = plans@.len() as int;
        let (path, cargo) = rest.remove(0);
        assert((path, cargo) == input[done]);
        assert(rest@ =~= input.subrange(done + 1, input.len() as int));
        let ghost c = cargo;
        assert(deps_unique(input[done].1));
        proof {
            assert forall|d: (Seq<char>, NanoView)| #[trigger]
                declared_in(input.subrange(0, done + 1), d) == (declared_in(input.subrange(0, done), d) || exists|j: int|
                    declares_at(c, j, d)) by {
                lemma_declared_in_extend(input, done, d);
            }
        }
        let plan = match cargo.into_raw() {
            None => ManifestPlan::Skip,
            Some(raw) => {
                let mut raw = raw;
                wipe_nanoservices(&mut raw);
                let declared = match &raw.nanoservices {
                    Some(ns) => ns.len() > 0,
                    None => false,
                };
                if declared {
                    let ns = match &raw.nanoservices {
                        Some(ns) => ns,
                        None => {
                            assert(false);
                            return Collected { plans, all_nanoservices: all };
                        },
                    };
                    let mut j: usize = 0;
                    while j < ns.len()
                        invariant
                            j <= ns.len(),
                            has_raw(c),
                            c.nanoservices == Some(*ns),
                            distinct_declarations(all@),
                            forall|d: (Seq<char>, NanoView)|
                                has_declaration(all@, d) == (declared_in(input.subrange(0, done), d) || exists|
                                    k: int,
                                | 0 <= k < j && declares_at(c, k, d)),
                        decreases ns.len() - j,
                    {
                        add_declaration(&mut all, &ns[j].0, &ns[j].1);
                        assert forall|d: (Seq<char>, NanoView)|
                            has_declaration(all@, d) == (declared_in(input.subrange(0, done), d) || exists|k: int|
                                0 <= k < j + 1 && declares_at(c, k, d)) by {
                            if d == declaration_view(ns@[j as int]) {
                                assert(declares_at(c, j as int, d));
                            }
                            if exists|k: int| 0 <= k < j + 1 && declares_at(c, k, d) {
                                let k = choose|k: int| 0 <= k < j + 1 && declares_at(c, k, d);
                                if k == j {
                                    assert(d == declaration_view(ns@[j as int]));
                                }
                            }
                        }
                        j = j + 1;
                    }
                    ManifestPlan::Declared(raw)
                } else {
                    ManifestPlan::Flush(raw)
                }
            },
        };
        plans.push((path, plan));
    }
    Collected { plans, all_nanoservices: all }
}

} // verus!
