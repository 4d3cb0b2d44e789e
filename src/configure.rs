//! Rewriting a manifest: stale injected dependencies go, and each declared
//! nanoservice (and its kernel) comes in as a path dependency.
use vstd::prelude::*;
use crate::error::ForgeError;
use crate::manifest::{
    entries_view, keys_unique, lemma_array_view, lemma_entries_view_index, lemma_table_view, opt_strings_view, opt_text_view,
    strings_view, table_insert, table_map, view_lookup, wipe_map, NanoView, Nanoservice, NanoserviceKernel,
    RawCargoToml, TomlValue, TomlView,
};
use crate::paths::{calculate_relative_path, relative_path_result};
use crate::wipe::wipe_nanoservices;

verus! {

pub open spec fn path_key() -> Seq<char> {
    seq!['p', 'a', 't', 'h']
}

pub open spec fn features_key() -> Seq<char> {
    seq!['f', 'e', 'a', 't', 'u', 'r', 'e', 's']
}

pub open spec fn package_key() -> Seq<char> {
    seq!['p', 'a', 'c', 'k', 'a', 'g', 'e']
}

/// The features as an array of strings.
pub open spec fn features_value(fs: Seq<Seq<char>>) -> TomlView {
    TomlView::Array(fs.map_values(|f: Seq<char>| TomlView::Text(f)))
}

/// The dependency table written for a nanoservice or a kernel: its path, then its
/// features and its package where it has them.
pub open spec fn dependency_table(
    path: Seq<char>,
    features: Option<Seq<Seq<char>>>,
    package: Option<Seq<char>>,
) -> TomlView {
    let with_path = seq![(path_key(), TomlView::Text(path))];
    let with_features = match features {
        Some(fs) => with_path.push((features_key(), features_value(fs))),
        None => with_path,
    };
    let all = match package {
        Some(p) => with_features.push((package_key(), TomlView::Text(p))),
        None => with_features,
    };
    TomlView::Table(all)
}

/// The dependencies that one declaration adds to the manifest at `cargo_path`: itself
/// under its declared name, then its kernel under the kernel's name.
pub open spec fn declaration_entries(
    name: Seq<char>,
    n: NanoView,
    cargo_path: Seq<char>,
    nanoservices_path: Seq<char>,
    working_dir: Seq<char>,
) -> Result<Seq<(Seq<char>, TomlView)>, ForgeError> {
    match relative_path_result(cargo_path, n.dev_image, n.entrypoint, nanoservices_path, working_dir) {
        Err(e) => Err(e),
        Ok(p) => {
            let main = (name, dependency_table(p, n.features, n.package));
            match n.kernel {
                None => Ok(seq![main]),
                Some(k) => match relative_path_result(
                    cargo_path,
                    n.dev_image,
                    k.entrypoint,
                    nanoservices_path,
                    working_dir,
                ) {
                    Err(e) => Err(e),
                    Ok(kp) => Ok(seq![main, (k.name, dependency_table(kp, k.features, k.package))]),
                },
            }
        },
    }
}

/// Each declaration as its name and what it holds.
pub open spec fn declaration_views(nanos: Seq<(String, Nanoservice)>) -> Seq<(Seq<char>, NanoView)> {
    nanos.map_values(|e: (String, Nanoservice)| (e.0@, e.1.view()))
}

/// The dependencies that all declarations add, in order, or the first failure.
pub open spec fn declared_entries(
    nanos: Seq<(Seq<char>, NanoView)>,
    cargo_path: Seq<char>,
    nanoservices_path: Seq<char>,
    working_dir: Seq<char>,
) -> Result<Seq<(Seq<char>, TomlView)>, ForgeError>
    decreases nanos.len(),
{
    if nanos.len() == 0 {
        Ok(Seq::empty())
    } else {
        match declared_entries(nanos.drop_last(), cargo_path, nanoservices_path, working_dir) {
            Err(e) => Err(e),
            Ok(prev) => match declaration_entries(
                nanos.last().0,
                nanos.last().1,
                cargo_path,
                nanoservices_path,
                working_dir,
            ) {
                Err(e) => Err(e),
                Ok(es) => Ok(prev + es),
            },
        }
    }
}

/// `m` with each entry of `es` set in turn.
pub open spec fn apply_entries(
    m: Map<Seq<char>, TomlView>,
    es: Seq<(Seq<char>, TomlView)>,
) -> Map<Seq<char>, TomlView>
    decreases es.len(),
{
    if es.len() == 0 {
        m
    } else {
        apply_entries(m, es.drop_last()).insert(es.last().0, es.last().1)
    }
}

/// A rewrite of a dependency map: injected entries go, then `es` is set.
pub open spec fn rewrite_map(
    deps: Map<Seq<char>, TomlView>,
    es: Seq<(Seq<char>, TomlView)>,
) -> Map<Seq<char>, TomlView> {
    apply_entries(wipe_map(deps), es)
}

/// The dependency table for a path: an array of the features and the package are added
/// by the declaration's own methods.
fn path_table(path: String) -> (r: Vec<(String, TomlValue)>)
    ensures
        keys_unique(r@),
        r@.len() == 1,
        r@[0].0@ == path_key(),
        entries_view(r@) == seq![(path_key(), TomlView::Text(path@))],
{
    proof {
        reveal_strlit("path");
    }
    let mut t: Vec<(String, TomlValue)> = Vec::new();
    let key = crate::paths::to_owned_text("path");
    assert(key@ =~= path_key());
    t.push((key, TomlValue::String(path)));
    assert(entries_view(t@) =~= seq![(path_key(), TomlView::Text(path@))]);
    t
}

/// Sets `features` in a dependency table, as an array of strings.
fn insert_features(t: &mut Vec<(String, TomlValue)>, features: &Vec<String>)
    requires
        keys_unique(old(t)@),
    ensures
        keys_unique(final(t)@),
        table_map(final(t)@) == table_map(old(t)@).insert(features_key(), features_value(strings_view(features@))),
        (forall|i: int| 0 <= i < old(t)@.len() ==> old(t)@[i].0@ != features_key()) ==> entries_view(final(t)@)
            == entries_view(old(t)@).push((features_key(), features_value(strings_view(features@)))),
{
    proof {
        reveal_strlit("features");
    }
    let mut items: Vec<TomlValue> = Vec::new();
    let mut i: usize = 0;
    while i < features.len()
        invariant
            i <= features.len(),
            items@.len() == i,
            forall|j: int| 0 <= j < i ==> items@[j].view() == TomlView::Text(features@[j]@),
        decreases features.len() - i,
    {
        items.push(TomlValue::String(features[i].clone()));
        i = i + 1;
    }
    proof {
        lemma_array_view(items);
        assert(items@.map_values(|v: TomlValue| v.view()) =~= strings_view(features@).map_values(
            |f: Seq<char>| TomlView::Text(f),
        ));
    }
    let key = crate::paths::to_owned_text("features");
    assert(key@ =~= features_key());
    table_insert(t, key, TomlValue::Array(items));
}

/// Sets `package` in a dependency table.
fn insert_package(t: &mut Vec<(String, TomlValue)>, package: &String)
    requires
        keys_unique(old(t)@),
    ensures
        keys_unique(final(t)@),
        table_map(final(t)@) == table_map(old(t)@).insert(package_key(), TomlView::Text(package@)),
        (forall|i: int| 0 <= i < old(t)@.len() ==> old(t)@[i].0@ != package_key()) ==> entries_view(final(t)@)
            == entries_view(old(t)@).push((package_key(), TomlView::Text(package@))),
{
    proof {
        reveal_strlit("package");
    }
    let key = crate::paths::to_owned_text("package");
    assert(key@ =~= package_key());
    table_insert(t, key, TomlValue::String(package.clone()));
}

/// A path table with the given features and package added.
fn dependency_entry(
    path: String,
    features: &Option<Vec<String>>,
    package: &Option<String>,
) -> (r: TomlValue)
    ensures
        r.view() == dependency_table(path@, opt_strings_view(*features), opt_text_view(*package)),
{
    let mut t = path_table(path);
    assert(path_key()[0] != features_key()[0]);
    assert(path_key()[2] != package_key()[2]);
    assert(features_key()[0] != package_key()[0]);
    proof {
        lemma_entries_view_index(t@, 0);
    }
    match features {
        Some(fs) => {
            assert(forall|i: int| 0 <= i < t@.len() ==> t@[i].0@ != features_key());
            insert_features(&mut t, fs);
        },
        None => {},
    }
    let ghost mid = t@;
    assert(forall|i: int| 0 <= i < mid.len() ==> mid[i].0@ != package_key()) by {
        assert forall|i: int| 0 <= i < mid.len() implies mid[i].0@ != package_key() by {
            lemma_entries_view_index(mid, i);
        }
    }
    match package {
        Some(p) => insert_package(&mut t, p),
        None => {},
    }
    proof {
        lemma_table_view(t);
    }
    TomlValue::Table(t)
}

impl Nanoservice {
    /// Sets `features` in a dependency table where this nanoservice enables any.
    pub fn add_features(&self, nanoservice_table: &mut Vec<(String, TomlValue)>)
        requires
            keys_unique(old(nanoservice_table)@),
        ensures
            keys_unique(final(nanoservice_table)@),
            self.features is None ==> final(nanoservice_table)@ == old(nanoservice_table)@,
            self.features matches Some(fs) ==> table_map(final(nanoservice_table)@) == table_map(
                old(nanoservice_table)@,
            ).insert(features_key(), features_value(strings_view(fs@))),
    {
        match &self.features {
            Some(fs) => insert_features(nanoservice_table, fs),
            None => {},
        }
    }

    /// Sets `package` in a dependency table where this nanoservice names one.
    pub fn add_package(&self, nanoservice_table: &mut Vec<(String, TomlValue)>)
        requires
            keys_unique(old(nanoservice_table)@),
        ensures
            keys_unique(final(nanoservice_table)@),
            self.package is None ==> final(nanoservice_table)@ == old(nanoservice_table)@,
            self.package matches Some(p) ==> table_map(final(nanoservice_table)@) == table_map(
                old(nanoservice_table)@,
            ).insert(package_key(), TomlView::Text(p@)),
    {
        match &self.package {
            Some(p) => insert_package(nanoservice_table, p),
            None => {},
        }
    }

    /// The dependency table for this nanoservice's kernel, if it has one, placed
    /// relative to the manifest at `cargo_toml_path`.
    pub fn construct_kernel(
        &self,
        cargo_toml_path: &str,
        nanoservices_path: &str,
        working_dir: &str,
    ) -> (r: Result<Option<TomlValue>, ForgeError>)
        ensures
            self.kernel is None ==> r == Ok::<Option<TomlValue>, ForgeError>(None),
            self.kernel matches Some(k) ==> match relative_path_result(
                cargo_toml_path@,
                self.dev_image@,
                k.entrypoint@,
                nanoservices_path@,
                working_dir@,
            ) {
                Err(e) => r == Err::<Option<TomlValue>, ForgeError>(e),
                Ok(p) => r matches Ok(Some(t)) && t.view() == dependency_table(
                    p,
                    opt_strings_view(k.features),
                    opt_text_view(k.package),
                ),
            },
    {
        match &self.kernel {
            Some(kernel) => {
                let path = calculate_relative_path(
                    cargo_toml_path,
                    self.dev_image.as_str(),
                    kernel.entrypoint.as_str(),
                    nanoservices_path,
                    working_dir,
                )?;
                Ok(Some(dependency_entry(path, &kernel.features, &kernel.package)))
            },
            None => Ok(None),
        }
    }
}

impl NanoserviceKernel {
    /// Sets `features` in a dependency table where this kernel enables any.
    pub fn add_features(&self, kernel_table: &mut Vec<(String, TomlValue)>)
        requires
            keys_unique(old(kernel_table)@),
        ensures
            keys_unique(final(kernel_table)@),
            self.features is None ==> final(kernel_table)@ == old(kernel_table)@,
            self.features matches Some(fs) ==> table_map(final(kernel_table)@) == table_map(
                old(kernel_table)@,
            ).insert(features_key(), features_value(strings_view(fs@))),
    {
        match &self.features {
            Some(fs) => insert_features(kernel_table, fs),
            None => {},
        }
    }

    /// Sets `package` in a dependency table where this kernel names one.
    pub fn add_package(&self, kernel_table: &mut Vec<(String, TomlValue)>)
        requires
            keys_unique(old(kernel_table)@),
        ensures
            keys_unique(final(kernel_table)@),
            self.package is None ==> final(kernel_table)@ == old(kernel_table)@,
            self.package matches Some(p) ==> table_map(final(kernel_table)@) == table_map(
                old(kernel_table)@,
            ).insert(package_key(), TomlView::Text(p@)),
    {
        match &self.package {
            Some(p) => insert_package(kernel_table, p),
            None => {},
        }
    }
}

/// Once the declarations before some point fail, all of them fail the same way.
pub proof fn lemma_declared_prefix_err(
    nanos: Seq<(Seq<char>, NanoView)>,
    i: int,
    cargo_path: Seq<char>,
    nanoservices_path: Seq<char>,
    working_dir: Seq<char>,
)
    requires
        0 <= i <= nanos.len(),
        declared_entries(nanos.subrange(0, i), cargo_path, nanoservices_path, working_dir) is Err,
    ensures
        declared_entries(nanos, cargo_path, nanoservices_path, working_dir) == declared_entries(
            nanos.subrange(0, i),
            cargo_path,
            nanoservices_path,
            working_dir,
        ),
    decreases nanos.len() - i,
{
    if i < nanos.len() {
        let next = nanos.subrange(0, i + 1);
        assert(next.drop_last() =~= nanos.subrange(0, i));
        lemma_declared_prefix_err(nanos, i + 1, cargo_path, nanoservices_path, working_dir);
    } else {
        assert(nanos.subrange(0, i) =~= nanos);
    }
}

/// Rewrites a manifest for the nanoservices it declares: the dependencies that an
/// earlier run injected are dropped, then each declaration is added as a path
/// dependency relative to the manifest at `cargo_toml_path`, followed by its kernel.
pub fn config_cargo(
    cargo_toml: RawCargoToml,
    nanos: Vec<(String, Nanoservice)>,
    nanoservices_path: &str,
    cargo_toml_path: &str,
    working_dir: &str,
) -> (r: Result<RawCargoToml, ForgeError>)
    requires
        keys_unique(cargo_toml.dependencies@),
    ensures
        match declared_entries(declaration_views(nanos@), cargo_toml_path@, nanoservices_path@, working_dir@) {
            Err(e) => r == Err::<RawCargoToml, ForgeError>(e),
            Ok(es) => r matches Ok(out) && keys_unique(out.dependencies@) && table_map(out.dependencies@)
                == rewrite_map(table_map(cargo_toml.dependencies@), es) && out.package == cargo_toml.package
                && out.nanoservices == cargo_toml.nanoservices,
        },
{
    let mut cargo = cargo_toml;
    wipe_nanoservices(&mut cargo);
    let ghost base = table_map(cargo.dependencies@);
    let ghost es: Seq<(Seq<char>, TomlView)> = Seq::empty();
    let ghost views = declaration_views(nanos@);
    let mut i: usize = 0;
    assert(views.subrange(0, 0) =~= Seq::<(Seq<char>, NanoView)>::empty());
    while i < nanos.len()
        invariant
            i <= nanos.len(),
            keys_unique(cargo.dependencies@),
            cargo.package == cargo_toml.package,
            cargo.nanoservices == cargo_toml.nanoservices,
            base == wipe_map(table_map(cargo_toml.dependencies@)),
            views == declaration_views(nanos@),
            declared_entries(views.subrange(0, i as int), cargo_toml_path@, nanoservices_path@, working_dir@)
                == Ok::<Seq<(Seq<char>, TomlView)>, ForgeError>(es),
            table_map(cargo.dependencies@) == apply_entries(base, es),
        decreases nanos.len() - i,
    {
        let ghost prefix = views.subrange(0, i + 1);
        assert(prefix.drop_last() =~= views.subrange(0, i as int));
        assert(prefix.last() == (nanos@[i as int].0@, nanos@[i as int].1.view()));
        let name = &nanos[i].0;
        let nanoservice = &nanos[i].1;
        let path = match calculate_relative_path(
            cargo_toml_path,
            nanoservice.dev_image.as_str(),
            nanoservice.entrypoint.as_str(),
            nanoservices_path,
            working_dir,
        ) {
            Ok(p) => p,
            Err(e) => {
                proof {
                    lemma_declared_prefix_err(views, i + 1, cargo_toml_path@, nanoservices_path@, working_dir@);
                }
                return Err(e);
            },
        };
        let entry = dependency_entry(path, &nanoservice.features, &nanoservice.package);
        let ghost main = (name@, entry.view());
        table_insert(&mut cargo.dependencies, name.clone(), entry);
        assert((es + seq![main]).drop_last() =~= es);
        let kernel = match nanoservice.construct_kernel(cargo_toml_path, nanoservices_path, working_dir) {
            Ok(k) => k,
            Err(e) => {
                proof {
                    lemma_declared_prefix_err(views, i + 1, cargo_toml_path@, nanoservices_path@, working_dir@);
                }
                return Err(e);
            },
        };
        match kernel {
            Some(kernel_table) => {
                let kernel_name = match &nanoservice.kernel {
                    Some(k) => k.name.clone(),
                    None => {
                        assert(false);
                        String::new()
                    },
                };
                let ghost second = (kernel_name@, kernel_table.view());
                table_insert(&mut cargo.dependencies, kernel_name, kernel_table);
                assert((es + seq![main, second]).drop_last() =~= es + seq![main]);
                assert(apply_entries(base, es + seq![main]) == apply_entries(base, es).insert(main.0, main.1));
                assert(apply_entries(base, es + seq![main, second]) == apply_entries(base, es + seq![main]).insert(
                    second.0,
                    second.1,
                ));
                proof {
                    es = es + seq![main, second];
                }
            },
            None => {
                assert(apply_entries(base, es + seq![main]) == apply_entries(base, es).insert(main.0, main.1));
                proof {
                    es = es + seq![main];
                }
            },
        }
        i = i + 1;
    }
    assert(views.subrange(0, i as int) =~= views);
    Ok(cargo)
}

/// What a run of entries sets: the last value given for a key, else the map's own.
pub proof fn lemma_apply_entries_lookup(
    m: Map<Seq<char>, TomlView>,
    es: Seq<(Seq<char>, TomlView)>,
    k: Seq<char>,
)
    ensures
        apply_entries(m, es).contains_key(k) == (view_lookup(es, k) is Some || m.contains_key(k)),
        apply_entries(m, es).contains_key(k) ==> apply_entries(m, es)[k] == match view_lookup(es, k) {
            Some(v) => v,
            None => m[k],
        },
    decreases es.len(),
{
    if es.len() > 0 {
        lemma_apply_entries_lookup(m, es.drop_last(), k);
    }
}

/// Rewriting a manifest a second time with the same declarations changes nothing: the
/// entries of the first rewrite are dropped or kept and then set to the same values.
/// The manifest is written with its tables in key order, so equal maps give equal text.
pub proof fn lemma_rewrite_idempotent(deps: Map<Seq<char>, TomlView>, es: Seq<(Seq<char>, TomlView)>)
    ensures
        rewrite_map(rewrite_map(deps, es), es) == rewrite_map(deps, es),
{
    let once = rewrite_map(deps, es);
    let twice = rewrite_map(once, es);
    assert forall|k: Seq<char>| #[trigger] twice.contains_key(k) == once.contains_key(k) by {
        lemma_apply_entries_lookup(wipe_map(once), es, k);
        lemma_apply_entries_lookup(wipe_map(deps), es, k);
        if view_lookup(es, k) is None {
            assert(wipe_map(once).contains_key(k) == once.contains_key(k));
        }
    }
    assert forall|k: Seq<char>| twice.contains_key(k) implies #[trigger] twice[k] == once[k] by {
        lemma_apply_entries_lookup(wipe_map(once), es, k);
        lemma_apply_entries_lookup(wipe_map(deps), es, k);
    }
    assert(twice =~= once);
}

/// A dependency that an earlier run injected and that no declaration sets any more is
/// gone after a rewrite, while a dependency the user wrote stays as it was.
pub proof fn lemma_stale_entries_removed(
    deps: Map<Seq<char>, TomlView>,
    es: Seq<(Seq<char>, TomlView)>,
    k: Seq<char>,
)
    requires
        deps.contains_key(k),
        view_lookup(es, k) is None,
    ensures
        crate::manifest::is_injected(deps[k]) ==> !rewrite_map(deps, es).contains_key(k),
        !crate::manifest::is_injected(deps[k]) ==> rewrite_map(deps, es).contains_key(k) && rewrite_map(
            deps,
            es,
        )[k] == deps[k],
{
    lemma_apply_entries_lookup(wipe_map(deps), es, k);
}

} // verus!
