//! The manifest model: the package section, the dependency table with its open value
//! type, and the nanoservice declarations.
use vstd::prelude::*;

verus! {

broadcast use vstd::std_specs::vec::group_vec_axioms;

/// A value of a manifest's dependency table, kept whole so that fields this library
/// does not read survive a rewrite.
#[derive(Debug, PartialEq)]
pub enum TomlValue {
    String(String),
    Integer(i64),
    /// A float, held as the decimal text it was written with.
    Float(String),
    Boolean(bool),
    /// A date or time, held as its text.
    Datetime(String),
    Array(Vec<TomlValue>),
    Table(Vec<(String, TomlValue)>),
}

/// What a `TomlValue` holds, with its text as character sequences.
pub enum TomlView {
    Text(Seq<char>),
    Integer(int),
    Float(Seq<char>),
    Boolean(bool),
    Datetime(Seq<char>),
    Array(Seq<TomlView>),
    Table(Seq<(Seq<char>, TomlView)>),
}

impl TomlValue {
    pub open spec fn view(&self) -> TomlView
        decreases self,
    {
        match self {
            TomlValue::String(s) => TomlView::Text(s@),
            TomlValue::Integer(i) => TomlView::Integer(*i as int),
            TomlValue::Float(s) => TomlView::Float(s@),
            TomlValue::Boolean(b) => TomlView::Boolean(*b),
            TomlValue::Datetime(s) => TomlView::Datetime(s@),
            TomlValue::Array(items) => TomlView::Array(
                Seq::new(
                    items.len() as nat,
                    |i: int|
                        if 0 <= i < items.len() {
                            items[i].view()
                        } else {
                            TomlView::Boolean(false)
                        },
                ),
            ),
            TomlValue::Table(entries) => TomlView::Table(
                Seq::new(
                    entries.len() as nat,
                    |i: int|
                        if 0 <= i < entries.len() {
                            (entries[i].0@, entries[i].1.view())
                        } else {
                            (Seq::empty(), TomlView::Boolean(false))
                        },
                ),
            ),
        }
    }
}


/// The view of each entry of a table, in order.
pub open spec fn entries_view(t: Seq<(String, TomlValue)>) -> Seq<(Seq<char>, TomlView)> {
    Seq::new(t.len(), |i: int| (t[i].0@, t[i].1.view()))
}

/// An entry's view is its key's text and its value's view.
pub proof fn lemma_entries_view_index(t: Seq<(String, TomlValue)>, i: int)
    requires
        0 <= i < t.len(),
    ensures
        entries_view(t).len() == t.len(),
        entries_view(t)[i] == (t[i].0@, t[i].1.view()),
{
}

/// No key of the table appears twice.
pub open spec fn keys_unique(t: Seq<(String, TomlValue)>) -> bool {
    forall|i: int, j: int| 0 <= i < j < t.len() ==> t[i].0@ != t[j].0@
}

/// The table as a map from key to value; a later entry wins over an earlier one.
pub open spec fn table_map(t: Seq<(String, TomlValue)>) -> Map<Seq<char>, TomlView>
    decreases t.len(),
{
    if t.len() == 0 {
        Map::empty()
    } else {
        table_map(t.drop_last()).insert(t.last().0@, t.last().1.view())
    }
}

/// The value under `k` in a table view; a later entry wins over an earlier one.
pub open spec fn view_lookup(t: Seq<(Seq<char>, TomlView)>, k: Seq<char>) -> Option<TomlView>
    decreases t.len(),
{
    if t.len() == 0 {
        None
    } else if t.last().0 == k {
        Some(t.last().1)
    } else {
        view_lookup(t.drop_last(), k)
    }
}

/// A table's view is the view of its entries.
pub proof fn lemma_table_view(entries: Vec<(String, TomlValue)>)
    ensures
        TomlValue::Table(entries).view() == TomlView::Table(entries_view(entries@)),
{
    let v = TomlValue::Table(entries).view();
    let s = v->Table_0;
    assert(s.len() == entries.len());
    assert forall|i: int| 0 <= i < s.len() implies s[i] == entries_view(entries@)[i] by {}
    assert(s =~= entries_view(entries@));
}

/// An array's view is the view of its items.
pub proof fn lemma_array_view(items: Vec<TomlValue>)
    ensures
        TomlValue::Array(items).view() == TomlView::Array(items@.map_values(|v: TomlValue| v.view())),
{
    let v = TomlValue::Array(items).view();
    let s = v->Array_0;
    assert(s.len() == items.len());
    assert forall|i: int| 0 <= i < s.len() implies s[i] == items@.map_values(|v: TomlValue| v.view())[i] by {}
    assert(s =~= items@.map_values(|v: TomlValue| v.view()));
}

/// The keys of the map are those of the table.
pub proof fn lemma_table_map_keys(t: Seq<(String, TomlValue)>, k: Seq<char>)
    ensures
        table_map(t).contains_key(k) <==> exists|i: int| 0 <= i < t.len() && t[i].0@ == k,
    decreases t.len(),
{
    if t.len() > 0 {
        lemma_table_map_keys(t.drop_last(), k);
        if table_map(t).contains_key(k) && t.last().0@ != k {
            let i = choose|i: int| 0 <= i < t.len() - 1 && t.drop_last()[i].0@ == k;
            assert(t[i].0@ == k);
        }
        if exists|i: int| 0 <= i < t.len() && t[i].0@ == k {
            let i = choose|i: int| 0 <= i < t.len() && t[i].0@ == k;
            if i < t.len() - 1 {
                assert(t.drop_last()[i].0@ == k);
            }
        }
    }
}

/// Replacing the value of an existing key is an insert into the map.
pub proof fn lemma_table_map_update(t: Seq<(String, TomlValue)>, i: int, e: (String, TomlValue))
    requires
        keys_unique(t),
        0 <= i < t.len(),
        t[i].0@ == e.0@,
    ensures
        table_map(t.update(i, e)) == table_map(t).insert(e.0@, e.1.view()),
        keys_unique(t.update(i, e)),
    decreases t.len(),
{
    let u = t.update(i, e);
    if i == t.len() - 1 {
        assert(u.drop_last() =~= t.drop_last());
        assert(table_map(u) =~= table_map(t).insert(e.0@, e.1.view()));
    } else {
        lemma_table_map_update(t.drop_last(), i, e);
        assert(u.drop_last() =~= t.drop_last().update(i, e));
        assert(t.last().0@ != e.0@);
        assert(table_map(u) =~= table_map(t).insert(e.0@, e.1.view()));
    }
}

/// Sets `k` to `v` in the table: in place where the key is present, else at the end.
pub fn table_insert(t: &mut Vec<(String, TomlValue)>, k: String, v: TomlValue)
    requires
        keys_unique(old(t)@),
    ensures
        keys_unique(final(t)@),
        table_map(final(t)@) == table_map(old(t)@).insert(k@, v.view()),
        (forall|i: int| 0 <= i < old(t)@.len() ==> old(t)@[i].0@ != k@) ==> final(t)@ == old(t)@.push((k, v)),
        (forall|i: int| 0 <= i < old(t)@.len() ==> old(t)@[i].0@ != k@) ==> entries_view(final(t)@)
            == entries_view(old(t)@).push((k@, v.view())),
{
    let n = t.len();
    let mut i: usize = 0;
    while i < n
        invariant
            n == t@.len(),
            i <= n,
            t@ == old(t)@,
            keys_unique(t@),
            forall|j: int| 0 <= j < i ==> t@[j].0@ != k@,
        decreases n - i,
    {
        if t[i].0 == k {
            proof {
                lemma_table_map_update(t@, i as int, (k, v));
            }
            t.set(i, (k, v));
            return;
        }
        i = i + 1;
    }
    let ghost before = t@;
    t.push((k, v));
    assert(t@.drop_last() =~= before);
    assert(entries_view(t@) =~= entries_view(before).push((k@, v.view())));
    assert(keys_unique(t@)) by {
        assert forall|a: int, b: int| 0 <= a < b < t@.len() implies t@[a].0@ != t@[b].0@ by {
            if b < n {
                assert(t@[a] == before[a] && t@[b] == before[b]);
            }
        }
    }
}

/// A path dependency injected by this tool: a table whose `path` is text that names the
/// cache directory.
pub open spec fn is_injected(v: TomlView) -> bool {
    match v {
        TomlView::Table(entries) => match view_lookup(entries, seq!['p', 'a', 't', 'h']) {
            Some(TomlView::Text(p)) => crate::text::contains_seq(p, crate::cache::cache_segment()),
            _ => false,
        },
        _ => false,
    }
}

/// The map without the entries that this tool injected.
pub open spec fn wipe_map(m: Map<Seq<char>, TomlView>) -> Map<Seq<char>, TomlView> {
    m.restrict(m.dom().filter(|k: Seq<char>| !is_injected(m[k])))
}

/// The text of each string.
pub open spec fn strings_view(v: Seq<String>) -> Seq<Seq<char>> {
    v.map_values(|s: String| s@)
}

/// The text of optional strings.
pub open spec fn opt_strings_view(o: Option<Vec<String>>) -> Option<Seq<Seq<char>>> {
    match o {
        Some(v) => Some(strings_view(v@)),
        None => None,
    }
}

/// The text of an optional string.
pub open spec fn opt_text_view(o: Option<String>) -> Option<Seq<char>> {
    match o {
        Some(s) => Some(s@),
        None => None,
    }
}

/// A copy of a list of strings.
pub fn copy_strings(v: &Vec<String>) -> (r: Vec<String>)
    ensures
        strings_view(r@) == strings_view(v@),
{
    let mut out: Vec<String> = Vec::new();
    let mut i: usize = 0;
    while i < v.len()
        invariant
            i <= v.len(),
            out@.len() == i,
            forall|j: int| 0 <= j < i ==> out@[j]@ == v@[j]@,
        decreases v.len() - i,
    {
        out.push(v[i].clone());
        i = i + 1;
    }
    assert(strings_view(out@) =~= strings_view(v@));
    out
}

/// A copy of optional strings.
pub fn copy_opt_strings(o: &Option<Vec<String>>) -> (r: Option<Vec<String>>)
    ensures
        opt_strings_view(r) == opt_strings_view(*o),
{
    match o {
        Some(v) => Some(copy_strings(v)),
        None => None,
    }
}

/// A copy of an optional string.
pub fn copy_opt_text(o: &Option<String>) -> (r: Option<String>)
    ensures
        opt_text_view(r) == opt_text_view(*o),
{
    match o {
        Some(s) => Some(s.clone()),
        None => None,
    }
}

/// Whether two lists of strings hold the same text.
pub fn same_strings(a: &Vec<String>, b: &Vec<String>) -> (r: bool)
    ensures
        r == (strings_view(a@) == strings_view(b@)),
{
    if a.len() != b.len() {
        assert(strings_view(a@).len() != strings_view(b@).len());
        return false;
    }
    let mut i: usize = 0;
    while i < a.len()
        invariant
            a.len() == b.len(),
            i <= a.len(),
            forall|j: int| 0 <= j < i ==> a@[j]@ == b@[j]@,
        decreases a.len() - i,
    {
        if a[i] != b[i] {
            assert(strings_view(a@)[i as int] != strings_view(b@)[i as int]);
            return false;
        }
        i = i + 1;
    }
    assert(strings_view(a@) =~= strings_view(b@));
    true
}

/// Whether two optional lists of strings hold the same text.
pub fn same_opt_strings(a: &Option<Vec<String>>, b: &Option<Vec<String>>) -> (r: bool)
    ensures
        r == (opt_strings_view(*a) == opt_strings_view(*b)),
{
    match (a, b) {
        (Some(x), Some(y)) => same_strings(x, y),
        (None, None) => true,
        _ => false,
    }
}

/// Whether two optional strings hold the same text.
pub fn same_opt_text(a: &Option<String>, b: &Option<String>) -> (r: bool)
    ensures
        r == (opt_text_view(*a) == opt_text_view(*b)),
{
    match (a, b) {
        (Some(x), Some(y)) => *x == *y,
        (None, None) => true,
        _ => false,
    }
}

/// What a kernel declaration holds.
pub struct KernelView {
    pub entrypoint: Seq<char>,
    pub features: Option<Seq<Seq<char>>>,
    pub package: Option<Seq<char>>,
    pub name: Seq<char>,
}

/// What a nanoservice declaration holds.
pub struct NanoView {
    pub dev_image: Seq<char>,
    pub prod_image: Seq<char>,
    pub entrypoint: Seq<char>,
    pub features: Option<Seq<Seq<char>>>,
    pub local: Option<bool>,
    pub package: Option<Seq<char>>,
    pub kernel: Option<KernelView>,
}

/// The package section of a manifest.
#[derive(Debug, Clone, PartialEq)]
pub struct Package {
    pub name: String,
    pub version: String,
    pub edition: String,
}

/// The nested kernel of a nanoservice, added as a dependency of its own.
#[derive(Debug, Clone, PartialEq)]
pub struct NanoserviceKernel {
    pub entrypoint: String,
    pub features: Option<Vec<String>>,
    pub package: Option<String>,
    pub name: String,
}

/// A nanoservice declared by a manifest: the image it comes from and where to build.
#[derive(Debug, Clone, PartialEq)]
pub struct Nanoservice {
    pub dev_image: String,
    pub prod_image: String,
    pub entrypoint: String,
    pub features: Option<Vec<String>>,
    pub local: Option<bool>,
    pub package: Option<String>,
    pub kernel: Option<NanoserviceKernel>,
}

/// A manifest as read: a workspace root may lack the package or the dependencies.
#[derive(Debug, PartialEq)]
pub struct CargoToml {
    pub package: Option<Package>,
    pub dependencies: Option<Vec<(String, TomlValue)>>,
    pub nanoservices: Option<Vec<(String, Nanoservice)>>,
}

/// A manifest with a package and a dependency table, ready to be rewritten.
#[derive(Debug, PartialEq)]
pub struct RawCargoToml {
    pub package: Package,
    pub dependencies: Vec<(String, TomlValue)>,
    pub nanoservices: Option<Vec<(String, Nanoservice)>>,
}

impl NanoserviceKernel {
    pub open spec fn view(&self) -> KernelView {
        KernelView {
            entrypoint: self.entrypoint@,
            features: opt_strings_view(self.features),
            package: opt_text_view(self.package),
            name: self.name@,
        }
    }

    /// A copy of this kernel declaration.
    pub fn copy_kernel(&self) -> (r: NanoserviceKernel)
        ensures
            r.view() == self.view(),
    {
        NanoserviceKernel {
            entrypoint: self.entrypoint.clone(),
            features: copy_opt_strings(&self.features),
            package: copy_opt_text(&self.package),
            name: self.name.clone(),
        }
    }
}

/// The view of an optional kernel.
pub open spec fn opt_kernel_view(k: Option<NanoserviceKernel>) -> Option<KernelView> {
    match k {
        Some(k) => Some(k.view()),
        None => None,
    }
}

impl Nanoservice {
    pub open spec fn view(&self) -> NanoView {
        NanoView {
            dev_image: self.dev_image@,
            prod_image: self.prod_image@,
            entrypoint: self.entrypoint@,
            features: opt_strings_view(self.features),
            local: self.local,
            package: opt_text_view(self.package),
            kernel: opt_kernel_view(self.kernel),
        }
    }

    /// A copy of this declaration.
    pub fn copy_declaration(&self) -> (r: Nanoservice)
        ensures
            r.view() == self.view(),
    {
        let kernel = match &self.kernel {
            Some(k) => Some(k.copy_kernel()),
            None => None,
        };
        Nanoservice {
            dev_image: self.dev_image.clone(),
            prod_image: self.prod_image.clone(),
            entrypoint: self.entrypoint.clone(),
            features: copy_opt_strings(&self.features),
            local: self.local,
            package: copy_opt_text(&self.package),
            kernel,
        }
    }

    /// Whether two declarations are the same in every field.
    pub fn same_as(&self, other: &Nanoservice) -> (r: bool)
        ensures
            r == (self.view() == other.view()),
    {
        let kernels = match (&self.kernel, &other.kernel) {
            (Some(a), Some(b)) => {
                a.entrypoint == b.entrypoint && same_opt_strings(&a.features, &b.features)
                    && same_opt_text(&a.package, &b.package) && a.name == b.name
            },
            (None, None) => true,
            _ => false,
        };
        let locals = match (self.local, other.local) {
            (Some(a), Some(b)) => a == b,
            (None, None) => true,
            _ => false,
        };
        self.dev_image == other.dev_image && self.prod_image == other.prod_image && self.entrypoint
            == other.entrypoint && same_opt_strings(&self.features, &other.features) && locals
            && same_opt_text(&self.package, &other.package) && kernels
    }
}

impl CargoToml {
    /// The manifest as one that can be rewritten, if it has a package and dependencies.
    pub fn into_raw(self) -> (r: Option<RawCargoToml>)
        ensures
            (self.package is Some && self.dependencies is Some) == (r is Some),
            r matches Some(raw) ==> raw.package == self.package->0 && raw.dependencies
                == self.dependencies->0 && raw.nanoservices == self.nanoservices,
    {
        let package = match self.package {
            Some(p) => p,
            None => return None,
        };
        let dependencies = match self.dependencies {
            Some(d) => d,
            None => return None,
        };
        Some(RawCargoToml { package, dependencies, nanoservices: self.nanoservices })
    }
}

} // verus!
