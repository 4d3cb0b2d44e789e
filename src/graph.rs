//! The data of the dependency graph: which manifest declares which nanoservices.
use vstd::prelude::*;
use crate::collect::ManifestPlan;
use crate::manifest::strings_view;
use crate::text::{replace_text, replaced};

verus! {

/// The cache path that prefixes the manifests of unpacked images.
pub open spec fn unpacked_prefix() -> Seq<char> {
    ".nanoservices_cache/domain_services/nanoservices/"@
}

/// A node name: an unpacked image's path prefix shortened to `nanoservice:`.
pub open spec fn node_label(s: Seq<char>) -> Seq<char> {
    replaced(s, unpacked_prefix(), "nanoservice:"@)
}

/// The names declared by a manifest to rewrite.
pub open spec fn declared_names(plan: ManifestPlan) -> Seq<Seq<char>> {
    match plan {
        ManifestPlan::Declared(raw) => match raw.nanoservices {
            Some(ns) => ns@.map_values(|e: (String, crate::manifest::Nanoservice)| node_label(e.0@)),
            None => Seq::empty(),
        },
        _ => Seq::empty(),
    }
}

/// One node per manifest that declares nanoservices, in order, with the nanoservices
/// it depends on.
pub open spec fn graph_of(plans: Seq<(String, ManifestPlan)>) -> Seq<(Seq<char>, Seq<Seq<char>>)>
    decreases plans.len(),
{
    if plans.len() == 0 {
        Seq::empty()
    } else {
        let prev = graph_of(plans.drop_last());
        if plans.last().1 is Declared {
            prev.push((node_label(plans.last().0@), declared_names(plans.last().1)))
        } else {
            prev
        }
    }
}

/// The text of each node and its dependencies.
pub open spec fn graph_view(g: Seq<(String, Vec<String>)>) -> Seq<(Seq<char>, Seq<Seq<char>>)> {
    g.map_values(|e: (String, Vec<String>)| (e.0@, strings_view(e.1@)))
}

/// The label of a node.
fn label(s: &str) -> (r: String)
    ensures
        r@ == node_label(s@),
{
    replace_text(s, ".nanoservices_cache/domain_services/nanoservices/", "nanoservice:")
}

/// The dependency graph of the manifests of a pass: each manifest that declares
/// nanoservices, with the names it declares.
pub fn graph_nanos(plans: &Vec<(String, ManifestPlan)>) -> (r: Vec<(String, Vec<String>)>)
    ensures
        graph_view(r@) == graph_of(plans@),
{
    let mut out: Vec<(String, Vec<String>)> = Vec::new();
    let mut i: usize = 0;
    assert(plans@.subrange(0, 0) =~= Seq::<(String, ManifestPlan)>::empty());
    assert(graph_view(out@) =~= Seq::<(Seq<char>, Seq<Seq<char>>)>::empty());
    while i < plans.len()
        invariant
            i <= plans.len(),
            graph_view(out@) == graph_of(plans@.subrange(0, i as int)),
        decreases plans.len() - i,
    {
        assert(plans@.subrange(0, i + 1).drop_last() =~= plans@.subrange(0, i as int));
        assert(plans@.subrange(0, i + 1).last() == plans@[i as int]);
        match &plans[i].1 {
            ManifestPlan::Declared(raw) => {
                let mut names: Vec<String> = Vec::new();
                match &raw.nanoservices {
                    Some(ns) => {
                        let mut j: usize = 0;
                        while j < ns.len()
                            invariant
                                j <= ns.len(),
                                names@.len() == j,
                                forall|k: int| 0 <= k < j ==> #[trigger] names@[k]@ == node_label(ns@[k].0@),
                            decreases ns.len() - j,
                        {
                            names.push(label(ns[j].0.as_str()));
                            j = j + 1;
                        }
                        assert(strings_view(names@) =~= declared_names(plans@[i as int].1));
                    },
                    None => {
                        assert(strings_view(names@) =~= declared_names(plans@[i as int].1));
                    },
                }
                let ghost before = out@;
                out.push((label(plans[i].0.as_str()), names));
                assert(graph_view(out@) =~= graph_view(before).push(
                    (node_label(plans@[i as int].0@), declared_names(plans@[i as int].1)),
                ));
            },
            _ => {},
        }
        i = i + 1;
    }
    assert(plans@.subrange(0, i as int) =~= plans@);
    out
}

} // verus!
