//! Staging and unpacking an image: where its archive and its files go, which layer
//! blobs its manifest lists, and whether a blob is compressed.
use vstd::prelude::*;
use crate::cache::{sanitized, CacheLayout, process_image_name};
use crate::error::ForgeError;
use crate::paths::{join_path, path_join};
use vstd::string::*;

verus! {

/// A JSON document, as the image manifest is written.
#[derive(Debug, PartialEq)]
pub enum JsonValue {
    Null,
    Bool(bool),
    /// A number, held as its text.
    Number(String),
    Str(String),
    Array(Vec<JsonValue>),
    Object(Vec<(String, JsonValue)>),
}

/// The value of `k` in an object's fields; a later field wins over an earlier one.
pub open spec fn object_get(fields: Seq<(String, JsonValue)>, k: Seq<char>) -> Option<JsonValue>
    decreases fields.len(),
{
    if fields.len() == 0 {
        None
    } else if fields.last().0@ == k {
        Some(fields.last().1)
    } else {
        object_get(fields.drop_last(), k)
    }
}

pub open spec fn layers_key() -> Seq<char> {
    seq!['L', 'a', 'y', 'e', 'r', 's']
}

/// The `Layers` array of the first entry of an image manifest, if there is one.
pub open spec fn layer_list(manifest: JsonValue) -> Option<Seq<JsonValue>> {
    if manifest is Array && manifest->Array_0.len() > 0 && manifest->Array_0@[0] is Object {
        match object_get(manifest->Array_0@[0]->Object_0@, layers_key()) {
            Some(JsonValue::Array(ls)) => Some(ls@),
            _ => None,
        }
    } else {
        None
    }
}

/// The blob paths to unpack, in the manifest's order, or why there are none. A manifest
/// without a layer list has no layers.
pub open spec fn layer_paths(manifest: JsonValue, main_path: Seq<char>) -> Result<Seq<Seq<char>>, ForgeError> {
    match layer_list(manifest) {
        None => Ok(Seq::empty()),
        Some(ls) => if forall|i: int| 0 <= i < ls.len() ==> #[trigger] ls[i] is Str {
            Ok(Seq::new(ls.len(), |i: int| path_join(main_path, ls[i]->Str_0@)))
        } else {
            Err(ForgeError::MalformedLayer)
        },
    }
}

/// The layer blobs to unpack from the image saved under `main_path`, in the order its
/// manifest lists them. Each is unpacked into the same directory, so a file of a later
/// layer replaces the same file of an earlier one.
pub fn extract_layers(manifest: &JsonValue, main_path: &str) -> (r: Result<Vec<String>, ForgeError>)
    ensures
        match layer_paths(*manifest, main_path@) {
            Ok(ps) => r matches Ok(v) && v@.len() == ps.len() && forall|i: int| 0 <= i < ps.len() ==> #[trigger] v@[i]@ == ps[i],
            Err(e) => r == Err::<Vec<String>, ForgeError>(e),
        },
{
    proof {
        reveal_strlit("Layers");
    }
    let first = match manifest {
        JsonValue::Array(items) => {
            if items.len() == 0 {
                return Ok(Vec::new());
            }
            &items[0]
        },
        _ => return Ok(Vec::new()),
    };
    let fields = match first {
        JsonValue::Object(fields) => fields,
        _ => return Ok(Vec::new()),
    };
    let key = crate::paths::to_owned_text("Layers");
    assert(key@ =~= layers_key());
    let mut k: usize = fields.len();
    assert(fields@.subrange(0, k as int) =~= fields@);
    while k > 0 && !(fields[k - 1].0 == key)
        invariant
            k <= fields.len(),
            key@ == layers_key(),
            object_get(fields@, layers_key()) == object_get(fields@.subrange(0, k as int), layers_key()),
        decreases k,
    {
        assert(fields@.subrange(0, k - 1) =~= fields@.subrange(0, k as int).drop_last());
        k = k - 1;
    }
    if k == 0 {
        assert(fields@.subrange(0, 0) =~= Seq::<(String, JsonValue)>::empty());
        return Ok(Vec::new());
    }
    assert(object_get(fields@, layers_key()) == Some(fields@[k - 1].1));
    let layers = match &fields[k - 1].1 {
        JsonValue::Array(ls) => ls,
        _ => return Ok(Vec::new()),
    };
    assert(layer_list(*manifest) == Some(layers@));
    let mut out: Vec<String> = Vec::new();
    let mut i: usize = 0;
    while i < layers.len()
        invariant
            i <= layers.len(),
            layer_list(*manifest) == Some(layers@),
            out@.len() == i,
            forall|j: int| 0 <= j < i ==> #[trigger] layers@[j] is Str && out@[j]@ == path_join(
                main_path@,
                layers@[j]->Str_0@,
            ),
        decreases layers.len() - i,
    {
        match &layers[i] {
            JsonValue::Str(layer) => {
                out.push(join_path(main_path, layer.as_str()));
            },
            _ => {
                assert(!(layers@[i as int] is Str));
                return Err(ForgeError::MalformedLayer);
            },
        }
        i = i + 1;
    }
    Ok(out)
}

/// Whether a layer blob is gzip-compressed, from its first two bytes.
pub fn check_if_gzipped(header: &[u8]) -> (r: Result<bool, ForgeError>)
    ensures
        header@.len() < 2 ==> r == Err::<bool, ForgeError>(ForgeError::LayerTooShort),
        header@.len() >= 2 ==> r == Ok::<bool, ForgeError>(header@[0] == 0x1f && header@[1] == 0x8b),
{
    if header.len() < 2 {
        return Err(ForgeError::LayerTooShort);
    }
    Ok(header[0] == 0x1f && header[1] == 0x8b)
}

/// Where an image goes in the cache.
#[derive(Debug, Clone, PartialEq)]
pub struct DownloadPlan {
    /// The archive the image is saved to.
    pub archive_path: String,
    /// Where the archive is unpacked into its layer blobs and manifest.
    pub package_dir: String,
    /// Where the layers are unpacked.
    pub unpack_dir: String,
}

/// Where downloading `image` stages and unpacks it: its archive and blobs under the
/// staging directory and its files under the unpacked-images directory, each named by
/// the sanitized image name, which is the name paths to it are resolved by.
pub fn download_nanoservice(layout: &CacheLayout, image: &str) -> (r: DownloadPlan)
    ensures
        r.archive_path@ == path_join(layout.nanoservices_tar_dir@, sanitized(image@) + ".tar"@),
        r.package_dir@ == path_join(layout.nanoservices_tar_dir@, sanitized(image@)),
        r.unpack_dir@ == path_join(layout.nanoservices_dir@, sanitized(image@)),
{
    let name = process_image_name(image);
    let mut archive_name = name.clone();
    archive_name.append(".tar");
    DownloadPlan {
        archive_path: join_path(layout.nanoservices_tar_dir.as_str(), archive_name.as_str()),
        package_dir: join_path(layout.nanoservices_tar_dir.as_str(), name.as_str()),
        unpack_dir: join_path(layout.nanoservices_dir.as_str(), name.as_str()),
    }
}

} // verus!
