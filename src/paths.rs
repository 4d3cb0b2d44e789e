//! Lexical path handling: joining, taking the parent, stripping a prefix and working
//! out the relative path from a manifest to an unpacked artifact.
use vstd::prelude::*;
use vstd::string::*;
use crate::cache::{process_image_name, sanitized};
use crate::error::ForgeError;

verus! {

/// Whether `s` begins at the file-system root.
pub open spec fn is_absolute(s: Seq<char>) -> bool {
    s.len() > 0 && s[0] == '/'
}

/// `b` appended to `a` as a further path: an absolute `b` replaces `a`, and a
/// separator goes between the two unless `a` is empty or already ends in one.
pub open spec fn path_join(a: Seq<char>, b: Seq<char>) -> Seq<char> {
    if is_absolute(b) {
        b
    } else if a.len() > 0 && a.last() != '/' {
        a + seq!['/'] + b
    } else {
        a + b
    }
}

/// Index of the last separator in `s`, or -1 when it has none.
pub open spec fn last_separator(s: Seq<char>) -> int
    decreases s.len(),
{
    if s.len() == 0 {
        -1
    } else if s.last() == '/' {
        s.len() - 1
    } else {
        last_separator(s.drop_last())
    }
}

/// The directory that holds `p`: the text before its last separator ("" when it has
/// none, "/" when that separator is the root). The root and the empty path have none.
pub open spec fn parent_dir(p: Seq<char>) -> Option<Seq<char>> {
    let i = last_separator(p);
    if p.len() == 0 || p == seq!['/'] {
        None
    } else if i < 0 {
        Some(Seq::empty())
    } else if i == 0 {
        Some(seq!['/'])
    } else {
        Some(p.subrange(0, i))
    }
}

/// `s` without its leading separators.
pub open spec fn trim_leading_separators(s: Seq<char>) -> Seq<char>
    decreases s.len(),
{
    if s.len() > 0 && s[0] == '/' {
        trim_leading_separators(s.subrange(1, s.len() as int))
    } else {
        s
    }
}

/// Whether `base` is `path` or one of its leading directories.
pub open spec fn has_path_prefix(path: Seq<char>, base: Seq<char>) -> bool {
    base.len() <= path.len() && path.subrange(0, base.len() as int) == base && (base.len() == 0
        || base.len() == path.len() || base.last() == '/' || path[base.len() as int] == '/')
}

/// `path` relative to `base` when `base` is one of its leading directories; otherwise
/// `path` unchanged.
pub open spec fn strip_or_keep(path: Seq<char>, base: Seq<char>) -> Seq<char> {
    if has_path_prefix(path, base) && base.len() > 0 {
        trim_leading_separators(path.subrange(base.len() as int, path.len() as int))
    } else {
        path
    }
}

/// The relative path from `base` to `path` as pathdiff's `diff_paths` computes it,
/// or `None` where it finds none.
pub uninterp spec fn path_diff_of(path: Seq<char>, base: Seq<char>) -> Option<Seq<char>>;

/// The two paths that are compared to place an artifact relative to a manifest: the
/// artifact's unpacked directory and the manifest's directory, each taken relative to
/// the working directory where it lies inside it.
pub open spec fn resolution_inputs(
    cargo_path: Seq<char>,
    image: Seq<char>,
    nanoservices_path: Seq<char>,
    working_dir: Seq<char>,
) -> Option<(Seq<char>, Seq<char>)> {
    match parent_dir(cargo_path) {
        None => None,
        Some(base) => Some(
            (
                path_join(strip_or_keep(nanoservices_path, working_dir), sanitized(image)),
                strip_or_keep(base, working_dir),
            ),
        ),
    }
}

/// The relative path from the manifest at `cargo_path` to `entry` inside the unpacked
/// `image`, or why there is none.
pub open spec fn relative_path_result(
    cargo_path: Seq<char>,
    image: Seq<char>,
    entry: Seq<char>,
    nanoservices_path: Seq<char>,
    working_dir: Seq<char>,
) -> Result<Seq<char>, ForgeError> {
    match resolution_inputs(cargo_path, image, nanoservices_path, working_dir) {
        None => Err(ForgeError::NoParentDirectory),
        Some((target, base)) => match path_diff_of(target, base) {
            None => Err(ForgeError::NoRelativePath),
            Some(d) => Ok(path_join(d, entry)),
        },
    }
}

/// Copies `s` into a new `String`.
pub fn to_owned_text(s: &str) -> (r: String)
    ensures
        r@ == s@,
{
    let mut out = String::new();
    out.append(s);
    out
}

/// Joins `b` onto `a` as a path.
pub fn join_path(a: &str, b: &str) -> (r: String)
    ensures
        r@ == path_join(a@, b@),
{
    let na = a.unicode_len();
    let nb = b.unicode_len();
    if nb > 0 && b.get_char(0) == '/' {
        return to_owned_text(b);
    }
    let mut out = to_owned_text(a);
    if na > 0 && a.get_char(na - 1) != '/' {
        proof {
            reveal_strlit("/");
        }
        out.append("/");
    }
    out.append(b);
    out
}

/// The directory holding `p`, if it has one.
pub fn parent_path(p: &str) -> (r: Option<String>)
    ensures
        r matches Some(d) ==> parent_dir(p@) == Some(d@),
        r is None ==> parent_dir(p@) is None,
{
    let n = p.unicode_len();
    if n == 0 || (n == 1 && p.get_char(0) == '/') {
        proof {
            if n == 1 {
                assert(p@ =~= seq!['/']);
            }
        }
        return None;
    }
    assert(p@ != seq!['/']);
    let mut i: usize = n;
    assert(p@.subrange(0, n as int) =~= p@);
    while i > 0 && p.get_char(i - 1) != '/'
        invariant
            n == p@.len(),
            i <= n,
            last_separator(p@) == last_separator(p@.subrange(0, i as int)),
        decreases i,
    {
        assert(p@.subrange(0, i - 1) =~= p@.subrange(0, i as int).drop_last());
        i = i - 1;
    }
    assert(p@.subrange(0, n as int) =~= p@);
    if i == 0 {
        assert(p@.subrange(0, 0) =~= Seq::<char>::empty());
        Some(String::new())
    } else if i == 1 {
        proof {
            reveal_strlit("/");
        }
        Some(to_owned_text("/"))
    } else {
        Some(to_owned_text(p.substring_char(0, i - 1)))
    }
}

/// `s` without its leading separators.
pub fn trim_separators(s: &str) -> (r: String)
    ensures
        r@ == trim_leading_separators(s@),
{
    let n = s.unicode_len();
    let mut i: usize = 0;
    assert(s@.subrange(0, n as int) =~= s@);
    while i < n && s.get_char(i) == '/'
        invariant
            n == s@.len(),
            i <= n,
            trim_leading_separators(s@) == trim_leading_separators(s@.subrange(i as int, n as int)),
        decreases n - i,
    {
        assert(s@.subrange(i as int, n as int).subrange(1, n - i) =~= s@.subrange(i + 1, n as int));
        i = i + 1;
    }
    to_owned_text(s.substring_char(i, n))
}

/// `path` relative to `base` where `base` is one of its leading directories, else
/// `path` itself.
pub fn strip_prefix_or_keep(path: &str, base: &str) -> (r: String)
    ensures
        r@ == strip_or_keep(path@, base@),
{
    let n = path.unicode_len();
    let m = base.unicode_len();
    if m == 0 || m > n || !crate::text::occurs_at_index(path, base, 0) {
        return to_owned_text(path);
    }
    if m == n || base.get_char(m - 1) == '/' || path.get_char(m) == '/' {
        trim_separators(path.substring_char(m, n))
    } else {
        to_owned_text(path)
    }
}

/// Relies on pathdiff's `diff_paths`: the relative path from `base` to `path`, which
/// depends on the two paths alone, read back as text.
#[verifier::external_body]
fn diff_paths(path: &str, base: &str) -> (r: Option<String>)
    ensures
        r matches Some(d) ==> path_diff_of(path@, base@) == Some(d@),
        r is None ==> path_diff_of(path@, base@) is None,
{
    pathdiff::diff_paths(path, base).and_then(|p| p.to_str().map(String::from))
}

/// The artifact directory and the manifest directory that `calculate_relative_path`
/// compares, or `None` when the manifest path has no parent.
pub fn relative_path_inputs(
    cargo_path: &str,
    image: &str,
    nanoservices_path: &str,
    working_dir: &str,
) -> (r: Option<(String, String)>)
    ensures
        r matches Some((t, b)) ==> resolution_inputs(cargo_path@, image@, nanoservices_path@, working_dir@)
            == Some((t@, b@)),
        r is None ==> resolution_inputs(cargo_path@, image@, nanoservices_path@, working_dir@) is None,
{
    match parent_path(cargo_path) {
        None => None,
        Some(base) => {
            let target_root = strip_prefix_or_keep(nanoservices_path, working_dir);
            let image_dir = process_image_name(image);
            let target = join_path(target_root.as_str(), image_dir.as_str());
            let stripped_base = strip_prefix_or_keep(base.as_str(), working_dir);
            Some((target, stripped_base))
        },
    }
}

/// The relative path from the directory of the manifest at `cargo_path` to `entry`
/// inside the unpacked `image`, whose images are unpacked under `nanoservices_path`.
/// Paths inside `working_dir` are first taken relative to it.
pub fn calculate_relative_path(
    cargo_path: &str,
    image: &str,
    entry: &str,
    nanoservices_path: &str,
    working_dir: &str,
) -> (r: Result<String, ForgeError>)
    ensures
        r matches Ok(p) ==> relative_path_result(cargo_path@, image@, entry@, nanoservices_path@, working_dir@)
            == Ok::<Seq<char>, ForgeError>(p@),
        r matches Err(e) ==> relative_path_result(cargo_path@, image@, entry@, nanoservices_path@, working_dir@)
            == Err::<Seq<char>, ForgeError>(e),
{
    match relative_path_inputs(cargo_path, image, nanoservices_path, working_dir) {
        None => Err(ForgeError::NoParentDirectory),
        Some((target, base)) => match diff_paths(target.as_str(), base.as_str()) {
            None => Err(ForgeError::NoRelativePath),
            Some(d) => Ok(join_path(d.as_str(), entry)),
        },
    }
}

} // verus!
