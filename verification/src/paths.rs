//! File paths as sequences of components, and the way from the `file://`
//! URI of a source file to its path.

use vstd::prelude::*;
use vstd::string::*;
use crate::lua_cats::views_of;
use crate::text::{chars_of, str_eq};

verus! {

/// `url::Url`: a value of it is carried from `parse_url` to
/// `url_to_file_path`, and read nowhere else.
#[verifier::external_type_specification]
#[verifier::external_body]
pub struct ExUrl(url::Url);

/// The components of the path that a text spells, each as text, as
/// `std::path::Path::components` tells them apart on the platform the
/// library is built for: the root of an absolute path is a component of
/// its own.
pub uninterp spec fn path_parts(path: Seq<char>) -> Seq<Seq<char>>;

/// The URL that `url::Url::parse` reads from a text, in its serialized
/// form; `None` where it refuses the text.
pub uninterp spec fn url_of_text(text: Seq<char>) -> Option<Seq<char>>;

/// The serialized form of a `url::Url`: what its `as_str` returns.
pub uninterp spec fn url_text(url: url::Url) -> Seq<char>;

/// The file path that `url::Url::to_file_path` gives for the URL with this
/// serialized form, as text, on the platform the library is built for;
/// `None` where it gives none.
pub uninterp spec fn url_file_path(url: Seq<char>) -> Option<Seq<char>>;

/// `std::path::Path::components`, each component handed out as the text
/// of its `as_os_str`. The result is what `path_parts` names.
#[verifier::external_body]
pub(crate) fn components_of(path: &str) -> (parts: Vec<String>)
    ensures
        views_of(parts@) == path_parts(path@),
{
    std::path::Path::new(path).components().map(
        |part| part.as_os_str().to_string_lossy().into_owned(),
    ).collect()
}

/// `url::Url::parse`. It succeeds on the texts for which `url_of_text`
/// names a URL, and returns that URL.
#[verifier::external_body]
fn parse_url(text: &str) -> (r: Option<url::Url>)
    ensures
        r is Some <==> url_of_text(text@) is Some,
        r matches Some(url) ==> url_of_text(text@) == Some(url_text(url)),
{
    match url::Url::parse(text) {
        Ok(url) => Some(url),
        Err(_) => None,
    }
}

/// `url::Url::to_file_path`, the path handed out as text. The outcome is
/// what `url_file_path` names for this URL.
#[verifier::external_body]
fn url_to_file_path(url: &url::Url) -> (r: Option<String>)
    ensures
        r is Some <==> url_file_path(url_text(*url)) is Some,
        r matches Some(path) ==> url_file_path(url_text(*url)) == Some(path@),
{
    match url.to_file_path() {
        Ok(path) => Some(path.to_string_lossy().into_owned()),
        Err(_) => None,
    }
}

/// The components of the path of the file that the URI `file` names;
/// `None` where `file` is no URL or the URL gives no file path.
pub open spec fn file_parts(file: Seq<char>) -> Option<Seq<Seq<char>>> {
    match url_of_text(file) {
        None => None,
        Some(url) => match url_file_path(url) {
            None => None,
            Some(path) => Some(path_parts(path)),
        },
    }
}

/// Resolves the URI of a source file to the components of its path.
pub fn locate(file: &str) -> (r: Option<Vec<String>>)
    ensures
        match file_parts(file@) {
            Some(parts) => r matches Some(found) && views_of(found@) == parts,
            None => r is None,
        },
{
    match parse_url(file) {
        None => None,
        Some(url) => match url_to_file_path(&url) {
            None => None,
            Some(path) => Some(components_of(path.as_str())),
        },
    }
}

/// The path `parts` as seen from the directory `root`: what follows `root`
/// in it. `None` where `parts` does not lie below `root`.
pub open spec fn relative_to(parts: Seq<Seq<char>>, root: Seq<Seq<char>>) -> Option<
    Seq<Seq<char>>,
> {
    if root.len() < parts.len() && root.is_prefix_of(parts) {
        Some(parts.skip(root.len() as int))
    } else {
        None
    }
}

/// Whether the first `n` components of two paths are the same.
fn same_start(a: &Vec<String>, b: &Vec<String>, n: usize) -> (same: bool)
    requires
        n <= a.len(),
        n <= b.len(),
    ensures
        same == (views_of(a@).take(n as int) == views_of(b@).take(n as int)),
{
    let mut i: usize = 0;
    while i < n
        invariant
            i <= n,
            n <= a.len(),
            n <= b.len(),
            forall|k: int| 0 <= k < i ==> a@[k]@ == b@[k]@,
        decreases n - i,
    {
        if !str_eq(a[i].as_str(), b[i].as_str()) {
            assert(views_of(a@).take(n as int)[i as int] != views_of(b@).take(n as int)[i as int]);
            return false;
        }
        i += 1;
    }
    assert(views_of(a@).take(n as int) =~= views_of(b@).take(n as int));
    true
}

/// Whether two paths have the same components.
pub fn same_path(a: &Vec<String>, b: &Vec<String>) -> (same: bool)
    ensures
        same == (views_of(a@) == views_of(b@)),
{
    if a.len() != b.len() {
        return false;
    }
    assert(views_of(a@).take(a.len() as int) =~= views_of(a@));
    assert(views_of(b@).take(b.len() as int) =~= views_of(b@));
    same_start(a, b, a.len())
}

/// Whether the path `parts` is `root` or lies below it.
pub fn starts_with(parts: &Vec<String>, root: &Vec<String>) -> (yes: bool)
    ensures
        yes == views_of(root@).is_prefix_of(views_of(parts@)),
{
    if root.len() > parts.len() {
        return false;
    }
    assert(views_of(root@).take(root.len() as int) =~= views_of(root@));
    let same = same_start(parts, root, root.len());
    assert(views_of(parts@).take(root.len() as int) =~= views_of(parts@).subrange(
        0,
        root.len() as int,
    ));
    same
}

/// The path `parts` as seen from `root`, where it lies below `root`.
pub fn strip_root(parts: &Vec<String>, root: &Vec<String>) -> (r: Option<Vec<String>>)
    ensures
        match relative_to(views_of(parts@), views_of(root@)) {
            Some(path) => r matches Some(found) && views_of(found@) == path,
            None => r is None,
        },
{
    if root.len() >= parts.len() || !starts_with(parts, root) {
        return None;
    }
    let mut out: Vec<String> = Vec::new();
    let mut i: usize = root.len();
    while i < parts.len()
        invariant
            root.len() <= i <= parts.len(),
            out@.len() == i - root.len(),
            forall|k: int| 0 <= k < out@.len() ==> out@[k]@ == parts@[root.len() + k]@,
        decreases parts.len() - i,
    {
        out.push(parts[i].clone());
        i += 1;
    }
    assert(views_of(out@) =~= views_of(parts@).skip(root.len() as int));
    Some(out)
}

/// The place of the last `.` in a name, or -1 where it has none.
pub open spec fn last_dot(name: Seq<char>) -> int
    decreases name.len(),
{
    if name.len() == 0 {
        -1
    } else if name.last() == '.' {
        name.len() - 1
    } else {
        last_dot(name.drop_last())
    }
}

/// The stem of a file name: the name up to its last `.`; the whole name
/// where it has no `.`, or only the one it starts with.
pub open spec fn stem_of(name: Seq<char>) -> Seq<char> {
    if last_dot(name) <= 0 {
        name
    } else {
        name.take(last_dot(name))
    }
}

/// The stem of a file name.
pub fn stem(name: &str) -> (r: String)
    ensures
        r@ == stem_of(name@),
{
    let chars = chars_of(name);
    let mut i: usize = chars.len();
    assert(chars@.take(i as int) =~= chars@);
    while i > 0 && chars[i - 1] != '.'
        invariant
            i <= chars.len(),
            last_dot(chars@) == last_dot(chars@.take(i as int)),
        decreases i,
    {
        assert(chars@.take(i as int).drop_last() =~= chars@.take(i - 1));
        i -= 1;
    }
    if i <= 1 {
        name.to_owned()
    } else {
        name.substring_char(0, i - 1).to_owned()
    }
}

} // verus!
