//! The media type of a resource: declared by the manifest, else inferred from
//! the path.

use vstd::prelude::*;
use vstd::string::StrSliceExecFns;
use vstd::string::StringExecFns;

use crate::archive::{ArchiveHandle, ArchiveView};
use crate::text::{has_substring, str_contains};

verus! {

/// The media type given to content that looks like HTML and declares none.
pub open spec fn html_mime() -> Seq<char> {
    "text/html; charset=utf-8"@
}

/// The marker by which an extension or a media type is taken for HTML.
pub open spec fn html_marker() -> Seq<char> {
    "htm"@
}

/// A media type that is treated as HTML: navigation is put into its content.
pub open spec fn is_html_like(mime: Seq<char>) -> bool {
    has_substring(mime, html_marker())
}

/// The place of the last `.` or `/` in `path`.
pub open spec fn last_dot_or_slash(path: Seq<char>) -> Option<int>
    decreases path.len(),
{
    if path.len() == 0 {
        None
    } else if path.last() == '.' || path.last() == '/' {
        Some(path.len() - 1)
    } else {
        last_dot_or_slash(path.drop_last())
    }
}

/// The extension of a path: what follows the last `.` of its last segment,
/// unless that `.` begins the segment.
pub open spec fn extension(path: Seq<char>) -> Option<Seq<char>> {
    match last_dot_or_slash(path) {
        Some(d) => if path[d] == '.' && d > 0 && path[d - 1] != '/' {
            Some(path.subrange(d + 1, path.len() as int))
        } else {
            None
        },
        None => None,
    }
}

/// The first media type that the table of known extensions lists for `ext`.
pub uninterp spec fn guessed_mime(ext: Seq<char>) -> Option<Seq<char>>;

/// The media type that a path's extension stands for, if it is a known one.
pub open spec fn mime_of_path(path: Seq<char>) -> Option<Seq<char>> {
    match extension(path) {
        Some(ext) => guessed_mime(ext),
        None => None,
    }
}

/// An extension that looks like one of an HTML file.
pub open spec fn is_html_extension(ext: Seq<char>) -> bool {
    has_substring(ext, html_marker())
}

/// The media type chosen from what is known of a resource: the declared one
/// unless it is missing or empty, else the one its extension stands for, else
/// the HTML type where the path has an extension that looks like HTML, else
/// none (the empty text).
pub open spec fn chosen_mime(
    declared: Option<Seq<char>>,
    guessed: Option<Seq<char>>,
    path: Seq<char>,
) -> Seq<char> {
    if declared is Some && declared->Some_0.len() > 0 {
        declared->Some_0
    } else if guessed is Some {
        guessed->Some_0
    } else if extension(path) is Some && is_html_extension(extension(path)->Some_0) {
        html_mime()
    } else {
        Seq::empty()
    }
}

/// The media type of the resource stored at `inner_path`.
pub open spec fn resolved_mime(a: ArchiveView, inner_path: Seq<char>) -> Seq<char> {
    chosen_mime(a.declared_mime(inner_path), mime_of_path(inner_path), inner_path)
}

/// `mime_guess::from_ext` followed by `MimeGuess::first_raw`: the first
/// media type that the crate's table lists for the extension, which depends
/// on the extension alone.
#[verifier::external_body]
fn guess_mime(ext: &str) -> (out: Option<String>)
    ensures
        match guessed_mime(ext@) {
            Some(m) => out is Some && out->Some_0@ == m,
            None => out is None,
        },
{
    mime_guess::from_ext(ext).first_raw().map(|m| m.to_string())
}

/// The extension of `path`.
pub fn path_extension(path: &str) -> (ext: Option<&str>)
    ensures
        match extension(path@) {
            Some(e) => ext is Some && ext->Some_0@ == e,
            None => ext is None,
        },
{
    let n = path.unicode_len();
    let mut i: usize = n;
    assert(path@.subrange(0, n as int) =~= path@);
    while i > 0
        invariant
            i <= n,
            n == path@.len(),
            last_dot_or_slash(path@) == last_dot_or_slash(path@.subrange(0, i as int)),
        decreases i,
    {
        let c = path.get_char(i - 1);
        let ghost head = path@.subrange(0, i as int);
        assert(head.last() == c);
        if c == '.' || c == '/' {
            if c == '.' && i > 1 {
                let before = path.get_char(i - 2);
                if before != '/' {
                    return Some(path.substring_char(i, n));
                }
            }
            return None;
        }
        proof {
            assert(head.drop_last() =~= path@.subrange(0, i as int - 1));
        }
        i -= 1;
    }
    proof {
        assert(path@.subrange(0, 0).len() == 0);
    }
    None
}

/// Chooses the media type from the declared one, the one guessed from the
/// extension, and the path.
pub fn choose_mime(declared: Option<&str>, guessed: Option<String>, path: &str) -> (mime: String)
    ensures
        mime@ == chosen_mime(
            match declared {
                Some(d) => Some(d@),
                None => None,
            },
            match guessed {
                Some(g) => Some(g@),
                None => None,
            },
            path@,
        ),
{
    if let Some(d) = declared {
        if d.unicode_len() > 0 {
            return String::from_str(d);
        }
    }
    if let Some(g) = guessed {
        return g;
    }
    match path_extension(path) {
        Some(ext) => if str_contains(ext, "htm") {
            String::from_str("text/html; charset=utf-8")
        } else {
            String::new()
        },
        None => String::new(),
    }
}

/// The media type that the extension of `path` stands for.
pub fn guess_mime_of_path(path: &str) -> (out: Option<String>)
    ensures
        match mime_of_path(path@) {
            Some(m) => out is Some && out->Some_0@ == m,
            None => out is None,
        },
{
    match path_extension(path) {
        Some(ext) => guess_mime(ext),
        None => None,
    }
}

/// The media type of the resource stored at `inner_path`: the one the
/// manifest declares, else the one inferred from the path.
pub fn resolve_mime(doc: &ArchiveHandle, inner_path: &str) -> (mime: String)
    ensures
        mime@ == resolved_mime(doc@, inner_path@),
{
    if let Some(r) = doc.find_by_path(inner_path) {
        assert(doc@.resources[r as int] == doc.resources@[r as int]@);
        if let Some(m) = &doc.resources[r].mime {
            if m.as_str().unicode_len() > 0 {
                return m.clone();
            }
        }
    }
    choose_mime(None, guess_mime_of_path(inner_path), inner_path)
}

/// Whether a media type is treated as HTML.
pub fn mime_is_html_like(mime: &str) -> (html: bool)
    ensures
        html == is_html_like(mime@),
{
    str_contains(mime, "htm")
}

/// Without a declared type and without a type known for the extension, a
/// path gets the HTML type only by its extension: a path without extension
/// gets none, whatever its directories are called.
pub proof fn lemma_html_default_needs_extension(
    declared: Option<Seq<char>>,
    guessed: Option<Seq<char>>,
    path: Seq<char>,
)
    requires
        declared is None || declared->Some_0.len() == 0,
        guessed is None,
    ensures
        extension(path) is None ==> chosen_mime(declared, guessed, path) == Seq::<char>::empty(),
        chosen_mime(declared, guessed, path) == html_mime() || chosen_mime(declared, guessed, path)
            == Seq::<char>::empty(),
        extension(path) is Some && is_html_extension(extension(path)->Some_0) ==> chosen_mime(
            declared,
            guessed,
            path,
        ) == html_mime(),
{
}

} // verus!
