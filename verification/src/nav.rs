//! The navigation bar put into HTML content: a link to the previous chapter,
//! one to the table of contents and one to the next chapter.

use vstd::prelude::*;
use vstd::string::StringExecFns;
use vstd::utf8::encode_utf8;

use crate::archive::{lemma_spine_path_resolves, ArchiveHandle, ArchiveView};
use crate::lookup::{first_index, lemma_first_index_found, lemma_first_index_is_first};
use crate::url::{percent_encode, percent_encoded};

verus! {

/// The opening of the bar.
pub open spec fn bar_open() -> Seq<char> {
    "<div style=\"display: flex; justify-content: space-between; align-items: center;\">"@
}

/// The closing of the bar.
pub open spec fn bar_close() -> Seq<char> {
    "</div>"@
}

/// The placeholder shown where there is no previous chapter.
pub open spec fn prev_disabled() -> Seq<char> {
    "<span style=\"color:grey\">Prex</span>"@
}

/// The placeholder shown where the archive has no table of contents.
pub open spec fn toc_disabled() -> Seq<char> {
    "<span style=\"color:grey\">Table of Contents</span>"@
}

/// The placeholder shown where there is no next chapter.
pub open spec fn next_disabled() -> Seq<char> {
    "<span style=\"color:grey\">Next</span>"@
}

/// A link to the resource at `path` of the archive that `token` stands for.
pub open spec fn chapter_link(token: Seq<char>, path: Seq<char>, label: Seq<char>) -> Seq<char> {
    "<a href=\"/epub_cont/"@ + token + "/"@ + path + "\">"@ + label + "</a>"@
}

/// A link to the table of contents of the archive at `archive_path`.
pub open spec fn toc_link(archive_path: Seq<char>) -> Seq<char> {
    "<a href=\"/epub_toc/"@ + percent_encoded(encode_utf8(archive_path))
        + "\">Table of Contents</a>"@
}

/// The path of the chapter before position `idx` of the spine, if there is
/// one and its entry names a resource.
pub open spec fn prev_target(a: ArchiveView, idx: Option<int>) -> Option<Seq<char>> {
    match idx {
        Some(i) => if i > 0 {
            a.spine_path(i - 1)
        } else {
            None
        },
        None => None,
    }
}

/// The path of the chapter after position `idx` of the spine, if there is
/// one and its entry names a resource.
pub open spec fn next_target(a: ArchiveView, idx: Option<int>) -> Option<Seq<char>> {
    match idx {
        Some(i) => a.spine_path(i + 1),
        None => None,
    }
}

/// The first element of the bar.
pub open spec fn prev_part(token: Seq<char>, target: Option<Seq<char>>) -> Seq<char> {
    match target {
        Some(path) => chapter_link(token, path, "Prev"@),
        None => prev_disabled(),
    }
}

/// The middle element of the bar.
pub open spec fn toc_part(archive_path: Seq<char>, has_toc: bool) -> Seq<char> {
    if has_toc {
        toc_link(archive_path)
    } else {
        toc_disabled()
    }
}

/// The last element of the bar.
pub open spec fn next_part(token: Seq<char>, target: Option<Seq<char>>) -> Seq<char> {
    match target {
        Some(path) => chapter_link(token, path, "Next"@),
        None => next_disabled(),
    }
}

/// The bar made of the three elements.
pub open spec fn bar_of(
    token: Seq<char>,
    archive_path: Seq<char>,
    prev: Option<Seq<char>>,
    has_toc: bool,
    next: Option<Seq<char>>,
) -> Seq<char> {
    bar_open() + prev_part(token, prev) + toc_part(archive_path, has_toc) + next_part(token, next)
        + bar_close()
}

/// The navigation bar for the resource at `inner_path`. There is none for a
/// path that no resource of the table has, and none where none of the three
/// elements would be a link. A resource that the spine does not list has
/// neither a previous nor a next chapter.
pub open spec fn nav_bar(
    a: ArchiveView,
    token: Seq<char>,
    archive_path: Seq<char>,
    inner_path: Seq<char>,
) -> Option<Seq<char>> {
    let idx = a.spine_index_of_path(inner_path);
    let prev = prev_target(a, idx);
    let next = next_target(a, idx);
    if first_index(a.paths(), inner_path) is None {
        None
    } else if prev is None && a.toc.len() == 0 && next is None {
        None
    } else {
        Some(bar_of(token, archive_path, prev, a.toc.len() > 0, next))
    }
}

/// A link to a chapter.
fn make_chapter_link(token: &str, path: &str, label: &str) -> (out: String)
    ensures
        out@ == chapter_link(token@, path@, label@),
{
    let mut out = String::from_str("<a href=\"/epub_cont/");
    out.append(token);
    out.append("/");
    out.append(path);
    out.append("\">");
    out.append(label);
    out.append("</a>");
    out
}

/// The position in the spine of the resource stored at `inner_path`.
pub fn spine_index_of_path(doc: &ArchiveHandle, inner_path: &str) -> (idx: Option<usize>)
    ensures
        match idx {
            Some(i) => doc@.spine_index_of_path(inner_path@) == Some(i as int) && i
                < doc.spine@.len(),
            None => doc@.spine_index_of_path(inner_path@) is None,
        },
{
    match doc.find_by_path(inner_path) {
        Some(r) => {
            assert(doc@.resources[r as int] == doc.resources@[r as int]@);
            doc.spine_position(doc.resources[r].id.as_str())
        },
        None => None,
    }
}

/// Builds the navigation bar for the resource at `inner_path` of the archive
/// at `file_path`, whose token is `b64_path`. Returns `None` where no
/// resource of the table has that path, and where the bar would hold no link
/// at all.
pub fn epub_gen_html_nav_elem(
    doc: &ArchiveHandle,
    b64_path: &str,
    file_path: &str,
    inner_path: &str,
) -> (out: Option<String>)
    ensures
        match nav_bar(doc@, b64_path@, file_path@, inner_path@) {
            Some(bar) => out is Some && out->Some_0@ == bar,
            None => out is None,
        },
{
    if doc.find_by_path(inner_path).is_none() {
        return None;
    }
    let idx = spine_index_of_path(doc, inner_path);
    let ghost a = doc@;
    let ghost gidx: Option<int> = match idx {
        Some(i) => Some(i as int),
        None => None,
    };
    let mut has_nav = false;
    let mut out = String::from_str(
        "<div style=\"display: flex; justify-content: space-between; align-items: center;\">",
    );
    let prev = match idx {
        Some(i) => if i > 0 {
            doc.spine_path(i - 1)
        } else {
            None
        },
        None => None,
    };
    match prev {
        Some(path) => {
            let link = make_chapter_link(b64_path, path.as_str(), "Prev");
            out.append(link.as_str());
            has_nav = true;
        },
        None => {
            out.append("<span style=\"color:grey\">Prex</span>");
        },
    }
    assert(out@ == bar_open() + prev_part(b64_path@, prev_target(a, gidx)));
    assert(a.toc.len() == doc.toc@.len());
    if doc.toc.len() > 0 {
        let escaped = percent_encode(file_path);
        let mut link = String::from_str("<a href=\"/epub_toc/");
        link.append(escaped.as_str());
        link.append("\">Table of Contents</a>");
        out.append(link.as_str());
        has_nav = true;
    } else {
        out.append("<span style=\"color:grey\">Table of Contents</span>");
    }
    assert(out@ == bar_open() + prev_part(b64_path@, prev_target(a, gidx)) + toc_part(
        file_path@,
        a.toc.len() > 0,
    ));
    let next = match idx {
        Some(i) => if i < doc.spine.len() - 1 {
            doc.spine_path(i + 1)
        } else {
            None
        },
        None => None,
    };
    match next {
        Some(path) => {
            let link = make_chapter_link(b64_path, path.as_str(), "Next");
            out.append(link.as_str());
            has_nav = true;
        },
        None => {
            out.append("<span style=\"color:grey\">Next</span>");
        },
    }
    if !has_nav {
        return None;
    }
    out.append("</div>");
    Some(out)
}

/// Where resource paths are unique and the spine lists no resource twice,
/// the chapter at position `k` of the spine is found at position `k`.
pub proof fn lemma_spine_index_of_spine_path(a: ArchiveView, k: int)
    requires
        a.wf(),
        0 <= k < a.spine.len(),
        a.paths().no_duplicates(),
        a.spine.no_duplicates(),
    ensures
        a.spine_path(k) is Some,
        a.spine_index_of_path(a.spine_path(k)->Some_0) == Some(k),
{
    lemma_first_index_is_first(a.ids(), a.spine[k]);
    let r = first_index(a.ids(), a.spine[k]).unwrap();
    let path = a.spine_path(k)->Some_0;
    assert(a.ids()[r] == a.spine[k]);
    assert(a.paths()[r] == path);
    assert forall|j: int| 0 <= j < r implies a.paths()[j] != path by {
        assert(a.paths()[j] != a.paths()[r]);
    }
    lemma_first_index_found(a.paths(), path, r);
    assert forall|j: int| 0 <= j < k implies a.spine[j] != a.spine[k] by {}
    lemma_first_index_found(a.spine, a.spine[k], k);
}

/// The first chapter of the spine gets a disabled placeholder in place of
/// the link to a previous chapter and, where the spine goes on, a link to
/// the second chapter.
pub proof fn lemma_first_chapter_bar(
    a: ArchiveView,
    token: Seq<char>,
    archive_path: Seq<char>,
    inner_path: Seq<char>,
)
    requires
        a.wf(),
        a.spine_index_of_path(inner_path) == Some(0int),
    ensures
        prev_part(token, prev_target(a, Some(0int))) == prev_disabled(),
        a.spine.len() > 1 ==> a.spine_path(1) is Some && nav_bar(
            a,
            token,
            archive_path,
            inner_path,
        ) == Some(
            bar_open() + prev_disabled() + toc_part(archive_path, a.toc.len() > 0) + chapter_link(
                token,
                a.spine_path(1)->Some_0,
                "Next"@,
            ) + bar_close(),
        ),
        a.spine.len() <= 1 && a.toc.len() == 0 ==> nav_bar(a, token, archive_path, inner_path)
            is None,
{
    if a.spine.len() > 1 {
        lemma_spine_path_resolves(a, 1);
    }
}

/// The last chapter of the spine gets a disabled placeholder in place of the
/// link to a next chapter.
pub proof fn lemma_last_chapter_bar(
    a: ArchiveView,
    token: Seq<char>,
    archive_path: Seq<char>,
    inner_path: Seq<char>,
)
    requires
        a.wf(),
        a.spine.len() > 0,
        a.spine_index_of_path(inner_path) == Some(a.spine.len() - 1),
    ensures
        next_part(token, next_target(a, Some(a.spine.len() - 1))) == next_disabled(),
        match nav_bar(a, token, archive_path, inner_path) {
            Some(bar) => bar == bar_open() + prev_part(
                token,
                prev_target(a, Some(a.spine.len() - 1)),
            ) + toc_part(archive_path, a.toc.len() > 0) + next_disabled() + bar_close(),
            None => a.spine.len() == 1 && a.toc.len() == 0,
        },
{
    if a.spine.len() > 1 {
        lemma_spine_path_resolves(a, a.spine.len() - 2);
    }
}

/// An archive with a table of contents puts a bar with a link to it into
/// every resource of its table, whether the spine lists the resource or
/// not.
pub proof fn lemma_toc_link_always(
    a: ArchiveView,
    token: Seq<char>,
    archive_path: Seq<char>,
    inner_path: Seq<char>,
)
    requires
        a.toc.len() > 0,
        first_index(a.paths(), inner_path) is Some,
    ensures
        nav_bar(a, token, archive_path, inner_path) is Some,
        toc_part(archive_path, a.toc.len() > 0) == toc_link(archive_path),
        ({
            let idx = a.spine_index_of_path(inner_path);
            nav_bar(a, token, archive_path, inner_path) == Some(
                bar_open() + prev_part(token, prev_target(a, idx)) + toc_link(archive_path)
                    + next_part(token, next_target(a, idx)) + bar_close(),
            )
        }),
{
}

/// In a well-formed archive whose resources have distinct paths and whose
/// spine lists no resource twice, the request for the first chapter gets a
/// bar without a link to a previous chapter and, where the spine goes on,
/// with a link to the second; the request for the last chapter gets a bar
/// without a link to a next chapter.
pub proof fn lemma_bars_at_the_ends_of_the_spine(
    a: ArchiveView,
    token: Seq<char>,
    archive_path: Seq<char>,
)
    requires
        a.wf(),
        a.spine.len() > 0,
        a.paths().no_duplicates(),
        a.spine.no_duplicates(),
    ensures
        a.spine_path(0) is Some,
        a.spine_path(a.spine.len() - 1) is Some,
        a.spine.len() > 1 ==> a.spine_path(1) is Some && nav_bar(
            a,
            token,
            archive_path,
            a.spine_path(0)->Some_0,
        ) == Some(
            bar_open() + prev_disabled() + toc_part(archive_path, a.toc.len() > 0) + chapter_link(
                token,
                a.spine_path(1)->Some_0,
                "Next"@,
            ) + bar_close(),
        ),
        match nav_bar(a, token, archive_path, a.spine_path(a.spine.len() - 1)->Some_0) {
            Some(bar) => bar == bar_open() + prev_part(
                token,
                prev_target(a, Some(a.spine.len() - 1)),
            ) + toc_part(archive_path, a.toc.len() > 0) + next_disabled() + bar_close(),
            None => a.spine.len() == 1 && a.toc.len() == 0,
        },
{
    let last = a.spine.len() - 1;
    lemma_spine_index_of_spine_path(a, 0);
    lemma_spine_index_of_spine_path(a, last);
    lemma_first_chapter_bar(a, token, archive_path, a.spine_path(0)->Some_0);
    lemma_last_chapter_bar(a, token, archive_path, a.spine_path(last)->Some_0);
}

/// A path that no resource of the table has gets no bar, whatever table of
/// contents and spine the archive has.
pub proof fn lemma_no_bar_outside_the_table(
    a: ArchiveView,
    token: Seq<char>,
    archive_path: Seq<char>,
    inner_path: Seq<char>,
)
    requires
        first_index(a.paths(), inner_path) is None,
    ensures
        nav_bar(a, token, archive_path, inner_path) is None,
{
}

} // verus!
