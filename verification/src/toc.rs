//! Rendering of an archive's table of contents, and what a request for it
//! is answered with.
//!
//! A request is served in two steps, between which the caller opens the
//! archive: [`epub_toc_cached`] looks into the cache, [`epub_toc`] renders
//! the document and stores it. An archive without a table of contents is
//! answered with its first chapter instead, by way of the request for that
//! resource.

use vstd::prelude::*;
use vstd::string::StrSliceExecFns;
use vstd::string::StringExecFns;
use vstd::utf8::encode_utf8;

use crate::archive::{
    forest_view, lemma_spine_path_is_listed, lemma_spine_path_resolves, ArchiveHandle, ArchiveView,
    NavPoint, NavView,
};
use crate::cache::{
    lemma_lookup_after_store, lemma_stored_wf, lemma_touch_keeps_replies, CacheView, Content,
    ReplyCache,
};
use crate::content::{copy_content, resource_found, resolved_content, EpubError};
use crate::mime::html_mime;
use crate::path_codec::{decoded_path, encode, encoded_path};

verus! {

/// The indentation of a line at `depth`.
pub open spec fn indent_text(depth: nat) -> Seq<char>
    decreases depth,
{
    if depth == 0 {
        Seq::empty()
    } else {
        indent_text((depth - 1) as nat) + "&emsp;"@
    }
}

/// The line for one entry: its label as a link to where it points, indented
/// by its depth.
pub open spec fn nav_line(nav: NavView, depth: nat) -> Seq<char> {
    "<div>"@ + indent_text(depth) + "<a href=\""@ + nav.content + "\">"@ + nav.label
        + "</a></div>"@
}

/// The lines for an entry and all entries below it: the entry first, then
/// its children from left to right, one level deeper.
pub open spec fn nav_lines(nav: NavView, depth: nat) -> Seq<char>
    decreases nav, 1int,
{
    nav_line(nav, depth) + forest_lines(nav.children, depth + 1)
}

/// The lines for a forest, tree after tree in source order.
pub open spec fn forest_lines(forest: Seq<NavView>, depth: nat) -> Seq<char>
    decreases forest, 0int,
{
    if forest.len() == 0 {
        Seq::empty()
    } else {
        forest_lines(forest.drop_last(), depth) + nav_lines(forest.last(), depth)
    }
}

/// The document for a table of contents. Its links are relative to the
/// content root of the archive, which `token` names.
pub open spec fn toc_page(toc: Seq<NavView>, token: Seq<char>) -> Seq<char> {
    "<head><base href=\"/epub_cont/"@ + token + "/\"/></head>"@ + "<body>"@ + forest_lines(toc, 0)
        + "</body>"@
}

/// The reply that carries the table of contents of the archive at `path`.
pub open spec fn toc_reply(a: ArchiveView, path: Seq<char>) -> (Seq<char>, Seq<u8>) {
    (html_mime(), encode_utf8(toc_page(a.toc, encoded_path(path))))
}

/// How a request for a table of contents is answered.
pub ghost enum TocPlan {
    /// With this document.
    Document((Seq<char>, Seq<u8>)),
    /// With the reply to the request for this resource of the archive that
    /// the token names.
    Delegate(Seq<char>, Seq<char>),
    /// With the report that the archive has no content.
    NoContent,
}

/// How the request for the table of contents of the archive at `path` is
/// answered: with the rendered document; without a table of contents, with
/// the first chapter; without a first chapter either, with a failure.
pub open spec fn toc_plan(a: ArchiveView, path: Seq<char>) -> TocPlan {
    if a.toc.len() > 0 {
        TocPlan::Document(toc_reply(a, path))
    } else {
        match a.spine_path(0) {
            Some(first) => TocPlan::Delegate(encoded_path(path), first),
            None => TocPlan::NoContent,
        }
    }
}

/// Why a request fails, by kind.
pub ghost enum Failure {
    /// The token stands for no path.
    BadToken,
    /// The archive has no resource at the inner path.
    ResourceNotFound,
    /// The archive has neither a table of contents nor a spine.
    NoContent,
}

/// What a request for the resource at `inner_path` sends, for the opened
/// archive and the bytes stored at that path.
pub open spec fn content_answer(
    a: ArchiveView,
    token: Seq<char>,
    inner_path: Seq<char>,
    raw: Option<Seq<u8>>,
) -> Result<(Seq<char>, Seq<u8>), Failure> {
    match decoded_path(token) {
        Some(archive_path) => if resource_found(a, inner_path, raw) {
            Ok(resolved_content(a, token, archive_path, inner_path, raw->Some_0))
        } else {
            Err(Failure::ResourceNotFound)
        },
        None => Err(Failure::BadToken),
    }
}

/// What a request for the table of contents of the archive at `path` sends,
/// for the opened archive and the bytes stored for its first chapter.
pub open spec fn toc_answer(a: ArchiveView, path: Seq<char>, first_raw: Option<Seq<u8>>) -> Result<
    (Seq<char>, Seq<u8>),
    Failure,
> {
    match toc_plan(a, path) {
        TocPlan::Document(reply) => Ok(reply),
        TocPlan::Delegate(token, inner_path) => content_answer(a, token, inner_path, first_raw),
        TocPlan::NoContent => Err(Failure::NoContent),
    }
}

/// For an archive without a table of contents and with a spine, a request
/// for the table of contents sends what a request for the first chapter
/// sends; and where the token gives the archive's path back, that is the
/// first chapter resolved, or the report that it is missing.
pub proof fn lemma_fallback_equivalence(a: ArchiveView, path: Seq<char>, first_raw: Option<Seq<u8>>)
    requires
        a.wf(),
        a.toc.len() == 0,
        a.spine.len() > 0,
    ensures
        a.spine_path(0) is Some,
        toc_plan(a, path) == TocPlan::Delegate(encoded_path(path), a.spine_path(0)->Some_0),
        toc_answer(a, path, first_raw) == content_answer(
            a,
            encoded_path(path),
            a.spine_path(0)->Some_0,
            first_raw,
        ),
        decoded_path(encoded_path(path)) == Some(path) ==> toc_answer(a, path, first_raw)
            == match first_raw {
            Some(bytes) => Ok(
                resolved_content(a, encoded_path(path), path, a.spine_path(0)->Some_0, bytes),
            ),
            None => Err(Failure::ResourceNotFound),
        },
{
    lemma_spine_path_resolves(a, 0);
    lemma_spine_path_is_listed(a, 0);
}

/// An archive with neither a table of contents nor a spine has no content
/// to answer with.
pub proof fn lemma_no_content(a: ArchiveView, path: Seq<char>, first_raw: Option<Seq<u8>>)
    requires
        a.toc.len() == 0,
        a.spine.len() == 0,
    ensures
        toc_plan(a, path) == TocPlan::NoContent,
        toc_answer(a, path, first_raw) == Err::<(Seq<char>, Seq<u8>), Failure>(Failure::NoContent),
{
}

/// Once the table of contents of an archive was rendered and stored, the
/// same request is answered from the cache, with the same bytes, however
/// often it is repeated.
pub proof fn lemma_repeated_toc_request(c: CacheView, a: ArchiveView, path: Seq<char>)
    requires
        c.wf(),
    ensures
        c.stored(path, toc_reply(a, path)).lookup(path) == Some(toc_reply(a, path)),
        c.stored(path, toc_reply(a, path)).touched(path).lookup(path) == Some(toc_reply(a, path)),
{
    lemma_lookup_after_store(c, path, toc_reply(a, path));
    lemma_stored_wf(c, path, toc_reply(a, path));
    lemma_touch_keeps_replies(c.stored(path, toc_reply(a, path)), path, path);
}

/// The view of a forest is the forest of the views.
proof fn lemma_children_view(nav: &NavPoint)
    ensures
        nav@.children == forest_view(nav.children@),
{
    assert forall|i: int| 0 <= i < nav.children@.len() implies nav@.children[i]
        == forest_view(nav.children@)[i] by {}
    assert(nav@.children =~= forest_view(nav.children@));
}

/// Appends the lines for `nav` at `depth`, whose indentation is `indent`.
fn resp_navpoint(out: &mut String, indent: &str, nav: &NavPoint, Ghost(depth): Ghost<nat>)
    requires
        indent@ == indent_text(depth),
    ensures
        final(out)@ == old(out)@ + nav_lines(nav@, depth),
    decreases nav,
{
    let ghost start = out@;
    out.append("<div>");
    out.append(indent);
    out.append("<a href=\"");
    out.append(nav.content.as_str());
    out.append("\">");
    out.append(nav.label.as_str());
    out.append("</a></div>");
    assert(out@ =~= start + nav_line(nav@, depth));
    proof {
        lemma_children_view(nav);
    }
    let n = nav.children.len();
    if n > 0 {
        let mut deeper = String::from_str(indent);
        deeper.append("&emsp;");
        let ghost kids = forest_view(nav.children@);
        let mut i: usize = 0;
        assert(kids.take(0) =~= Seq::<NavView>::empty());
        while i < n
            invariant
                i <= n,
                n == nav.children@.len(),
                kids == forest_view(nav.children@),
                deeper@ == indent_text(depth + 1),
                out@ == start + nav_line(nav@, depth) + forest_lines(kids.take(i as int), depth + 1),
            decreases n - i,
        {
            resp_navpoint(out, deeper.as_str(), &nav.children[i], Ghost(depth + 1));
            proof {
                let next = kids.take(i as int + 1);
                assert(next.drop_last() =~= kids.take(i as int));
                assert(next.last() == nav.children@[i as int]@);
                assert(out@ =~= start + nav_line(nav@, depth) + forest_lines(next, depth + 1));
            }
            i += 1;
        }
        assert(kids.take(n as int) =~= kids);
        assert(out@ =~= start + (nav_line(nav@, depth) + forest_lines(kids, depth + 1)));
    } else {
        assert(forest_lines(nav@.children, depth + 1) =~= Seq::<char>::empty());
        assert(out@ =~= start + nav_lines(nav@, depth));
    }
}

/// Renders the table of contents of an archive as a document whose links
/// are relative to the content root that `token` names. The forest is
/// walked in pre-order: each entry gives one line, indented by its depth,
/// and its children follow it at once, in source order.
pub fn render_toc(toc: &Vec<NavPoint>, token: &str) -> (out: String)
    ensures
        out@ == toc_page(forest_view(toc@), token@),
{
    let mut out = String::from_str("<head><base href=\"/epub_cont/");
    out.append(token);
    out.append("/\"/></head>");
    out.append("<body>");
    let ghost head = out@;
    let ghost forest = forest_view(toc@);
    let n = toc.len();
    let mut i: usize = 0;
    assert(forest.take(0) =~= Seq::<NavView>::empty());
    while i < n
        invariant
            i <= n,
            n == toc@.len(),
            forest == forest_view(toc@),
            out@ == head + forest_lines(forest.take(i as int), 0),
        decreases n - i,
    {
        proof {
            reveal_strlit("");
            assert(""@ =~= indent_text(0));
        }
        resp_navpoint(&mut out, "", &toc[i], Ghost(0));
        proof {
            let next = forest.take(i as int + 1);
            assert(next.drop_last() =~= forest.take(i as int));
            assert(next.last() == toc@[i as int]@);
            assert(out@ =~= head + forest_lines(next, 0));
        }
        i += 1;
    }
    assert(forest.take(n as int) =~= forest);
    out.append("</body>");
    out
}

/// How a request for a table of contents goes on once the archive is open.
pub enum TocOutcome {
    /// This document is the reply.
    Document(Content),
    /// The reply is that of the request for the resource at `inner_path` of
    /// the archive that `token` names.
    Delegate { token: String, inner_path: String },
}

/// The first step of a request for the table of contents of the archive at
/// `path`: the cached document, if there is one, which thereby counts as
/// used.
pub fn epub_toc_cached(cache: &mut ReplyCache, path: &str) -> (out: Option<Content>)
    ensures
        final(cache)@ == old(cache)@.touched(path@),
        old(cache).wf() ==> final(cache).wf(),
        match old(cache)@.lookup(path@) {
            Some(reply) => out matches Some(c) && c@ == reply,
            None => out is None,
        },
{
    cache.get(path)
}

/// The second step of a request for the table of contents of the opened
/// archive at `path`. Where the archive has a table of contents, the
/// document is rendered, stored in the cache and returned. Where it has
/// none but has a spine, the request is handed on to the request for the
/// first chapter, under the token that stands for `path`. Where it has no
/// first chapter either, the request fails with [`EpubError::NoContent`]. Only a rendered
/// document changes the cache.
pub fn epub_toc(cache: &mut ReplyCache, doc: &ArchiveHandle, path: &str) -> (out: Result<
    TocOutcome,
    EpubError,
>)
    ensures
        old(cache).wf() ==> final(cache).wf(),
        match toc_plan(doc@, path@) {
            TocPlan::Document(reply) => {
                &&& out matches Ok(TocOutcome::Document(c)) && c@ == reply
                &&& final(cache)@ == old(cache)@.stored(path@, reply)
            },
            TocPlan::Delegate(token, inner_path) => {
                &&& out matches Ok(TocOutcome::Delegate { token: t, inner_path: p }) && t@ == token
                    && p@ == inner_path
                &&& decoded_path(token) == Some(path@)
                &&& final(cache)@ == old(cache)@
            },
            TocPlan::NoContent => {
                &&& out matches Err(EpubError::NoContent)
                &&& final(cache)@ == old(cache)@
            },
        },
{
    let token = encode(path);
    assert(doc@.toc.len() == doc.toc@.len());
    assert(doc@.spine.len() == doc.spine@.len());
    if doc.toc.len() == 0 {
        return match doc.spine_path(0) {
            Some(first) => Ok(TocOutcome::Delegate { token, inner_path: first.clone() }),
            None => Err(EpubError::NoContent),
        };
    }
    let page = render_toc(&doc.toc, token.as_str());
    let reply = Content {
        mime: String::from_str("text/html; charset=utf-8"),
        bytes: page.as_str().as_bytes_vec(),
    };
    cache.put(String::from_str(path), copy_content(&reply));
    Ok(TocOutcome::Document(reply))
}

} // verus!
