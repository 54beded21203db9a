//! Resolution of one resource of an archive to a reply, with the navigation
//! bar put into content that is HTML.
//!
//! A request names the archive by its token and the resource by its path
//! inside the archive. It is served in two steps, between which the caller
//! opens the archive and reads the resource: [`epub_cont`] looks into the
//! cache and decodes the token, [`epub_cont_proc`] computes the reply and
//! stores it.

use vstd::prelude::*;
use vstd::string::StrSliceExecFns;
use vstd::string::StringExecFns;
use vstd::utf8::encode_utf8;

use crate::archive::{ArchiveHandle, ArchiveOpenError, ArchiveView};
use crate::cache::{
    lemma_lookup_after_store, lemma_stored_wf, lemma_touch_keeps_replies, CacheView, Content,
    ReplyCache,
};
use crate::lookup::first_index;
use crate::mime::{is_html_like, mime_is_html_like, resolve_mime, resolved_mime};
use crate::nav::{epub_gen_html_nav_elem, nav_bar};
use crate::path_codec::{decode, decoded_path, DecodeError};
use crate::text::{lossy_text, replace_all, replaced_all, utf8_lossy};
use vstd::string::StringSliceAdditionalSpecFns;

verus! {

/// The pattern of a document's opening body marker.
pub open spec fn open_marker() -> Seq<char> {
    "<body.*?>"@
}

/// A document's closing body marker, as bytes.
pub open spec fn close_marker() -> Seq<u8> {
    encode_utf8("</body>"@)
}

/// What a regular expression's replace-all makes of `text`, or `None` where
/// `pattern` is no regular expression: each match of the pattern, found from
/// left to right, gives way to the expansion of `rep`.
pub uninterp spec fn regex_replaced(pattern: Seq<char>, text: Seq<char>, rep: Seq<char>) -> Option<
    Seq<char>,
>;

/// `text` with each `$` doubled: the form in which a replacement rule takes
/// it literally.
pub open spec fn dollars_doubled(text: Seq<char>) -> Seq<char>
    decreases text.len(),
{
    if text.len() == 0 {
        Seq::empty()
    } else if text.last() == '$' {
        dollars_doubled(text.drop_last()) + "$$"@
    } else {
        dollars_doubled(text.drop_last()) + seq![text.last()]
    }
}

/// The replacement rule that keeps a match and puts `bar` behind it.
pub open spec fn top_rule(bar: Seq<char>) -> Seq<char> {
    "${0}"@ + dollars_doubled(bar)
}

/// The bytes of the document with the bar before each closing body marker,
/// given the document with the bar behind each opening body marker
/// (`topped`); where that is missing, the top bar is left out.
pub open spec fn with_bars(text: Seq<char>, bar: Seq<char>, topped: Option<Seq<char>>) -> Seq<
    u8,
> {
    replaced_all(
        encode_utf8(
            match topped {
                Some(t) => t,
                None => text,
            },
        ),
        close_marker(),
        encode_utf8(bar) + close_marker(),
    )
}

/// The bytes of the document with the bar behind each opening body marker
/// and before each closing body marker.
pub open spec fn injected(text: Seq<char>, bar: Seq<char>) -> Seq<u8> {
    with_bars(text, bar, regex_replaced(open_marker(), text, top_rule(bar)))
}

/// The reply for the resource at `inner_path` whose stored bytes are `raw`.
/// Content that is not HTML, or that gets no bar, passes through unchanged.
pub open spec fn resolved_content(
    a: ArchiveView,
    token: Seq<char>,
    archive_path: Seq<char>,
    inner_path: Seq<char>,
    raw: Seq<u8>,
) -> (Seq<char>, Seq<u8>) {
    let mime = resolved_mime(a, inner_path);
    if is_html_like(mime) {
        match nav_bar(a, token, archive_path, inner_path) {
            Some(bar) => (mime, injected(lossy_text(raw), bar)),
            None => (mime, raw),
        }
    } else {
        (mime, raw)
    }
}

/// The key under which the reply for a resource is cached.
pub open spec fn content_key(token: Seq<char>, inner_path: Seq<char>) -> Seq<char> {
    token + "/"@ + inner_path
}

/// `Regex::new` followed by `Regex::replace_all`, both of the crate
/// `regex`. The result depends on the three texts alone; it is `None`
/// exactly where the pattern does not compile.
#[verifier::external_body]
fn regex_replace_all(pattern: &str, text: &str, rep: &str) -> (out: Option<String>)
    ensures
        match regex_replaced(pattern@, text@, rep@) {
            Some(t) => out is Some && out->Some_0@ == t,
            None => out is None,
        },
{
    regex::Regex::new(pattern).ok().map(|re| re.replace_all(text, rep).into_owned())
}

/// Doubles each `$` of a text.
pub fn double_dollars(text: &str) -> (out: String)
    ensures
        out@ == dollars_doubled(text@),
{
    let n = text.unicode_len();
    let mut out = String::new();
    let mut i: usize = 0;
    assert(text@.subrange(0, 0) =~= Seq::<char>::empty());
    while i < n
        invariant
            i <= n,
            n == text@.len(),
            out@ == dollars_doubled(text@.subrange(0, i as int)),
        decreases n - i,
    {
        let ghost head = text@.subrange(0, i as int + 1);
        proof {
            assert(head.drop_last() =~= text@.subrange(0, i as int));
            assert(head.last() == text@[i as int]);
        }
        if text.get_char(i) == '$' {
            out.append("$$");
        } else {
            let piece = text.substring_char(i, i + 1);
            assert(piece@ =~= seq![text@[i as int]]);
            out.append(piece);
        }
        i += 1;
    }
    assert(text@.subrange(0, n as int) =~= text@);
    out
}

/// Puts the bar before each closing body marker of the document. `topped`
/// is the document with the bar already behind each opening body marker;
/// where it is `None`, `text` is taken as it is.
pub fn place_bars(text: &str, bar: &str, topped: Option<String>) -> (out: Vec<u8>)
    ensures
        out@ == with_bars(
            text@,
            bar@,
            match topped {
                Some(t) => Some(t@),
                None => None,
            },
        ),
{
    let marker = "</body>".as_bytes();
    let mut closing = bar.as_bytes_vec();
    let mut k: usize = 0;
    let ghost bar_bytes = closing@;
    while k < marker.len()
        invariant
            k <= marker@.len(),
            closing@ == bar_bytes + marker@.subrange(0, k as int),
        decreases marker@.len() - k,
    {
        closing.push(marker[k]);
        assert(closing@ =~= bar_bytes + marker@.subrange(0, k as int + 1));
        k += 1;
    }
    assert(marker@.subrange(0, marker@.len() as int) =~= marker@);
    match topped {
        Some(t) => replace_all(t.as_str().as_bytes(), marker, closing.as_slice()),
        None => replace_all(text.as_bytes(), marker, closing.as_slice()),
    }
}

/// Puts the bar into a document: behind each opening body marker and before
/// each closing body marker.
pub fn inject_nav(text: &str, bar: &str) -> (out: Vec<u8>)
    ensures
        out@ == injected(text@, bar@),
{
    let escaped = double_dollars(bar);
    let mut rule = String::from_str("${0}");
    rule.append(escaped.as_str());
    let topped = regex_replace_all("<body.*?>", text, rule.as_str());
    place_bars(text, bar, topped)
}

/// Resolves the resource at `inner_path`, whose stored bytes are `raw`, to
/// its reply: the media type, and the bytes with the navigation bar put in
/// where the type is HTML and the bar holds a link.
pub fn resolve_content(
    doc: &ArchiveHandle,
    token: &str,
    archive_path: &str,
    inner_path: &str,
    raw: Vec<u8>,
) -> (out: Content)
    ensures
        out@ == resolved_content(doc@, token@, archive_path@, inner_path@, raw@),
{
    let mime = resolve_mime(doc, inner_path);
    if mime_is_html_like(mime.as_str()) {
        if let Some(bar) = epub_gen_html_nav_elem(doc, token, archive_path, inner_path) {
            let text = utf8_lossy(raw.as_slice());
            let bytes = inject_nav(text.as_str(), bar.as_str());
            return Content { mime, bytes };
        }
    }
    Content { mime, bytes: raw }
}

/// Why a request for a table of contents or a resource fails.
pub enum EpubError {
    /// The token is not valid encoded input.
    BadToken(DecodeError),
    /// The archive is unreadable or malformed.
    Archive(ArchiveOpenError),
    /// The archive holds nothing at this inner path.
    ResourceNotFound(String),
    /// The archive has neither a table of contents nor a spine.
    NoContent,
}

impl EpubError {
    /// The HTTP status that reports this failure.
    pub open spec fn spec_status(&self) -> u16 {
        match self {
            EpubError::BadToken(_) => 400,
            EpubError::Archive(_) => 500,
            EpubError::ResourceNotFound(_) => 404,
            EpubError::NoContent => 404,
        }
    }

    /// The HTTP status that reports this failure.
    pub fn status(&self) -> (code: u16)
        ensures
            code == self.spec_status(),
    {
        match self {
            EpubError::BadToken(_) => 400,
            EpubError::Archive(_) => 500,
            EpubError::ResourceNotFound(_) => 404,
            EpubError::NoContent => 404,
        }
    }

    /// The text sent to the client.
    pub open spec fn spec_message(&self) -> Seq<char> {
        match self {
            EpubError::BadToken(e) => e.spec_message(),
            EpubError::Archive(e) => e.spec_message(),
            EpubError::ResourceNotFound(p) => "Resource ["@ + p@ + "] not found"@,
            EpubError::NoContent => "No contents found in the epub file"@,
        }
    }

    /// The text sent to the client.
    pub fn message(&self) -> (text: String)
        ensures
            text@ == self.spec_message(),
    {
        match self {
            EpubError::BadToken(e) => e.message(),
            EpubError::Archive(e) => e.message(),
            EpubError::ResourceNotFound(p) => {
                let mut text = String::from_str("Resource [");
                text.append(p.as_str());
                text.append("] not found");
                text
            },
            EpubError::NoContent => String::from_str("No contents found in the epub file"),
        }
    }
}

/// What the first step of a request for a resource found.
pub enum ContentStep {
    /// The reply was in the cache.
    Cached(Content),
    /// The token stands for no path.
    Rejected(DecodeError),
    /// The archive at this path has to be opened and the resource read.
    Open(String),
}

/// The cache key for a resource.
pub fn make_content_key(token: &str, inner_path: &str) -> (key: String)
    ensures
        key@ == content_key(token@, inner_path@),
{
    let mut key = String::from_str(token);
    key.append("/");
    key.append(inner_path);
    key
}

/// A copy of a reply.
pub fn copy_content(content: &Content) -> (out: Content)
    ensures
        out@ == content@,
{
    let mime = content.mime.clone();
    let bytes = content.bytes.clone();
    assert(bytes@ =~= content.bytes@);
    Content { mime, bytes }
}

/// The first step of a request for the resource at `inner_path` of the
/// archive that `token` stands for. A cached reply is returned, and counts
/// as used; otherwise the token is decoded, and the request goes on with the
/// archive's path or ends with the token's rejection.
pub fn epub_cont(cache: &mut ReplyCache, token: &str, inner_path: &str) -> (step: ContentStep)
    ensures
        final(cache)@ == old(cache)@.touched(content_key(token@, inner_path@)),
        old(cache).wf() ==> final(cache).wf(),
        match old(cache)@.lookup(content_key(token@, inner_path@)) {
            Some(reply) => step matches ContentStep::Cached(c) && c@ == reply,
            None => match decoded_path(token@) {
                Some(path) => step matches ContentStep::Open(p) && p@ == path,
                None => step matches ContentStep::Rejected(e) && e.token@ == token@,
            },
        },
{
    let key = make_content_key(token, inner_path);
    if let Some(reply) = cache.get(key.as_str()) {
        return ContentStep::Cached(reply);
    }
    match decode(token) {
        Ok(path) => ContentStep::Open(path),
        Err(e) => ContentStep::Rejected(e),
    }
}

/// Whether the request for `inner_path` finds a resource: the table of the
/// archive has the path, and the archive holds bytes for it.
pub open spec fn resource_found(a: ArchiveView, inner_path: Seq<char>, raw: Option<Seq<u8>>) -> bool {
    first_index(a.paths(), inner_path) is Some && raw is Some
}

/// The second step of a request for a resource, for the opened archive and
/// the bytes read at `inner_path` (`None` where the archive holds none).
/// The path is resolved against the resource table first: a path that the
/// table does not have, or for which there are no bytes, is reported as not
/// found and leaves the cache as it was. Otherwise the reply is computed,
/// stored in the cache and returned.
pub fn epub_cont_proc(
    cache: &mut ReplyCache,
    doc: &ArchiveHandle,
    token: &str,
    archive_path: &str,
    inner_path: &str,
    raw: Option<Vec<u8>>,
) -> (out: Result<Content, EpubError>)
    ensures
        old(cache).wf() ==> final(cache).wf(),
        if resource_found(
            doc@,
            inner_path@,
            match raw {
                Some(b) => Some(b@),
                None => None,
            },
        ) {
            let reply = resolved_content(
                doc@,
                token@,
                archive_path@,
                inner_path@,
                raw->Some_0@,
            );
            &&& out matches Ok(c) && c@ == reply
            &&& final(cache)@ == old(cache)@.stored(content_key(token@, inner_path@), reply)
        } else {
            &&& out matches Err(EpubError::ResourceNotFound(p)) && p@ == inner_path@
            &&& final(cache)@ == old(cache)@
        },
{
    if doc.find_by_path(inner_path).is_none() {
        return Err(EpubError::ResourceNotFound(String::from_str(inner_path)));
    }
    match raw {
        Some(bytes) => {
            let reply = resolve_content(doc, token, archive_path, inner_path, bytes);
            let key = make_content_key(token, inner_path);
            cache.put(key, copy_content(&reply));
            Ok(reply)
        },
        None => Err(EpubError::ResourceNotFound(String::from_str(inner_path))),
    }
}

/// Once a resource was resolved and its reply stored, the same request is
/// answered from the cache, with the same reply, however often it is
/// repeated.
pub proof fn lemma_repeated_content_request(
    c: CacheView,
    token: Seq<char>,
    inner_path: Seq<char>,
    reply: (Seq<char>, Seq<u8>),
)
    requires
        c.wf(),
    ensures
        c.stored(content_key(token, inner_path), reply).lookup(content_key(token, inner_path))
            == Some(reply),
        c.stored(content_key(token, inner_path), reply).touched(
            content_key(token, inner_path),
        ).lookup(content_key(token, inner_path)) == Some(reply),
{
    let key = content_key(token, inner_path);
    lemma_lookup_after_store(c, key, reply);
    lemma_stored_wf(c, key, reply);
    lemma_touch_keeps_replies(c.stored(key, reply), key, key);
}

} // verus!
