use my_cont_srv::archive::{ArchiveFault, ArchiveHandle, ArchiveOpenError, NavPoint, Resource};
use my_cont_srv::cache::{Content, ReplyCache};
use my_cont_srv::content::{
    double_dollars, epub_cont, epub_cont_proc, inject_nav, make_content_key, place_bars,
    resolve_content, ContentStep, EpubError,
};
use my_cont_srv::nav::{epub_gen_html_nav_elem, spine_index_of_path};
use my_cont_srv::path_codec::encode;
use my_cont_srv::text::replace_all;
use my_cont_srv::toc::{epub_toc, epub_toc_cached, render_toc, TocOutcome};

const BAR_OPEN: &str =
    "<div style=\"display: flex; justify-content: space-between; align-items: center;\">";

fn res(id: &str, path: &str, mime: Option<&str>) -> Resource {
    Resource { id: id.to_string(), path: path.to_string(), mime: mime.map(|m| m.to_string()) }
}

fn nav(label: &str, content: &str, children: Vec<NavPoint>) -> NavPoint {
    NavPoint { label: label.to_string(), content: content.to_string(), children }
}

fn open(path: &str, resources: Vec<Resource>, spine: &[&str], toc: Vec<NavPoint>) -> ArchiveHandle {
    let spine = spine.iter().map(|s| s.to_string()).collect();
    ArchiveHandle::new(path, resources, spine, toc).ok().unwrap()
}

fn page(title: &str) -> Vec<u8> {
    format!("<html><head><title>{}</title></head><body><p>text</p></body></html>", title)
        .into_bytes()
}

/// The manifest of a book in the manner of an EPUB 2 book.
fn v2_resources() -> Vec<Resource> {
    let xhtml = Some("application/xhtml+xml");
    let resources = vec![
        res("ncx", "OEBPS/toc.ncx", Some("application/x-dtbncx+xml")),
        res("cover", "OEBPS/cover.png", Some("image/png")),
        res("h10", "OEBPS/valentinhauy10.html", xhtml),
        res("h11", "OEBPS/valentinhauy11.html", xhtml),
        res("h12", "OEBPS/valentinhauy12.html", xhtml),
    ];
    resources
}

fn v2_toc() -> Vec<NavPoint> {
    vec![
        nav("Cover", "OEBPS/valentinhauy10.html", vec![]),
        nav(
            "Valentin Haüy\n The father of the education for the blind",
            "OEBPS/valentinhauy11.html#ops1",
            vec![nav("Notes", "OEBPS/valentinhauy12.html", vec![])],
        ),
    ]
}

/// An archive in the manner of an EPUB 2 book with a table of contents.
fn v2() -> ArchiveHandle {
    open("res_dir/v2.epub", v2_resources(), &["h10", "h11", "h12"], v2_toc())
}

/// An archive in the manner of an EPUB 3 book whose reader found no table
/// of contents.
fn v3() -> ArchiveHandle {
    let xhtml = Some("application/xhtml+xml");
    open(
        "res_dir/v3.epub",
        vec![
            res("ttl", "EPUB/xhtml/epub30-titlepage.xhtml", xhtml),
            res("nav", "EPUB/xhtml/epub30-nav.xhtml", xhtml),
            res("term", "EPUB/xhtml/epub30-terminology.xhtml", xhtml),
            res("refs", "EPUB/xhtml/epub30-references.xhtml", xhtml),
            res("changes", "EPUB/xhtml/epub30-changes.xhtml", xhtml),
            res("css", "EPUB/css/epub-spec.css", Some("text/css")),
        ],
        &["ttl", "nav", "term", "refs", "changes"],
        vec![],
    )
}

/// An archive in the manner of an EPUB 3 book with a navigation document.
fn nav_book() -> ArchiveHandle {
    open(
        "res_dir/nav.epub",
        vec![res("s04", "EPUB/s04.xhtml", Some("application/xhtml+xml"))],
        &["s04"],
        vec![nav(
            "SECTION IV FAIRY STORIES—MODERN FANTASTIC TALES",
            "EPUB/s04.xhtml#pgepubid00492",
            vec![],
        )],
    )
}

fn body_of(content: &Content) -> String {
    String::from_utf8_lossy(&content.bytes).into_owned()
}

/// Serves a request for a resource as the server does: cache, token,
/// archive, resource.
fn serve_cont(
    cache: &mut ReplyCache,
    doc: &ArchiveHandle,
    token: &str,
    inner_path: &str,
    raw: Option<Vec<u8>>,
) -> Result<Content, EpubError> {
    match epub_cont(cache, token, inner_path) {
        ContentStep::Cached(reply) => Ok(reply),
        ContentStep::Rejected(e) => Err(EpubError::BadToken(e)),
        ContentStep::Open(archive_path) => {
            epub_cont_proc(cache, doc, token, &archive_path, inner_path, raw)
        }
    }
}

#[test]
fn toc_of_a_book_is_rendered_and_then_cached() {
    let mut cache = ReplyCache::for_toc();
    let resources = v2_resources();
    let toc = v2_toc();
    assert!(epub_toc_cached(&mut cache, "res_dir/v2.epub").is_none());
    let doc = open("res_dir/v2.epub", resources, &["h10", "h11", "h12"], toc);
    let first = match epub_toc(&mut cache, &doc, "res_dir/v2.epub") {
        Ok(TocOutcome::Document(c)) => c,
        _ => panic!("a document is expected"),
    };
    assert_eq!(first.mime, "text/html; charset=utf-8");
    let body = body_of(&first);
    assert!(body.contains(r#"<base href="/epub_cont/cmVzX2Rpci92Mi5lcHVi/"/>"#));
    assert!(body.contains(r#"<div><a href="OEBPS/valentinhauy11.html#ops1">Valentin Haüy"#));
    assert!(body.contains(r#" The father of the education for the blind</a></div>"#));
    let second = epub_toc_cached(&mut cache, "res_dir/v2.epub").unwrap();
    assert_eq!(second.bytes, first.bytes);
    assert_eq!(second.mime, first.mime);
}

#[test]
fn test_epub_toc_v3() {
    let doc = nav_book();
    let mut cache = ReplyCache::for_toc();
    let reply = match epub_toc(&mut cache, &doc, "res_dir/nav.epub") {
        Ok(TocOutcome::Document(c)) => c,
        _ => panic!("a document is expected"),
    };
    let body = body_of(&reply);
    assert!(body.contains(r#"<base href="/epub_cont/cmVzX2Rpci9uYXYuZXB1Yg/"/>"#));
    assert!(body.contains(r#"<div><a href="EPUB/s04.xhtml#pgepubid00492">SECTION IV FAIRY "#));
    assert!(body.contains(r#"STORIES—MODERN FANTASTIC TALES</a></div>"#));
}

#[test]
fn test_epub_toc_v3_no_toc() {
    let doc = v3();
    let mut toc_cache = ReplyCache::for_toc();
    let mut cont_cache = ReplyCache::for_content();
    let (token, inner_path) = match epub_toc(&mut toc_cache, &doc, "res_dir/v3.epub") {
        Ok(TocOutcome::Delegate { token, inner_path }) => (token, inner_path),
        _ => panic!("the first chapter is expected"),
    };
    assert_eq!(token, "cmVzX2Rpci92My5lcHVi");
    assert_eq!(inner_path, "EPUB/xhtml/epub30-titlepage.xhtml");
    assert!(toc_cache.get("res_dir/v3.epub").is_none());
    let raw = page("EPUB 3.0 Specification");
    let reply = serve_cont(&mut cont_cache, &doc, &token, &inner_path, Some(raw.clone()))
        .ok()
        .unwrap();
    let body = body_of(&reply);
    assert!(body.contains(r#"<title>EPUB 3.0 Specification</title>"#));
    assert!(body.contains(r#"<body><div style="display: flex;"#));
    assert!(body.contains(r#"<span style="color:grey">Prex</span>"#));
    assert!(body.contains(r#"<span style="color:grey">Table of Contents</span>"#));
    assert!(body.contains(r#"epub30-nav.xhtml">Next</a></div>"#));
    assert!(body.contains(r#"Next</a></div></body>"#));
    // The request for the table of contents sends, byte for byte, what the
    // request for the first chapter sends.
    let mut other_cache = ReplyCache::for_content();
    let direct = serve_cont(
        &mut other_cache,
        &doc,
        "cmVzX2Rpci92My5lcHVi",
        "EPUB/xhtml/epub30-titlepage.xhtml",
        Some(raw),
    )
    .ok()
    .unwrap();
    assert_eq!(direct.bytes, reply.bytes);
    assert_eq!(direct.mime, reply.mime);
}

#[test]
fn chapter_of_a_book_is_resolved_and_then_cached() {
    let mut cache = ReplyCache::for_content();
    let token = "cmVzX2Rpci92Mi5lcHVi";
    let inner = "OEBPS/valentinhauy11.html";
    let resources = v2_resources();
    let toc = v2_toc();
    let archive_path = match epub_cont(&mut cache, token, inner) {
        ContentStep::Open(path) => path,
        _ => panic!("the archive's path is expected"),
    };
    assert_eq!(archive_path, "res_dir/v2.epub");
    let doc = open(&archive_path, resources, &["h10", "h11", "h12"], toc);
    let raw = Some(page("Valentin Haüy"));
    let reply = epub_cont_proc(&mut cache, &doc, token, &archive_path, inner, raw).ok().unwrap();
    let body = body_of(&reply);
    assert!(body.contains(r#"<title>Valentin Haüy"#));
    assert!(body.contains(r#"<body><div style="display: flex;"#));
    assert!(body.contains(r#"Table of Contents</a>"#));
    let again = match epub_cont(&mut cache, token, inner) {
        ContentStep::Cached(c) => c,
        _ => panic!("the reply is expected in the cache"),
    };
    assert_eq!(again.bytes, reply.bytes);
    assert_eq!(again.mime, reply.mime);
}

#[test]
fn test_epub_cont_v3_first() {
    let doc = v3();
    let mut cache = ReplyCache::for_content();
    let reply = serve_cont(
        &mut cache,
        &doc,
        "cmVzX2Rpci92My5lcHVi",
        "EPUB/xhtml/epub30-titlepage.xhtml",
        Some(page("EPUB 3.0 Specification")),
    )
    .ok()
    .unwrap();
    let body = body_of(&reply);
    assert!(body.contains(r#"<title>EPUB 3.0 Specification</title>"#));
    assert!(body.contains(r#"<body><div style="display: flex;"#));
    assert!(body.contains(r#"<span style="color:grey">Prex</span>"#));
    assert!(body.contains(r#"<span style="color:grey">Table of Contents</span>"#));
    assert!(body.contains(r#"epub30-nav.xhtml">Next</a></div>"#));
    assert!(body.contains(r#"Next</a></div></body>"#));
}

#[test]
fn test_epub_cont_v3_middle() {
    let doc = v3();
    let mut cache = ReplyCache::for_content();
    let reply = serve_cont(
        &mut cache,
        &doc,
        "cmVzX2Rpci92My5lcHVi",
        "EPUB/xhtml/epub30-nav.xhtml",
        Some(page("EPUB 3 Specifications - Table of Contents")),
    )
    .ok()
    .unwrap();
    let body = body_of(&reply);
    assert!(body.contains(r#"<title>EPUB 3 Specifications - Table of Contents</title>"#));
    assert!(body.contains(r#"<body><div style="display: flex;"#));
    assert!(body.contains(r#"epub30-titlepage.xhtml">Prev</a>"#));
    assert!(body.contains(r#"<span style="color:grey">Table of Contents</span>"#));
    assert!(body.contains(r#"epub30-terminology.xhtml">Next</a></div>"#));
    assert!(body.contains(r#"Next</a></div></body>"#));
}

#[test]
fn test_epub_cont_v3_last() {
    let doc = v3();
    let mut cache = ReplyCache::for_content();
    let reply = serve_cont(
        &mut cache,
        &doc,
        "cmVzX2Rpci92My5lcHVi",
        "EPUB/xhtml/epub30-changes.xhtml",
        Some(page("EPUB 3 Changes from EPUB 2.0.1")),
    )
    .ok()
    .unwrap();
    let body = body_of(&reply);
    assert!(body.contains(r#"<title>EPUB 3 Changes from EPUB 2.0.1</title>"#));
    assert!(body.contains(r#"<body><div style="display: flex;"#));
    assert!(body.contains(r#"epub30-references.xhtml">Prev</a>"#));
    assert!(body.contains(r#"<span style="color:grey">Table of Contents</span>"#));
    assert!(body.contains(r#"<span style="color:grey">Next</span></div>"#));
    assert!(body.contains(r#"Next</span></div></body>"#));
}

#[test]
fn unreadable_archive_is_a_server_error() {
    let err = EpubError::Archive(ArchiveOpenError {
        path: "non_exist".to_string(),
        fault: ArchiveFault::Unreadable("No such file or directory".to_string()),
    });
    assert_eq!(err.status(), 500);
    assert_eq!(
        err.message(),
        "Reading/Parsing epub [non_exist] failed: No such file or directory"
    );
}

#[test]
fn toc_page_is_a_preorder_walk() {
    let toc = vec![
        nav("One", "a.html", vec![
            nav("One.1", "a.html#1", vec![nav("One.1.x", "a.html#1x", vec![])]),
            nav("One.2", "a.html#2", vec![]),
        ]),
        nav("Two", "b.html", vec![]),
    ];
    assert_eq!(
        render_toc(&toc, "TOKEN"),
        concat_all(&[
            "<head><base href=\"/epub_cont/TOKEN/\"/></head><body>",
            "<div><a href=\"a.html\">One</a></div>",
            "<div>&emsp;<a href=\"a.html#1\">One.1</a></div>",
            "<div>&emsp;&emsp;<a href=\"a.html#1x\">One.1.x</a></div>",
            "<div>&emsp;<a href=\"a.html#2\">One.2</a></div>",
            "<div><a href=\"b.html\">Two</a></div>",
            "</body>",
        ])
    );
    assert_eq!(render_toc(&vec![], "T"), "<head><base href=\"/epub_cont/T/\"/></head><body></body>");
}

fn concat_all(parts: &[&str]) -> String {
    parts.iter().map(|p| p.to_string()).collect::<Vec<String>>().join("")
}

#[test]
fn toc_of_an_archive_without_toc_and_spine_is_no_content() {
    let doc = open("empty.epub", vec![res("a", "a.html", None)], &[], vec![]);
    let mut cache = ReplyCache::for_toc();
    match epub_toc(&mut cache, &doc, "empty.epub") {
        Err(e) => {
            assert!(matches!(e, EpubError::NoContent));
            assert_eq!(e.status(), 404);
            assert_eq!(e.message(), "No contents found in the epub file");
        }
        Ok(_) => panic!("a failure is expected"),
    }
    assert!(!cache.contains("empty.epub"));
}

#[test]
fn toc_document_is_stored_under_the_archive_path() {
    let doc = v2();
    let mut cache = ReplyCache::for_toc();
    assert!(!cache.contains("res_dir/v2.epub"));
    assert!(epub_toc(&mut cache, &doc, "res_dir/v2.epub").is_ok());
    assert!(cache.contains("res_dir/v2.epub"));
    let expected = render_toc(&doc.toc, &encode("res_dir/v2.epub")).into_bytes();
    assert_eq!(cache.get("res_dir/v2.epub").unwrap().bytes, expected);
}

#[test]
fn nav_bar_of_a_middle_chapter_is_exact() {
    let doc = v2();
    let bar = epub_gen_html_nav_elem(&doc, "TOKEN", "books/a b.epub", "OEBPS/valentinhauy11.html");
    assert_eq!(
        bar.unwrap(),
        concat_all(&[
            BAR_OPEN,
            "<a href=\"/epub_cont/TOKEN/OEBPS/valentinhauy10.html\">Prev</a>",
            "<a href=\"/epub_toc/books%2Fa%20b.epub\">Table of Contents</a>",
            "<a href=\"/epub_cont/TOKEN/OEBPS/valentinhauy12.html\">Next</a>",
            "</div>",
        ])
    );
}

#[test]
fn nav_bar_of_first_and_last_chapter() {
    let doc = v2();
    let first = epub_gen_html_nav_elem(&doc, "T", "b.epub", "OEBPS/valentinhauy10.html").unwrap();
    assert_eq!(
        first,
        concat_all(&[
            BAR_OPEN,
            "<span style=\"color:grey\">Prex</span>",
            "<a href=\"/epub_toc/b.epub\">Table of Contents</a>",
            "<a href=\"/epub_cont/T/OEBPS/valentinhauy11.html\">Next</a>",
            "</div>",
        ])
    );
    let last = epub_gen_html_nav_elem(&doc, "T", "b.epub", "OEBPS/valentinhauy12.html").unwrap();
    assert_eq!(
        last,
        concat_all(&[
            BAR_OPEN,
            "<a href=\"/epub_cont/T/OEBPS/valentinhauy11.html\">Prev</a>",
            "<a href=\"/epub_toc/b.epub\">Table of Contents</a>",
            "<span style=\"color:grey\">Next</span>",
            "</div>",
        ])
    );
}

#[test]
fn nav_bar_outside_the_spine_has_only_the_toc_link() {
    let doc = v2();
    assert_eq!(spine_index_of_path(&doc, "OEBPS/cover.png"), None);
    assert_eq!(spine_index_of_path(&doc, "OEBPS/valentinhauy12.html"), Some(2));
    let bar = epub_gen_html_nav_elem(&doc, "T", "b.epub", "OEBPS/cover.png").unwrap();
    assert_eq!(
        bar,
        concat_all(&[
            BAR_OPEN,
            "<span style=\"color:grey\">Prex</span>",
            "<a href=\"/epub_toc/b.epub\">Table of Contents</a>",
            "<span style=\"color:grey\">Next</span>",
            "</div>",
        ])
    );
    // A path that no resource has gets no bar at all.
    assert_eq!(epub_gen_html_nav_elem(&doc, "T", "b.epub", "nowhere.html"), None);
    assert_eq!(epub_gen_html_nav_elem(&doc, "T", "b.epub", "OEBPS/notes.html"), None);
}

#[test]
fn nav_bar_without_any_link_is_left_out() {
    let single = open("one.epub", vec![res("a", "a.html", None)], &["a"], vec![]);
    assert_eq!(epub_gen_html_nav_elem(&single, "T", "one.epub", "a.html"), None);
    let no_toc = v3();
    assert_eq!(epub_gen_html_nav_elem(&no_toc, "T", "v3.epub", "EPUB/css/epub-spec.css"), None);
    let raw = page("alone");
    let reply = resolve_content(&single, "T", "one.epub", "a.html", raw.clone());
    assert_eq!(reply.mime, "text/html");
    assert_eq!(reply.bytes, raw);
}

fn injected(text: &str, bar: &str) -> String {
    String::from_utf8(inject_nav(text, bar)).unwrap()
}

fn placed(text: &str, bar: &str, topped: Option<&str>) -> String {
    String::from_utf8(place_bars(text, bar, topped.map(|t| t.to_string()))).unwrap()
}

#[test]
fn bar_goes_behind_each_opening_and_before_each_closing_marker() {
    assert_eq!(
        injected("<html><body class=\"x\"><p>hi</p></body></html>", "BAR"),
        "<html><body class=\"x\">BAR<p>hi</p>BAR</body></html>"
    );
    assert_eq!(injected("<body><body>x</body>", "|"), "<body>|<body>|x|</body>");
    assert_eq!(injected("no markers here", "BAR"), "no markers here");
    assert_eq!(injected("", "BAR"), "");
    // The opening marker ends at the first `>` and does not span lines.
    assert_eq!(injected("<body a>b>c", "|"), "<body a>|b>c");
    assert_eq!(injected("<body\n>x</body>", "|"), "<body\n>x|</body>");
    assert_eq!(injected("<body lang=\"zh\">目录</body>", "栏"), "<body lang=\"zh\">栏目录栏</body>");
}

#[test]
fn bar_is_put_in_literally() {
    assert_eq!(injected("<body>x</body>", "a$1b${0}c$$"), "<body>a$1b${0}c$$xa$1b${0}c$$</body>");
    assert_eq!(double_dollars("a$1b${0}c$$"), "a$$1b$${0}c$$$$");
    assert_eq!(double_dollars(""), "");
    assert_eq!(double_dollars("目录"), "目录");
}

#[test]
fn place_bars_replaces_every_closing_marker() {
    assert_eq!(placed("a</body>b</body>", "N", None), "aN</body>bN</body>");
    assert_eq!(placed("ignored", "N", Some("<body>N</body>")), "<body>NN</body>");
    assert_eq!(placed("</body", "N", None), "</body");
    assert_eq!(placed("</body></body></bod", "", None), "</body></body></bod");
}

#[test]
fn replace_all_scans_from_the_left() {
    assert_eq!(replace_all(b"aaa", b"aa", b"b"), b"ba".to_vec());
    assert_eq!(replace_all(b"aaaa", b"aa", b"b"), b"bb".to_vec());
    assert_eq!(replace_all(b"abcabc", b"bc", b""), b"aa".to_vec());
    assert_eq!(replace_all(b"abc", b"abc", b"xyz!"), b"xyz!".to_vec());
    assert_eq!(replace_all(b"abc", b"abcd", b"x"), b"abc".to_vec());
    assert_eq!(replace_all(b"abc", b"", b"x"), b"abc".to_vec());
    assert_eq!(replace_all(b"", b"a", b"x"), b"".to_vec());
    assert_eq!(replace_all(b"x-x", b"x", b"xx"), b"xx-xx".to_vec());
}

#[test]
fn content_that_is_not_html_passes_through() {
    let doc = v2();
    let raw = vec![0x89, 0x50, 0x4e, 0x47, 0xff, 0x00, b'<', b'b', b'o', b'd', b'y', b'>'];
    let reply = resolve_content(&doc, "T", "b.epub", "OEBPS/cover.png", raw.clone());
    assert_eq!(reply.mime, "image/png");
    assert_eq!(reply.bytes, raw);
}

#[test]
fn html_content_gets_the_bar_twice() {
    let doc = v2();
    let reply = resolve_content(
        &doc,
        "T",
        "b.epub",
        "OEBPS/valentinhauy10.html",
        b"<body>x</body>".to_vec(),
    );
    let bar = epub_gen_html_nav_elem(&doc, "T", "b.epub", "OEBPS/valentinhauy10.html").unwrap();
    assert_eq!(reply.mime, "application/xhtml+xml");
    assert_eq!(body_of(&reply), format!("<body>{}x{}</body>", bar, bar));
}

#[test]
fn html_content_that_is_not_utf8_is_repaired() {
    let doc = v2();
    let reply = resolve_content(
        &doc,
        "T",
        "b.epub",
        "OEBPS/valentinhauy10.html",
        vec![b'<', b'p', b'>', 0xff, b'<', b'/', b'p', b'>'],
    );
    assert_eq!(body_of(&reply), "<p>\u{fffd}</p>");
    assert_eq!(reply.bytes, "<p>\u{fffd}</p>".as_bytes().to_vec());
}

#[test]
fn missing_resource_is_not_found_and_not_cached() {
    let doc = v2();
    let mut cache = ReplyCache::for_content();
    let token = encode("res_dir/v2.epub");
    let out = serve_cont(&mut cache, &doc, &token, "OEBPS/none.html", None);
    match out {
        Err(e) => {
            assert!(matches!(&e, EpubError::ResourceNotFound(p) if p == "OEBPS/none.html"));
            assert_eq!(e.status(), 404);
            assert_eq!(e.message(), "Resource [OEBPS/none.html] not found");
        }
        Ok(_) => panic!("a failure is expected"),
    }
    assert!(!cache.contains(&make_content_key(&token, "OEBPS/none.html")));
}

#[test]
fn bad_token_is_a_bad_request() {
    let doc = v2();
    let mut cache = ReplyCache::for_content();
    match serve_cont(&mut cache, &doc, "***", "a.html", Some(vec![])) {
        Err(e) => {
            assert!(matches!(&e, EpubError::BadToken(d) if d.token == "***"));
            assert_eq!(e.status(), 400);
            assert!(e.message().starts_with("Invalid file path [***]: base64 decoding failed: "));
        }
        Ok(_) => panic!("a failure is expected"),
    }
}

#[test]
fn first_step_decodes_the_token() {
    let mut cache = ReplyCache::for_content();
    match epub_cont(&mut cache, "cmVzX2Rpci92Mi5lcHVi", "x.html") {
        ContentStep::Open(path) => assert_eq!(path, "res_dir/v2.epub"),
        _ => panic!("the archive's path is expected"),
    }
}

#[test]
fn reply_is_cached_under_token_and_inner_path() {
    let doc = v2();
    let mut cache = ReplyCache::for_content();
    let token = encode("res_dir/v2.epub");
    assert_eq!(make_content_key(&token, "OEBPS/cover.png"), format!("{}/OEBPS/cover.png", token));
    let reply = epub_cont_proc(
        &mut cache,
        &doc,
        &token,
        "res_dir/v2.epub",
        "OEBPS/cover.png",
        Some(vec![1, 2, 3]),
    )
    .ok()
    .unwrap();
    assert_eq!(reply.bytes, vec![1, 2, 3]);
    let cached = cache.get(&format!("{}/OEBPS/cover.png", token)).unwrap();
    assert_eq!(cached.mime, "image/png");
    assert_eq!(cached.bytes, vec![1, 2, 3]);
}

#[test]
fn open_refuses_a_repeated_identifier() {
    let out = ArchiveHandle::new(
        "bad.epub",
        vec![res("a", "a.html", None), res("b", "b.html", None), res("a", "c.html", None)],
        vec!["a".to_string()],
        vec![],
    );
    let err = out.err().unwrap();
    assert_eq!(err.path, "bad.epub");
    assert!(matches!(&err.fault, ArchiveFault::DuplicateResourceId(id) if id == "a"));
    assert_eq!(err.message(), "Reading/Parsing epub [bad.epub] failed: duplicate resource id a");
    assert_eq!(EpubError::Archive(err).status(), 500);
}

#[test]
fn open_refuses_a_spine_entry_that_names_no_resource() {
    let out = ArchiveHandle::new(
        "bad.epub",
        vec![res("a", "a.html", None)],
        vec!["a".to_string(), "x".to_string(), "y".to_string()],
        vec![],
    );
    let err = out.err().unwrap();
    assert!(matches!(&err.fault, ArchiveFault::UnresolvedSpineRef(id) if id == "x"));
    assert_eq!(
        err.message(),
        "Reading/Parsing epub [bad.epub] failed: spine names unknown resource x"
    );
}

#[test]
fn lookups_find_the_first_match() {
    let doc = open(
        "d.epub",
        vec![res("a", "same.html", None), res("b", "same.html", None), res("c", "c.html", None)],
        &["c", "b", "a", "b"],
        vec![],
    );
    assert_eq!(doc.find_by_id("b"), Some(1));
    assert_eq!(doc.find_by_id("z"), None);
    assert_eq!(doc.find_by_path("same.html"), Some(0));
    assert_eq!(doc.find_by_path("c.html"), Some(2));
    assert_eq!(doc.spine_position("b"), Some(1));
    assert_eq!(doc.spine_position("z"), None);
    assert_eq!(doc.spine_path(0).map(|p| p.as_str()), Some("c.html"));
    assert_eq!(doc.spine_path(3).map(|p| p.as_str()), Some("same.html"));
    assert_eq!(doc.spine_path(4), None);
    assert_eq!(spine_index_of_path(&doc, "same.html"), Some(2));
}

#[test]
fn spine_entry_that_names_no_resource_gives_no_link() {
    // A handle put together by hand, past the checks of `ArchiveHandle::new`.
    let doc = ArchiveHandle {
        resources: vec![res("a", "a.html", None), res("b", "b.html", None)],
        spine: vec!["x".to_string(), "a".to_string(), "y".to_string(), "b".to_string()],
        toc: vec![nav("Start", "a.html", vec![])],
    };
    assert_eq!(doc.spine_path(0), None);
    assert_eq!(doc.spine_path(1).map(|p| p.as_str()), Some("a.html"));
    assert_eq!(
        epub_gen_html_nav_elem(&doc, "T", "d.epub", "a.html").unwrap(),
        concat_all(&[
            BAR_OPEN,
            "<span style=\"color:grey\">Prex</span>",
            "<a href=\"/epub_toc/d.epub\">Table of Contents</a>",
            "<span style=\"color:grey\">Next</span>",
            "</div>",
        ])
    );
    let bare = ArchiveHandle { resources: doc.resources, spine: doc.spine, toc: vec![] };
    assert_eq!(epub_gen_html_nav_elem(&bare, "T", "d.epub", "a.html"), None);
    let mut cache = ReplyCache::for_toc();
    assert!(matches!(epub_toc(&mut cache, &bare, "d.epub"), Err(EpubError::NoContent)));
}

#[test]
fn path_outside_the_resource_table_is_not_found() {
    let doc = v2();
    let mut cache = ReplyCache::for_content();
    let token = encode("res_dir/v2.epub");
    // The archive holds bytes at the path, but its table does not list it.
    let out = epub_cont_proc(
        &mut cache,
        &doc,
        &token,
        "res_dir/v2.epub",
        "META-INF/notes.html",
        Some(b"<body>x</body>".to_vec()),
    );
    assert!(matches!(&out, Err(EpubError::ResourceNotFound(p)) if p == "META-INF/notes.html"));
    assert!(!cache.contains(&make_content_key(&token, "META-INF/notes.html")));
    // Resolved on its own, such content passes through without a bar.
    let reply = resolve_content(&doc, &token, "res_dir/v2.epub", "notes.html", b"<body>x</body>".to_vec());
    assert_eq!(reply.mime, "text/html");
    assert_eq!(reply.bytes, b"<body>x</body>".to_vec());
}

#[test]
fn path_without_extension_is_not_taken_for_html() {
    let doc = open("d.epub", vec![res("c", "htm/cover", None)], &["c"], vec![nav("C", "htm/cover", vec![])]);
    let raw = b"<body>x</body>".to_vec();
    let reply = resolve_content(&doc, "T", "d.epub", "htm/cover", raw.clone());
    assert_eq!(reply.mime, "");
    assert_eq!(reply.bytes, raw);
}
