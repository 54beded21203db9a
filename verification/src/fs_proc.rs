//! Serving the directory tree: which file a request path names, and the
//! listing of a directory.

use vstd::prelude::*;
use vstd::string::StrSliceExecFns;
use vstd::string::StringExecFns;
use vstd::string::StringSliceAdditionalSpecFns;
use vstd::utf8::encode_utf8;

use crate::text::str_eq;
use crate::url::{percent_decode, percent_decoded, percent_encode, percent_encoded};

verus! {

/// What kind of thing a directory entry is.
#[derive(PartialEq, Eq, Structural, Debug, Clone, Copy)]
pub enum EntryKind {
    /// A directory.
    Dir,
    /// A regular file.
    File,
    /// Anything else.
    Other,
}

/// One entry of a directory, as the listing shows it.
pub struct DirEntry {
    /// The entry's name.
    pub name: String,
    /// What the entry is.
    pub kind: EntryKind,
    /// The size of a regular file, written out for display, where it is
    /// known.
    pub size_text: Option<String>,
}

/// `text` ends with `suffix`.
pub open spec fn has_suffix(text: Seq<char>, suffix: Seq<char>) -> bool {
    text.len() >= suffix.len() && text.subrange(text.len() - suffix.len(), text.len() as int)
        == suffix
}

/// The URL of the entry `name` of the directory requested as `req_path`.
pub open spec fn entry_url(req_path: Seq<char>, name: Seq<char>) -> Seq<char> {
    if has_suffix(req_path, "/"@) {
        req_path + percent_encoded(encode_utf8(name))
    } else {
        req_path + "/"@ + percent_encoded(encode_utf8(name))
    }
}

/// The mark that tells directories from other entries.
pub open spec fn kind_mark(kind: EntryKind) -> Seq<char> {
    if kind == EntryKind::Dir {
        "[+&nbsp;"@
    } else {
        "[-&nbsp;"@
    }
}

/// What the listing says of a file's size.
pub open spec fn size_note(kind: EntryKind, size_text: Option<Seq<char>>) -> Seq<char> {
    if kind == EntryKind::File && size_text is Some {
        "&nbsp;["@ + size_text->Some_0 + "]"@
    } else {
        Seq::empty()
    }
}

/// The link to the reader, which follows every entry named like an EPUB
/// archive.
pub open spec fn reader_note(url: Seq<char>, name: Seq<char>) -> Seq<char> {
    if has_suffix(name, ".epub"@) {
        "&nbsp;[<a href=\"/epub_toc"@ + url + "\">Read</a>]"@
    } else {
        Seq::empty()
    }
}

/// The line of the listing for one entry.
pub open spec fn entry_line(
    req_path: Seq<char>,
    name: Seq<char>,
    kind: EntryKind,
    size_text: Option<Seq<char>>,
) -> Seq<char> {
    let url = entry_url(req_path, name);
    "<div>"@ + kind_mark(kind) + "<a href=\""@ + url + "\">"@ + name + "</a>]"@ + size_note(
        kind,
        size_text,
    ) + reader_note(url, name) + "</div>"@
}

/// The size text of an entry, as a value.
pub open spec fn size_view(entry: DirEntry) -> Option<Seq<char>> {
    match entry.size_text {
        Some(t) => Some(t@),
        None => None,
    }
}

/// The listing of the entries, one line each, in the order of the list.
pub open spec fn listing(req_path: Seq<char>, entries: Seq<DirEntry>) -> Seq<char>
    decreases entries.len(),
{
    if entries.len() == 0 {
        Seq::empty()
    } else {
        listing(req_path, entries.drop_last()) + entry_line(
            req_path,
            entries.last().name@,
            entries.last().kind,
            size_view(entries.last()),
        )
    }
}

/// The order of names: that of their UTF-8 bytes, byte by byte, a name
/// coming before every name that it begins.
pub open spec fn bytes_le(a: Seq<u8>, b: Seq<u8>) -> bool
    decreases a.len(),
{
    if a.len() == 0 {
        true
    } else if b.len() == 0 {
        false
    } else if a[0] != b[0] {
        a[0] < b[0]
    } else {
        bytes_le(a.drop_first(), b.drop_first())
    }
}

/// `a` is not behind `b` in the order of names.
pub open spec fn name_le(a: Seq<char>, b: Seq<char>) -> bool {
    bytes_le(encode_utf8(a), encode_utf8(b))
}

/// The names ascend.
pub open spec fn names_ascend(entries: Seq<DirEntry>) -> bool {
    forall|i: int, j: int|
        0 <= i < j < entries.len() ==> name_le(
            (#[trigger] entries[i]).name@,
            (#[trigger] entries[j]).name@,
        )
}

/// Where an entry named `name` goes into entries whose names ascend: behind
/// the last entry that is not behind it.
pub open spec fn insert_place(sorted: Seq<DirEntry>, name: Seq<char>) -> int
    decreases sorted.len(),
{
    if sorted.len() == 0 {
        0
    } else if name_le(sorted.last().name@, name) {
        sorted.len() as int
    } else {
        insert_place(sorted.drop_last(), name)
    }
}

/// The entries in ascending order of name; entries of one name keep their
/// order.
pub open spec fn sorted_by_name(entries: Seq<DirEntry>) -> Seq<DirEntry>
    decreases entries.len(),
{
    if entries.len() == 0 {
        Seq::empty()
    } else {
        let sorted = sorted_by_name(entries.drop_last());
        sorted.insert(insert_place(sorted, entries.last().name@), entries.last())
    }
}

/// The entries that a list of positions picks.
pub open spec fn picked(entries: Seq<DirEntry>, order: Seq<usize>) -> Seq<DirEntry> {
    Seq::new(order.len(), |k: int| entries[order[k] as int])
}

/// Of two names, one is not behind the other.
pub proof fn lemma_bytes_le_total(a: Seq<u8>, b: Seq<u8>)
    ensures
        bytes_le(a, b) || bytes_le(b, a),
    decreases a.len(),
{
    if a.len() > 0 && b.len() > 0 && a[0] == b[0] {
        lemma_bytes_le_total(a.drop_first(), b.drop_first());
    }
}

/// The order of names is transitive.
pub proof fn lemma_bytes_le_trans(a: Seq<u8>, b: Seq<u8>, c: Seq<u8>)
    requires
        bytes_le(a, b),
        bytes_le(b, c),
    ensures
        bytes_le(a, c),
    decreases a.len(),
{
    if a.len() > 0 && b.len() > 0 && c.len() > 0 && a[0] == b[0] && b[0] == c[0] {
        lemma_bytes_le_trans(a.drop_first(), b.drop_first(), c.drop_first());
    }
}

/// The place where a name goes in lies within the entries; every entry
/// before it is not behind the name, and the name is not behind any entry
/// from it on.
pub proof fn lemma_insert_place(sorted: Seq<DirEntry>, name: Seq<char>)
    requires
        names_ascend(sorted),
    ensures
        0 <= insert_place(sorted, name) <= sorted.len(),
        forall|i: int|
            0 <= i < insert_place(sorted, name) ==> name_le((#[trigger] sorted[i]).name@, name),
        forall|i: int|
            insert_place(sorted, name) <= i < sorted.len() ==> name_le(
                name,
                (#[trigger] sorted[i]).name@,
            ),
    decreases sorted.len(),
{
    if sorted.len() > 0 {
        let last = sorted.last();
        if name_le(last.name@, name) {
            assert forall|i: int| 0 <= i < sorted.len() implies name_le(
                (#[trigger] sorted[i]).name@,
                name,
            ) by {
                if i < sorted.len() - 1 {
                    assert(name_le(sorted[i].name@, sorted[sorted.len() - 1].name@));
                    lemma_bytes_le_trans(
                        encode_utf8(sorted[i].name@),
                        encode_utf8(last.name@),
                        encode_utf8(name),
                    );
                }
            }
        } else {
            let rest = sorted.drop_last();
            assert forall|i: int, j: int| 0 <= i < j < rest.len() implies name_le(
                (#[trigger] rest[i]).name@,
                (#[trigger] rest[j]).name@,
            ) by {
                assert(rest[i] == sorted[i] && rest[j] == sorted[j]);
            }
            lemma_insert_place(rest, name);
            lemma_bytes_le_total(encode_utf8(last.name@), encode_utf8(name));
            assert forall|i: int| 0 <= i < insert_place(sorted, name) implies name_le(
                (#[trigger] sorted[i]).name@,
                name,
            ) by {
                assert(sorted[i] == rest[i]);
            }
            assert forall|i: int| insert_place(sorted, name) <= i < sorted.len() implies name_le(
                name,
                (#[trigger] sorted[i]).name@,
            ) by {
                if i < rest.len() {
                    assert(sorted[i] == rest[i]);
                }
            }
        }
    }
}

/// Sorting by name keeps every entry, as often as it occurs, and puts the
/// names in ascending order.
pub proof fn lemma_sorted_by_name(entries: Seq<DirEntry>)
    ensures
        sorted_by_name(entries).len() == entries.len(),
        sorted_by_name(entries).to_multiset() == entries.to_multiset(),
        names_ascend(sorted_by_name(entries)),
    decreases entries.len(),
{
    broadcast use vstd::seq_lib::to_multiset_build;

    if entries.len() == 0 {
        assert(entries =~= Seq::<DirEntry>::empty());
    } else {
        let rest = entries.drop_last();
        let e = entries.last();
        lemma_sorted_by_name(rest);
        let sorted = sorted_by_name(rest);
        let p = insert_place(sorted, e.name@);
        lemma_insert_place(sorted, e.name@);
        let out = sorted.insert(p, e);
        assert(out == sorted_by_name(entries));
        vstd::seq_lib::to_multiset_insert(sorted, p, e);
        assert(entries =~= rest.push(e));
        assert(entries.to_multiset() =~= rest.to_multiset().insert(e));
        assert forall|i: int, j: int| 0 <= i < j < out.len() implies name_le(
            (#[trigger] out[i]).name@,
            (#[trigger] out[j]).name@,
        ) by {
            if j < p {
                assert(out[i] == sorted[i] && out[j] == sorted[j]);
            } else if j == p {
                assert(out[i] == sorted[i]);
            } else if i < p {
                assert(out[i] == sorted[i] && out[j] == sorted[j - 1]);
            } else if i == p {
                assert(out[j] == sorted[j - 1]);
            } else {
                assert(out[i] == sorted[i - 1] && out[j] == sorted[j - 1]);
            }
        }
    }
}

/// The path below the root directory that a request path names: the
/// unescaped path without its leading character. `None` where unescaping
/// fails.
pub open spec fn requested_file(req_path: Seq<char>) -> Option<Seq<char>> {
    match percent_decoded(req_path) {
        Some(path) => if req_path == "/"@ || path.len() == 0 {
            Some(Seq::empty())
        } else {
            Some(path.subrange(1, path.len() as int))
        },
        None => None,
    }
}

/// Whether `text` ends with `suffix`.
pub fn ends_with(text: &str, suffix: &str) -> (found: bool)
    ensures
        found == has_suffix(text@, suffix@),
{
    let n = text.unicode_len();
    let m = suffix.unicode_len();
    if n < m {
        return false;
    }
    str_eq(text.substring_char(n - m, n), suffix)
}

/// The URL of an entry of the directory requested as `req_path`.
pub fn make_entry_url(req_path: &str, name: &str) -> (url: String)
    ensures
        url@ == entry_url(req_path@, name@),
{
    let mut url = String::from_str(req_path);
    if !ends_with(req_path, "/") {
        url.append("/");
    }
    let escaped = percent_encode(name);
    url.append(escaped.as_str());
    url
}

/// The line of the listing for one entry.
pub fn render_entry(req_path: &str, entry: &DirEntry) -> (line: String)
    ensures
        line@ == entry_line(req_path@, entry.name@, entry.kind, size_view(*entry)),
{
    let url = make_entry_url(req_path, entry.name.as_str());
    let mut line = String::from_str("<div>");
    match entry.kind {
        EntryKind::Dir => {
            line.append("[+&nbsp;");
        },
        _ => {
            line.append("[-&nbsp;");
        },
    }
    line.append("<a href=\"");
    line.append(url.as_str());
    line.append("\">");
    line.append(entry.name.as_str());
    line.append("</a>]");
    let ghost stem = line@;
    match entry.kind {
        EntryKind::File => {
            if let Some(size) = &entry.size_text {
                let mut note = String::from_str("&nbsp;[");
                note.append(size.as_str());
                note.append("]");
                line.append(note.as_str());
            }
        },
        _ => {},
    }
    assert(line@ =~= stem + size_note(entry.kind, size_view(*entry)));
    let ghost sized = line@;
    if ends_with(entry.name.as_str(), ".epub") {
        let mut note = String::from_str("&nbsp;[<a href=\"/epub_toc");
        note.append(url.as_str());
        note.append("\">Read</a>]");
        line.append(note.as_str());
    }
    assert(line@ =~= sized + reader_note(url@, entry.name@));
    line.append("</div>");
    line
}

/// Whether `a` is not behind `b` in the order of names.
pub fn name_not_behind(a: &str, b: &str) -> (le: bool)
    ensures
        le == name_le(a@, b@),
{
    let x = a.as_bytes();
    let y = b.as_bytes();
    let mut i: usize = 0;
    assert(x@.subrange(0, x@.len() as int) =~= x@);
    assert(y@.subrange(0, y@.len() as int) =~= y@);
    loop
        invariant
            i <= x@.len(),
            i <= y@.len(),
            x@ == a.spec_bytes(),
            y@ == b.spec_bytes(),
            name_le(a@, b@) == bytes_le(
                x@.subrange(i as int, x@.len() as int),
                y@.subrange(i as int, y@.len() as int),
            ),
        decreases x@.len() - i,
    {
        if i >= x.len() {
            return true;
        }
        if i >= y.len() {
            return false;
        }
        let ghost xs = x@.subrange(i as int, x@.len() as int);
        let ghost ys = y@.subrange(i as int, y@.len() as int);
        assert(xs[0] == x@[i as int] && ys[0] == y@[i as int]);
        if x[i] != y[i] {
            return x[i] < y[i];
        }
        proof {
            assert(xs.drop_first() =~= x@.subrange(i as int + 1, x@.len() as int));
            assert(ys.drop_first() =~= y@.subrange(i as int + 1, y@.len() as int));
        }
        i += 1;
    }
}

/// The positions of the entries in ascending order of name.
fn name_order(entries: &Vec<DirEntry>) -> (order: Vec<usize>)
    ensures
        order@.len() == entries@.len(),
        forall|k: int| 0 <= k < order@.len() ==> (#[trigger] order@[k]) < entries@.len(),
        picked(entries@, order@) == sorted_by_name(entries@),
{
    let n = entries.len();
    let mut order: Vec<usize> = Vec::new();
    let mut i: usize = 0;
    assert(entries@.take(0) =~= Seq::<DirEntry>::empty());
    assert(picked(entries@, order@) =~= Seq::<DirEntry>::empty());
    while i < n
        invariant
            i <= n,
            n == entries@.len(),
            order@.len() == i,
            forall|k: int| 0 <= k < order@.len() ==> (#[trigger] order@[k]) < i,
            picked(entries@, order@) == sorted_by_name(entries@.take(i as int)),
        decreases n - i,
    {
        let ghost sorted = picked(entries@, order@);
        let ghost name = entries@[i as int].name@;
        let mut p: usize = order.len();
        assert(sorted.take(p as int) =~= sorted);
        while p > 0 && !name_not_behind(entries[order[p - 1]].name.as_str(), entries[i].name.as_str())
            invariant
                p <= order@.len(),
                order@.len() == i,
                i < n,
                n == entries@.len(),
                sorted == picked(entries@, order@),
                name == entries@[i as int].name@,
                forall|k: int| 0 <= k < order@.len() ==> (#[trigger] order@[k]) < i,
                insert_place(sorted, name) == insert_place(sorted.take(p as int), name),
            decreases p,
        {
            proof {
                let head = sorted.take(p as int);
                assert(head.last() == entries@[order@[p - 1] as int]);
                assert(head.drop_last() =~= sorted.take(p as int - 1));
            }
            p -= 1;
        }
        proof {
            let head = sorted.take(p as int);
            if p > 0 {
                assert(head.last() == entries@[order@[p - 1] as int]);
            }
            assert(insert_place(sorted, name) == p);
        }
        order.insert(p, i);
        proof {
            let next = entries@.take(i as int + 1);
            assert(next.drop_last() =~= entries@.take(i as int));
            assert(next.last() == entries@[i as int]);
            assert(picked(entries@, order@) =~= sorted.insert(p as int, entries@[i as int]));
        }
        i += 1;
    }
    assert(entries@.take(n as int) =~= entries@);
    order
}

/// Renders the listing of the directory requested as `req_path`. The
/// entries are shown in ascending order of name, each once. Each gives one
/// line: a mark that tells directories from files, a link to the entry, the
/// size of a regular file and, behind an EPUB archive, a link to its reader.
pub fn dir_get(req_path: &str, entries: &Vec<DirEntry>) -> (out: String)
    ensures
        out@ == listing(req_path@, sorted_by_name(entries@)),
{
    let order = name_order(entries);
    let ghost sorted = sorted_by_name(entries@);
    let mut out = String::new();
    let n = order.len();
    let mut k: usize = 0;
    assert(sorted.take(0) =~= Seq::<DirEntry>::empty());
    while k < n
        invariant
            k <= n,
            n == order@.len(),
            sorted == picked(entries@, order@),
            forall|j: int| 0 <= j < order@.len() ==> (#[trigger] order@[j]) < entries@.len(),
            out@ == listing(req_path@, sorted.take(k as int)),
        decreases n - k,
    {
        let line = render_entry(req_path, &entries[order[k]]);
        out.append(line.as_str());
        proof {
            let next = sorted.take(k as int + 1);
            assert(next.drop_last() =~= sorted.take(k as int));
            assert(next.last() == entries@[order@[k as int] as int]);
        }
        k += 1;
    }
    assert(sorted.take(n as int) =~= sorted);
    out
}

/// A request path that names no file.
#[derive(PartialEq, Eq, Structural, Debug, Clone, Copy)]
pub enum FsError {
    /// The path cannot be unescaped.
    InvalidPath,
}

/// The path below the root directory of the file or directory that a
/// request path names; empty for the root itself.
pub fn fs_get(req_path: &str) -> (out: Result<String, FsError>)
    ensures
        match requested_file(req_path@) {
            Some(path) => out matches Ok(p) && p@ == path,
            None => out == Err::<String, FsError>(FsError::InvalidPath),
        },
{
    let decoded = match percent_decode(req_path) {
        Some(path) => path,
        None => {
            return Err(FsError::InvalidPath);
        },
    };
    let n = decoded.as_str().unicode_len();
    if str_eq(req_path, "/") || n == 0 {
        return Ok(String::new());
    }
    Ok(String::from_str(decoded.as_str().substring_char(1, n)))
}

} // verus!
