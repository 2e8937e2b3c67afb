//! The model of a directory listing page: a breadcrumb trail that makes each
//! ancestor reachable, and one row per entry with its link and size.

use vstd::prelude::*;
use vstd::utf8::encode_utf8;
use crate::resolve::{joined, views};
use crate::size::{pretty_size, pretty_size_spec};

verus! {

/// A link: where it points and what it shows.
pub struct Link {
    pub href: String,
    pub text: String,
}

/// What the listing knows of an entry's metadata.
#[derive(Clone, Copy, Debug, PartialEq, Eq, Structural)]
pub enum EntryKind {
    /// A plain file of that many bytes.
    File(u64),
    Directory,
    /// Anything else, or metadata that could not be read.
    Unknown,
}

/// One child of the listed directory. `name` is `None` where the file
/// name is not valid text.
pub struct EntryInfo {
    pub name: Option<String>,
    pub kind: EntryKind,
}

/// One row of the listing table: the linked name and the size cell.
pub struct Row {
    pub href: String,
    pub name: String,
    pub size: String,
}

/// A listing page: its title, the breadcrumb trail of its heading, and the
/// rows of its table, in the order the entries were given.
pub struct ListingPage {
    pub title: String,
    pub crumbs: Vec<Link>,
    pub rows: Vec<Row>,
}

/// The bytes that a link must carry escaped within one path segment:
/// controls, non-ASCII bytes, space, `"`, `#`, `<`, `>`, backtick, `?`,
/// `{`, `}`, `%` and `/`.
pub open spec fn in_segment_set(b: u8) -> bool {
    b < 0x20 || b > 0x7E || b == 0x20 || b == 0x22 || b == 0x23 || b == 0x3C || b == 0x3E
        || b == 0x60 || b == 0x3F || b == 0x7B || b == 0x7D || b == 0x25 || b == 0x2F
}

/// An upper-case hexadecimal digit.
pub open spec fn hex_digit_upper(d: nat) -> char {
    if d < 10 {
        crate::size::digit_char(d)
    } else if d == 10 { 'A' }
    else if d == 11 { 'B' }
    else if d == 12 { 'C' }
    else if d == 13 { 'D' }
    else if d == 14 { 'E' }
    else { 'F' }
}

/// Percent-encoding of bytes for one path segment: a byte of the set
/// becomes `%` and two upper-case hexadecimal digits, any other byte (a
/// printable ASCII character) stands for itself.
pub open spec fn segment_escaped(bytes: Seq<u8>) -> Seq<char>
    decreases bytes.len(),
{
    if bytes.len() == 0 {
        seq![]
    } else {
        let b = bytes.last();
        segment_escaped(bytes.drop_last()) + if in_segment_set(b) {
            seq!['%', hex_digit_upper(b as nat / 16), hex_digit_upper(b as nat % 16)]
        } else {
            seq![b as char]
        }
    }
}

/// A name as it stands in a link: its UTF-8 bytes, percent-encoded.
pub open spec fn link_segment(name: Seq<char>) -> Seq<char> {
    segment_escaped(encode_utf8(name))
}

/// Each segment as it stands in a link.
pub open spec fn link_segments(segs: Seq<Seq<char>>) -> Seq<Seq<char>> {
    segs.map_values(|s: Seq<char>| link_segment(s))
}

/// Relies on percent_encoding::utf8_percent_encode with
/// PATH_SEGMENT_ENCODE_SET: each UTF-8 byte of the input that the set holds
/// becomes `%` and two upper-case hexadecimal digits, the others stay.
#[verifier::external_body]
fn encode_segment(s: &str) -> (r: String)
    ensures
        r@ == link_segment(s@),
{
    percent_encoding::utf8_percent_encode(s, percent_encoding::PATH_SEGMENT_ENCODE_SET).to_string()
}

pub open spec fn link_view(l: Link) -> (Seq<char>, Seq<char>) {
    (l.href@, l.text@)
}

pub open spec fn row_view(r: Row) -> (Seq<char>, Seq<char>, Seq<char>) {
    (r.href@, r.name@, r.size@)
}

/// The link to the first `i` segments: `/` and each in turn, encoded.
pub open spec fn prefix_href(segs: Seq<Seq<char>>, i: int) -> Seq<char> {
    joined(seq![], link_segments(segs).take(i))
}

/// The breadcrumb trail of a directory: a link `/` to the root, then for
/// each segment a link showing it and pointing at the (encoded) path up to
/// it.
pub open spec fn crumbs_spec(segs: Seq<Seq<char>>) -> Seq<(Seq<char>, Seq<char>)> {
    seq![(seq!['/'], seq!['/'])] + Seq::new(segs.len(), |i: int| (prefix_href(segs, i + 1), segs[i]))
}

/// The row of an entry named `name` in the directory of `segs`: the link is
/// the directory's link, `/` and the encoded name, with a `/` after it for a
/// directory; the size cell is filled for a plain file only.
pub open spec fn row_spec(segs: Seq<Seq<char>>, name: Seq<char>, kind: EntryKind) -> (Seq<char>, Seq<char>, Seq<char>) {
    let base = prefix_href(segs, segs.len() as int) + seq!['/'] + link_segment(name);
    let href = if kind == EntryKind::Directory { base + seq!['/'] } else { base };
    let size = match kind {
        EntryKind::File(n) => pretty_size_spec(n as nat),
        _ => seq![],
    };
    (href, name, size)
}

/// The rows of the entries that have a name, in order.
pub open spec fn rows_spec(segs: Seq<Seq<char>>, entries: Seq<EntryInfo>) -> Seq<(Seq<char>, Seq<char>, Seq<char>)>
    decreases entries.len(),
{
    if entries.len() == 0 {
        seq![]
    } else {
        let prev = rows_spec(segs, entries.drop_last());
        match entries.last().name {
            Some(n) => prev.push(row_spec(segs, n@, entries.last().kind)),
            None => prev,
        }
    }
}

/// The breadcrumb trail of the directory reached by `segs`.
pub fn breadcrumbs(segs: &Vec<String>) -> (r: Vec<Link>)
    ensures
        r@.map_values(|l: Link| link_view(l)) == crumbs_spec(views(segs@)),
{
    proof {
        reveal_strlit("/");
        reveal_strlit("");
    }
    let ghost s = views(segs@);
    let mut out: Vec<Link> = Vec::new();
    out.push(Link { href: String::from_str("/"), text: String::from_str("/") });
    let mut acc = String::from_str("");
    let mut i: usize = 0;
    assert(link_segments(s).take(0) =~= seq![]);
    assert(""@ =~= Seq::<char>::empty());
    assert("/"@ =~= seq!['/']);
    assert(out@.map_values(|l: Link| link_view(l)) =~= crumbs_spec(s).take(1));
    while i < segs.len()
        invariant
            i <= segs@.len(),
            s == views(segs@),
            "/"@ == seq!['/'],
            acc@ == prefix_href(s, i as int),
            out@.map_values(|l: Link| link_view(l)) =~= crumbs_spec(s).take(i + 1),
        decreases segs@.len() - i,
    {
        acc.append("/");
        let enc = encode_segment(segs[i].as_str());
        acc.append(enc.as_str());
        assert(link_segments(s).take(i + 1).drop_last() =~= link_segments(s).take(i as int));
        assert(link_segments(s).take(i + 1).last() == link_segment(segs@[i as int]@));
        assert(acc@ == prefix_href(s, i + 1));
        let ghost before = out@.map_values(|l: Link| link_view(l));
        out.push(Link { href: String::from_str(acc.as_str()), text: String::from_str(segs[i].as_str()) });
        assert(out@.map_values(|l: Link| link_view(l)) =~= before.push((prefix_href(s, i + 1), s[i as int])));
        i = i + 1;
    }
    assert(crumbs_spec(s).take(i + 1) =~= crumbs_spec(s));
    out
}

/// The row of one entry under the directory link `base`, or `None` where
/// the entry's name is not valid text.
pub fn entry_row(base: &str, entry: &EntryInfo) -> (r: Option<Row>)
    ensures
        match entry.name {
            Some(n) => r is Some && row_view(r->0) == ({
                let href0 = base@ + seq!['/'] + link_segment(n@);
                (if entry.kind == EntryKind::Directory { href0 + seq!['/'] } else { href0 },
                 n@,
                 match entry.kind {
                     EntryKind::File(len) => pretty_size_spec(len as nat),
                     _ => seq![],
                 })
            }),
            None => r is None,
        },
{
    proof {
        reveal_strlit("/");
        reveal_strlit("");
    }
    match &entry.name {
        Some(n) => {
            let mut href = String::from_str(base);
            href.append("/");
            let enc = encode_segment(n.as_str());
            href.append(enc.as_str());
            if entry.kind == EntryKind::Directory {
                href.append("/");
            }
            let size = match entry.kind {
                EntryKind::File(len) => pretty_size(len),
                _ => String::from_str(""),
            };
            Some(Row { href, name: String::from_str(n.as_str()), size })
        },
        None => None,
    }
}

/// The link to the directory reached by `segs`: `/` and each encoded
/// segment in turn (empty for the root).
pub fn directory_link(segs: &Vec<String>) -> (r: String)
    ensures
        r@ == prefix_href(views(segs@), segs@.len() as int),
{
    proof {
        reveal_strlit("/");
        reveal_strlit("");
    }
    let ghost s = views(segs@);
    let mut acc = String::from_str("");
    let mut i: usize = 0;
    assert(link_segments(s).take(0) =~= seq![]);
    assert(""@ =~= Seq::<char>::empty());
    while i < segs.len()
        invariant
            i <= segs@.len(),
            s == views(segs@),
            "/"@ == seq!['/'],
            acc@ == prefix_href(s, i as int),
        decreases segs@.len() - i,
    {
        acc.append("/");
        let enc = encode_segment(segs[i].as_str());
        acc.append(enc.as_str());
        assert(link_segments(s).take(i + 1).drop_last() =~= link_segments(s).take(i as int));
        assert(link_segments(s).take(i + 1).last() == link_segment(segs@[i as int]@));
        i = i + 1;
    }
    acc
}

/// Builds the listing page of the directory reached by `segs` from its
/// entries: entries without a valid name are left out, the others keep
/// their order.
pub fn listing_page(segs: &Vec<String>, entries: &Vec<EntryInfo>) -> (r: ListingPage)
    ensures
        r.title@ == "Directory contents"@,
        r.crumbs@.map_values(|l: Link| link_view(l)) == crumbs_spec(views(segs@)),
        r.rows@.map_values(|x: Row| row_view(x)) == rows_spec(views(segs@), entries@),
{
    let base = directory_link(segs);
    let mut rows: Vec<Row> = Vec::new();
    let mut i: usize = 0;
    assert(entries@.take(0) =~= seq![]);
    while i < entries.len()
        invariant
            i <= entries@.len(),
            base@ == prefix_href(views(segs@), segs@.len() as int),
            rows@.map_values(|x: Row| row_view(x)) =~= rows_spec(views(segs@), entries@.take(i as int)),
        decreases entries@.len() - i,
    {
        let row = entry_row(base.as_str(), &entries[i]);
        assert(entries@.take(i + 1).drop_last() =~= entries@.take(i as int));
        match row {
            Some(x) => {
                rows.push(x);
            },
            None => {},
        }
        i = i + 1;
    }
    assert(entries@.take(i as int) =~= entries@);
    ListingPage { title: String::from_str("Directory contents"), crumbs: breadcrumbs(segs), rows }
}

}
