//! Turning the path of a request into segments under the served root, with
//! every way out of the root refused before any file system call.

use vstd::prelude::*;
use vstd::utf8::{valid_utf8, decode_utf8};

verus! {

/// Why a request path was refused.
#[derive(Clone, Copy, Debug, PartialEq, Eq, Structural)]
pub enum RequestError {
    /// The decoded bytes are not UTF-8.
    MalformedEncoding,
    /// The decoded path does not start with `/`.
    InvalidPath,
    /// A segment is `..`, a root marker or a drive marker.
    PathEscape,
}

/// The value of an ASCII hexadecimal digit, either case.
pub open spec fn hex_value(b: u8) -> Option<u8> {
    if 0x30 <= b <= 0x39 {
        Some((b - 0x30) as u8)
    } else if 0x41 <= b <= 0x46 {
        Some((b - 0x37) as u8)
    } else if 0x61 <= b <= 0x66 {
        Some((b - 0x57) as u8)
    } else {
        None
    }
}

/// Percent-decoding: `%` and two hexadecimal digits stand for the byte they
/// spell; any other byte, a `%` without two digits after it included, stands
/// for itself.
pub open spec fn percent_decoded(s: Seq<u8>) -> Seq<u8>
    decreases s.len(),
{
    if s.len() == 0 {
        seq![]
    } else if s[0] == 0x25u8 && s.len() >= 3 && hex_value(s[1]) is Some && hex_value(s[2]) is Some {
        seq![(hex_value(s[1])->0 * 16 + hex_value(s[2])->0) as u8]
            + percent_decoded(s.subrange(3, s.len() as int))
    } else {
        seq![s[0]] + percent_decoded(s.subrange(1, s.len() as int))
    }
}

/// Relies on percent_encoding::percent_decode: it yields the bytes of its
/// input with each `%` and two hexadecimal digits replaced by that byte.
#[verifier::external_body]
fn percent_decode_bytes(raw: &[u8]) -> (r: Vec<u8>)
    ensures
        r@ == percent_decoded(raw@),
{
    percent_encoding::percent_decode(raw).collect()
}

/// Relies on String::from_utf8: it succeeds exactly on valid UTF-8, and the
/// string then holds the characters those bytes encode.
#[verifier::external_body]
fn string_from_utf8(bytes: Vec<u8>) -> (r: Option<String>)
    ensures
        r is Some <==> valid_utf8(bytes@),
        r is Some ==> r->0@ == decode_utf8(bytes@),
{
    String::from_utf8(bytes).ok()
}

/// The text of a request path: percent-decoded, then read as UTF-8.
pub open spec fn decoded_path(raw: Seq<u8>) -> Result<Seq<char>, RequestError> {
    if valid_utf8(percent_decoded(raw)) {
        Ok(decode_utf8(percent_decoded(raw)))
    } else {
        Err(RequestError::MalformedEncoding)
    }
}

/// Percent-decodes the raw path of a request and reads it as UTF-8.
pub fn decode_request_path(raw: &[u8]) -> (r: Result<String, RequestError>)
    ensures
        match r {
            Ok(s) => decoded_path(raw@) == Ok::<Seq<char>, RequestError>(s@),
            Err(e) => decoded_path(raw@) == Err::<Seq<char>, RequestError>(e),
        },
{
    let bytes = percent_decode_bytes(raw);
    match string_from_utf8(bytes) {
        Some(s) => Ok(s),
        None => Err(RequestError::MalformedEncoding),
    }
}


/// The pieces of `s` between `/` characters, empty ones included: a string
/// without `/` is one piece.
pub open spec fn split_slash(s: Seq<char>) -> Seq<Seq<char>>
    decreases s.len(),
{
    if s.len() == 0 {
        seq![seq![]]
    } else {
        let prev = split_slash(s.drop_last());
        if s.last() == '/' {
            prev.push(seq![])
        } else {
            prev.update(prev.len() - 1, prev.last().push(s.last()))
        }
    }
}

/// A segment that names nothing: empty (a doubled `/`) or `.`.
pub open spec fn is_skipped(seg: Seq<char>) -> bool {
    seg.len() == 0 || seg == seq!['.']
}

pub open spec fn is_ascii_letter(c: char) -> bool {
    ('a' <= c && c <= 'z') || ('A' <= c && c <= 'Z')
}

/// A root marker (a backslash, which some hosts read as a separator) or a
/// drive marker (a letter and a colon, as in `C:`).
pub open spec fn is_prefix_marker(seg: Seq<char>) -> bool {
    (exists|k: int| 0 <= k < seg.len() && seg[k] == '\\')
        || (seg.len() >= 2 && is_ascii_letter(seg[0]) && seg[1] == ':')
}

/// A segment that would lead out of the root.
pub open spec fn is_escape(seg: Seq<char>) -> bool {
    seg == seq!['.', '.'] || is_prefix_marker(seg)
}

pub open spec fn any_escape(segs: Seq<Seq<char>>) -> bool
    decreases segs.len(),
{
    if segs.len() == 0 {
        false
    } else {
        any_escape(segs.drop_last()) || is_escape(segs.last())
    }
}

/// The segments that name something, in order.
pub open spec fn kept(segs: Seq<Seq<char>>) -> Seq<Seq<char>>
    decreases segs.len(),
{
    if segs.len() == 0 {
        seq![]
    } else if is_skipped(segs.last()) {
        kept(segs.drop_last())
    } else {
        kept(segs.drop_last()).push(segs.last())
    }
}

/// The views of a sequence of strings.
pub open spec fn views(v: Seq<String>) -> Seq<Seq<char>> {
    v.map_values(|s: String| s@)
}

/// The segments of a decoded request path, relative to the root.
pub open spec fn path_segments(p: Seq<char>) -> Result<Seq<Seq<char>>, RequestError> {
    if p.len() == 0 || p[0] != '/' {
        Err(RequestError::InvalidPath)
    } else if any_escape(split_slash(p.drop_first())) {
        Err(RequestError::PathEscape)
    } else {
        Ok(kept(split_slash(p.drop_first())))
    }
}

fn is_parent_ref(seg: &str) -> (r: bool)
    ensures
        r == (seg@ == seq!['.', '.']),
{
    if seg.unicode_len() == 2 && seg.get_char(0) == '.' && seg.get_char(1) == '.' {
        assert(seg@ =~= seq!['.', '.']);
        true
    } else {
        false
    }
}

fn is_skipped_str(seg: &str) -> (r: bool)
    ensures
        r == is_skipped(seg@),
{
    let n = seg.unicode_len();
    if n == 0 {
        true
    } else if n == 1 && seg.get_char(0) == '.' {
        assert(seg@ =~= seq!['.']);
        true
    } else {
        false
    }
}

fn is_letter(c: char) -> (r: bool)
    ensures
        r == is_ascii_letter(c),
{
    ('a' <= c && c <= 'z') || ('A' <= c && c <= 'Z')
}

fn has_prefix_marker(seg: &str) -> (r: bool)
    ensures
        r == is_prefix_marker(seg@),
{
    let n = seg.unicode_len();
    let mut i: usize = 0;
    while i < n
        invariant
            n == seg@.len(),
            i <= n,
            forall|k: int| 0 <= k < i ==> seg@[k] != '\\',
        decreases n - i,
    {
        if seg.get_char(i) == '\\' {
            return true;
        }
        i = i + 1;
    }
    n >= 2 && is_letter(seg.get_char(0)) && seg.get_char(1) == ':'
}

fn is_escape_str(seg: &str) -> (r: bool)
    ensures
        r == is_escape(seg@),
{
    is_parent_ref(seg) || has_prefix_marker(seg)
}

/// Splits a decoded request path into the segments under the root: it must
/// start with `/`, no segment may be `..`, a root marker or a drive marker,
/// and empty and `.` segments are dropped.
pub fn split_request_path(path: &str) -> (r: Result<Vec<String>, RequestError>)
    ensures
        match r {
            Ok(v) => path_segments(path@) == Ok::<Seq<Seq<char>>, RequestError>(views(v@)),
            Err(e) => path_segments(path@) == Err::<Seq<Seq<char>>, RequestError>(e),
        },
{
    let n = path.unicode_len();
    if n == 0 || path.get_char(0) != '/' {
        return Err(RequestError::InvalidPath);
    }
    let ghost p = path@;
    let mut out: Vec<String> = Vec::new();
    let mut escape = false;
    let mut start: usize = 1;
    let mut i: usize = 1;
    let ghost mut all: Seq<Seq<char>> = seq![seq![]];
    assert(p.subrange(1, 1) =~= seq![]);
    while i < n
        invariant
            n == p.len(),
            p == path@,
            1 <= start <= i <= n,
            all == split_slash(p.subrange(1, i as int)),
            all.len() >= 1,
            all.last() == p.subrange(start as int, i as int),
            views(out@) == kept(all.drop_last()),
            escape == any_escape(all.drop_last()),
        decreases n - i,
    {
        let c = path.get_char(i);
        let ghost prev = all;
        assert(p.subrange(1, i + 1).drop_last() =~= p.subrange(1, i as int));
        if c == '/' {
            let seg = path.substring_char(start, i);
            if is_escape_str(seg) {
                escape = true;
            }
            if !is_skipped_str(seg) {
                out.push(String::from_str(seg));
            }
            proof {
                all = all.push(seq![]);
                assert(all.drop_last() =~= prev);
                assert(prev.drop_last().push(prev.last()) =~= prev);
                assert(views(out@) =~= kept(all.drop_last()));
            }
            start = i + 1;
            assert(p.subrange(start as int, i + 1) =~= seq![]);
        } else {
            proof {
                all = all.update(all.len() - 1, all.last().push(c));
                assert(all.drop_last() =~= prev.drop_last());
                assert(p.subrange(start as int, i + 1) =~= prev.last().push(c));
            }
        }
        i = i + 1;
    }
    assert(p.subrange(1, n as int) =~= p.drop_first());
    let last = path.substring_char(start, n);
    if is_escape_str(last) {
        escape = true;
    }
    if !is_skipped_str(last) {
        out.push(String::from_str(last));
    }
    proof {
        assert(all.drop_last().push(all.last()) =~= all);
        assert(views(out@) =~= kept(all));
    }
    if escape {
        Err(RequestError::PathEscape)
    } else {
        Ok(out)
    }
}


/// The segments of a raw request path under the root.
pub open spec fn request_segments(raw: Seq<u8>) -> Result<Seq<Seq<char>>, RequestError> {
    match decoded_path(raw) {
        Ok(p) => path_segments(p),
        Err(e) => Err(e),
    }
}

/// `root` followed by `/` and each segment in turn.
pub open spec fn joined(root: Seq<char>, segs: Seq<Seq<char>>) -> Seq<char>
    decreases segs.len(),
{
    if segs.len() == 0 {
        root
    } else {
        joined(root, segs.drop_last()) + seq!['/'] + segs.last()
    }
}

/// `cand` is `root` itself or lies below it: `root` is a prefix that ends
/// where `cand` ends or at a `/`.
pub open spec fn within_root(root: Seq<char>, cand: Seq<char>) -> bool {
    &&& root.len() <= cand.len()
    &&& cand.subrange(0, root.len() as int) == root
    &&& (cand.len() == root.len() || cand[root.len() as int] == '/')
}

/// A request resolved under the root.
pub struct Target {
    /// The file system path: the root, then `/` and each segment.
    pub fs_path: String,
    /// The segments below the root, none empty, `.`, `..` or a marker.
    pub segments: Vec<String>,
}

/// Appends `/` and each segment to `root`.
pub fn join_root(root: &str, segs: &Vec<String>) -> (r: String)
    ensures
        r@ == joined(root@, views(segs@)),
{
    let mut out = String::from_str(root);
    let mut i: usize = 0;
    proof { reveal_strlit("/"); }
    assert(views(segs@).take(0) =~= seq![]);
    while i < segs.len()
        invariant
            i <= segs@.len(),
            out@ == joined(root@, views(segs@).take(i as int)),
            "/"@ == seq!['/'],
        decreases segs@.len() - i,
    {
        out.append("/");
        out.append(segs[i].as_str());
        assert(views(segs@).take(i + 1).drop_last() =~= views(segs@).take(i as int));
        i = i + 1;
    }
    assert(views(segs@).take(i as int) =~= views(segs@));
    out
}

/// Tells whether `cand` is `root` itself or lies below it.
pub fn is_within_root(root: &str, cand: &str) -> (r: bool)
    ensures
        r == within_root(root@, cand@),
{
    let m = root.unicode_len();
    let n = cand.unicode_len();
    if m > n {
        return false;
    }
    let mut i: usize = 0;
    while i < m
        invariant
            m == root@.len(),
            n == cand@.len(),
            m <= n,
            i <= m,
            forall|k: int| 0 <= k < i ==> cand@[k] == root@[k],
        decreases m - i,
    {
        if cand.get_char(i) != root.get_char(i) {
            assert(cand@.subrange(0, m as int)[i as int] != root@[i as int]);
            return false;
        }
        i = i + 1;
    }
    assert(cand@.subrange(0, m as int) =~= root@);
    m == n || cand.get_char(m) == '/'
}

proof fn lemma_joined_within(root: Seq<char>, segs: Seq<Seq<char>>)
    ensures
        within_root(root, joined(root, segs)),
        segs.len() > 0 ==> joined(root, segs).len() > root.len(),
    decreases segs.len(),
{
    if segs.len() > 0 {
        let prev = joined(root, segs.drop_last());
        lemma_joined_within(root, segs.drop_last());
        let cur = joined(root, segs);
        assert(cur == prev + seq!['/'] + segs.last());
        assert(cur.subrange(0, root.len() as int) =~= prev.subrange(0, root.len() as int));
        if segs.drop_last().len() == 0 {
            assert(cur[root.len() as int] == '/');
        } else {
            assert(cur[root.len() as int] == prev[root.len() as int]);
        }
    } else {
        assert(root.subrange(0, root.len() as int) =~= root);
    }
}

/// Resolves the raw path of a request under `root`: decodes it, splits it,
/// refuses every way out of the root, and joins the segments onto `root`.
pub fn resolve_request(root: &str, raw: &[u8]) -> (r: Result<Target, RequestError>)
    ensures
        match r {
            Ok(t) => {
                &&& request_segments(raw@) == Ok::<Seq<Seq<char>>, RequestError>(views(t.segments@))
                &&& t.fs_path@ == joined(root@, views(t.segments@))
            },
            Err(e) => request_segments(raw@) == Err::<Seq<Seq<char>>, RequestError>(e),
        },
{
    let path = decode_request_path(raw)?;
    let segments = split_request_path(path.as_str())?;
    let fs_path = join_root(root, &segments);
    if !is_within_root(root, fs_path.as_str()) {
        proof { lemma_joined_within(root@, views(segments@)); }
        return Err(RequestError::PathEscape);
    }
    Ok(Target { fs_path, segments })
}

proof fn lemma_any_escape(segs: Seq<Seq<char>>)
    ensures
        any_escape(segs) <==> exists|k: int| 0 <= k < segs.len() && is_escape(#[trigger] segs[k]),
    decreases segs.len(),
{
    if segs.len() > 0 {
        let prev = segs.drop_last();
        lemma_any_escape(prev);
        if any_escape(prev) {
            let k = choose|k: int| 0 <= k < prev.len() && is_escape(#[trigger] prev[k]);
            assert(segs[k] == prev[k]);
        }
        if exists|k: int| 0 <= k < segs.len() && is_escape(#[trigger] segs[k]) {
            let k = choose|k: int| 0 <= k < segs.len() && is_escape(#[trigger] segs[k]);
            if k < prev.len() {
                assert(prev[k] == segs[k]);
            }
        }
    }
}

proof fn lemma_kept_from(segs: Seq<Seq<char>>)
    ensures
        forall|j: int| 0 <= j < kept(segs).len() ==> !is_skipped(#[trigger] kept(segs)[j])
            && exists|k: int| 0 <= k < segs.len() && segs[k] == kept(segs)[j],
    decreases segs.len(),
{
    if segs.len() > 0 {
        let prev = segs.drop_last();
        lemma_kept_from(prev);
        assert forall|j: int| 0 <= j < kept(segs).len() implies !is_skipped(#[trigger] kept(segs)[j])
            && exists|k: int| 0 <= k < segs.len() && segs[k] == kept(segs)[j] by {
            if j < kept(prev).len() {
                let k = choose|k: int| 0 <= k < prev.len() && prev[k] == kept(prev)[j];
                assert(segs[k] == prev[k]);
            } else {
                assert(segs[segs.len() - 1] == kept(segs)[j]);
            }
        }
    }
}

/// Containment. A request path that does not start with `/`, or that has a
/// segment `..`, a root marker or a drive marker, is refused; any other
/// request resolves to segments that are none of these (nor empty nor `.`),
/// and the path they form lies within the root.
pub proof fn lemma_containment(root: Seq<char>, raw: Seq<u8>)
    ensures
        decoded_path(raw) is Ok ==> {
            let p = decoded_path(raw)->Ok_0;
            (p.len() == 0 || p[0] != '/') ==> request_segments(raw) == Err::<Seq<Seq<char>>, RequestError>(RequestError::InvalidPath)
        },
        decoded_path(raw) is Ok ==> {
            let p = decoded_path(raw)->Ok_0;
            (p.len() > 0 && p[0] == '/' && exists|k: int|
                0 <= k < split_slash(p.drop_first()).len()
                    && is_escape(#[trigger] split_slash(p.drop_first())[k]))
                ==> request_segments(raw) == Err::<Seq<Seq<char>>, RequestError>(RequestError::PathEscape)
        },
        request_segments(raw) is Ok ==> {
            let segs = request_segments(raw)->Ok_0;
            &&& forall|k: int| 0 <= k < segs.len() ==> !is_escape(#[trigger] segs[k]) && !is_skipped(segs[k])
            &&& within_root(root, joined(root, segs))
        },
{
    if decoded_path(raw) is Ok {
        let p = decoded_path(raw)->Ok_0;
        if p.len() > 0 && p[0] == '/' {
            let all = split_slash(p.drop_first());
            lemma_any_escape(all);
            lemma_kept_from(all);
            if request_segments(raw) is Ok {
                let segs = request_segments(raw)->Ok_0;
                assert forall|k: int| 0 <= k < segs.len() implies !is_escape(#[trigger] segs[k]) && !is_skipped(segs[k]) by {
                    let j = choose|j: int| 0 <= j < all.len() && all[j] == kept(all)[k];
                    assert(!is_escape(all[j]));
                }
                lemma_joined_within(root, segs);
            }
        }
    }
}

}
