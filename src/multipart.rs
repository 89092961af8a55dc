//! Splitting a `multipart/byteranges` response body into the bodies of its parts.
use vstd::prelude::*;
use vstd::slice::slice_subrange;
use crate::wire::concat;

verus! {

/// `n` occurs in `h` at position `i`.
pub open spec fn occurs_at(h: Seq<u8>, n: Seq<u8>, i: int) -> bool {
    0 <= i && i + n.len() <= h.len() && h.subrange(i, i + n.len()) == n
}

/// The first position at or after `i` where `n` occurs in `h`.
pub open spec fn find_from(h: Seq<u8>, n: Seq<u8>, i: int) -> Option<int>
    decreases h.len() - i,
{
    if i < 0 || i + n.len() > h.len() {
        None
    } else if n.len() == 0 || occurs_at(h, n, i) {
        Some(i)
    } else {
        find_from(h, n, i + 1)
    }
}

pub proof fn lemma_find_from(h: Seq<u8>, n: Seq<u8>, i: int)
    requires
        0 <= i,
    ensures
        match find_from(h, n, i) {
            Some(k) => i <= k && occurs_at(h, n, k) && forall|j: int| i <= j < k ==> !occurs_at(h, n, j),
            None => forall|j: int| i <= j ==> !occurs_at(h, n, j),
        },
    decreases h.len() - i,
{
    if i + n.len() > h.len() {
    } else if n.len() == 0 {
        assert(h.subrange(i, i + n.len()) =~= n);
    } else if occurs_at(h, n, i) {
    } else {
        lemma_find_from(h, n, i + 1);
    }
}

/// `s` cut at every occurrence of `sep`, scanning left to right; the pieces
/// between occurrences are kept, a last empty piece is not.
pub open spec fn split(s: Seq<u8>, sep: Seq<u8>) -> Seq<Seq<u8>>
    decreases s.len(),
{
    if s.len() == 0 {
        Seq::empty()
    } else if sep.len() == 0 {
        seq![s]
    } else {
        match find_from(s, sep, 0) {
            Some(k) => if 0 <= k && k + sep.len() <= s.len() {
                seq![s.subrange(0, k)] + split(s.skip(k + sep.len()), sep)
            } else {
                seq![s]
            },
            None => seq![s],
        }
    }
}

/// `s` without its leading line breaks (`\r\n`).
pub open spec fn trim_front(s: Seq<u8>) -> Seq<u8>
    decreases s.len(),
{
    if s.len() >= 2 && s[0] == 13 && s[1] == 10 {
        trim_front(s.skip(2))
    } else {
        s
    }
}

/// `s` without its trailing line breaks (`\r\n`).
pub open spec fn trim_back(s: Seq<u8>) -> Seq<u8>
    decreases s.len(),
{
    if s.len() >= 2 && s[s.len() - 2] == 13 && s[s.len() - 1] == 10 {
        trim_back(s.subrange(0, s.len() - 2))
    } else {
        s
    }
}

pub open spec fn trimmed(s: Seq<u8>) -> Seq<u8> {
    trim_back(trim_front(s))
}

/// Whether `n` occurs in `h` at position `i`.
pub fn matches_at(h: &[u8], n: &[u8], i: usize) -> (r: bool)
    ensures
        r == occurs_at(h@, n@, i as int),
{
    if i > h.len() || n.len() > h.len() - i {
        return false;
    }
    let hl = h.len();
    let mut j: usize = 0;
    while j < n.len()
        invariant
            hl == h@.len(),
            i + n@.len() <= h@.len(),
            j <= n@.len(),
            forall|m: int| 0 <= m < j ==> h@[i + m] == n@[m],
        decreases n@.len() - j,
    {
        if h[i + j] != n[j] {
            assert(h@.subrange(i as int, i + n@.len())[j as int] != n@[j as int]);
            return false;
        }
        j = j + 1;
    }
    assert(h@.subrange(i as int, i + n@.len()) =~= n@);
    true
}

/// The first position at or after `from` where `n` occurs in `h`.
pub fn find(h: &[u8], n: &[u8], from: usize) -> (r: Option<usize>)
    ensures
        match r {
            Some(k) => find_from(h@, n@, from as int) == Some(k as int),
            None => find_from(h@, n@, from as int) is None,
        },
{
    let mut i: usize = from;
    while i <= h.len() && n.len() <= h.len() - i
        invariant
            from <= i,
            find_from(h@, n@, from as int) == find_from(h@, n@, i as int),
        decreases h@.len() + 1 - i,
    {
        if n.len() == 0 || matches_at(h, n, i) {
            return Some(i);
        }
        i = i + 1;
    }
    None
}

/// The pieces of `s` between occurrences of `sep` (see `split`).
pub fn split_all(s: &[u8], sep: &[u8]) -> (r: Vec<Vec<u8>>)
    requires
        sep@.len() > 0,
    ensures
        r@.map_values(|v: Vec<u8>| v@) == split(s@, sep@),
{
    let mut out: Vec<Vec<u8>> = Vec::new();
    let mut rest: &[u8] = s;
    while rest.len() > 0
        invariant
            sep@.len() > 0,
            out@.map_values(|v: Vec<u8>| v@) + split(rest@, sep@) == split(s@, sep@),
        decreases rest@.len(),
    {
        let ghost before = out@.map_values(|v: Vec<u8>| v@);
        match find(rest, sep, 0) {
            Some(k) => {
                proof {
                    lemma_find_from(rest@, sep@, 0);
                }
                let piece = slice_to_vec(slice_subrange(rest, 0, k));
                out.push(piece);
                let next = slice_subrange(rest, k + sep.len(), rest.len());
                proof {
                    assert(next@ =~= rest@.skip(k + sep@.len()));
                    assert(out@.map_values(|v: Vec<u8>| v@) =~= before.push(rest@.subrange(0, k as int)));
                    assert(split(rest@, sep@) =~= seq![rest@.subrange(0, k as int)] + split(next@, sep@));
                    assert(out@.map_values(|v: Vec<u8>| v@) + split(next@, sep@) =~= before + split(rest@, sep@));
                }
                rest = next;
            },
            None => {
                out.push(slice_to_vec(rest));
                proof {
                    assert(out@.map_values(|v: Vec<u8>| v@) =~= before + split(rest@, sep@));
                }
                return out;
            },
        }
    }
    assert(out@.map_values(|v: Vec<u8>| v@) =~= out@.map_values(|v: Vec<u8>| v@) + split(rest@, sep@));
    out
}

/// A copy of `s`.
fn slice_to_vec(s: &[u8]) -> (r: Vec<u8>)
    ensures
        r@ == s@,
{
    let mut r: Vec<u8> = Vec::new();
    crate::wire::push_all(&mut r, s);
    assert(r@ =~= s@);
    r
}

/// `s` without leading and trailing line breaks (see `trimmed`).
pub fn trim_line_breaks(s: &[u8]) -> (r: &[u8])
    ensures
        r@ == trimmed(s@),
{
    let mut lo: usize = 0;
    assert(s@.skip(0) =~= s@);
    while s.len() - lo >= 2 && s[lo] == 13 && s[lo + 1] == 10
        invariant
            lo <= s@.len(),
            trim_front(s@) == trim_front(s@.skip(lo as int)),
        decreases s@.len() - lo,
    {
        assert(s@.skip(lo as int).skip(2) =~= s@.skip(lo + 2));
        lo = lo + 2;
    }
    let mut hi: usize = s.len();
    assert(s@.skip(lo as int) =~= s@.subrange(lo as int, hi as int));
    while hi - lo >= 2 && s[hi - 2] == 13 && s[hi - 1] == 10
        invariant
            lo <= hi <= s@.len(),
            trimmed(s@) == trim_back(s@.subrange(lo as int, hi as int)),
        decreases hi - lo,
    {
        assert(s@.subrange(lo as int, hi as int).subrange(0, hi - lo - 2) =~= s@.subrange(lo as int, hi - 2));
        hi = hi - 2;
    }
    slice_subrange(s, lo, hi)
}

/// `--`: the segment that closes a multipart body.
pub open spec fn closing_mark() -> Seq<u8> {
    seq![45u8, 45u8]
}

/// The blank line that ends a part's headers.
pub open spec fn header_end() -> Seq<u8> {
    seq![13u8, 10u8, 13u8, 10u8]
}

/// The delimiter between parts: `--` followed by the boundary.
pub open spec fn delimiter(boundary: Seq<u8>) -> Seq<u8> {
    closing_mark() + boundary
}

/// Part bodies from segment `i` on, after `acc` was collected and with `closed`
/// telling whether the closing mark was already seen. Empty segments are
/// skipped; a second closing mark, or a part without a blank line after its
/// headers, makes the body malformed (`None`).
pub open spec fn parts_from(segs: Seq<Seq<u8>>, i: int, closed: bool, acc: Seq<Seq<u8>>) -> Option<Seq<Seq<u8>>>
    decreases segs.len() - i,
{
    if i < 0 || i >= segs.len() {
        Some(acc)
    } else {
        let t = trimmed(segs[i]);
        if t.len() == 0 {
            parts_from(segs, i + 1, closed, acc)
        } else if t == closing_mark() {
            if closed {
                None
            } else {
                parts_from(segs, i + 1, true, acc)
            }
        } else {
            match find_from(t, header_end(), 0) {
                Some(k) => parts_from(segs, i + 1, closed, acc.push(t.skip(k + 4))),
                None => None,
            }
        }
    }
}

/// The bodies of the parts of a multipart `body` with the given boundary, in
/// order, or `None` when the body is malformed.
pub open spec fn demux_spec(body: Seq<u8>, boundary: Seq<u8>) -> Option<Seq<Seq<u8>>> {
    parts_from(split(body, delimiter(boundary)), 0, false, Seq::empty())
}

/// Splits a `multipart/byteranges` body into the bodies of its parts, in the
/// order they come, dropping each part's headers. `None` when the body is
/// malformed (see `parts_from`).
pub fn demux(body: &[u8], boundary: &[u8]) -> (r: Option<Vec<Vec<u8>>>)
    ensures
        match r {
            Some(parts) => demux_spec(body@, boundary@) == Some(parts@.map_values(|v: Vec<u8>| v@)),
            None => demux_spec(body@, boundary@) is None,
        },
{
    let mut delim: Vec<u8> = vec![45u8, 45u8];
    crate::wire::push_all(&mut delim, boundary);
    assert(delim@ =~= delimiter(boundary@));
    let segs = split_all(body, delim.as_slice());
    let ghost segs_v = segs@.map_values(|v: Vec<u8>| v@);
    let sep: Vec<u8> = vec![13u8, 10u8, 13u8, 10u8];
    assert(sep@ =~= header_end());
    let mut out: Vec<Vec<u8>> = Vec::new();
    let mut closed = false;
    let mut i: usize = 0;
    assert(out@.map_values(|v: Vec<u8>| v@) =~= Seq::<Seq<u8>>::empty());
    while i < segs.len()
        invariant
            i <= segs@.len(),
            segs_v == segs@.map_values(|v: Vec<u8>| v@),
            segs_v == split(body@, delimiter(boundary@)),
            sep@ == header_end(),
            demux_spec(body@, boundary@) == parts_from(segs_v, i as int, closed, out@.map_values(|v: Vec<u8>| v@)),
        decreases segs@.len() - i,
    {
        let t = trim_line_breaks(segs[i].as_slice());
        assert(segs_v[i as int] == segs@[i as int]@);
        if t.len() == 0 {
        } else if t.len() == 2 && t[0] == 45 && t[1] == 45 {
            assert(t@ =~= closing_mark());
            if closed {
                return None;
            }
            closed = true;
        } else {
            assert(t@ != closing_mark());
            match find(t, sep.as_slice(), 0) {
                Some(k) => {
                    proof {
                        lemma_find_from(t@, sep@, 0);
                    }
                    let ghost before = out@.map_values(|v: Vec<u8>| v@);
                    out.push(slice_to_vec(slice_subrange(t, k + 4, t.len())));
                    assert(out@.map_values(|v: Vec<u8>| v@) =~= before.push(t@.skip(k + 4)));
                },
                None => {
                    return None;
                },
            }
        }
        i = i + 1;
    }
    Some(out)
}

/// The bytes of `parts`, one after another.
pub fn concat_parts(parts: &Vec<Vec<u8>>) -> (r: Vec<u8>)
    ensures
        r@ == concat(parts@.map_values(|v: Vec<u8>| v@)),
{
    let ghost pv = parts@.map_values(|v: Vec<u8>| v@);
    let mut out: Vec<u8> = Vec::new();
    let mut i: usize = 0;
    while i < parts.len()
        invariant
            i <= parts@.len(),
            pv == parts@.map_values(|v: Vec<u8>| v@),
            out@ == concat(pv.subrange(0, i as int)),
        decreases parts@.len() - i,
    {
        crate::wire::push_all(&mut out, parts[i].as_slice());
        assert(pv.subrange(0, i + 1).drop_last() =~= pv.subrange(0, i as int));
        i = i + 1;
    }
    assert(pv.subrange(0, i as int) =~= pv);
    out
}

/// `multipart/byteranges; boundary=`
pub open spec fn multipart_prefix() -> Seq<u8> {
    seq![
        109u8, 117u8, 108u8, 116u8, 105u8, 112u8, 97u8, 114u8, 116u8, 47u8,
        98u8, 121u8, 116u8, 101u8, 114u8, 97u8, 110u8, 103u8, 101u8, 115u8,
        59u8, 32u8, 98u8, 111u8, 117u8, 110u8, 100u8, 97u8, 114u8, 121u8, 61u8,
    ]
}

/// `; boundary=`: a second one ends the boundary token.
pub open spec fn boundary_param() -> Seq<u8> {
    multipart_prefix().skip(20)
}

/// The boundary of a `Content-Type` value of the form
/// `multipart/byteranges; boundary=<token>`: the text after the prefix, up to a
/// further `; boundary=` if there is one. `None` for any other content type,
/// and for an empty token.
pub open spec fn boundary_spec(content_type: Seq<u8>) -> Option<Seq<u8>> {
    let p = multipart_prefix();
    if content_type.len() >= p.len() && content_type.subrange(0, p.len() as int) == p {
        let rest = content_type.skip(p.len() as int);
        let token = match find_from(rest, boundary_param(), 0) {
            Some(k) => rest.subrange(0, k),
            None => rest,
        };
        if token.len() > 0 {
            Some(token)
        } else {
            None
        }
    } else {
        None
    }
}

/// The multipart boundary named by a `Content-Type` value (see `boundary_spec`).
pub fn parse_boundary(content_type: &[u8]) -> (r: Option<Vec<u8>>)
    ensures
        match r {
            Some(b) => boundary_spec(content_type@) == Some(b@),
            None => boundary_spec(content_type@) is None,
        },
{
    let p: Vec<u8> = vec![
        109u8, 117u8, 108u8, 116u8, 105u8, 112u8, 97u8, 114u8, 116u8, 47u8,
        98u8, 121u8, 116u8, 101u8, 114u8, 97u8, 110u8, 103u8, 101u8, 115u8,
        59u8, 32u8, 98u8, 111u8, 117u8, 110u8, 100u8, 97u8, 114u8, 121u8, 61u8,
    ];
    assert(p@ =~= multipart_prefix());
    if !matches_at(content_type, p.as_slice(), 0) {
        assert(!(content_type@.len() >= p@.len() && content_type@.subrange(0, p@.len() as int) == p@));
        return None;
    }
    let rest = slice_subrange(content_type, p.len(), content_type.len());
    assert(rest@ =~= content_type@.skip(p@.len() as int));
    let param = slice_subrange(p.as_slice(), 20, p.len());
    assert(param@ =~= boundary_param());
    let token = match find(rest, param, 0) {
        Some(k) => {
            proof {
                lemma_find_from(rest@, param@, 0);
            }
            slice_subrange(rest, 0, k)
        },
        None => rest,
    };
    if token.len() > 0 {
        Some(slice_to_vec(token))
    } else {
        None
    }
}

/// `pieces` with `sep` between each two.
pub open spec fn join(pieces: Seq<Seq<u8>>, sep: Seq<u8>) -> Seq<u8>
    decreases pieces.len(),
{
    if pieces.len() <= 1 {
        if pieces.len() == 1 { pieces[0] } else { Seq::empty() }
    } else {
        pieces[0] + sep + join(pieces.skip(1), sep)
    }
}

/// In `join(pieces, sep)`, no occurrence of `sep` starts inside a piece, and
/// the last piece is not empty.
pub open spec fn separated(pieces: Seq<Seq<u8>>, sep: Seq<u8>) -> bool
    decreases pieces.len(),
{
    if pieces.len() <= 1 {
        pieces.len() == 1 && pieces[0].len() > 0 && find_from(pieces[0], sep, 0) is None
    } else {
        &&& forall|j: int| 0 <= j < pieces[0].len() ==> !occurs_at(join(pieces, sep), sep, j)
        &&& separated(pieces.skip(1), sep)
    }
}

proof fn lemma_find_first(h: Seq<u8>, n: Seq<u8>, k: int)
    requires
        0 <= k,
        occurs_at(h, n, k),
        forall|j: int| 0 <= j < k ==> !occurs_at(h, n, j),
    ensures
        find_from(h, n, 0) == Some(k),
{
    lemma_find_from(h, n, 0);
    match find_from(h, n, 0) {
        Some(m) => {
            if m < k {
            } else if m > k {
            }
        },
        None => {},
    }
}

/// Splitting at `sep` undoes joining with it, when `sep` occurs only between pieces.
pub proof fn lemma_split_join(pieces: Seq<Seq<u8>>, sep: Seq<u8>)
    requires
        sep.len() > 0,
        separated(pieces, sep),
    ensures
        split(join(pieces, sep), sep) == pieces,
    decreases pieces.len(),
{
    let s = join(pieces, sep);
    if pieces.len() == 1 {
        assert(split(s, sep) =~= pieces);
    } else {
        let first = pieces[0];
        let rest = join(pieces.skip(1), sep);
        let k = first.len() as int;
        assert(s == first + sep + rest);
        assert(s.subrange(k, k + sep.len()) =~= sep);
        lemma_find_first(s, sep, k);
        assert(s.subrange(0, k) =~= first);
        assert(s.skip(k + sep.len()) =~= rest);
        lemma_split_join(pieces.skip(1), sep);
        assert(split(s, sep) =~= seq![first] + pieces.skip(1));
        assert(seq![first] + pieces.skip(1) =~= pieces);
    }
}

/// A line break.
pub open spec fn crlf() -> Seq<u8> {
    seq![13u8, 10u8]
}

/// One part as a server writes it between two delimiters: a line break, the
/// headers, a blank line, the body and a line break.
pub open spec fn part_piece(headers: Seq<u8>, body: Seq<u8>) -> Seq<u8> {
    crlf() + headers + header_end() + body + crlf()
}

/// Nothing, or one line break: what may stand before the first delimiter or
/// after the closing `--`.
pub open spec fn blank(s: Seq<u8>) -> bool {
    s.len() == 0 || s == crlf()
}

/// The pieces of a multipart body between its delimiters: `lead` before the
/// first delimiter, one piece per part, and `--` followed by `tail` after the
/// last delimiter.
pub open spec fn multipart_pieces(lead: Seq<u8>, tail: Seq<u8>, headers: Seq<Seq<u8>>, bodies: Seq<Seq<u8>>) -> Seq<Seq<u8>> {
    seq![lead] + Seq::new(bodies.len(), |i: int| part_piece(headers[i], bodies[i])) + seq![closing_mark() + tail]
}

/// A multipart body with the given boundary, part headers and part bodies,
/// `lead` before the first delimiter and `tail` after the closing one.
pub open spec fn multipart_body(
    boundary: Seq<u8>,
    lead: Seq<u8>,
    tail: Seq<u8>,
    headers: Seq<Seq<u8>>,
    bodies: Seq<Seq<u8>>,
) -> Seq<u8> {
    join(multipart_pieces(lead, tail, headers, bodies), delimiter(boundary))
}
/// A part that reads back as written: its headers are not empty, do not start
/// with a line break and hold no blank line (nor end in a partial one), and
/// its body is not empty and does not end with a line break.
pub open spec fn part_ok(headers: Seq<u8>, body: Seq<u8>) -> bool {
    &&& headers.len() > 0
    &&& !(headers.len() >= 2 && headers[0] == 13 && headers[1] == 10)
    &&& forall|j: int| 0 <= j < headers.len() ==> !occurs_at(headers + header_end(), header_end(), j)
    &&& body.len() > 0
    &&& !(body.len() >= 2 && body[body.len() - 2] == 13 && body[body.len() - 1] == 10)
}

proof fn lemma_trim_part(headers: Seq<u8>, body: Seq<u8>)
    requires
        part_ok(headers, body),
    ensures
        trimmed(part_piece(headers, body)) == headers + header_end() + body,
        find_from(headers + header_end() + body, header_end(), 0) == Some(headers.len() as int),
{
    let inner = headers + header_end() + body;
    let x = inner + crlf();
    let p = part_piece(headers, body);
    assert(p =~= crlf() + x);
    assert(p.skip(2) =~= x);
    assert(trim_front(x) == x);
    assert(trim_front(p) == x);
    assert(x.subrange(0, x.len() - 2) =~= inner);
    assert(trim_back(inner) == inner);
    assert(trim_back(x) == inner);
    let k = headers.len() as int;
    assert(inner.subrange(k, k + 4) =~= header_end());
    assert forall|j: int| 0 <= j < k implies !occurs_at(inner, header_end(), j) by {
        let hh = headers + header_end();
        assert(!occurs_at(hh, header_end(), j));
        assert(inner.subrange(j, j + 4) =~= hh.subrange(j, j + 4));
    }
    lemma_find_first(inner, header_end(), k);
}

proof fn lemma_parts_from_pieces(
    lead: Seq<u8>,
    tail: Seq<u8>,
    headers: Seq<Seq<u8>>,
    bodies: Seq<Seq<u8>>,
    i: int,
)
    requires
        blank(tail),
        headers.len() == bodies.len(),
        forall|m: int| 0 <= m < bodies.len() ==> part_ok(#[trigger] headers[m], bodies[m]),
        1 <= i <= bodies.len() + 1,
    ensures
        parts_from(multipart_pieces(lead, tail, headers, bodies), i, false, bodies.subrange(0, i - 1)) == Some(bodies),
    decreases bodies.len() + 1 - i,
{
    let segs = multipart_pieces(lead, tail, headers, bodies);
    let n = bodies.len() as int;
    if i == n + 1 {
        let t = trimmed(segs[i]);
        let c = closing_mark() + tail;
        assert(segs[i] == c);
        assert(trim_front(c) == c);
        assert(trim_back(closing_mark()) == closing_mark());
        if tail.len() == 0 {
            assert(c =~= closing_mark());
        } else {
            assert(c.subrange(0, c.len() - 2) =~= closing_mark());
            assert(trim_back(c) == trim_back(closing_mark()));
        }
        assert(t == closing_mark());
        assert(bodies.subrange(0, n) =~= bodies);
        assert(parts_from(segs, i + 1, true, bodies) == Some(bodies));
    } else {
        assert(segs[i] == part_piece(headers[i - 1], bodies[i - 1]));
        lemma_trim_part(headers[i - 1], bodies[i - 1]);
        let t = trimmed(segs[i]);
        assert(t.len() > 2);
        assert(t != closing_mark());
        assert(t.skip(headers[i - 1].len() as int + 4) =~= bodies[i - 1]);
        assert(bodies.subrange(0, i - 1).push(bodies[i - 1]) =~= bodies.subrange(0, i));
        lemma_parts_from_pieces(lead, tail, headers, bodies, i + 1);
    }
}

/// A multipart body made of parts that read back as written, with a boundary
/// that occurs nowhere but in its delimiters, splits into exactly the bodies of
/// its parts, in order: no header and no delimiter byte is left in them. The
/// body may start with a line break or directly with the first delimiter, and
/// end with `--` or with `--` and a line break.
pub proof fn lemma_demux_parts(
    boundary: Seq<u8>,
    lead: Seq<u8>,
    tail: Seq<u8>,
    headers: Seq<Seq<u8>>,
    bodies: Seq<Seq<u8>>,
)
    requires
        blank(lead),
        blank(tail),
        headers.len() == bodies.len(),
        forall|m: int| 0 <= m < bodies.len() ==> part_ok(#[trigger] headers[m], bodies[m]),
        separated(multipart_pieces(lead, tail, headers, bodies), delimiter(boundary)),
    ensures
        demux_spec(multipart_body(boundary, lead, tail, headers, bodies), boundary) == Some(bodies),
{
    let segs = multipart_pieces(lead, tail, headers, bodies);
    lemma_split_join(segs, delimiter(boundary));
    assert(segs[0] == lead);
    assert(trim_front(Seq::<u8>::empty()) == Seq::<u8>::empty());
    assert(trim_back(Seq::<u8>::empty()) == Seq::<u8>::empty());
    if lead.len() != 0 {
        assert(lead.skip(2) =~= Seq::<u8>::empty());
        assert(trim_front(lead) == trim_front(lead.skip(2)));
    }
    assert(trimmed(segs[0]) =~= Seq::<u8>::empty());
    assert(bodies.subrange(0, 0) =~= Seq::<Seq<u8>>::empty());
    lemma_parts_from_pieces(lead, tail, headers, bodies, 1);
}

/// The same for a body that begins directly with the first delimiter `--B`
/// and ends with the closing `--B--`.
pub proof fn lemma_demux_parts_from_delimiter(boundary: Seq<u8>, headers: Seq<Seq<u8>>, bodies: Seq<Seq<u8>>)
    requires
        headers.len() == bodies.len(),
        forall|m: int| 0 <= m < bodies.len() ==> part_ok(#[trigger] headers[m], bodies[m]),
        separated(multipart_pieces(Seq::empty(), Seq::empty(), headers, bodies), delimiter(boundary)),
    ensures
        demux_spec(multipart_body(boundary, Seq::empty(), Seq::empty(), headers, bodies), boundary) == Some(bodies),
{
    lemma_demux_parts(boundary, Seq::empty(), Seq::empty(), headers, bodies);
}

} // verus!
