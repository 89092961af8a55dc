//! What the range reader decides around its HTTP requests: the `Range` header
//! it sends, which statuses it accepts, and how it reads a multi-range answer.
use vstd::prelude::*;
use crate::multipart::{boundary_spec, demux_spec, parse_boundary, demux, concat_parts};
use crate::wire::concat;

verus! {

/// Why a range request failed.
#[derive(Clone, Debug, PartialEq, Eq)]
pub enum RangeError {
    /// The request could not be sent or its body not read.
    Transport(String),
    /// The server answered with a status other than 2xx.
    HttpStatus(u16),
    /// A multipart answer could not be split into its parts.
    MalformedMultipart,
}

/// The decimal digits of `n`, in ASCII.
pub open spec fn decimal(n: nat) -> Seq<u8>
    decreases n,
{
    if n < 10 {
        seq![(48 + n) as u8]
    } else {
        decimal(n / 10) + seq![(48 + n % 10) as u8]
    }
}

/// `start-end` for the `length` bytes from `start`, with an inclusive end.
pub open spec fn range_spec(start: nat, length: nat) -> Seq<u8> {
    decimal(start) + seq![45u8] + decimal((start + length - 1) as nat)
}

/// A range that can be named: not empty, and its last byte has an offset.
pub open spec fn range_ok(r: (usize, usize)) -> bool {
    r.1 >= 1 && r.0 + r.1 - 1 <= usize::MAX
}

/// The ranges, comma-separated.
pub open spec fn ranges_spec(rs: Seq<(usize, usize)>) -> Seq<u8>
    decreases rs.len(),
{
    if rs.len() == 0 {
        Seq::empty()
    } else if rs.len() == 1 {
        range_spec(rs[0].0 as nat, rs[0].1 as nat)
    } else {
        ranges_spec(rs.drop_last()) + seq![44u8] + range_spec(rs.last().0 as nat, rs.last().1 as nat)
    }
}

/// `bytes=`
pub open spec fn bytes_unit() -> Seq<u8> {
    seq![98u8, 121u8, 116u8, 101u8, 115u8, 61u8]
}

/// The value of the `Range` header that asks for `rs`.
pub open spec fn range_header_spec(rs: Seq<(usize, usize)>) -> Seq<u8> {
    bytes_unit() + ranges_spec(rs)
}

/// Appends the decimal digits of `n`.
pub fn push_decimal(out: &mut Vec<u8>, n: u64)
    ensures
        final(out)@ == old(out)@ + decimal(n as nat),
    decreases n,
{
    if n >= 10 {
        push_decimal(out, n / 10);
    }
    out.push((48 + n % 10) as u8);
    assert(final(out)@ =~= old(out)@ + decimal(n as nat));
}

fn push_range(out: &mut Vec<u8>, start: usize, length: usize)
    requires
        range_ok((start, length)),
    ensures
        final(out)@ == old(out)@ + range_spec(start as nat, length as nat),
{
    push_decimal(out, start as u64);
    out.push(45u8);
    push_decimal(out, (start + (length - 1)) as u64);
    assert(final(out)@ =~= old(out)@ + range_spec(start as nat, length as nat));
}

/// The `Range` header value for the given `(offset, length)` ranges:
/// `bytes=a-b,c-d,...` with inclusive ends.
pub fn range_header(ranges: &[(usize, usize)]) -> (r: Vec<u8>)
    requires
        forall|i: int| 0 <= i < ranges@.len() ==> range_ok(#[trigger] ranges@[i]),
    ensures
        r@ == range_header_spec(ranges@),
{
    let mut out: Vec<u8> = vec![98u8, 121u8, 116u8, 101u8, 115u8, 61u8];
    let mut i: usize = 0;
    while i < ranges.len()
        invariant
            i <= ranges@.len(),
            forall|j: int| 0 <= j < ranges@.len() ==> range_ok(#[trigger] ranges@[j]),
            out@ == bytes_unit() + ranges_spec(ranges@.subrange(0, i as int)),
        decreases ranges@.len() - i,
    {
        let ghost sub = ranges@.subrange(0, i + 1);
        assert(sub.drop_last() =~= ranges@.subrange(0, i as int));
        if i > 0 {
            out.push(44u8);
        }
        let (start, length) = ranges[i];
        assert(range_ok(ranges@[i as int]));
        push_range(&mut out, start, length);
        proof {
            if i == 0 {
                assert(ranges@.subrange(0, 0) =~= Seq::<(usize, usize)>::empty());
            }
        }
        assert(out@ =~= bytes_unit() + ranges_spec(sub));
        i = i + 1;
    }
    assert(ranges@.subrange(0, i as int) =~= ranges@);
    out
}

/// A status the reader accepts: any 2xx.
pub open spec fn status_ok(code: u16) -> bool {
    200 <= code <= 299
}

/// `Ok` for a 2xx status, else the status as an error.
pub fn check_status(code: u16) -> (r: Result<(), RangeError>)
    ensures
        status_ok(code) <==> r is Ok,
        !status_ok(code) ==> r == Err::<(), RangeError>(RangeError::HttpStatus(code)),
{
    if 200 <= code && code <= 299 {
        Ok(())
    } else {
        Err(RangeError::HttpStatus(code))
    }
}

/// What a multi-range answer yields: for a `multipart/byteranges` content
/// type with a boundary, the bodies of its parts one after another; for any
/// other (or no) content type, the body as it came.
pub open spec fn ranges_body_spec(content_type: Option<Seq<u8>>, body: Seq<u8>) -> Option<Seq<u8>> {
    match content_type {
        Some(ct) => match boundary_spec(ct) {
            Some(b) => match demux_spec(body, b) {
                Some(parts) => Some(concat(parts)),
                None => None,
            },
            None => Some(body),
        },
        None => Some(body),
    }
}

/// Reads the answer to a multi-range request (see `ranges_body_spec`); a
/// multipart body that cannot be split is `MalformedMultipart`.
pub fn ranges_body(content_type: Option<&[u8]>, body: &[u8]) -> (r: Result<Vec<u8>, RangeError>)
    ensures
        match r {
            Ok(v) => ranges_body_spec(
                match content_type { Some(ct) => Some(ct@), None => None },
                body@,
            ) == Some(v@),
            Err(e) => e == RangeError::MalformedMultipart && ranges_body_spec(
                match content_type { Some(ct) => Some(ct@), None => None },
                body@,
            ) is None,
        },
{
    let boundary = match content_type {
        Some(ct) => parse_boundary(ct),
        None => None,
    };
    match boundary {
        Some(b) => match demux(body, b.as_slice()) {
            Some(parts) => Ok(concat_parts(&parts)),
            None => Err(RangeError::MalformedMultipart),
        },
        None => {
            let mut v: Vec<u8> = Vec::new();
            crate::wire::push_all(&mut v, body);
            assert(v@ =~= body@);
            Ok(v)
        },
    }
}

} // verus!
