//! The sliding window of a remote resource that the range reader keeps in
//! memory, held in a `bytes::BytesMut`.
//!
//! The window holds the bytes `[head, head + len)` of the resource. A read of
//! `[begin, begin + length)` is served from it when it lies inside; otherwise
//! the window is first cut down to what is still useful (the part from
//! `begin` on, when `begin` lies inside it, else nothing, moved to `begin`),
//! and then only the missing suffix is fetched and appended.
use vstd::prelude::*;
use vstd::slice::slice_subrange;

verus! {

#[verifier::external_type_specification]
#[verifier::external_body]
pub struct ExBytesMut(bytes::BytesMut);

/// The bytes a `BytesMut` holds.
pub uninterp spec fn bytes_mut_view(b: bytes::BytesMut) -> Seq<u8>;

pub assume_specification[ bytes::BytesMut::new ]() -> (r: bytes::BytesMut)
    ensures
        bytes_mut_view(r) == Seq::<u8>::empty(),
;

pub assume_specification[ bytes::BytesMut::len ](b: &bytes::BytesMut) -> (r: usize)
    ensures
        r == bytes_mut_view(*b).len(),
;

pub assume_specification[ bytes::BytesMut::clear ](b: &mut bytes::BytesMut)
    ensures
        bytes_mut_view(*final(b)) == Seq::<u8>::empty(),
;

/// `split_to` panics when `at > len`.
pub assume_specification[ bytes::BytesMut::split_to ](b: &mut bytes::BytesMut, at: usize) -> (r: bytes::BytesMut)
    requires
        at <= bytes_mut_view(*old(b)).len(),
    ensures
        bytes_mut_view(r) == bytes_mut_view(*old(b)).subrange(0, at as int),
        bytes_mut_view(*final(b)) == bytes_mut_view(*old(b)).skip(at as int),
;

pub assume_specification[ bytes::BytesMut::extend_from_slice ](b: &mut bytes::BytesMut, extend: &[u8])
    ensures
        bytes_mut_view(*final(b)) == bytes_mut_view(*old(b)) + extend@,
;

/// Relies on `BytesMut`'s `Deref<Target = [u8]>`: the slice of all bytes held.
#[verifier::external_body]
fn held(b: &bytes::BytesMut) -> (r: &[u8])
    ensures
        r@ == bytes_mut_view(*b),
{
    &b[..]
}

/// The window after it is cut down for a read starting at `begin`: the part of
/// `data` from `begin` on when `begin` lies inside `[head, head + len)`,
/// otherwise nothing, at `begin`.
pub open spec fn kept(head: nat, data: Seq<u8>, begin: nat) -> (nat, Seq<u8>) {
    if head <= begin < head + data.len() {
        (begin, data.skip(begin - head))
    } else {
        (begin, Seq::empty())
    }
}

/// `[begin, begin + length)` lies inside `[head, head + len)`.
pub open spec fn covers(head: nat, len: nat, begin: nat, length: nat) -> bool {
    head <= begin && begin + length <= head + len
}

/// How many bytes a read of `[begin, begin + length)` fetches: none when the
/// window covers it, else those past the end of the cut-down window.
pub open spec fn missing(head: nat, data: Seq<u8>, begin: nat, length: nat) -> nat {
    if covers(head, data.len(), begin, length) {
        0
    } else {
        let (h, d) = kept(head, data, begin);
        (begin + length - (h + d.len())) as nat
    }
}

/// The window after a read of `[begin, begin + length)` that fetched `fetched`.
pub open spec fn after_read(head: nat, data: Seq<u8>, begin: nat, length: nat, fetched: Seq<u8>) -> (nat, Seq<u8>) {
    if covers(head, data.len(), begin, length) {
        (head, data)
    } else {
        let (h, d) = kept(head, data, begin);
        (h, d + fetched)
    }
}

/// The number of bytes of `[begin, begin + length)` outside `[head, head + len)`.
pub open spec fn gap(head: nat, len: nat, begin: nat, length: nat) -> nat {
    let lo = if begin > head { begin } else { head };
    let hi = if begin + length < head + len { begin + length } else { head + len };
    if lo < hi {
        (length - (hi - lo)) as nat
    } else {
        length
    }
}

/// A read that fetches what it misses is covered by the window afterwards, so
/// asking for the same bytes again fetches nothing.
pub proof fn lemma_reread_fetches_nothing(head: nat, data: Seq<u8>, begin: nat, length: nat, fetched: Seq<u8>)
    requires
        fetched.len() == missing(head, data, begin, length),
    ensures
        ({
            let (h, d) = after_read(head, data, begin, length, fetched);
            covers(h, d.len(), begin, length) && missing(h, d, begin, length) == 0
        }),
{
}

/// A read fetches no byte that the window already holds, unless it starts
/// before the window and ends inside it (then the window is dropped and the
/// whole range fetched).
pub proof fn lemma_fetch_is_gap(head: nat, data: Seq<u8>, begin: nat, length: nat)
    requires
        begin >= head || begin + length <= head || data.len() == 0,
    ensures
        missing(head, data, begin, length) == gap(head, data.len(), begin, length),
{
}

/// A window of a remote resource, and a count of all bytes ever asked of the
/// transport.
pub struct RangeBuffer {
    buf: bytes::BytesMut,
    head: usize,
    bytes_ever_requested: u64,
}

impl RangeBuffer {
    /// Offset in the resource of the first byte held.
    pub closed spec fn spec_head(&self) -> nat {
        self.head as nat
    }

    /// The bytes held.
    pub closed spec fn spec_data(&self) -> Seq<u8> {
        bytes_mut_view(self.buf)
    }

    pub closed spec fn spec_requested(&self) -> nat {
        self.bytes_ever_requested as nat
    }

    /// The window's end has an offset.
    pub open spec fn wf(&self) -> bool {
        self.spec_head() + self.spec_data().len() <= usize::MAX
    }

    pub fn new() -> (r: RangeBuffer)
        ensures
            r.wf(),
            r.spec_head() == 0,
            r.spec_data() == Seq::<u8>::empty(),
            r.spec_requested() == 0,
    {
        RangeBuffer { buf: bytes::BytesMut::new(), head: 0, bytes_ever_requested: 0 }
    }

    pub fn head(&self) -> (r: usize)
        ensures
            r == self.spec_head(),
    {
        self.head
    }

    pub fn len(&self) -> (r: usize)
        ensures
            r == self.spec_data().len(),
    {
        self.buf.len()
    }

    /// All bytes ever asked of the transport (saturating at `u64::MAX`).
    pub fn bytes_ever_requested(&self) -> (r: u64)
        ensures
            r == self.spec_requested(),
    {
        self.bytes_ever_requested
    }

    fn count_requested(&mut self, n: usize)
        ensures
            final(self).spec_head() == old(self).spec_head(),
            final(self).spec_data() == old(self).spec_data(),
            final(self).spec_requested() == saturated(old(self).spec_requested(), n as nat),
    {
        let n = n as u64;
        if u64::MAX - self.bytes_ever_requested < n {
            self.bytes_ever_requested = u64::MAX;
        } else {
            self.bytes_ever_requested = self.bytes_ever_requested + n;
        }
    }

    /// Whether the window holds `[begin, begin + length)`.
    pub fn covers(&self, begin: usize, length: usize) -> (r: bool)
        requires
            self.wf(),
        ensures
            r == covers(self.spec_head(), self.spec_data().len(), begin as nat, length as nat),
    {
        begin >= self.head && length <= self.buf.len() && begin - self.head <= self.buf.len() - length
    }

    /// Prepares a read of `[begin, begin + length)`: cuts the window down as
    /// described above and returns the `(offset, length)` range to fetch, or
    /// `None` when nothing is missing. The range's length is added to the count
    /// of bytes requested. The fetched bytes are then handed to `append`.
    pub fn prepare(&mut self, begin: usize, length: usize) -> (r: Option<(usize, usize)>)
        requires
            old(self).wf(),
            begin + length <= usize::MAX,
        ensures
            final(self).wf(),
            ({
                let (h, d) = if covers(old(self).spec_head(), old(self).spec_data().len(), begin as nat, length as nat) {
                    (old(self).spec_head(), old(self).spec_data())
                } else {
                    kept(old(self).spec_head(), old(self).spec_data(), begin as nat)
                };
                &&& final(self).spec_head() == h
                &&& final(self).spec_data() == d
            }),
            ({
                let m = missing(old(self).spec_head(), old(self).spec_data(), begin as nat, length as nat);
                &&& r == if m == 0 { None } else { Some(((final(self).spec_head() + final(self).spec_data().len()) as usize, m as usize)) }
                &&& final(self).spec_requested() == saturated(old(self).spec_requested(), m as nat)
            }),
    {
        if self.covers(begin, length) {
            return None;
        }
        let len = self.buf.len();
        if self.head <= begin && begin - self.head < len {
            let _ = self.buf.split_to(begin - self.head);
        } else {
            self.buf.clear();
        }
        self.head = begin;
        let tail = self.head + self.buf.len();
        let m = begin + length - tail;
        self.count_requested(m);
        if m == 0 {
            None
        } else {
            Some((tail, m))
        }
    }

    /// Appends fetched bytes at the end of the window.
    pub fn append(&mut self, fetched: &[u8])
        requires
            old(self).wf(),
            old(self).spec_head() + old(self).spec_data().len() + fetched@.len() <= usize::MAX,
        ensures
            final(self).wf(),
            final(self).spec_head() == old(self).spec_head(),
            final(self).spec_data() == old(self).spec_data() + fetched@,
            final(self).spec_requested() == old(self).spec_requested(),
    {
        self.buf.extend_from_slice(fetched);
    }

    /// The bytes `[begin, begin + length)` of the resource, from the window.
    pub fn slice(&self, begin: usize, length: usize) -> (r: &[u8])
        requires
            self.wf(),
            covers(self.spec_head(), self.spec_data().len(), begin as nat, length as nat),
        ensures
            r@ == self.spec_data().subrange(begin - self.spec_head(), begin + length - self.spec_head()),
    {
        let all = held(&self.buf);
        slice_subrange(all, begin - self.head, begin + length - self.head)
    }

    /// Starts a read of several ranges in one request: empties the window, moves
    /// it to offset 0 and adds the ranges' total length to the count of bytes
    /// requested. The answer is then handed to `append`, and the window holds
    /// it as it came.
    pub fn start_batch(&mut self, ranges: &[(usize, usize)])
        requires
            old(self).wf(),
        ensures
            final(self).wf(),
            final(self).spec_head() == 0,
            final(self).spec_data() == Seq::<u8>::empty(),
            final(self).spec_requested() == saturated(old(self).spec_requested(), total_length(ranges@)),
    {
        self.buf.clear();
        self.head = 0;
        let mut i: usize = 0;
        let ghost start = self.spec_requested();
        while i < ranges.len()
            invariant
                i <= ranges@.len(),
                self.spec_head() == 0,
                self.spec_data() == Seq::<u8>::empty(),
                self.spec_requested() == saturated(start, total_length(ranges@.subrange(0, i as int))),
            decreases ranges@.len() - i,
        {
            assert(ranges@.subrange(0, i + 1).drop_last() =~= ranges@.subrange(0, i as int));
            self.count_requested(ranges[i].1);
            i = i + 1;
        }
        assert(ranges@.subrange(0, i as int) =~= ranges@);
    }

    /// Everything the window holds.
    pub fn contents(&self) -> (r: &[u8])
        ensures
            r@ == self.spec_data(),
    {
        held(&self.buf)
    }
}

/// `a + b`, saturating at `u64::MAX`.
pub open spec fn saturated(a: nat, b: nat) -> nat {
    if a + b <= u64::MAX {
        a + b
    } else {
        u64::MAX as nat
    }
}

/// The sum of the ranges' lengths.
pub open spec fn total_length(rs: Seq<(usize, usize)>) -> nat
    decreases rs.len(),
{
    if rs.len() == 0 {
        0
    } else {
        (total_length(rs.drop_last()) + rs.last().1) as nat
    }
}

} // verus!
