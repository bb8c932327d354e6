//! The compute side of IP resolution: status classification, incremental
//! body collection under a byte cap, and turning the collected body into an
//! address.
//!
//! The HTTP transport itself is a collaborator: a driver performs the
//! request and feeds the status code and the body chunks in here.

use vstd::prelude::*;
use vstd::slice::slice_subrange;

use crate::ip::IpAddress;
use crate::ip::parse_ip;
use crate::ip::spec_parse_ip;

verus! {

/// Why an IP resolution attempt failed.
#[derive(Debug)]
pub enum ResolutionError {
    /// The HTTP transport failed before a response was available.
    Transport {
        /// A human-readable description of the transport failure.
        detail: String,
    },
    /// The server answered with a non-success status code.
    ErrorStatus {
        /// The status code the server answered with.
        status: u16,
    },
    /// The response body exceeded the configured maximum size.
    BodyTooLarge {
        /// The configured maximum body size.
        limit: usize,
    },
    /// The trimmed response body is not a textual IPv4 or IPv6 address.
    AddressSyntax,
}

/// Whether an HTTP status code is a success status (`2xx`).
pub open spec fn spec_status_is_success(status: u16) -> bool {
    200 <= status && status <= 299
}

/// Classify the response status: a non-success status fails resolution
/// outright, whatever the body holds.
pub fn check_status(status: u16) -> (r: Result<(), ResolutionError>)
    ensures
        spec_status_is_success(status) ==> r is Ok,
        !spec_status_is_success(status) ==> (r matches Err(e) && e == (ResolutionError::ErrorStatus {
            status,
        })),
{
    if 200 <= status && status <= 299 {
        Ok(())
    } else {
        Err(ResolutionError::ErrorStatus { status })
    }
}

#[verifier::external_type_specification]
#[verifier::external_body]
pub struct ExBytesMut(bytes::BytesMut);

/// The bytes a `bytes::BytesMut` buffer holds, in order.
pub uninterp spec fn bytes_mut_contents(b: bytes::BytesMut) -> Seq<u8>;

/// Relies on `bytes::BytesMut::with_capacity`: the returned buffer holds no
/// bytes (the argument only sizes the allocation).
#[verifier::external_body]
fn bytes_mut_with_capacity(capacity: usize) -> (r: bytes::BytesMut)
    ensures
        bytes_mut_contents(r) == Seq::<u8>::empty(),
{
    bytes::BytesMut::with_capacity(capacity)
}

/// Relies on `bytes::BytesMut::len`: the number of bytes the buffer holds.
#[verifier::external_body]
fn bytes_mut_len(b: &bytes::BytesMut) -> (r: usize)
    ensures
        r == bytes_mut_contents(*b).len(),
{
    b.len()
}

/// Relies on `bytes::BytesMut::extend_from_slice`: appends the given bytes
/// to the buffer.
#[verifier::external_body]
fn bytes_mut_extend(b: &mut bytes::BytesMut, chunk: &[u8])
    ensures
        bytes_mut_contents(*final(b)) == bytes_mut_contents(*old(b)) + chunk@,
{
    b.extend_from_slice(chunk)
}

/// Relies on `bytes::BytesMut`'s `AsRef<[u8]>` impl: a view of the bytes the
/// buffer holds.
#[verifier::external_body]
fn bytes_mut_as_slice(b: &bytes::BytesMut) -> (r: &[u8])
    ensures
        r@ == bytes_mut_contents(*b),
{
    b.as_ref()
}

/// Collects a response body chunk by chunk, enforcing a cumulative byte cap
/// so that an oversized body fails before unbounded memory is allocated.
pub struct BodyCollector {
    buf: bytes::BytesMut,
    max: Option<usize>,
}

impl BodyCollector {
    /// The bytes collected so far, in arrival order.
    pub closed spec fn collected(self) -> Seq<u8> {
        bytes_mut_contents(self.buf)
    }

    /// The configured cap; `None` means unlimited.
    pub closed spec fn limit(self) -> Option<usize> {
        self.max
    }

    /// The collector never holds more bytes than its cap allows.
    pub open spec fn wf(self) -> bool {
        self.limit() matches Some(m) ==> self.collected().len() <= m
    }

    /// An empty collector with the given cap (`None` for unlimited).
    pub fn new(max_body_size: Option<usize>) -> (r: Self)
        ensures
            r.collected() == Seq::<u8>::empty(),
            r.limit() == max_body_size,
            r.wf(),
    {
        BodyCollector { buf: bytes_mut_with_capacity(64), max: max_body_size }
    }

    /// Append one body chunk. If the chunk would push the total over the
    /// cap, nothing is appended and collection fails: the caller must stop
    /// reading, so no more than the cap plus one chunk is ever read.
    pub fn push_chunk(&mut self, chunk: &[u8]) -> (r: Result<(), ResolutionError>)
        requires
            old(self).wf(),
        ensures
            final(self).wf(),
            final(self).limit() == old(self).limit(),
            match r {
                Ok(()) => {
                    &&& final(self).collected() == old(self).collected() + chunk@
                    &&& (old(self).limit() matches Some(m) ==> old(self).collected().len()
                        + chunk@.len() <= m)
                },
                Err(e) => {
                    &&& final(self).collected() == old(self).collected()
                    &&& e matches ResolutionError::BodyTooLarge { limit }
                    &&& old(self).limit() == Some(limit)
                    &&& old(self).collected().len() + chunk@.len() > limit
                },
            },
    {
        match self.max {
            Some(m) => {
                let len = bytes_mut_len(&self.buf);
                if chunk.len() > m - len {
                    Err(ResolutionError::BodyTooLarge { limit: m })
                } else {
                    bytes_mut_extend(&mut self.buf, chunk);
                    Ok(())
                }
            },
            None => {
                bytes_mut_extend(&mut self.buf, chunk);
                Ok(())
            },
        }
    }

    /// Turn the collected body into an address: trim surrounding whitespace,
    /// then parse.
    pub fn address(&self) -> (r: Result<IpAddress, ResolutionError>)
        ensures
            match spec_parse_ip(spec_trim(self.collected())) {
                Some(ip) => r == Ok::<IpAddress, ResolutionError>(ip),
                None => r matches Err(e) && e is AddressSyntax,
            },
    {
        parse_body(bytes_mut_as_slice(&self.buf))
    }
}

/// ASCII whitespace, as trimmed from around the response body.
pub open spec fn is_ws(b: u8) -> bool {
    b == 9 || b == 10 || b == 11 || b == 12 || b == 13 || b == 32
}

/// `s` without its leading whitespace.
pub open spec fn spec_trim_front(s: Seq<u8>) -> Seq<u8>
    decreases s.len(),
{
    if s.len() == 0 {
        s
    } else if is_ws(s[0]) {
        spec_trim_front(s.skip(1))
    } else {
        s
    }
}

/// `s` without its trailing whitespace.
pub open spec fn spec_trim_back(s: Seq<u8>) -> Seq<u8>
    decreases s.len(),
{
    if s.len() == 0 {
        s
    } else if is_ws(s.last()) {
        spec_trim_back(s.drop_last())
    } else {
        s
    }
}

/// `s` without its surrounding whitespace.
pub open spec fn spec_trim(s: Seq<u8>) -> Seq<u8> {
    spec_trim_back(spec_trim_front(s))
}

/// Whether a byte is ASCII whitespace.
fn is_ws_byte(b: u8) -> (r: bool)
    ensures
        r == is_ws(b),
{
    b == 9 || b == 10 || b == 11 || b == 12 || b == 13 || b == 32
}

/// `s` without its surrounding whitespace.
fn trim(s: &[u8]) -> (r: &[u8])
    ensures
        r@ == spec_trim(s@),
{
    let mut start: usize = 0;
    proof {
        assert(s@.skip(0) =~= s@);
    }
    while start < s.len() && is_ws_byte(s[start])
        invariant
            0 <= start <= s@.len(),
            spec_trim_front(s@) == spec_trim_front(s@.skip(start as int)),
        decreases s@.len() - start,
    {
        proof {
            assert(s@.skip(start as int).skip(1) =~= s@.skip(start as int + 1));
        }
        start += 1;
    }
    proof {
        if start < s@.len() {
            assert(spec_trim_front(s@.skip(start as int)) == s@.skip(start as int));
        } else {
            assert(s@.skip(start as int).len() == 0);
        }
    }
    let mut end: usize = s.len();
    proof {
        assert(s@.subrange(start as int, s@.len() as int) =~= s@.skip(start as int));
    }
    while end > start && is_ws_byte(s[end - 1])
        invariant
            start <= end <= s@.len(),
            spec_trim_front(s@) == s@.skip(start as int),
            spec_trim_back(s@.skip(start as int)) == spec_trim_back(
                s@.subrange(start as int, end as int),
            ),
        decreases end,
    {
        proof {
            assert(s@.subrange(start as int, end as int).drop_last() =~= s@.subrange(
                start as int,
                end as int - 1,
            ));
            assert(s@.subrange(start as int, end as int).last() == s@[end - 1]);
        }
        end -= 1;
    }
    proof {
        let t = s@.subrange(start as int, end as int);
        if end > start {
            assert(!is_ws(t.last()));
            assert(spec_trim_back(t) == t);
        } else {
            assert(t.len() == 0);
        }
    }
    slice_subrange(s, start, end)
}

/// Turn a fully collected response body into an address: the body, trimmed
/// of surrounding whitespace, must be a textual IPv4 or IPv6 address.
pub fn parse_body(body: &[u8]) -> (r: Result<IpAddress, ResolutionError>)
    ensures
        match spec_parse_ip(spec_trim(body@)) {
            Some(ip) => r == Ok::<IpAddress, ResolutionError>(ip),
            None => r matches Err(e) && e is AddressSyntax,
        },
{
    let trimmed = trim(body);
    match parse_ip(trimmed) {
        Some(ip) => Ok(ip),
        None => Err(ResolutionError::AddressSyntax),
    }
}

} // verus!
