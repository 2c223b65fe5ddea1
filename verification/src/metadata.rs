//! Cache entry metadata and the capacity estimate for its serialized form.

use vstd::prelude::*;

use crate::arith::clamp_usize;
use crate::arith::sat_add;

verus! {

/// Metadata stored in a cache entry file's trailer: the source URL, the
/// response headers in order, and an optional fetch time. All text is held
/// as plain bytes; turning these fields into and out of their serialized
/// form is the caller's business.
#[derive(Debug, Clone, PartialEq, Eq)]
pub struct SerializedCachedUrlMetadata {
    pub headers: Vec<(Vec<u8>, Vec<u8>)>,
    pub url: Vec<u8>,
    pub time: Option<u64>,
}

/// Size allowance for one serialized header pair: its name, its value, and
/// six bytes of punctuation around them.
pub open spec fn spec_header_estimate(header: (Vec<u8>, Vec<u8>)) -> int {
    header.0@.len() + header.1@.len() + 6int
}

/// Sum of the size allowances of a sequence of header pairs.
pub open spec fn spec_headers_estimate(headers: Seq<(Vec<u8>, Vec<u8>)>) -> int
    decreases headers.len(),
{
    if headers.len() == 0 {
        0
    } else {
        spec_header_estimate(headers[0]) + spec_headers_estimate(headers.skip(1))
    }
}

pub proof fn lemma_headers_estimate_nonneg(headers: Seq<(Vec<u8>, Vec<u8>)>)
    ensures
        spec_headers_estimate(headers) >= 0,
    decreases headers.len(),
{
    if headers.len() > 0 {
        lemma_headers_estimate_nonneg(headers.skip(1));
    }
}

pub proof fn lemma_headers_estimate_push(headers: Seq<(Vec<u8>, Vec<u8>)>, h: (Vec<u8>, Vec<u8>))
    ensures
        spec_headers_estimate(headers.push(h)) == spec_headers_estimate(headers)
            + spec_header_estimate(h),
    decreases headers.len(),
{
    if headers.len() == 0 {
        assert(headers.push(h)[0] == h);
        assert(headers.push(h).skip(1) =~= Seq::<(Vec<u8>, Vec<u8>)>::empty());
        assert(spec_headers_estimate(Seq::<(Vec<u8>, Vec<u8>)>::empty()) == 0);
        assert(spec_headers_estimate(headers.push(h)) == spec_header_estimate(h));
    } else {
        assert(headers.push(h).skip(1) =~= headers.skip(1).push(h));
        lemma_headers_estimate_push(headers.skip(1), h);
        assert(headers.push(h)[0] == headers[0]);
        assert(spec_headers_estimate(headers.push(h)) == spec_header_estimate(headers[0])
            + spec_headers_estimate(headers.skip(1).push(h)));
    }
}

impl SerializedCachedUrlMetadata {
    /// Conservative overestimate of the serialized metadata size: the header
    /// allowances, the URL bytes, a fixed allowance for the optional time
    /// field, and a fixed general allowance for the rest.
    pub open spec fn spec_estimate(self) -> int {
        spec_headers_estimate(self.headers@) + self.url@.len() + (if self.time is Some {
            14int
        } else {
            0int
        }) + 128
    }
}

/// The buffer capacity to set aside for the serialized metadata, clamped to
/// what a `usize` can hold.
pub fn estimate_metadata_capacity(metadata: &SerializedCachedUrlMetadata) -> (r: usize)
    ensures
        r == clamp_usize(metadata.spec_estimate()),
{
    let ghost fixed: int = metadata.url@.len() + (if metadata.time is Some {
        14int
    } else {
        0int
    }) + 128;
    let mut acc: usize = 128;
    if metadata.time.is_some() {
        acc = sat_add(acc, 14);
    }
    acc = sat_add(acc, metadata.url.len());
    let mut idx: usize = 0;
    while idx < metadata.headers.len()
        invariant
            idx <= metadata.headers@.len(),
            acc == clamp_usize(fixed + spec_headers_estimate(metadata.headers@.take(idx as int))),
        decreases metadata.headers@.len() - idx,
    {
        let name_len = metadata.headers[idx].0.len();
        let value_len = metadata.headers[idx].1.len();
        acc = sat_add(acc, sat_add(sat_add(name_len, value_len), 6));
        idx = idx + 1;
        proof {
            let hs = metadata.headers@;
            assert(hs.take(idx as int) =~= hs.take(idx - 1).push(hs[idx - 1]));
            lemma_headers_estimate_push(hs.take(idx - 1), hs[idx - 1]);
            lemma_headers_estimate_nonneg(hs.take(idx - 1));
        }
    }
    proof {
        assert(metadata.headers@.take(metadata.headers@.len() as int) =~= metadata.headers@);
    }
    acc
}

} // verus!
