//! The cache entry file format.
//!
//! A cache entry file is `content ++ marker ++ metadata`, where the marker is
//! a newline followed by a fixed ASCII tag. The marker's newline is the last
//! newline in the file: the metadata bytes that follow the marker never
//! contain a raw newline, so scanning from the end for a newline finds the
//! boundary no matter what bytes the content holds.

use vstd::prelude::*;

use crate::arith::sat_add;

verus! {

/// The trailer marker, `\n// denoCacheMetadata=`, as bytes.
pub open spec fn spec_last_line_prefix() -> Seq<u8> {
    seq![
        10u8, 47u8, 47u8, 32u8, 100u8, 101u8, 110u8, 111u8, 67u8, 97u8, 99u8, 104u8, 101u8, 77u8,
        101u8, 116u8, 97u8, 100u8, 97u8, 116u8, 97u8, 61u8,
    ]
}

/// Facts the proofs need about the marker: its length, its leading newline,
/// and that no later byte of it is a newline.
pub proof fn lemma_last_line_prefix_bytes()
    ensures
        spec_last_line_prefix().len() == 22,
        spec_last_line_prefix()[0] == 10u8,
        forall|u: int| 1 <= u < 22 ==> spec_last_line_prefix()[u] != 10u8,
{
    let p = spec_last_line_prefix();
    assert(p[0] == 10u8);
    assert(p[1] == 47u8);
    assert(p[2] == 47u8);
    assert(p[3] == 32u8);
    assert(p[4] == 100u8);
    assert(p[5] == 101u8);
    assert(p[6] == 110u8);
    assert(p[7] == 111u8);
    assert(p[8] == 67u8);
    assert(p[9] == 97u8);
    assert(p[10] == 99u8);
    assert(p[11] == 104u8);
    assert(p[12] == 101u8);
    assert(p[13] == 77u8);
    assert(p[14] == 101u8);
    assert(p[15] == 116u8);
    assert(p[16] == 97u8);
    assert(p[17] == 100u8);
    assert(p[18] == 97u8);
    assert(p[19] == 116u8);
    assert(p[20] == 97u8);
    assert(p[21] == 61u8);
}

/// The trailer marker as a byte vector.
pub fn last_line_prefix() -> (r: Vec<u8>)
    ensures
        r@ == spec_last_line_prefix(),
{
    let mut v: Vec<u8> = Vec::with_capacity(22);
    v.push(10u8);
    v.push(47u8);
    v.push(47u8);
    v.push(32u8);
    v.push(100u8);
    v.push(101u8);
    v.push(110u8);
    v.push(111u8);
    v.push(67u8);
    v.push(97u8);
    v.push(99u8);
    v.push(104u8);
    v.push(101u8);
    v.push(77u8);
    v.push(101u8);
    v.push(116u8);
    v.push(97u8);
    v.push(100u8);
    v.push(97u8);
    v.push(116u8);
    v.push(97u8);
    v.push(61u8);
    proof {
        assert(v@ =~= spec_last_line_prefix());
    }
    v
}

/// Index `j` holds the last newline byte of `s`.
pub open spec fn is_last_newline_at(s: Seq<u8>, j: int) -> bool {
    &&& 0 <= j < s.len()
    &&& s[j] == 10u8
    &&& forall|k: int| j < k < s.len() ==> s[k] != 10u8
}

/// The position of the last newline byte in `s`, if any.
pub open spec fn spec_find_last_newline(s: Seq<u8>) -> Option<int>
    decreases s.len(),
{
    if s.len() == 0 {
        None
    } else if s[s.len() - 1] == 10u8 {
        Some(s.len() - 1)
    } else {
        spec_find_last_newline(s.drop_last())
    }
}

/// `spec_find_last_newline` finds the last newline when one exists, and
/// reports `None` exactly when `s` has no newline at all.
pub proof fn lemma_find_last_newline(s: Seq<u8>)
    ensures
        match spec_find_last_newline(s) {
            Some(j) => is_last_newline_at(s, j),
            None => forall|k: int| 0 <= k < s.len() ==> s[k] != 10u8,
        },
    decreases s.len(),
{
    if s.len() == 0 {
    } else if s[s.len() - 1] == 10u8 {
    } else {
        lemma_find_last_newline(s.drop_last());
        assert(forall|k: int| 0 <= k < s.len() - 1 ==> s[k] == s.drop_last()[k]);
    }
}

/// There is only one last newline, so any index shown to be it is the one
/// `spec_find_last_newline` reports.
pub proof fn lemma_last_newline_unique(s: Seq<u8>, j: int)
    requires
        is_last_newline_at(s, j),
    ensures
        spec_find_last_newline(s) == Some(j),
{
    lemma_find_last_newline(s);
    match spec_find_last_newline(s) {
        Some(j2) => {
            if j < j2 {
                assert(s[j2] != 10u8);
            } else if j2 < j {
                assert(s[j] != 10u8);
            }
        },
        None => {
            assert(s[j] != 10u8);
        },
    }
}

/// Where a cache entry file splits: everything before the last newline is
/// content; the bytes from that newline on must begin with the marker, and
/// what follows the marker is the metadata payload. A file with no newline,
/// or whose last line does not begin with the marker, has no cache entry.
pub open spec fn spec_split(s: Seq<u8>) -> Option<(Seq<u8>, Seq<u8>)> {
    match spec_find_last_newline(s) {
        None => None,
        Some(j) => if spec_last_line_prefix().is_prefix_of(s.skip(j)) {
            Some((s.take(j), s.skip(j + spec_last_line_prefix().len())))
        } else {
            None
        },
    }
}

/// Split a cache entry file into its content bytes and its metadata bytes,
/// or report that the file holds no cache entry.
pub fn split_content_metadata(file_bytes: &[u8]) -> (r: Option<(&[u8], &[u8])>)
    ensures
        match r {
            Some(parts) => spec_split(file_bytes@) == Some((parts.0@, parts.1@)),
            None => spec_split(file_bytes@) is None,
        },
{
    let n: usize = file_bytes.len();
    let mut i: usize = n;
    loop
        invariant_except_break
            i <= n,
            n == file_bytes@.len(),
            forall|k: int| i <= k < n ==> file_bytes@[k] != 10u8,
        ensures
            is_last_newline_at(file_bytes@, i as int),
        decreases i,
    {
        if i == 0 {
            proof {
                lemma_find_last_newline(file_bytes@);
                if let Some(j) = spec_find_last_newline(file_bytes@) {
                    assert(file_bytes@[j] != 10u8);
                }
            }
            return None;
        }
        i = i - 1;
        if *vstd::slice::slice_index_get(file_bytes, i) == 10u8 {
            break;
        }
    }
    proof {
        lemma_last_newline_unique(file_bytes@, i as int);
        lemma_last_line_prefix_bytes();
    }
    let prefix = last_line_prefix();
    if n - i < prefix.len() {
        proof {
            assert(file_bytes@.skip(i as int).len() < spec_last_line_prefix().len());
        }
        return None;
    }
    let mut t: usize = 0;
    while t < prefix.len()
        invariant
            t <= 22,
            prefix@ == spec_last_line_prefix(),
            n == file_bytes@.len(),
            i + 22 <= n,
            spec_find_last_newline(file_bytes@) == Some(i as int),
            forall|u: int| 0 <= u < t ==> file_bytes@[i + u] == spec_last_line_prefix()[u],
        decreases 22 - t,
    {
        if *vstd::slice::slice_index_get(file_bytes, i + t) != prefix[t] {
            proof {
                lemma_last_line_prefix_bytes();
                let trailing = file_bytes@.skip(i as int);
                assert(trailing[t as int] == file_bytes@[i + t]);
                if spec_last_line_prefix().is_prefix_of(trailing) {
                    assert(spec_last_line_prefix() =~= trailing.subrange(0, 22));
                    assert(spec_last_line_prefix()[t as int] == trailing[t as int]);
                    assert(false);
                }
            }
            return None;
        }
        t = t + 1;
    }
    proof {
        let trailing = file_bytes@.skip(i as int);
        assert(spec_last_line_prefix() =~= trailing.subrange(0, 22));
    }
    let content = vstd::slice::slice_subrange(file_bytes, 0, i);
    let metadata = vstd::slice::slice_subrange(file_bytes, i + 22, n);
    proof {
        assert(content@ =~= file_bytes@.take(i as int));
        assert(metadata@ =~= file_bytes@.skip(i as int + 22));
    }
    Some((content, metadata))
}

/// The bytes of a cache entry file holding `content` and the serialized
/// metadata `metadata_json`: the content, then the marker, then the payload.
pub open spec fn spec_cache_file(content: Seq<u8>, metadata_json: Seq<u8>) -> Seq<u8> {
    content + spec_last_line_prefix() + metadata_json
}

fn push_bytes(dst: &mut Vec<u8>, src: &[u8])
    ensures
        final(dst)@ == old(dst)@ + src@,
{
    let mut k: usize = 0;
    while k < src.len()
        invariant
            k <= src@.len(),
            dst@ == old(dst)@ + src@.take(k as int),
        decreases src@.len() - k,
    {
        dst.push(*vstd::slice::slice_index_get(src, k));
        k = k + 1;
        proof {
            assert(src@.take(k as int) =~= src@.take(k - 1).push(src@[k - 1]));
            assert(dst@ =~= old(dst)@ + src@.take(k as int));
        }
    }
    proof {
        assert(src@.take(src@.len() as int) =~= src@);
    }
}

/// Assemble a cache entry file from its content and its serialized metadata.
/// `metadata_capacity` is the buffer space to set aside for the metadata, a
/// hint that does not affect the bytes produced.
pub fn serialize_cache_file(content: &[u8], metadata_json: &[u8], metadata_capacity: usize) -> (r:
    Vec<u8>)
    ensures
        r@ == spec_cache_file(content@, metadata_json@),
{
    let capacity = sat_add(sat_add(content.len(), 22), metadata_capacity);
    let mut result: Vec<u8> = Vec::with_capacity(capacity);
    push_bytes(&mut result, content);
    let prefix = last_line_prefix();
    push_bytes(&mut result, prefix.as_slice());
    push_bytes(&mut result, metadata_json);
    proof {
        assert(result@ =~= spec_cache_file(content@, metadata_json@));
    }
    result
}

/// The read-path decision on the outcome of reading a cache file: a missing
/// file and a file that does not split both mean "no cache entry". On a
/// split, the buffer is truncated in place to the content and the metadata
/// bytes are handed back beside it.
pub fn read_cache_entry(file_bytes: Option<Vec<u8>>) -> (r: Option<(Vec<u8>, Vec<u8>)>)
    ensures
        match file_bytes {
            None => r is None,
            Some(bytes) => match spec_split(bytes@) {
                None => r is None,
                Some(parts) => r matches Some(entry) && entry.0@ == parts.0 && entry.1@ == parts.1,
            },
        },
{
    if file_bytes.is_none() {
        return None;
    }
    let bytes = file_bytes.unwrap();
    let content_len: usize;
    let metadata: Vec<u8>;
    match split_content_metadata(bytes.as_slice()) {
        None => {
            return None;
        },
        Some(parts) => {
            content_len = parts.0.len();
            metadata = vstd::slice::slice_to_vec(parts.1);
        },
    }
    proof {
        lemma_find_last_newline(bytes@);
    }
    let mut content = bytes;
    content.truncate(content_len);
    Some((content, metadata))
}

/// Round trip: however the content bytes look, a file assembled from content
/// and a metadata payload that holds no raw newline splits back into exactly
/// that content and that payload.
pub proof fn lemma_cache_file_round_trip(content: Seq<u8>, metadata_json: Seq<u8>)
    requires
        !metadata_json.contains(10u8),
    ensures
        spec_split(spec_cache_file(content, metadata_json)) == Some((content, metadata_json)),
{
    lemma_last_line_prefix_bytes();
    let s = spec_cache_file(content, metadata_json);
    let j = content.len() as int;
    assert(s[j] == spec_last_line_prefix()[0]);
    assert forall|k: int| j < k < s.len() implies s[k] != 10u8 by {
        if k < j + 22 {
            assert(s[k] == spec_last_line_prefix()[k - j]);
        } else {
            assert(s[k] == metadata_json[k - j - 22]);
            assert(metadata_json.contains(metadata_json[k - j - 22]));
        }
    }
    lemma_last_newline_unique(s, j);
    let trailing = s.skip(j);
    assert(spec_last_line_prefix() =~= trailing.subrange(0, 22));
    assert(s.take(j) =~= content);
    assert(s.skip(j + 22) =~= metadata_json);
}

/// A file with no newline holds no cache entry.
pub proof fn lemma_no_newline_no_entry(s: Seq<u8>)
    requires
        forall|k: int| 0 <= k < s.len() ==> s[k] != 10u8,
    ensures
        spec_split(s) is None,
{
    lemma_find_last_newline(s);
    if let Some(j) = spec_find_last_newline(s) {
        assert(s[j] != 10u8);
    }
}

/// A file whose last line does not begin with the marker holds no cache
/// entry.
pub proof fn lemma_bad_trailer_no_entry(s: Seq<u8>, j: int)
    requires
        is_last_newline_at(s, j),
        !spec_last_line_prefix().is_prefix_of(s.skip(j)),
    ensures
        spec_split(s) is None,
{
    lemma_last_newline_unique(s, j);
}

/// Idempotence: two files assembled from the same content and the same
/// metadata payload are byte-identical, so reading either gives the same
/// result.
pub proof fn lemma_write_idempotent(
    content: Seq<u8>,
    metadata_json: Seq<u8>,
    file1: Seq<u8>,
    file2: Seq<u8>,
)
    requires
        file1 == spec_cache_file(content, metadata_json),
        file2 == spec_cache_file(content, metadata_json),
    ensures
        file1 == file2,
        spec_split(file1) == spec_split(file2),
{
}

/// A file that is nothing but a trailer still yields its metadata: the
/// content half of the split is empty.
pub proof fn lemma_metadata_only_file(metadata_json: Seq<u8>)
    requires
        !metadata_json.contains(10u8),
    ensures
        spec_split(spec_cache_file(Seq::empty(), metadata_json)) == Some(
            (Seq::<u8>::empty(), metadata_json),
        ),
{
    lemma_cache_file_round_trip(Seq::empty(), metadata_json);
}

} // verus!

