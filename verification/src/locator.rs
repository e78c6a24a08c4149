//! Locating the end-of-central-directory record.
//!
//! The record may be followed by a comment of up to 65 535 bytes, so its
//! offset from the end of the archive is unknown.  The locator scans
//! backwards in buffered chunks, reverse-searching each chunk for the EOCDR
//! signature and carrying a partial match at a chunk's left edge over to the
//! next (earlier) chunk, where it is confirmed against that chunk's tail.

use vstd::prelude::*;

use vstd::slice::{slice_index_get, slice_subrange};

use crate::error::ZipError;
use crate::header::{sig_bytes, EOCDR_SIGNATURE};

verus! {

/// The chunk size used when scanning backwards for the EOCDR.
pub const BUFFER_SIZE: usize = 2048;

/// A match found by [`reverse_search_buffer`].  `match_index` is the index of
/// the last matched byte; a partial match means the buffer's prefix up to
/// `match_index` equals a proper suffix of the signature, so the match could
/// continue into bytes before the buffer.
#[derive(Clone, Copy, Debug, PartialEq, Eq, Structural)]
pub struct SignatureMatch {
    pub full_match: bool,
    pub match_index: usize,
}

/// The signature occurs in full inside the buffer, with its last byte at
/// index `i`.
pub open spec fn full_match_at(buffer: Seq<u8>, signature: Seq<u8>, i: int) -> bool {
    &&& signature.len() <= i + 1 <= buffer.len()
    &&& buffer.subrange(i + 1 - signature.len(), i + 1) == signature
}

/// The buffer's prefix ending at index `i` equals the signature's suffix of
/// the same length, a proper one: the match runs off the buffer's start.
pub open spec fn partial_match_at(buffer: Seq<u8>, signature: Seq<u8>, i: int) -> bool {
    &&& 0 <= i < buffer.len()
    &&& i + 1 < signature.len()
    &&& buffer.subrange(0, i + 1) == signature.subrange(signature.len() - 1 - i, signature.len() as int)
}

/// A full or partial match with its last byte at index `i`.
pub open spec fn match_at(buffer: Seq<u8>, signature: Seq<u8>, i: int) -> bool {
    full_match_at(buffer, signature, i) || partial_match_at(buffer, signature, i)
}

/// A naive reverse linear search along the buffer for the signature bytes.
///
/// Returns the rightmost full or partial match, or `None` when no index
/// matches at all.
pub fn reverse_search_buffer(buffer: &[u8], signature: &[u8]) -> (r: Option<SignatureMatch>)
    requires
        signature@.len() >= 1,
    ensures
        match r {
            Some(m) => {
                &&& match_at(buffer@, signature@, m.match_index as int)
                &&& m.full_match == full_match_at(buffer@, signature@, m.match_index as int)
                &&& m.match_index < buffer@.len()
                &&& forall|j: int| m.match_index < j < buffer@.len() ==> !match_at(buffer@, signature@, j)
            },
            None => forall|j: int| 0 <= j < buffer@.len() ==> !match_at(buffer@, signature@, j),
        },
{
    let blen: usize = buffer.len();
    let slen: usize = signature.len();
    let mut i: usize = blen;
    while i > 0
        invariant
            i <= blen,
            slen >= 1,
            blen == buffer@.len(),
            slen == signature@.len(),
            forall|j: int| i <= j < blen ==> !match_at(buffer@, signature@, j),
        decreases i,
    {
        i = i - 1;
        let mut t: usize = 0;
        let mut mismatched = false;
        while t < slen && !mismatched
            invariant
                t <= slen,
                i < blen,
                slen >= 1,
                blen == buffer@.len(),
                slen == signature@.len(),
                forall|j: int| i + 1 <= j < blen ==> !match_at(buffer@, signature@, j),
                !mismatched ==> t <= i + 1,
                !mismatched ==> forall|s: int| 0 <= s < t ==> buffer@[i - s] == #[trigger] signature@[slen - 1 - s],
                mismatched ==> !match_at(buffer@, signature@, i as int),
            decreases slen - t + (if mismatched { 0int } else { 1int }),
        {
            if t > i {
                // The match ran off the buffer's start: report it as partial.
                proof {
                    assert(t == i + 1);
                    assert forall|k: int| 0 <= k < i + 1 implies #[trigger] buffer@.subrange(0, i + 1)[k] == signature@.subrange(
                        slen - 1 - i,
                        slen as int,
                    )[k] by {
                        let s = i - k;
                        assert(buffer@[i - s] == signature@[slen - 1 - s]);
                    }
                    assert(buffer@.subrange(0, i + 1) =~= signature@.subrange(slen - 1 - i, slen as int));
                    assert(partial_match_at(buffer@, signature@, i as int));
                }
                return Some(SignatureMatch { full_match: false, match_index: i });
            }
            if *slice_index_get(buffer, i - t) != *slice_index_get(signature, slen - 1 - t) {
                proof {
                    let bv = buffer@;
                    let sv = signature@;
                    if full_match_at(bv, sv, i as int) {
                        assert(bv.subrange(i + 1 - slen, i + 1)[slen - 1 - t] == bv[i - t]);
                        assert(false);
                    }
                    if partial_match_at(bv, sv, i as int) {
                        assert(bv.subrange(0, i + 1)[i - t] == bv[i - t]);
                        assert(sv.subrange(slen - 1 - i, slen as int)[i - t] == sv[slen - 1 - t]);
                        assert(false);
                    }
                }
                mismatched = true;
            } else {
                t = t + 1;
            }
        }
        if !mismatched {
            // Every signature byte matched: a full match ends at index `i`.
            proof {
                assert(slen <= i + 1);
                assert forall|k: int| 0 <= k < slen implies #[trigger] buffer@.subrange(i + 1 - slen, i + 1)[k]
                    == signature@[k] by {
                    let s = slen - 1 - k;
                    assert(buffer@[i - s] == signature@[slen - 1 - s]);
                }
                assert(buffer@.subrange(i + 1 - slen, i + 1) =~= signature@);
                assert(full_match_at(buffer@, signature@, i as int));
            }
            return Some(SignatureMatch { full_match: true, match_index: i });
        }
    }
    None
}

/// How far before the end of the data the EOCDR signature can start: the
/// 18-byte record body, the 4-byte signature, and a comment of at most
/// 65 535 bytes.
pub const EOCDR_SEARCH_SPAN: usize = 65557;

/// The EOCDR signature occurs with its first byte at `p`.
pub open spec fn occurs_at(data: Seq<u8>, p: int) -> bool {
    &&& 0 <= p
    &&& p + 4 <= data.len()
    &&& data.subrange(p, p + 4) == sig_bytes(EOCDR_SIGNATURE)
}

/// The lowest offset at which a located EOCDR signature may start.
pub open spec fn window_lo(len: int) -> int {
    if len >= 65557 {
        len - 65557
    } else {
        0
    }
}

/// Whether `p` is an offset at which an EOCDR signature could legally start:
/// late enough for the comment to fit in 16 bits, early enough for the record
/// body to follow.
pub open spec fn in_window(len: int, p: int) -> bool {
    window_lo(len) <= p <= len - 22
}

/// An occurrence wholly inside a chunk is a full match in the chunk, and the
/// other way round.
proof fn lemma_chunk_full_match(data: Seq<u8>, start: int, end: int, p: int)
    requires
        0 <= start <= end <= data.len(),
        start <= p,
        p + 4 <= end,
    ensures
        occurs_at(data, p) <==> full_match_at(
            data.subrange(start, end),
            sig_bytes(EOCDR_SIGNATURE),
            p - start + 3,
        ),
{
    crate::header::lemma_le32_roundtrip();
    let chunk = data.subrange(start, end);
    let sig = sig_bytes(EOCDR_SIGNATURE);
    assert(sig.len() == 4);
    assert(chunk.subrange(p - start, p - start + 4) =~= data.subrange(p, p + 4));
}

/// An occurrence that straddles a chunk's left edge shows up as a partial
/// match at that edge.
proof fn lemma_chunk_partial_match(data: Seq<u8>, start: int, end: int, p: int)
    requires
        0 <= start <= end <= data.len(),
        start - 3 <= p < start,
        0 <= p,
        p + 4 <= end,
        occurs_at(data, p),
    ensures
        partial_match_at(data.subrange(start, end), sig_bytes(EOCDR_SIGNATURE), p + 3 - start),
{
    crate::header::lemma_le32_roundtrip();
    let chunk = data.subrange(start, end);
    let sig = sig_bytes(EOCDR_SIGNATURE);
    let i = p + 3 - start;
    assert(sig.len() == 4);
    assert forall|k: int| 0 <= k < i + 1 implies #[trigger] chunk.subrange(0, i + 1)[k] == sig.subrange(
        4 - (i + 1),
        4,
    )[k] by {
        assert(chunk[k] == data[start + k]);
        assert(data.subrange(p, p + 4)[start + k - p] == data[start + k]);
    }
    assert(chunk.subrange(0, i + 1) =~= sig.subrange(4 - (i + 1), 4));
}

/// Two distinct partial matches cannot share one chunk: the signature's last
/// three bytes are pairwise distinct, and both matches would pin down the
/// chunk's first byte.
proof fn lemma_sig_single_partial(chunk: Seq<u8>, a: int, b: int)
    requires
        a < b,
    ensures
        !(partial_match_at(chunk, sig_bytes(EOCDR_SIGNATURE), a) && partial_match_at(
            chunk,
            sig_bytes(EOCDR_SIGNATURE),
            b,
        )),
{
    crate::header::lemma_le32_roundtrip();
    crate::header::lemma_eocdr_sig_bytes();
    let sig = sig_bytes(EOCDR_SIGNATURE);
    if partial_match_at(chunk, sig, a) && partial_match_at(chunk, sig, b) {
        assert(chunk.subrange(0, a + 1)[0] == chunk[0]);
        assert(sig.subrange(4 - (a + 1), 4)[0] == sig[3 - a]);
        assert(chunk.subrange(0, b + 1)[0] == chunk[0]);
        assert(sig.subrange(4 - (b + 1), 4)[0] == sig[3 - b]);
    }
}

/// With the carried suffix of the signature standing right after `end`, an
/// occurrence at `q` is exactly the matching prefix standing right before it.
proof fn lemma_carry_occurrence(data: Seq<u8>, end: int, m: int, q: int)
    requires
        q == end - 3 + m,
        0 <= m < 3,
        0 <= q,
        end + m + 1 <= data.len(),
        data.subrange(end, end + m + 1) == sig_bytes(EOCDR_SIGNATURE).subrange(3 - m, 4),
    ensures
        occurs_at(data, q) <==> data.subrange(q, end) == sig_bytes(EOCDR_SIGNATURE).subrange(0, 3 - m),
{
    crate::header::lemma_le32_roundtrip();
    let sig = sig_bytes(EOCDR_SIGNATURE);
    assert(sig.len() == 4);
    if occurs_at(data, q) {
        assert forall|k: int| 0 <= k < 3 - m implies #[trigger] data.subrange(q, end)[k] == sig.subrange(
            0,
            3 - m,
        )[k] by {
            assert(data.subrange(q, q + 4)[k] == data[q + k]);
        }
        assert(data.subrange(q, end) =~= sig.subrange(0, 3 - m));
    }
    if data.subrange(q, end) == sig.subrange(0, 3 - m) {
        assert forall|k: int| 0 <= k < 4 implies #[trigger] data.subrange(q, q + 4)[k] == sig[k] by {
            if k < 3 - m {
                assert(data.subrange(q, end)[k] == data[q + k]);
                assert(sig.subrange(0, 3 - m)[k] == sig[k]);
            } else {
                assert(data.subrange(end, end + m + 1)[k - (3 - m)] == data[q + k]);
                assert(sig.subrange(3 - m, 4)[k - (3 - m)] == sig[k]);
            }
        }
        assert(data.subrange(q, q + 4) =~= sig);
    }
}

/// Locates the end-of-central-directory signature, scanning backwards in
/// buffered chunks from the end of the data.
///
/// Returns the offset of the rightmost occurrence of the signature inside
/// the legal window, or `UnableToLocateEOCDR` when the window holds none.
#[verifier::rlimit(60)]
pub fn locate_eocdr(data: &[u8]) -> (r: Result<usize, ZipError>)
    ensures
        match r {
            Ok(off) => {
                &&& occurs_at(data@, off as int)
                &&& in_window(data@.len() as int, off as int)
                &&& forall|p: int|
                    off < p && in_window(data@.len() as int, p) ==> !occurs_at(data@, p)
            },
            Err(e) => {
                &&& e matches ZipError::UnableToLocateEOCDR
                &&& forall|p: int| in_window(data@.len() as int, p) ==> !occurs_at(data@, p)
            },
        },
{
    let len: usize = data.len();
    if len < 22 {
        return Err(ZipError::UnableToLocateEOCDR);
    }
    let signature: Vec<u8> = vec![0x50u8, 0x4bu8, 0x05u8, 0x06u8];
    proof {
        crate::header::lemma_eocdr_sig_bytes();
        assert(signature@ =~= sig_bytes(EOCDR_SIGNATURE));
    }
    let wlo: usize = if len >= EOCDR_SEARCH_SPAN {
        len - EOCDR_SEARCH_SPAN
    } else {
        0
    };
    let mut end: usize = len - 18;
    let mut carry: Option<usize> = None;
    loop
        invariant
            len == data@.len(),
            22 <= len,
            wlo == window_lo(len as int),
            wlo < end <= len - 18,
            signature@ == sig_bytes(EOCDR_SIGNATURE),
            forall|p: int| end <= p <= len - 22 ==> !occurs_at(data@, p),
            carry is None ==> forall|p: int|
                end - 3 <= p < end && wlo <= p && p <= len - 22 ==> !occurs_at(data@, p),
            match carry {
                Some(m) => {
                    &&& m < 3
                    &&& end + m + 1 <= len
                    &&& end + 2048 <= len - 18
                    &&& data@.subrange(end as int, end + m + 1) == sig_bytes(
                        EOCDR_SIGNATURE,
                    ).subrange(3 - m, 4)
                    &&& forall|p: int|
                        end - 3 <= p < end && wlo <= p && p != end - 3 + m ==> !occurs_at(data@, p)
                },
                None => true,
            },
        decreases end,
    {
        let start: usize = if end >= wlo + BUFFER_SIZE {
            end - BUFFER_SIZE
        } else {
            wlo
        };

        // Confirm a partial match carried over from the chunk scanned before:
        // the missing signature prefix must stand at this chunk's right edge.
        if let Some(m) = carry {
            let j: usize = 3 - m;
            if end - start >= j {
                let q: usize = end - j;
                let matched_prefix: bool = if j == 1 {
                    *slice_index_get(data, end - 1) == 0x50u8
                } else if j == 2 {
                    *slice_index_get(data, end - 2) == 0x50u8 && *slice_index_get(data, end - 1)
                        == 0x4bu8
                } else {
                    *slice_index_get(data, end - 3) == 0x50u8 && *slice_index_get(data, end - 2)
                        == 0x4bu8 && *slice_index_get(data, end - 1) == 0x05u8
                };
                proof {
                    crate::header::lemma_eocdr_sig_bytes();
                    let sv = sig_bytes(EOCDR_SIGNATURE);
                    let dsub = data@.subrange(q as int, end as int);
                    assert(dsub[0] == data@[q as int]);
                    if j >= 2 {
                        assert(dsub[1] == data@[q + 1]);
                    }
                    if j >= 3 {
                        assert(dsub[2] == data@[q + 2]);
                    }
                    assert(sv.subrange(0, j as int)[0] == sv[0]);
                    if j >= 2 {
                        assert(sv.subrange(0, j as int)[1] == sv[1]);
                    }
                    if j >= 3 {
                        assert(sv.subrange(0, j as int)[2] == sv[2]);
                    }
                    if matched_prefix {
                        assert(dsub =~= sv.subrange(0, j as int));
                    } else {
                        assert(dsub != sv.subrange(0, j as int));
                    }
                    lemma_carry_occurrence(data@, end as int, m as int, q as int);
                }
                if matched_prefix {
                    proof {
                        assert(occurs_at(data@, q as int));
                        assert(in_window(len as int, q as int));
                        assert forall|p: int|
                            q < p && in_window(len as int, p) implies !occurs_at(data@, p) by {
                            if p >= end {
                            } else {
                                assert(end - 3 <= p < end && wlo <= p && p != end - 3 + m);
                            }
                        }
                    }
                    return Ok(q);
                }
            }
            carry = None;
        }
        proof {
            assert(forall|p: int|
                end - 3 <= p < end && wlo <= p && p <= len - 22 ==> !occurs_at(data@, p));
        }

        // Scan this chunk for the rightmost full or partial match.
        let chunk = slice_subrange(data, start, end);
        let found = reverse_search_buffer(chunk, signature.as_slice());
        match found {
            Some(sm) => {
                if sm.full_match {
                    let p0: usize = start + sm.match_index - 3;
                    proof {
                        lemma_chunk_full_match(data@, start as int, end as int, p0 as int);
                        assert(occurs_at(data@, p0 as int));
                        assert forall|p: int|
                            p0 < p && in_window(len as int, p) implies !occurs_at(data@, p) by {
                            if p < end - 3 {
                                lemma_chunk_full_match(data@, start as int, end as int, p);
                                assert(!match_at(chunk@, signature@, p - start + 3));
                            }
                        }
                    }
                    return Ok(p0);
                }
                if start == wlo {
                    proof {
                        assert forall|p: int| in_window(len as int, p) implies !occurs_at(
                            data@,
                            p,
                        ) by {
                            if p < end - 3 {
                                lemma_chunk_full_match(data@, start as int, end as int, p);
                                assert(!match_at(chunk@, signature@, p - start + 3));
                            }
                        }
                    }
                    return Err(ZipError::UnableToLocateEOCDR);
                }
                proof {
                    let mi = sm.match_index as int;
                    assert(partial_match_at(chunk@, signature@, mi));
                    assert(chunk@.subrange(0, mi + 1) == signature@.subrange(3 - mi, 4));
                    assert forall|k: int| 0 <= k < mi + 1 implies #[trigger] data@.subrange(
                        start as int,
                        start + mi + 1,
                    )[k] == sig_bytes(EOCDR_SIGNATURE).subrange(3 - mi, 4)[k] by {
                        assert(chunk@.subrange(0, mi + 1)[k] == chunk@[k]);
                        assert(chunk@[k] == data@[start + k]);
                    }
                    assert(data@.subrange(start as int, start + mi + 1) =~= sig_bytes(
                        EOCDR_SIGNATURE,
                    ).subrange(3 - mi, 4));
                    assert forall|p: int|
                        start - 3 <= p < start && wlo <= p && p != start - 3 + mi implies !occurs_at(
                            data@,
                            p,
                        ) by {
                        if occurs_at(data@, p) {
                            lemma_chunk_partial_match(data@, start as int, end as int, p);
                            let i2 = p + 3 - start;
                            if i2 > mi {
                                assert(!match_at(chunk@, signature@, i2));
                            } else {
                                lemma_sig_single_partial(chunk@, i2, mi);
                            }
                        }
                    }
                    assert forall|p: int| start <= p <= len - 22 implies !occurs_at(data@, p) by {
                        if p < end - 3 {
                            lemma_chunk_full_match(data@, start as int, end as int, p);
                            assert(!match_at(chunk@, signature@, p - start + 3));
                        }
                    }
                }
                carry = Some(sm.match_index);
                end = start;
            },
            None => {
                if start == wlo {
                    proof {
                        assert forall|p: int| in_window(len as int, p) implies !occurs_at(
                            data@,
                            p,
                        ) by {
                            if p < end - 3 {
                                lemma_chunk_full_match(data@, start as int, end as int, p);
                                assert(!match_at(chunk@, signature@, p - start + 3));
                            }
                        }
                    }
                    return Err(ZipError::UnableToLocateEOCDR);
                }
                proof {
                    assert forall|p: int| start <= p <= len - 22 implies !occurs_at(data@, p) by {
                        if p < end - 3 {
                            lemma_chunk_full_match(data@, start as int, end as int, p);
                            assert(!match_at(chunk@, signature@, p - start + 3));
                        }
                    }
                    assert forall|p: int|
                        start - 3 <= p < start && wlo <= p && p <= len - 22 implies !occurs_at(
                            data@,
                            p,
                        ) by {
                        if occurs_at(data@, p) {
                            lemma_chunk_partial_match(data@, start as int, end as int, p);
                            assert(!match_at(chunk@, signature@, p + 3 - start));
                        }
                    }
                }
                end = start;
            },
        }
    }
}

} // verus!
