//! The library's laws: properties that tie the writer, the locator and the
//! parser together, proved once and for all inputs they speak of.

use vstd::prelude::*;

use vstd::utf8::encode_utf8;

use crate::compression::Compression;
use crate::crc::crc32_of;
use crate::header::{
    cdh_bytes, lemma_cdh_at_of_bytes, lemma_eocdr_at_of_bytes, lemma_lfh_at_of_bytes, sig_at,
    sig_bytes, spec_data_descriptor, CDH_SIGNATURE, EOCDR_SIGNATURE, LFH_SIGNATURE,
};
use crate::locator::{in_window, occurs_at, window_lo};
use crate::mem::{entry_readable, spec_entry_window, spec_lfh_slot};
use crate::read::{
    cd_ok, entry_matches_record, file_matches, file_structure_ok, meta_matches_record,
    record_clean, rightmost_occurrence, spec_cd, spec_cd_record, CdRecord,
};
use crate::write::{
    cd_dir_bytes, cd_row_bytes, cde_wf, lfh_of_cdh, local_entry_bytes, CentralDirectoryEntry,
    ZipFileWriter,
};

verus! {

/// An input shorter than a bare end-of-central-directory record has no
/// legal signature offset at all, so locating fails.
pub proof fn lemma_locator_short_input(data: Seq<u8>)
    requires
        data.len() < 22,
    ensures
        forall|p: int| !in_window(data.len() as int, p),
{
}

/// An EOCDR whose comment holds `c` bytes sits `c + 22` bytes before the
/// end, and — as long as no stray signature follows it — that offset is the
/// rightmost legal one, the one the locator returns.
pub proof fn lemma_locator_comment_offset(data: Seq<u8>, c: int)
    requires
        0 <= c <= 65535,
        data.len() >= 22 + c,
        occurs_at(data, data.len() - 22 - c),
        forall|p: int|
            data.len() - 22 - c < p && p + 4 <= data.len() ==> #[trigger] data.subrange(p, p + 4)
                != sig_bytes(EOCDR_SIGNATURE),
    ensures
        rightmost_occurrence(data, data.len() - 22 - c),
{
    assert forall|p: int|
        data.len() - 22 - c < p && in_window(data.len() as int, p) implies !occurs_at(data, p) by {
        assert(data.subrange(p, p + 4) != sig_bytes(EOCDR_SIGNATURE));
    }
}

/// Appending 65 536 bytes after a valid EOCDR pushes its signature one byte
/// below the legal window: locating fails although the record is intact.
pub proof fn lemma_locator_lower_bound(data: Seq<u8>, valid_len: int)
    requires
        valid_len >= 22,
        data.len() == valid_len + 65536,
        occurs_at(data, valid_len - 22),
        forall|p: int|
            valid_len - 21 <= p && p + 4 <= data.len() ==> #[trigger] data.subrange(p, p + 4) != sig_bytes(
                EOCDR_SIGNATURE,
            ),
    ensures
        forall|p: int| in_window(data.len() as int, p) ==> !occurs_at(data, p),
        !in_window(data.len() as int, valid_len - 22),
{
    assert(window_lo(data.len() as int) == valid_len - 21);
    assert forall|p: int| in_window(data.len() as int, p) implies !occurs_at(data, p) by {
        assert(data.subrange(p, p + 4) != sig_bytes(EOCDR_SIGNATURE));
    }
}

/// Corrupting any one byte of a header signature makes it a mismatch, which
/// the parsers report as `UnexpectedHeader`.
pub proof fn lemma_corrupt_signature(orig: Seq<u8>, corrupt: Seq<u8>, pos: int, sig: u32, k: int)
    requires
        sig_at(orig, pos, sig),
        corrupt.len() == orig.len(),
        pos <= k < pos + 4,
        corrupt[k] != orig[k],
    ensures
        !sig_at(corrupt, pos, sig),
{
    assert(orig.subrange(pos, pos + 4)[k - pos] == orig[k]);
    if corrupt.subrange(pos, pos + 4) == sig_bytes(sig) {
        assert(corrupt.subrange(pos, pos + 4)[k - pos] == corrupt[k]);
    }
}

/// A concatenation's left part reads back from its byte range.
proof fn lemma_concat_subrange_left(x: Seq<u8>, y: Seq<u8>, a: int, b: int)
    requires
        0 <= a <= b <= x.len(),
    ensures
        (x + y).subrange(a, b) == x.subrange(a, b),
{
    assert((x + y).subrange(a, b) =~= x.subrange(a, b));
}

/// A concatenation's right part reads back from its byte range.
proof fn lemma_concat_subrange_right(x: Seq<u8>, y: Seq<u8>)
    ensures
        (x + y).subrange(x.len() as int, (x.len() + y.len()) as int) == y,
{
    assert((x + y).subrange(x.len() as int, (x.len() + y.len()) as int) =~= y);
}

/// A segment of a block placed inside `data` reads back from its byte
/// range in `data`.
proof fn lemma_segment(data: Seq<u8>, pos: int, whole: Seq<u8>, a: int, seg: Seq<u8>)
    requires
        0 <= pos,
        pos + whole.len() <= data.len(),
        data.subrange(pos, pos + whole.len()) == whole,
        0 <= a,
        a + seg.len() <= whole.len(),
        whole.subrange(a, a + seg.len()) == seg,
    ensures
        data.subrange(pos + a, pos + a + seg.len()) == seg,
{
    assert forall|k: int| 0 <= k < seg.len() implies #[trigger] data.subrange(
        pos + a,
        pos + a + seg.len(),
    )[k] == seg[k] by {
        assert(whole.subrange(a, a + seg.len())[k] == whole[a + k]);
        assert(data.subrange(pos, pos + whole.len())[a + k] == data[pos + a + k]);
    }
    assert(data.subrange(pos + a, pos + a + seg.len()) =~= seg);
}

/// The five parts of one central directory row, each read back from its own
/// byte range.
proof fn lemma_cd_row_segments(data: Seq<u8>, pos: int, c: CentralDirectoryEntry)
    requires
        cde_wf(c),
        0 <= pos,
        pos + cd_row_bytes(c).len() <= data.len(),
        data.subrange(pos, pos + cd_row_bytes(c).len()) == cd_row_bytes(c),
    ensures
        ({
            let f = encode_utf8(c.opts.filename@).len() as int;
            let x = c.opts.extra@.len() as int;
            let m = encode_utf8(c.opts.comment@).len() as int;
            &&& cd_row_bytes(c).len() == 46 + f + x + m
            &&& sig_at(data, pos, CDH_SIGNATURE)
            &&& data.subrange(pos + 4, pos + 46) == cdh_bytes(c.header)
            &&& data.subrange(pos + 46, pos + 46 + f) == encode_utf8(c.opts.filename@)
            &&& data.subrange(pos + 46 + f, pos + 46 + f + x) == c.opts.extra@
            &&& data.subrange(pos + 46 + f + x, pos + 46 + f + x + m) == encode_utf8(
                c.opts.comment@,
            )
        }),
{
    crate::header::lemma_le16_roundtrip();
    crate::header::lemma_le32_roundtrip();
    let sg = sig_bytes(CDH_SIGNATURE);
    let hd = cdh_bytes(c.header);
    let fb = encode_utf8(c.opts.filename@);
    let xb = c.opts.extra@;
    let mb = encode_utf8(c.opts.comment@);
    let row = cd_row_bytes(c);
    let f = fb.len() as int;
    let x = xb.len() as int;
    let m = mb.len() as int;
    assert(hd.len() == 42);
    assert(row == sg + hd + fb + xb + mb);
    let p2 = sg + hd;
    let p3 = p2 + fb;
    let p4 = p3 + xb;
    lemma_concat_subrange_left(p4, mb, 0, 4);
    lemma_concat_subrange_left(p3, xb, 0, 4);
    lemma_concat_subrange_left(p2, fb, 0, 4);
    lemma_concat_subrange_left(sg, hd, 0, 4);
    assert(sg.subrange(0, 4) =~= sg);
    assert(row.subrange(0, 4) == sg);
    lemma_segment(data, pos, row, 0, sg);
    lemma_concat_subrange_left(p4, mb, 4, 46);
    lemma_concat_subrange_left(p3, xb, 4, 46);
    lemma_concat_subrange_left(p2, fb, 4, 46);
    lemma_concat_subrange_right(sg, hd);
    assert(p2.subrange(4, 46) == hd);
    assert(row.subrange(4, 46) == hd);
    lemma_segment(data, pos, row, 4, hd);
    lemma_concat_subrange_left(p4, mb, 46, 46 + f);
    lemma_concat_subrange_left(p3, xb, 46, 46 + f);
    lemma_concat_subrange_right(p2, fb);
    assert(row.subrange(46, 46 + f) == fb);
    lemma_segment(data, pos, row, 46, fb);
    lemma_concat_subrange_left(p4, mb, 46 + f, 46 + f + x);
    lemma_concat_subrange_right(p3, xb);
    assert(row.subrange(46 + f, 46 + f + x) == xb);
    lemma_segment(data, pos, row, 46 + f, xb);
    lemma_concat_subrange_right(p4, mb);
    assert(row.subrange(46 + f + x, 46 + f + x + m) == mb);
    lemma_segment(data, pos, row, 46 + f + x, mb);
}

/// A central directory emitted by the writer parses back row by row: the
/// structural parse succeeds and returns exactly the accumulated headers
/// and tails.
pub proof fn lemma_cd_rows_parse(data: Seq<u8>, pos: int, cdes: Seq<CentralDirectoryEntry>)
    requires
        0 <= pos,
        pos + cd_dir_bytes(cdes).len() <= data.len(),
        data.subrange(pos, pos + cd_dir_bytes(cdes).len()) == cd_dir_bytes(cdes),
        forall|i: int| 0 <= i < cdes.len() ==> cde_wf(#[trigger] cdes[i]),
    ensures
        spec_cd(data, pos, cdes.len() as nat) matches Some((recs, end)) && {
            &&& end == pos + cd_dir_bytes(cdes).len()
            &&& recs.len() == cdes.len()
            &&& forall|i: int|
                0 <= i < cdes.len() ==> {
                    &&& (#[trigger] recs[i]).header == cdes[i].header
                    &&& recs[i].filename == encode_utf8(cdes[i].opts.filename@)
                    &&& recs[i].extra == cdes[i].opts.extra@
                    &&& recs[i].comment == encode_utf8(cdes[i].opts.comment@)
                }
        },
    decreases cdes.len(),
{
    if cdes.len() == 0 {
        assert(spec_cd(data, pos, 0nat) == Some((Seq::<CdRecord>::empty(), pos)));
    } else {
        let c = cdes[0];
        let row = cd_row_bytes(c);
        let rest = cdes.drop_first();
        let dir = cd_dir_bytes(cdes);
        assert(dir == row + cd_dir_bytes(rest));
        lemma_concat_subrange_left(row, cd_dir_bytes(rest), 0, row.len() as int);
        assert(row.subrange(0, row.len() as int) =~= row);
        lemma_segment(data, pos, dir, 0, row);
        assert(data.subrange(pos, pos + row.len()) == row);
        lemma_concat_subrange_right(row, cd_dir_bytes(rest));
        lemma_segment(data, pos, dir, row.len() as int, cd_dir_bytes(rest));
        lemma_cd_row_segments(data, pos, c);
        let f = encode_utf8(c.opts.filename@).len() as int;
        let x = c.opts.extra@.len() as int;
        let m = encode_utf8(c.opts.comment@).len() as int;
        lemma_cdh_at_of_bytes(data, pos + 4, c.header);
        assert(spec_cd_record(data, pos) matches Some((rec0, next0)) && rec0.header == c.header
            && rec0.filename == encode_utf8(c.opts.filename@) && rec0.extra == c.opts.extra@
            && rec0.comment == encode_utf8(c.opts.comment@) && next0 == pos + row.len());
        assert forall|i: int| 0 <= i < rest.len() implies cde_wf(#[trigger] rest[i]) by {
            assert(rest[i] == cdes[i + 1]);
        }
        lemma_cd_rows_parse(data, pos + row.len(), rest);
        let (recs_rest, end_rest) = spec_cd(data, pos + row.len(), rest.len() as nat).unwrap();
        let (rec0, next0) = spec_cd_record(data, pos).unwrap();
        assert(spec_cd(data, pos, cdes.len() as nat) == Some(
            (seq![rec0] + recs_rest, end_rest),
        ));
        let recs = seq![rec0] + recs_rest;
        assert forall|i: int| 0 <= i < cdes.len() implies {
            &&& (#[trigger] recs[i]).header == cdes[i].header
            &&& recs[i].filename == encode_utf8(cdes[i].opts.filename@)
            &&& recs[i].extra == cdes[i].opts.extra@
            &&& recs[i].comment == encode_utf8(cdes[i].opts.comment@)
        } by {
            if i > 0 {
                assert(recs[i] == recs_rest[i - 1]);
                assert(cdes[i] == rest[i - 1]);
            }
        }
    }
}

/// The five parts of one local entry, each read back from its own byte
/// range.
proof fn lemma_local_entry_segments(
    data: Seq<u8>,
    pos: int,
    c: CentralDirectoryEntry,
    payload: Seq<u8>,
)
    requires
        cde_wf(c),
        0 <= pos,
        pos + local_entry_bytes(c, payload).len() <= data.len(),
        data.subrange(pos, pos + local_entry_bytes(c, payload).len()) == local_entry_bytes(
            c,
            payload,
        ),
    ensures
        ({
            let f = encode_utf8(c.opts.filename@).len() as int;
            let x = c.opts.extra@.len() as int;
            &&& local_entry_bytes(c, payload).len() == 30 + f + x + payload.len()
            &&& sig_at(data, pos, LFH_SIGNATURE)
            &&& data.subrange(pos + 4, pos + 30) == crate::header::lfh_bytes(lfh_of_cdh(c.header))
            &&& data.subrange(pos + 30, pos + 30 + f) == encode_utf8(c.opts.filename@)
            &&& data.subrange(pos + 30 + f, pos + 30 + f + x) == c.opts.extra@
            &&& data.subrange(pos + 30 + f + x, pos + 30 + f + x + payload.len()) == payload
        }),
{
    crate::header::lemma_le16_roundtrip();
    crate::header::lemma_le32_roundtrip();
    let sg = sig_bytes(LFH_SIGNATURE);
    let hd = crate::header::lfh_bytes(lfh_of_cdh(c.header));
    let fb = encode_utf8(c.opts.filename@);
    let xb = c.opts.extra@;
    let whole = local_entry_bytes(c, payload);
    let f = fb.len() as int;
    let x = xb.len() as int;
    assert(hd.len() == 26);
    assert(whole == sg + hd + fb + xb + payload);
    let p2 = sg + hd;
    let p3 = p2 + fb;
    let p4 = p3 + xb;
    lemma_concat_subrange_left(p4, payload, 0, 4);
    lemma_concat_subrange_left(p3, xb, 0, 4);
    lemma_concat_subrange_left(p2, fb, 0, 4);
    lemma_concat_subrange_left(sg, hd, 0, 4);
    assert(sg.subrange(0, 4) =~= sg);
    lemma_segment(data, pos, whole, 0, sg);
    lemma_concat_subrange_left(p4, payload, 4, 30);
    lemma_concat_subrange_left(p3, xb, 4, 30);
    lemma_concat_subrange_left(p2, fb, 4, 30);
    lemma_concat_subrange_right(sg, hd);
    assert(whole.subrange(4, 30) == hd);
    lemma_segment(data, pos, whole, 4, hd);
    lemma_concat_subrange_left(p4, payload, 30, 30 + f);
    lemma_concat_subrange_left(p3, xb, 30, 30 + f);
    lemma_concat_subrange_right(p2, fb);
    assert(whole.subrange(30, 30 + f) == fb);
    lemma_segment(data, pos, whole, 30, fb);
    lemma_concat_subrange_left(p4, payload, 30 + f, 30 + f + x);
    lemma_concat_subrange_right(p3, xb);
    assert(whole.subrange(30 + f, 30 + f + x) == xb);
    lemma_segment(data, pos, whole, 30 + f, xb);
    lemma_concat_subrange_right(p4, payload);
    assert(whole.subrange(30 + f + x, (30 + f + x + payload.len()) as int) == payload);
    lemma_segment(data, pos, whole, 30 + f + x, payload);
}

/// The archive body a run of Stored `write_entry` calls leaves in the sink:
/// each entry's local bytes, one after another.
pub open spec fn written_body_bytes(cdes: Seq<CentralDirectoryEntry>, datas: Seq<Seq<u8>>) -> Seq<
    u8,
>
    decreases cdes.len(),
{
    if cdes.len() == 0 || datas.len() == 0 {
        Seq::<u8>::empty()
    } else {
        local_entry_bytes(cdes[0], datas[0]) + written_body_bytes(
            cdes.drop_first(),
            datas.drop_first(),
        )
    }
}

/// The byte offset of entry `i` inside the body.
pub open spec fn written_offset(cdes: Seq<CentralDirectoryEntry>, datas: Seq<Seq<u8>>, i: int) -> int {
    written_body_bytes(cdes.take(i), datas.take(i)).len() as int
}

/// Entry `i`'s local bytes read back from their offset inside the body.
proof fn lemma_body_slot(
    data: Seq<u8>,
    pos: int,
    cdes: Seq<CentralDirectoryEntry>,
    datas: Seq<Seq<u8>>,
    i: int,
)
    requires
        cdes.len() == datas.len(),
        0 <= i < cdes.len(),
        0 <= pos,
        pos + written_body_bytes(cdes, datas).len() <= data.len(),
        data.subrange(pos, pos + written_body_bytes(cdes, datas).len()) == written_body_bytes(
            cdes,
            datas,
        ),
    ensures
        ({
            let off = pos + written_offset(cdes, datas, i);
            let local = local_entry_bytes(cdes[i], datas[i]);
            &&& pos <= off
            &&& off + local.len() <= pos + written_body_bytes(cdes, datas).len()
            &&& data.subrange(off, off + local.len()) == local
        }),
    decreases i,
{
    let body = written_body_bytes(cdes, datas);
    let local0 = local_entry_bytes(cdes[0], datas[0]);
    let rest_body = written_body_bytes(cdes.drop_first(), datas.drop_first());
    assert(body == local0 + rest_body);
    if i == 0 {
        assert(cdes.take(0) =~= Seq::<CentralDirectoryEntry>::empty());
        assert(written_offset(cdes, datas, 0) == 0);
        lemma_concat_subrange_left(local0, rest_body, 0, local0.len() as int);
        assert(local0.subrange(0, local0.len() as int) =~= local0);
        lemma_segment(data, pos, body, 0, local0);
    } else {
        lemma_concat_subrange_right(local0, rest_body);
        lemma_segment(data, pos, body, local0.len() as int, rest_body);
        assert(cdes.drop_first().len() == datas.drop_first().len());
        assert(cdes.drop_first()[i - 1] == cdes[i]);
        assert(datas.drop_first()[i - 1] == datas[i]);
        lemma_body_slot(data, pos + local0.len(), cdes.drop_first(), datas.drop_first(), i - 1);
        // the offset of entry i is entry 0's length plus the rest's offset
        assert(cdes.take(i)[0] == cdes[0]);
        assert(datas.take(i)[0] == datas[0]);
        assert(cdes.take(i).drop_first() =~= cdes.drop_first().take(i - 1));
        assert(datas.take(i).drop_first() =~= datas.drop_first().take(i - 1));
        assert(written_body_bytes(cdes.take(i), datas.take(i)) == local0 + written_body_bytes(
            cdes.drop_first().take(i - 1),
            datas.drop_first().take(i - 1),
        ));
        assert(written_offset(cdes, datas, i) == local0.len() + written_offset(
            cdes.drop_first(),
            datas.drop_first(),
            i - 1,
        ));
    }
}

/// The accumulated state `write_entry` leaves for one entry: the header
/// fields it fills, with the modification time left free.  The payload is
/// the raw data for Stored and the deflated bytes for Deflate.
pub open spec fn written_cde_ok(c: CentralDirectoryEntry, data: Seq<u8>, offset: int) -> bool {
    &&& (c.opts.compression matches Compression::Stored || c.opts.compression
        matches Compression::Deflate)
    &&& data.len() < 0xffffffff
    &&& crate::write::payload_of(c.opts.compression, data).len() < 0xffffffff
    &&& (c.opts.compression matches Compression::Deflate ==> crate::codec::inflate_of(
        crate::write::payload_of(c.opts.compression, data),
    ) == Some(data))
    &&& 0 <= offset < 0xffffffff
    &&& c.header == (crate::header::CentralDirectoryHeader {
        v_made_by: 0,
        v_needed: 0,
        flags: crate::header::GeneralPurposeFlag { bits: 0 },
        compression: crate::compression::spec_compression_code(c.opts.compression),
        mod_time: c.header.mod_time,
        mod_date: c.header.mod_date,
        crc: crc32_of(data),
        compressed_size: crate::write::payload_of(c.opts.compression, data).len() as u32,
        uncompressed_size: data.len() as u32,
        file_name_length: encode_utf8(c.opts.filename@).len() as u16,
        extra_field_length: c.opts.extra@.len() as u16,
        file_comment_length: encode_utf8(c.opts.comment@).len() as u16,
        disk_start: 0,
        inter_attr: 0,
        exter_attr: 0,
        lh_offset: offset as u32,
    })
}

/// The payloads the writer emitted for `datas`, entry by entry.
pub open spec fn written_payloads(cdes: Seq<CentralDirectoryEntry>, datas: Seq<Seq<u8>>) -> Seq<
    Seq<u8>,
> {
    Seq::new(datas.len(), |i: int| crate::write::payload_of(cdes[i].opts.compression, datas[i]))
}

/// A fresh writer's state after writing `datas`, entry by entry: exactly
/// what `new` and a run of Stored and Deflate `write_entry` calls ensure.
pub open spec fn written_writer_state(w: ZipFileWriter, datas: Seq<Seq<u8>>) -> bool {
    &&& w.wf()
    &&& w.cd_entries@.len() == datas.len()
    &&& w.sink@ == written_body_bytes(w.cd_entries@, written_payloads(w.cd_entries@, datas))
    &&& forall|i: int|
        0 <= i < datas.len() ==> written_cde_ok(
            #[trigger] w.cd_entries@[i],
            datas[i],
            written_offset(w.cd_entries@, written_payloads(w.cd_entries@, datas), i),
        )
}

/// Round trip: an archive a fresh writer produces from Stored and Deflate
/// entries parses back to the same filenames, sizes and CRCs, in the same
/// order; each entry's local header stands at its recorded offset; and each
/// entry's payload window holds exactly the bytes the writer emitted for
/// it.  A Stored entry's window is its raw data, so an independent entry
/// reader delivers those bytes and its CRC check passes; a Deflate entry is
/// readable whenever its payload decodes.
#[verifier::rlimit(100)]
#[verifier::spinoff_prover]
pub proof fn lemma_write_read_round_trip(w: ZipFileWriter, datas: Seq<Seq<u8>>)
    requires
        written_writer_state(w, datas),
        w.cd_entries@.len() < 0xffff,
        w.written < 0xffffffff,
        cd_dir_bytes(w.cd_entries@).len() < 0xffffffff,
    ensures
        ({
            let bytes = w.sink@ + cd_dir_bytes(w.cd_entries@) + sig_bytes(EOCDR_SIGNATURE)
                + crate::header::eocdr_bytes(w.spec_close_eocdr());
            let payloads = written_payloads(w.cd_entries@, datas);
            let n = w.cd_entries@.len() as int;
            let le = bytes.len() as int;
            &&& rightmost_occurrence(bytes, le - 22)
            &&& file_structure_ok(bytes, le - 22)
            &&& forall|zf: crate::file::ZipFile| #[trigger] file_matches(bytes, le - 22, zf)
                ==> {
                &&& zf.entries@.len() == n
                &&& zf.metas@.len() == n
                &&& forall|i: int|
                    0 <= i < n ==> {
                        let c = w.cd_entries@[i];
                        let off = written_offset(w.cd_entries@, payloads, i);
                        &&& (#[trigger] zf.entries@[i]).filename@ == c.opts.filename@
                        &&& zf.entries@[i].compression == c.opts.compression
                        &&& zf.entries@[i].crc32 == crc32_of(datas[i])
                        &&& zf.entries@[i].uncompressed_size == datas[i].len()
                        &&& zf.entries@[i].compressed_size == payloads[i].len()
                        &&& zf.entries@[i].comment@ == c.opts.comment@
                        &&& zf.entries@[i].extra_field@ == c.opts.extra@
                        &&& zf.metas@[i].file_offset == Some(off as u32)
                        &&& sig_at(bytes, off, LFH_SIGNATURE)
                        &&& spec_lfh_slot(bytes, off) matches Some((h, payload)) && spec_entry_window(
                            bytes,
                            h,
                            payload,
                        ) == payloads[i]
                        &&& entry_readable(bytes, zf, i)
                        &&& (c.opts.compression matches Compression::Deflate
                            ==> crate::codec::inflate_of(payloads[i]) == Some(datas[i]))
                    }
            }
        }),
{
    crate::header::lemma_le16_roundtrip();
    crate::header::lemma_le32_roundtrip();
    let cdes = w.cd_entries@;
    let payloads = written_payloads(cdes, datas);
    let n = cdes.len() as int;
    let body = w.sink@;
    let dir = cd_dir_bytes(cdes);
    let rec = w.spec_close_eocdr();
    let eo = crate::header::eocdr_bytes(rec);
    let sg = sig_bytes(EOCDR_SIGNATURE);
    let bytes = body + dir + sg + eo;
    let head = body + dir;
    let tail = sg + eo;
    let le = bytes.len() as int;
    assert(sg.len() == 4);
    assert(eo.len() == 18);
    assert(bytes =~= head + tail);
    assert(le - 22 == head.len());
    // the EOCDR record and its signature read back from the tail
    lemma_concat_subrange_right(head, tail);
    lemma_concat_subrange_left(sg, eo, 0, 4);
    assert(sg.subrange(0, 4) =~= sg);
    assert(tail.subrange(0, 4) == sg);
    lemma_segment(bytes, le - 22, tail, 0, sg);
    assert(occurs_at(bytes, le - 22));
    lemma_concat_subrange_right(sg, eo);
    assert(tail.subrange(4, 22) == eo);
    lemma_segment(bytes, le - 22, tail, 4, eo);
    lemma_eocdr_at_of_bytes(bytes, le - 18, rec);
    assert(in_window(le, le - 22));
    assert(rightmost_occurrence(bytes, le - 22));
    // the central directory reads back from its recorded offset
    lemma_concat_subrange_left(head, tail, 0, head.len() as int);
    assert(head.subrange(0, head.len() as int) =~= head);
    lemma_concat_subrange_left(head, tail, body.len() as int, head.len() as int);
    lemma_concat_subrange_right(body, dir);
    assert(bytes.subrange(body.len() as int, head.len() as int) == dir);
    assert(rec.cent_dir_offset == w.written as u32);
    assert(w.written == body.len());
    assert(rec.cent_dir_offset as int == body.len() as int);
    lemma_cd_rows_parse(bytes, body.len() as int, cdes);
    let (recs, cd_end) = spec_cd(bytes, body.len() as int, cdes.len() as nat).unwrap();
    // every row is clean
    assert forall|i: int| 0 <= i < recs.len() implies record_clean(#[trigger] recs[i]) by {
        assert(written_cde_ok(cdes[i], datas[i], written_offset(cdes, payloads, i)));
        vstd::utf8::encode_utf8_valid_utf8(cdes[i].opts.filename@);
        vstd::utf8::encode_utf8_valid_utf8(cdes[i].opts.comment@);
        assert(recs[i].header == cdes[i].header);
        assert(payloads[i].len() < 0xffffffff);
        assert(recs[i].header.compressed_size == payloads[i].len() as u32);
        assert(recs[i].header.uncompressed_size == datas[i].len() as u32);
    }
    assert(cd_ok(bytes, body.len() as int, rec.num_of_entries as nat)) by {
        assert(rec.num_of_entries == n as u16);
        assert(rec.num_of_entries as nat == cdes.len());
    }
    // the empty trailing comment
    assert(rec.file_comm_length == 0);
    assert(bytes.subrange(le - 22 + 22, le - 22 + 22) =~= Seq::<u8>::empty());
    assert(encode_utf8(Seq::<char>::empty()) =~= Seq::<u8>::empty());
    vstd::utf8::encode_utf8_valid_utf8(Seq::<char>::empty());
    assert(file_structure_ok(bytes, le - 22));
    // the body reads back entry by entry
    lemma_concat_subrange_left(body, dir, 0, body.len() as int);
    assert(body.subrange(0, body.len() as int) =~= body);
    assert(bytes.subrange(0, body.len() as int) == body);
    assert forall|zf: crate::file::ZipFile| #[trigger] file_matches(bytes, le - 22, zf) implies {
        &&& zf.entries@.len() == n
        &&& zf.metas@.len() == n
        &&& forall|i: int|
            0 <= i < n ==> {
                let c = w.cd_entries@[i];
                let off = written_offset(w.cd_entries@, payloads, i);
                &&& (#[trigger] zf.entries@[i]).filename@ == c.opts.filename@
                &&& zf.entries@[i].compression == c.opts.compression
                &&& zf.entries@[i].crc32 == crc32_of(datas[i])
                &&& zf.entries@[i].uncompressed_size == datas[i].len()
                &&& zf.entries@[i].compressed_size == payloads[i].len()
                &&& zf.entries@[i].comment@ == c.opts.comment@
                &&& zf.entries@[i].extra_field@ == c.opts.extra@
                &&& zf.metas@[i].file_offset == Some(off as u32)
                &&& sig_at(bytes, off, LFH_SIGNATURE)
                &&& spec_lfh_slot(bytes, off) matches Some((h, payload)) && spec_entry_window(
                    bytes,
                    h,
                    payload,
                ) == payloads[i]
                &&& entry_readable(bytes, zf, i)
                &&& (c.opts.compression matches Compression::Deflate
                    ==> crate::codec::inflate_of(payloads[i]) == Some(datas[i]))
            }
    } by {
        assert(zf.entries@.len() == rec.num_of_entries);
        assert forall|i: int| 0 <= i < n implies {
            let c = w.cd_entries@[i];
            let off = written_offset(w.cd_entries@, payloads, i);
            &&& (#[trigger] zf.entries@[i]).filename@ == c.opts.filename@
            &&& zf.entries@[i].compression == c.opts.compression
            &&& zf.entries@[i].crc32 == crc32_of(datas[i])
            &&& zf.entries@[i].uncompressed_size == datas[i].len()
            &&& zf.entries@[i].compressed_size == payloads[i].len()
            &&& zf.entries@[i].comment@ == c.opts.comment@
            &&& zf.entries@[i].extra_field@ == c.opts.extra@
            &&& zf.metas@[i].file_offset == Some(off as u32)
            &&& sig_at(bytes, off, LFH_SIGNATURE)
            &&& spec_lfh_slot(bytes, off) matches Some((h, payload)) && spec_entry_window(
                bytes,
                h,
                payload,
            ) == payloads[i]
            &&& entry_readable(bytes, zf, i)
            &&& (c.opts.compression matches Compression::Deflate
                ==> crate::codec::inflate_of(payloads[i]) == Some(datas[i]))
        } by {
            let c = cdes[i];
            let off = written_offset(cdes, payloads, i);
            assert(written_cde_ok(c, datas[i], off));
            assert(entry_matches_record(zf.entries@[i], recs[i]));
            assert(meta_matches_record(zf.metas@[i], recs[i]));
            assert(recs[i].header == c.header);
            assert(recs[i].filename == encode_utf8(c.opts.filename@));
            assert(recs[i].comment == encode_utf8(c.opts.comment@));
            vstd::utf8::encode_utf8_decode_utf8(c.opts.filename@);
            vstd::utf8::encode_utf8_decode_utf8(c.opts.comment@);
            assert(zf.entries@[i].filename@ == c.opts.filename@);
            assert(crate::compression::spec_compression_of_code(0) == Compression::Stored);
            assert(crate::compression::spec_compression_of_code(8) == Compression::Deflate);
            // the local entry reads back from its offset
            lemma_body_slot(bytes, 0, cdes, payloads, i);
            lemma_local_entry_segments(bytes, off, c, payloads[i]);
            let f = encode_utf8(c.opts.filename@).len() as int;
            let x = c.opts.extra@.len() as int;
            lemma_lfh_at_of_bytes(bytes, off + 4, lfh_of_cdh(c.header));
            let h = crate::header::spec_lfh_at(bytes, off + 4);
            assert(h == lfh_of_cdh(c.header));
            assert(h.file_name_length == f && h.extra_field_length == x);
            let payload = off + 30 + f + x;
            assert(spec_lfh_slot(bytes, off) == Some((h, payload)));
            assert(!spec_data_descriptor(h.flags)) by {
                assert(0u16 & 8 == 0) by (bit_vector);
            }
            assert(h.compressed_size as int == payloads[i].len());
            assert(bytes.subrange(payload, payload + h.compressed_size) == payloads[i]);
            assert(spec_entry_window(bytes, h, payload) == payloads[i]);
            assert(off as u32 as int == off);
        }
    }
}

/// The CRC law's provable half: a fresh entry reader whose stream holds
/// exactly the bytes an entry was written from passes the checked read,
/// because the stored CRC-32 is the CRC-32 of those bytes.
pub proof fn lemma_checked_read_succeeds(consumed: Seq<u8>, remaining: Seq<u8>, stored_crc: u32)
    requires
        consumed == Seq::<u8>::empty(),
        stored_crc == crc32_of(remaining),
    ensures
        crc32_of(consumed + remaining) == stored_crc,
{
    assert(consumed + remaining =~= remaining);
}

/// Appending an entry appends its local bytes to the body.
proof fn lemma_written_body_push(
    cdes: Seq<CentralDirectoryEntry>,
    payloads: Seq<Seq<u8>>,
    c: CentralDirectoryEntry,
    d: Seq<u8>,
)
    requires
        cdes.len() == payloads.len(),
    ensures
        written_body_bytes(cdes.push(c), payloads.push(d)) == written_body_bytes(cdes, payloads)
            + local_entry_bytes(c, d),
    decreases cdes.len(),
{
    if cdes.len() == 0 {
        let one = written_body_bytes(cdes.push(c), payloads.push(d));
        assert(cdes.push(c)[0] == c);
        assert(payloads.push(d)[0] == d);
        assert(cdes.push(c).drop_first() =~= Seq::<CentralDirectoryEntry>::empty());
        assert(payloads.push(d).drop_first() =~= Seq::<Seq<u8>>::empty());
        assert(one == local_entry_bytes(c, d) + written_body_bytes(
            cdes.push(c).drop_first(),
            payloads.push(d).drop_first(),
        ));
        assert(written_body_bytes(cdes, payloads) == Seq::<u8>::empty());
        assert(local_entry_bytes(c, d) + Seq::<u8>::empty() =~= Seq::<u8>::empty()
            + local_entry_bytes(c, d));
    } else {
        assert(cdes.push(c).drop_first() =~= cdes.drop_first().push(c));
        assert(payloads.push(d).drop_first() =~= payloads.drop_first().push(d));
        lemma_written_body_push(cdes.drop_first(), payloads.drop_first(), c, d);
        let head = local_entry_bytes(cdes[0], payloads[0]);
        assert(written_body_bytes(cdes.push(c), payloads.push(d)) == head + (written_body_bytes(
            cdes.drop_first(),
            payloads.drop_first(),
        ) + local_entry_bytes(c, d)));
        assert(head + (written_body_bytes(cdes.drop_first(), payloads.drop_first())
            + local_entry_bytes(c, d)) =~= (head + written_body_bytes(
            cdes.drop_first(),
            payloads.drop_first(),
        )) + local_entry_bytes(c, d));
    }
}

/// Each Stored or Deflate `write_entry` call keeps the writer in the state
/// the round trip theorem speaks of: exactly the facts its contract
/// ensures.
pub proof fn lemma_written_state_extends(
    prev: ZipFileWriter,
    next: ZipFileWriter,
    datas: Seq<Seq<u8>>,
    opts: crate::write::EntryOptions,
    data: Seq<u8>,
)
    requires
        written_writer_state(prev, datas),
        opts.compression matches Compression::Stored || opts.compression
            matches Compression::Deflate,
        data.len() < 0xffffffff,
        crate::write::payload_of(opts.compression, data).len() < 0xffffffff,
        opts.compression matches Compression::Deflate ==> crate::codec::inflate_of(
            crate::write::payload_of(opts.compression, data),
        ) == Some(data),
        prev.written < 0xffffffff,
        next.wf(),
        next.cd_entries@.len() == prev.cd_entries@.len() + 1,
        next.cd_entries@.drop_last() == prev.cd_entries@,
        next.cd_entries@.last().opts == opts,
        next.cd_entries@.last().header == (crate::header::CentralDirectoryHeader {
            v_made_by: 0,
            v_needed: 0,
            flags: crate::header::GeneralPurposeFlag { bits: 0 },
            compression: crate::compression::spec_compression_code(opts.compression),
            mod_time: next.cd_entries@.last().header.mod_time,
            mod_date: next.cd_entries@.last().header.mod_date,
            crc: crc32_of(data),
            compressed_size: crate::write::payload_of(opts.compression, data).len() as u32,
            uncompressed_size: data.len() as u32,
            file_name_length: encode_utf8(opts.filename@).len() as u16,
            extra_field_length: opts.extra@.len() as u16,
            file_comment_length: encode_utf8(opts.comment@).len() as u16,
            disk_start: 0,
            inter_attr: 0,
            exter_attr: 0,
            lh_offset: prev.written as u32,
        }),
        next.sink@ == prev.sink@ + local_entry_bytes(
            next.cd_entries@.last(),
            crate::write::payload_of(opts.compression, data),
        ),
    ensures
        written_writer_state(next, datas.push(data)),
{
    let c = next.cd_entries@.last();
    let cdes = prev.cd_entries@;
    let pl = crate::write::payload_of(opts.compression, data);
    let payloads = written_payloads(cdes, datas);
    let payloads2 = written_payloads(next.cd_entries@, datas.push(data));
    assert(next.cd_entries@ =~= cdes.push(c));
    assert(payloads2 =~= payloads.push(pl));
    lemma_written_body_push(cdes, payloads, c, pl);
    assert(next.sink@ == written_body_bytes(cdes.push(c), payloads.push(pl)));
    assert forall|i: int| 0 <= i < datas.push(data).len() implies written_cde_ok(
        #[trigger] next.cd_entries@[i],
        datas.push(data)[i],
        written_offset(next.cd_entries@, payloads2, i),
    ) by {
        if i < datas.len() {
            assert(next.cd_entries@[i] == cdes[i]);
            assert(datas.push(data)[i] == datas[i]);
            assert(cdes.push(c).take(i) =~= cdes.take(i));
            assert(payloads2.take(i) =~= payloads.take(i));
            assert(written_cde_ok(cdes[i], datas[i], written_offset(cdes, payloads, i)));
        } else {
            assert(next.cd_entries@[i] == c);
            assert(datas.push(data)[i] == data);
            assert(cdes.push(c).take(i) =~= cdes);
            assert(payloads2.take(i) =~= payloads);
            assert(written_offset(next.cd_entries@, payloads2, i) == prev.sink@.len());
            assert(prev.written == prev.sink@.len());
        }
    }
}

/// A fresh writer stands in the written state with no entries, so the round
/// trip theorem applies to any archive built from `new` by Stored and
/// Deflate `write_entry` calls alone.
pub proof fn lemma_written_state_fresh(w: ZipFileWriter)
    requires
        w.wf(),
        w.sink@ == Seq::<u8>::empty(),
        w.cd_entries@ == Seq::<CentralDirectoryEntry>::empty(),
    ensures
        written_writer_state(w, Seq::<Seq<u8>>::empty()),
{
    assert(written_payloads(w.cd_entries@, Seq::<Seq<u8>>::empty()) =~= Seq::<Seq<u8>>::empty());
}

} // verus!
