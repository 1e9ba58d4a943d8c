//! The provenance journal: shard results framed one after another in an
//! append-only byte stream per language, each frame a version byte, a
//! block length, and a Snappy-compressed schema encoding.

use vstd::prelude::*;
use vstd::bytes::{lemma_auto_spec_u64_to_from_le_bytes, spec_u64_to_le_bytes};

use crate::error::CorpusError;
use crate::lang::NB_LANGS;
use crate::rebuild::{
    lemma_shard_results_view_index, shard_results_view, ShardResult, ShardResultView,
};
use crate::schema::{
    bytes_at, dec_u64, decode_shard_result, enc_u64, encode_shard_result, lemma_bytes_at_split,
    lemma_dec_enc_shard_result, lemma_dec_enc_u64, shard_result_wf, spec_dec_shard_result,
    spec_dec_u64, spec_enc_shard_result,
};

verus! {

/// Version identifier of the journal schema; any schema change is a
/// breaking format change and takes a new value here.
pub const SCHEMA_VERSION: u8 = 1;

/// The largest block the Snappy encoder accepts: its worst-case output
/// bound `32 + len + len / 6` must stay within 32 bits, which caps the
/// input length itself at this value.
pub const MAX_BLOCK_LEN: usize = 3_681_400_511;

/// What `snap`'s raw Snappy compression returns for a byte block: a
/// function of the input bytes alone.
pub uninterp spec fn snappy_of(b: Seq<u8>) -> Seq<u8>;

/// Relies on snap::raw::Encoder::compress_vec: deterministic raw Snappy
/// compression; it fails only when the worst-case output length
/// `32 + len + len / 6` leaves 32 bits, so inputs under that bound
/// compress without error.
#[verifier::external_body]
fn snappy_compress(b: &Vec<u8>) -> (r: Vec<u8>)
    requires
        32 + b@.len() + b@.len() / 6 <= 0xFFFF_FFFF,
    ensures
        r@ == snappy_of(b@),
{
    snap::raw::Encoder::new().compress_vec(b.as_slice()).unwrap()
}

/// A length within [`MAX_BLOCK_LEN`] keeps the encoder's worst-case
/// output bound within 32 bits.
proof fn lemma_block_len_fits(len: nat)
    requires
        len <= MAX_BLOCK_LEN,
    ensures
        32 + len + len / 6 <= 0xFFFF_FFFF,
{
    assert(len / 6 <= 3_681_400_511nat / 6) by (nonlinear_arith)
        requires
            len <= 3_681_400_511nat,
    ;
    assert(3_681_400_511nat / 6 == 613_566_751nat) by (nonlinear_arith);
}

/// Relies on snap::raw::Decoder::decompress_vec: raw Snappy is lossless,
/// so decompressing a compressed block returns the block.
#[verifier::external_body]
fn snappy_decompress(c: &Vec<u8>) -> (r: Option<Vec<u8>>)
    ensures
        match r {
            Some(d) => forall|b: Seq<u8>|
                b.len() <= MAX_BLOCK_LEN && c@ == #[trigger] snappy_of(b) ==> d@ == b,
            None => forall|b: Seq<u8>| b.len() <= MAX_BLOCK_LEN ==> c@ != #[trigger] snappy_of(b),
        },
{
    snap::raw::Decoder::new().decompress_vec(c.as_slice()).ok()
}

/// The journal frame of one shard result: version byte, compressed block
/// length, compressed block.
pub open spec fn spec_frame(sr: ShardResultView) -> Seq<u8> {
    let block = snappy_of(spec_enc_shard_result(sr));
    seq![SCHEMA_VERSION] + spec_u64_to_le_bytes(block.len() as u64) + block
}

/// The journal image of a sequence of shard results.
pub open spec fn spec_frames(srs: Seq<ShardResultView>) -> Seq<u8>
    decreases srs.len(),
{
    if srs.len() == 0 {
        Seq::empty()
    } else {
        spec_frame(srs[0]) + spec_frames(srs.drop_first())
    }
}

/// A shard result the writer can frame: well formed, its encoding within
/// the Snappy block limit, and its compressed block within the frame's
/// length field.
pub open spec fn frame_wf(sr: ShardResultView) -> bool {
    &&& crate::schema::shard_result_wf(sr)
    &&& spec_enc_shard_result(sr).len() <= MAX_BLOCK_LEN
    &&& snappy_of(spec_enc_shard_result(sr)).len() <= u64::MAX
}

/// Every record of the sequence can be framed.
pub open spec fn frames_wf(srs: Seq<ShardResultView>) -> bool {
    forall|i: int| 0 <= i < srs.len() ==> frame_wf(#[trigger] srs[i])
}

/// One language's journal writer: buffers the byte stream that the
/// caller appends to that language's journal file.
pub struct RebuildWriter {
    pub buf: Vec<u8>,
}

impl RebuildWriter {
    /// A fresh writer with an empty stream.
    pub fn new() -> (r: Self)
        ensures
            r.buf@ == Seq::<u8>::empty(),
    {
        RebuildWriter { buf: Vec::new() }
    }

    /// Appends one serialized shard result to the stream as one frame and
    /// returns the frame's length.
    ///
    /// Fails, leaving the stream untouched, exactly when the schema
    /// encoding is too large for a Snappy block.
    pub fn append_ser(&mut self, sr: &ShardResult) -> (r: Result<usize, CorpusError>)
        ensures
            match r {
                Ok(n) => {
                    &&& final(self).buf@ == old(self).buf@ + spec_frame(sr@)
                    &&& n == spec_frame(sr@).len()
                    &&& frame_wf(sr@)
                },
                Err(e) => {
                    &&& e == CorpusError::OversizedRecord
                    &&& final(self).buf@ == old(self).buf@
                    &&& spec_enc_shard_result(sr@).len() > MAX_BLOCK_LEN
                },
            },
    {
        let payload = encode_shard_result(sr);
        if payload.len() > MAX_BLOCK_LEN {
            return Err(CorpusError::OversizedRecord);
        }
        proof {
            lemma_block_len_fits(payload@.len());
        }
        let start_len = self.buf.len();
        let block = snappy_compress(&payload);
        let block_len = block.len();
        self.buf.push(SCHEMA_VERSION);
        enc_u64(&mut self.buf, block.len() as u64);
        let mut block = block;
        self.buf.append(&mut block);
        proof {
            assert(self.buf@ =~= old(self).buf@ + spec_frame(sr@));
        }
        let n = self.buf.len() - start_len;
        Ok(n)
    }

    /// Appends every shard result of `srs`, in order, as one frame each,
    /// and returns how many bytes the frames took.
    ///
    /// Fails exactly when some record's encoding is too large for a
    /// Snappy block; the frames of the records before the failing one
    /// stay appended.
    pub fn extend_ser(&mut self, srs: &Vec<ShardResult>) -> (r: Result<usize, CorpusError>)
        ensures
            match r {
                Ok(n) => {
                    &&& final(self).buf@ == old(self).buf@ + spec_frames(
                        crate::rebuild::shard_results_view(srs@),
                    )
                    &&& n == spec_frames(crate::rebuild::shard_results_view(srs@)).len()
                    &&& frames_wf(crate::rebuild::shard_results_view(srs@))
                },
                Err(e) => {
                    &&& e == CorpusError::OversizedRecord
                    &&& exists|i: int|
                        0 <= i < srs@.len() && spec_enc_shard_result(
                            (#[trigger] srs@[i])@,
                        ).len() > MAX_BLOCK_LEN && final(self).buf@ == old(self).buf@
                            + spec_frames(crate::rebuild::shard_results_view(srs@).take(i))
                },
            },
    {
        let ghost vs0 = crate::rebuild::shard_results_view(srs@);
        let start_len = self.buf.len();
        proof {
            assert(self.buf@ =~= old(self).buf@ + spec_frames(vs0.take(0)));
        }
        let mut i: usize = 0;
        while i < srs.len()
            invariant
                i <= srs.len(),
                vs0 == crate::rebuild::shard_results_view(srs@),
                vs0.len() == srs@.len(),
                self.buf@ == old(self).buf@ + spec_frames(vs0.take(i as int)),
                start_len == old(self).buf@.len(),
                forall|t: int| 0 <= t < i ==> frame_wf(#[trigger] vs0[t]),
            decreases srs.len() - i,
        {
            proof {
                crate::rebuild::lemma_shard_results_view_index(srs@, i as int);
            }
            match self.append_ser(&srs[i]) {
                Ok(_) => {},
                Err(e) => {
                    proof {
                        assert(spec_enc_shard_result(srs@[i as int]@).len() > MAX_BLOCK_LEN
                            && self.buf@ == old(self).buf@ + spec_frames(vs0.take(i as int)));
                    }
                    return Err(e);
                },
            }
            proof {
                lemma_frames_snoc(vs0, i as int);
            }
            i = i + 1;
        }
        proof {
            assert(vs0.take(srs@.len() as int) =~= vs0);
        }
        let n = self.buf.len() - start_len;
        Ok(n)
    }

    /// Hands the buffered stream out and leaves the writer empty; the
    /// caller appends the bytes to the language's journal file.
    pub fn take_bytes(&mut self) -> (r: Vec<u8>)
        ensures
            r@ == old(self).buf@,
            final(self).buf@ == Seq::<u8>::empty(),
    {
        let mut out: Vec<u8> = Vec::new();
        core::mem::swap(&mut out, &mut self.buf);
        out
    }
}

/// One frame's prefix of frames: taking one more record appends its frame.
proof fn lemma_frames_snoc(vs: Seq<ShardResultView>, i: int)
    requires
        0 <= i < vs.len(),
    ensures
        spec_frames(vs.take(i + 1)) == spec_frames(vs.take(i)) + spec_frame(vs[i]),
    decreases i,
{
    if i == 0 {
        assert(vs.take(1) =~= seq![vs[0]]);
        assert(vs.take(1)[0] == vs[0]);
        assert(vs.take(1).drop_first() =~= Seq::<ShardResultView>::empty());
        assert(spec_frames(vs.take(1)) == spec_frame(vs.take(1)[0]) + spec_frames(
            vs.take(1).drop_first(),
        ));
        assert(spec_frames(vs.take(0)).len() == 0);
        assert(spec_frames(vs.take(1)) =~= spec_frame(vs[0]));
        assert(spec_frames(vs.take(0)) + spec_frame(vs[0]) =~= spec_frame(vs[0]));
    } else {
        lemma_frames_snoc(vs.drop_first(), i - 1);
        assert(vs.take(i + 1).drop_first() =~= vs.drop_first().take(i));
        assert(vs.take(i).drop_first() =~= vs.drop_first().take(i - 1));
        assert(vs.take(i + 1)[0] == vs[0]);
        assert(vs.take(i)[0] == vs[0]);
        assert(vs.drop_first()[i - 1] == vs[i]);
        assert((spec_frame(vs[0]) + spec_frames(vs.drop_first().take(i - 1))) + spec_frame(vs[i])
            =~= spec_frame(vs[0]) + (spec_frames(vs.drop_first().take(i - 1)) + spec_frame(
            vs[i],
        )));
    }
}

/// A frame takes at least its version byte and length field; no frames,
/// no bytes.
proof fn lemma_frames_min_len(srs: Seq<ShardResultView>)
    ensures
        srs.len() > 0 ==> spec_frames(srs).len() >= 9,
        srs.len() == 0 ==> spec_frames(srs).len() == 0,
{
    if srs.len() > 0 {
        lemma_auto_spec_u64_to_from_le_bytes();
        assert(spec_frame(srs[0]).len() >= 9);
    }
}

/// What one frame forces on the byte stream: when the stream from `pos`
/// on holds the frames of `srs.skip(k)`, the version byte, the length
/// field, the compressed block and the following frames all sit at fixed
/// places.
proof fn lemma_frame_layout(bytes: Seq<u8>, pos: int, srs: Seq<ShardResultView>, k: int)
    requires
        frames_wf(srs),
        0 <= k < srs.len(),
        0 <= pos <= bytes.len(),
        bytes.skip(pos) == spec_frames(srs.skip(k)),
    ensures
        snappy_of(spec_enc_shard_result(srs[k])).len() <= u64::MAX,
        pos + 9 + snappy_of(spec_enc_shard_result(srs[k])).len() <= bytes.len(),
        bytes[pos] == SCHEMA_VERSION,
        spec_dec_u64(bytes, pos + 1) == Some((
            snappy_of(spec_enc_shard_result(srs[k])).len() as u64,
            pos + 9,
        )),
        bytes.subrange(pos + 9, pos + 9 + snappy_of(spec_enc_shard_result(srs[k])).len())
            == snappy_of(spec_enc_shard_result(srs[k])),
        bytes.skip(pos + 9 + snappy_of(spec_enc_shard_result(srs[k])).len()) == spec_frames(
            srs.skip(k + 1),
        ),
{
    let enc = spec_enc_shard_result(srs[k]);
    let blk = snappy_of(enc);
    let frame = spec_frame(srs[k]);
    let rest = spec_frames(srs.skip(k + 1));
    assert(frame_wf(srs[k]));
    assert(srs.skip(k)[0] == srs[k]);
    assert(srs.skip(k).drop_first() =~= srs.skip(k + 1));
    assert(bytes.skip(pos) == frame + rest);
    lemma_auto_spec_u64_to_from_le_bytes();
    assert(frame.len() == 9 + blk.len());
    assert(bytes.skip(pos).len() == bytes.len() - pos);
    assert forall|j: int| 0 <= j < frame.len() implies bytes.subrange(pos, pos + frame.len())[j]
        == frame[j] by {
        assert(bytes.skip(pos)[j] == bytes[pos + j]);
        assert((frame + rest)[j] == frame[j]);
    }
    assert(bytes.subrange(pos, pos + frame.len()) =~= frame);
    let head = seq![SCHEMA_VERSION] + spec_u64_to_le_bytes(blk.len() as u64);
    assert(frame =~= head + blk);
    assert(bytes_at(bytes, pos, head + blk));
    lemma_bytes_at_split(bytes, pos, head, blk);
    lemma_bytes_at_split(bytes, pos, seq![SCHEMA_VERSION], spec_u64_to_le_bytes(blk.len() as u64));
    assert(bytes.subrange(pos, pos + 1)[0] == bytes[pos]);
    lemma_dec_enc_u64(bytes, pos + 1, blk.len() as u64);
    assert forall|j: int| 0 <= j < rest.len() implies bytes.skip(pos + frame.len())[j]
        == rest[j] by {
        assert(bytes.skip(pos)[frame.len() + j] == bytes[pos + frame.len() + j]);
        assert((frame + rest)[frame.len() + j] == rest[j]);
        assert(bytes.skip(pos + frame.len())[j] == bytes[pos + frame.len() + j]);
    }
    assert(bytes.skip(pos + frame.len()) =~= rest);
}

/// What the reader holds once it has produced `out` and reached `pos`:
/// for any frame sequence equal to the whole stream, `out` is its parsed
/// prefix and the rest of the stream is the remaining frames.
spec fn reader_inv(bytes: Seq<u8>, out: Seq<ShardResult>, pos: int) -> bool {
    forall|srs: Seq<ShardResultView>|
        frames_wf(srs) && bytes == #[trigger] spec_frames(srs) ==> {
            &&& out.len() <= srs.len()
            &&& shard_results_view(out) == srs.take(out.len() as int)
            &&& bytes.skip(pos) == spec_frames(srs.skip(out.len() as int))
        }
}

/// Decodes a whole journal stream back into its shard results.
///
/// An empty stream is a valid journal holding no records; a stream equal
/// to the frames of writable shard results decodes back to exactly those
/// records, in order; a stream that does not parse as frames of the
/// current schema version yields `None`.
pub fn read_shard_results(bytes: &Vec<u8>) -> (r: Option<Vec<ShardResult>>)
    ensures
        bytes@.len() == 0 ==> (r matches Some(v) && v@.len() == 0),
        forall|srs: Seq<ShardResultView>|
            frames_wf(srs) && bytes@ == #[trigger] spec_frames(srs) ==> (r matches Some(v)
                && shard_results_view(v@) == srs),
{
    let mut out: Vec<ShardResult> = Vec::new();
    let mut pos: usize = 0;
    proof {
        assert forall|srs: Seq<ShardResultView>|
            frames_wf(srs) && bytes@ == #[trigger] spec_frames(srs) implies out@.len() <= srs.len()
            && shard_results_view(out@) == srs.take(out@.len() as int) && bytes@.skip(pos as int)
            == spec_frames(srs.skip(out@.len() as int)) by {
            assert(shard_results_view(out@) =~= srs.take(0));
            assert(srs.skip(0) =~= srs);
            assert(bytes@.skip(0) =~= bytes@);
        }
    }
    while pos < bytes.len()
        invariant
            pos <= bytes.len(),
            bytes@.len() == 0 ==> out@.len() == 0,
            reader_inv(bytes@, out@, pos as int),
        decreases bytes.len() - pos,
    {
        let ghost k = out@.len() as int;
        if bytes[pos] != SCHEMA_VERSION {
            proof {
                assert forall|srs: Seq<ShardResultView>|
                    frames_wf(srs) && bytes@ == #[trigger] spec_frames(srs) implies false by {
                    lemma_frames_min_len(srs.skip(k));
                    lemma_frame_layout(bytes@, pos as int, srs, k);
                }
            }
            return None;
        }
        match dec_u64(bytes, pos + 1) {
            None => {
                proof {
                    assert forall|srs: Seq<ShardResultView>|
                        frames_wf(srs) && bytes@ == #[trigger] spec_frames(srs) implies false by {
                        lemma_frames_min_len(srs.skip(k));
                        lemma_frame_layout(bytes@, pos as int, srs, k);
                    }
                }
                return None;
            },
            Some((n, p)) => {
                if n > (bytes.len() - p) as u64 {
                    proof {
                        assert forall|srs: Seq<ShardResultView>|
                            frames_wf(srs) && bytes@ == #[trigger] spec_frames(srs) implies false by {
                            lemma_frames_min_len(srs.skip(k));
                            lemma_frame_layout(bytes@, pos as int, srs, k);
                        }
                    }
                    return None;
                }
                let end = p + (n as usize);
                let mut block: Vec<u8> = Vec::new();
                let mut c = p;
                proof {
                    assert(block@ =~= bytes@.subrange(p as int, p as int));
                }
                while c < end
                    invariant
                        p <= c <= end <= bytes.len(),
                        block@ == bytes@.subrange(p as int, c as int),
                    decreases end - c,
                {
                    block.push(bytes[c]);
                    proof {
                        assert(block@ =~= bytes@.subrange(p as int, c as int + 1));
                    }
                    c = c + 1;
                }
                match snappy_decompress(&block) {
                    None => {
                        proof {
                            assert forall|srs: Seq<ShardResultView>|
                                frames_wf(srs) && bytes@ == #[trigger] spec_frames(
                                srs,
                            ) implies false by {
                                lemma_frames_min_len(srs.skip(k));
                                lemma_frame_layout(bytes@, pos as int, srs, k);
                                assert(frame_wf(srs[k]));
                                let enc = spec_enc_shard_result(srs[k]);
                                assert(block@ == snappy_of(enc));
                            }
                        }
                        return None;
                    },
                    Some(payload) => {
                        let used_check = decode_shard_result(&payload, 0);
                        match used_check {
                            None => {
                                proof {
                                    assert forall|srs: Seq<ShardResultView>|
                                        frames_wf(srs) && bytes@ == #[trigger] spec_frames(
                                        srs,
                                    ) implies false by {
                                        lemma_frames_min_len(srs.skip(k));
                                        lemma_frame_layout(bytes@, pos as int, srs, k);
                                        assert(frame_wf(srs[k]));
                                        let enc = spec_enc_shard_result(srs[k]);
                                        assert(block@ == snappy_of(enc));
                                        assert(payload@ == enc);
                                        assert(payload@.subrange(0, enc.len() as int) =~= enc);
                                        lemma_dec_enc_shard_result(payload@, 0, srs[k]);
                                    }
                                }
                                return None;
                            },
                            Some((sr, used)) => {
                                if used != payload.len() {
                                    proof {
                                        assert forall|srs: Seq<ShardResultView>|
                                            frames_wf(srs) && bytes@ == #[trigger] spec_frames(
                                            srs,
                                        ) implies false by {
                                            lemma_frames_min_len(srs.skip(k));
                                            lemma_frame_layout(bytes@, pos as int, srs, k);
                                            assert(frame_wf(srs[k]));
                                            let enc = spec_enc_shard_result(srs[k]);
                                            assert(block@ == snappy_of(enc));
                                            assert(payload@ == enc);
                                            assert(payload@.subrange(0, enc.len() as int) =~= enc);
                                            lemma_dec_enc_shard_result(payload@, 0, srs[k]);
                                        }
                                    }
                                    return None;
                                }
                                let ghost out_before = out@;
                                out.push(sr);
                                proof {
                                    assert forall|srs: Seq<ShardResultView>|
                                        frames_wf(srs) && bytes@ == #[trigger] spec_frames(
                                        srs,
                                    ) implies out@.len() <= srs.len() && shard_results_view(out@)
                                        == srs.take(out@.len() as int) && bytes@.skip(end as int)
                                        == spec_frames(srs.skip(out@.len() as int)) by {
                                        lemma_frames_min_len(srs.skip(k));
                                        lemma_frame_layout(bytes@, pos as int, srs, k);
                                        assert(frame_wf(srs[k]));
                                        let enc = spec_enc_shard_result(srs[k]);
                                        assert(block@ == snappy_of(enc));
                                        assert(payload@ == enc);
                                        assert(payload@.subrange(0, enc.len() as int) =~= enc);
                                        lemma_dec_enc_shard_result(payload@, 0, srs[k]);
                                        assert(sr@ == srs[k]);
                                        assert forall|j: int| 0 <= j < out@.len() implies
                                            #[trigger] shard_results_view(out@)[j] == srs.take(
                                            k + 1,
                                        )[j] by {
                                            lemma_shard_results_view_index(out@, j);
                                            if j < k {
                                                lemma_shard_results_view_index(out_before, j);
                                            }
                                        }
                                        assert(shard_results_view(out@) =~= srs.take(k + 1));
                                    }
                                }
                                pos = end;
                            },
                        }
                    },
                }
            },
        }
    }
    proof {
        assert forall|srs: Seq<ShardResultView>|
            frames_wf(srs) && bytes@ == #[trigger] spec_frames(srs) implies shard_results_view(
            out@,
        ) == srs by {
            let k = out@.len() as int;
            assert(bytes@.skip(pos as int).len() == 0);
            lemma_frames_min_len(srs.skip(k));
            assert(srs.skip(k).len() == 0);
            assert(shard_results_view(out@) =~= srs);
        }
    }
    Some(out)
}

/// Outcome of examining the provenance destination root before any
/// journal is created: the root must be absent, or an empty directory.
///
/// `dst_exists`, `dst_is_file` and `dst_has_entries` are the three observations the
/// caller makes of the destination path.
pub fn check_rebuild_dst(dst_exists: bool, dst_is_file: bool, dst_has_entries: bool) -> (r: Result<
    (),
    CorpusError,
>)
    ensures
        (r is Ok) <==> (!dst_exists || (!dst_is_file && !dst_has_entries)),
        r matches Err(e) ==> (if dst_is_file {
            e == CorpusError::DestinationIsFile
        } else {
            e == CorpusError::DestinationNotEmpty
        }) && dst_exists,
{
    if !dst_exists {
        Ok(())
    } else if dst_is_file {
        Err(CorpusError::DestinationIsFile)
    } else if dst_has_entries {
        Err(CorpusError::DestinationNotEmpty)
    } else {
        Ok(())
    }
}

/// One journal writer per supported language.
pub struct RebuildWriters {
    pub writers: Vec<RebuildWriter>,
}

impl RebuildWriters {
    /// One writer per supported language, all empty.
    pub open spec fn fresh(&self) -> bool {
        &&& self.writers.len() == NB_LANGS
        &&& forall|l: int| 0 <= l < NB_LANGS ==> (#[trigger] self.writers[l]).buf@
            == Seq::<u8>::empty()
    }

    /// Shared access to one language's journal writer.
    pub fn get(&self, lang: usize) -> (r: Option<&RebuildWriter>)
        ensures
            match r {
                Some(w) => lang < self.writers.len() && *w == self.writers[lang as int],
                None => lang >= self.writers.len(),
            },
    {
        if lang < self.writers.len() {
            Some(&self.writers[lang])
        } else {
            None
        }
    }

    /// Builds the journal writer set against the observed state of the
    /// provenance destination root.
    ///
    /// Succeeds, with one empty journal per supported language, exactly
    /// when the root is absent or an empty directory; fails before any
    /// journal exists when the root is a file or holds entries.
    pub fn with_dst_state(dst_exists: bool, dst_is_file: bool, dst_has_entries: bool) -> (r: Result<
        Self,
        CorpusError,
    >)
        ensures
            (r is Ok) <==> (!dst_exists || (!dst_is_file && !dst_has_entries)),
            r matches Ok(ws) ==> ws.fresh(),
            r matches Err(e) ==> (if dst_is_file {
                e == CorpusError::DestinationIsFile
            } else {
                e == CorpusError::DestinationNotEmpty
            }) && dst_exists,
    {
        match check_rebuild_dst(dst_exists, dst_is_file, dst_has_entries) {
            Err(e) => Err(e),
            Ok(()) => {
                let mut writers: Vec<RebuildWriter> = Vec::new();
                let mut l: usize = 0;
                while l < NB_LANGS
                    invariant
                        l <= NB_LANGS,
                        writers.len() == l,
                        forall|t: int| 0 <= t < l ==> (#[trigger] writers[t]).buf@
                            == Seq::<u8>::empty(),
                    decreases NB_LANGS - l,
                {
                    writers.push(RebuildWriter::new());
                    l = l + 1;
                }
                Ok(RebuildWriters { writers })
            },
        }
    }
}

} // verus!
