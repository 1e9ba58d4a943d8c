//! Shard-level dispatch: grouping a shard's pieces by language and
//! coupling each content append with its provenance entry.

use vstd::prelude::*;

use crate::document::MergedPiece;
use crate::error::CorpusError;
use crate::lang::NB_LANGS;
use crate::rebuild::ShardResult;
use crate::types::{opt_idents_view, strs_view};
use crate::writer::{
    batch_lines, lemma_batch_lines_interval, lemma_batch_lines_len, lemma_prefix_lines_mono,
    spec_prefix_lines, LangWriter,
};

verus! {

/// The pieces of language `l`, in their original order.
pub open spec fn pieces_of_lang(pieces: Seq<MergedPiece>, l: int) -> Seq<MergedPiece>
    decreases pieces.len(),
{
    if pieces.len() == 0 {
        Seq::empty()
    } else {
        let rest = pieces_of_lang(pieces.drop_first(), l);
        if pieces[0].lang == l {
            seq![pieces[0]] + rest
        } else {
            rest
        }
    }
}

/// Sorts a shard's pieces into one bucket per supported language,
/// keeping each language's pieces in their original order.
///
/// A piece tagged outside the supported table is a logic error upstream;
/// it is rejected here rather than written anywhere.
pub fn group_pieces_by_lang(pieces: Vec<MergedPiece>) -> (r: Result<
    Vec<Vec<MergedPiece>>,
    CorpusError,
>)
    ensures
        match r {
            Ok(buckets) => {
                &&& buckets.len() == NB_LANGS
                &&& forall|l: int| 0 <= l < NB_LANGS ==> (#[trigger] buckets[l])@
                    == pieces_of_lang(pieces@, l)
                &&& forall|i: int| 0 <= i < pieces@.len() ==> (#[trigger] pieces@[i].lang)
                    < NB_LANGS
            },
            Err(e) => {
                &&& e == CorpusError::UnknownLanguage
                &&& exists|i: int| 0 <= i < pieces@.len() && (#[trigger] pieces@[i].lang)
                    >= NB_LANGS
            },
        },
{
    let ghost pieces0 = pieces@;
    let mut v: usize = 0;
    while v < pieces.len()
        invariant
            v <= pieces.len(),
            pieces@ == pieces0,
            forall|t: int| 0 <= t < v ==> (#[trigger] pieces0[t].lang) < NB_LANGS,
        decreases pieces.len() - v,
    {
        if pieces[v].lang >= NB_LANGS {
            return Err(CorpusError::UnknownLanguage);
        }
        v = v + 1;
    }
    let mut buckets: Vec<Vec<MergedPiece>> = Vec::new();
    let mut l: usize = 0;
    while l < NB_LANGS
        invariant
            l <= NB_LANGS,
            buckets.len() == l,
            forall|t: int| 0 <= t < l ==> (#[trigger] buckets[t])@ == Seq::<MergedPiece>::empty(),
        decreases NB_LANGS - l,
    {
        buckets.push(Vec::new());
        l = l + 1;
    }
    let mut remaining = pieces;
    let mut i: usize = 0;
    while remaining.len() > 0
        invariant
            buckets.len() == NB_LANGS,
            i + remaining.len() == pieces0.len(),
            pieces0.len() <= usize::MAX,
            remaining@ == pieces0.skip(i as int),
            forall|t: int| 0 <= t < pieces0.len() ==> (#[trigger] pieces0[t].lang) < NB_LANGS,
            forall|t: int| 0 <= t < NB_LANGS ==> pieces_of_lang(pieces0, t) == (
            #[trigger] buckets[t])@ + pieces_of_lang(pieces0.skip(i as int), t),
        decreases remaining.len(),
    {
        let piece = remaining.remove(0);
        let lang = piece.lang;
        let ghost b0 = buckets@;
        let ghost pc = piece;
        proof {
            assert(pc == pieces0[i as int]);
            assert(remaining@ =~= pieces0.skip(i as int + 1));
            assert(pieces0.skip(i as int).drop_first() =~= pieces0.skip(i as int + 1));
        }
        let mut bucket = buckets.remove(lang);
        let ghost bl0 = bucket@;
        bucket.push(piece);
        buckets.insert(lang, bucket);
        proof {
            assert(buckets@ =~= b0.update(lang as int, buckets@[lang as int]));
            assert(buckets@[lang as int]@ =~= bl0 + seq![pc]);
            assert forall|t: int| 0 <= t < NB_LANGS implies pieces_of_lang(pieces0, t) == (
            #[trigger] buckets[t])@ + pieces_of_lang(pieces0.skip(i as int + 1), t) by {
                if t == lang as int {
                    assert(pieces_of_lang(pieces0.skip(i as int), t) =~= seq![pc]
                        + pieces_of_lang(pieces0.skip(i as int + 1), t));
                    assert((bl0 + seq![pc]) + pieces_of_lang(pieces0.skip(i as int + 1), t) =~= bl0
                        + pieces_of_lang(pieces0.skip(i as int), t));
                } else {
                    assert(pieces_of_lang(pieces0.skip(i as int), t) == pieces_of_lang(
                        pieces0.skip(i as int + 1),
                        t,
                    ));
                    assert(buckets@[t] == b0[t]);
                }
            }
        }
        i = i + 1;
    }
    proof {
        assert(pieces0.skip(pieces0.len() as int) =~= Seq::<MergedPiece>::empty());
        assert forall|t: int| 0 <= t < NB_LANGS implies (#[trigger] buckets[t])@ == pieces_of_lang(
            pieces0,
            t,
        ) by {
            assert(pieces_of_lang(Seq::<MergedPiece>::empty(), t) =~= Seq::<MergedPiece>::empty());
            assert(buckets[t]@ + Seq::<MergedPiece>::empty() =~= buckets[t]@);
        }
    }
    Ok(buckets)
}

/// Writes one language's batch of a shard and returns the shard's
/// provenance record for that language: content append and provenance
/// entry come from the same append call, so the recorded line interval is
/// exactly the interval the piece occupies in the content file.
pub fn write_shard_lang(writer: &mut LangWriter, shard_id: usize, pieces: Vec<MergedPiece>) -> (r:
    Result<ShardResult, CorpusError>)
    requires
        old(writer).wf(),
        old(writer).lines_written + spec_prefix_lines(pieces@, pieces@.len() as int) <= usize::MAX,
        forall|i: int| 0 <= i < pieces@.len() ==> (#[trigger] pieces@[i].sentences.len()) > 0,
        shard_id as u64 <= i64::MAX as u64,
    ensures
        final(writer).wf(),
        final(writer).lang == old(writer).lang,
        match r {
            Ok(sr) => {
                &&& sr.shard_id == shard_id as i64
                &&& sr.rebuild_info.len() == pieces@.len()
                &&& final(writer).lines_written == old(writer).lines_written + spec_prefix_lines(
                    pieces@,
                    pieces@.len() as int,
                )
                &&& final(writer).content@ == old(writer).content@ + batch_lines(pieces@)
                &&& forall|i: int| 0 <= i < pieces@.len() ==> {
                    let e = (#[trigger] sr.rebuild_info[i])@;
                    final(writer).content@.subrange(e.line_start as int, e.line_end + 1)
                        == strs_view(pieces@[i].sentences@)
                }
                &&& forall|i: int| 0 <= i < pieces@.len() ==> {
                    let e = (#[trigger] sr.rebuild_info[i])@;
                    &&& e.shard_id == shard_id
                    &&& e.record_id == pieces@[i].record_id@
                    &&& e.line_start == old(writer).lines_written + spec_prefix_lines(pieces@, i)
                    &&& e.line_end + 1 == e.line_start + pieces@[i].sentences.len()
                    &&& e.loc_in_shard == i
                    &&& e.metadata.identification == pieces@[i].identification@
                    &&& e.metadata.annotation is None
                    &&& e.metadata.sentence_identifications == opt_idents_view(
                        pieces@[i].sentence_identifications@,
                    )
                }
            },
            Err(e) => {
                &&& e == CorpusError::UnknownLanguage
                &&& exists|i: int| 0 <= i < pieces@.len() && (#[trigger] pieces@[i].lang) != old(
                    writer,
                ).lang
                &&& *final(writer) == *old(writer)
            },
        },
{
    let ghost p0 = pieces@;
    match writer.write_batch(shard_id, pieces) {
        Err(e) => Err(e),
        Ok((locs, metas)) => {
            let sr = ShardResult::new(shard_id as i64, locs, metas);
            proof {
                assert forall|i: int| 0 <= i < p0.len() implies {
                    let e = (#[trigger] sr.rebuild_info[i])@;
                    &&& e.shard_id == shard_id
                    &&& e.record_id == p0[i].record_id@
                    &&& e.line_start == old(writer).lines_written + spec_prefix_lines(p0, i)
                    &&& e.line_end + 1 == e.line_start + p0[i].sentences.len()
                    &&& e.loc_in_shard == i
                    &&& e.metadata.identification == p0[i].identification@
                    &&& e.metadata.annotation is None
                    &&& e.metadata.sentence_identifications == opt_idents_view(
                        p0[i].sentence_identifications@,
                    )
                } by {
                    assert(sr.rebuild_info[i]@.location() == locs[i]@);
                    assert(sr.rebuild_info[i]@.metadata == metas[i]@);
                    assert(sr.rebuild_info[i]@.location().shard_id == sr.rebuild_info[i]@.shard_id);
                    assert(sr.rebuild_info[i]@.location().record_id == sr.rebuild_info[i]@.record_id);
                    assert(sr.rebuild_info[i]@.location().line_start == sr.rebuild_info[i]@.line_start);
                    assert(sr.rebuild_info[i]@.location().line_end == sr.rebuild_info[i]@.line_end);
                    assert(sr.rebuild_info[i]@.location().loc_in_shard
                        == sr.rebuild_info[i]@.loc_in_shard);
                }
                assert forall|i: int| 0 <= i < p0.len() implies {
                    let e = (#[trigger] sr.rebuild_info[i])@;
                    writer.content@.subrange(e.line_start as int, e.line_end + 1) == strs_view(
                        p0[i].sentences@,
                    )
                } by {
                    lemma_batch_lines_interval(p0, i);
                    lemma_batch_lines_len(p0);
                    lemma_prefix_lines_mono(p0, 0, i);
                    assert(spec_prefix_lines(p0, 0) == 0);
                    assert(spec_prefix_lines(p0, i + 1) == spec_prefix_lines(p0, i)
                        + p0[i].sentences.len());
                    lemma_prefix_lines_mono(p0, i + 1, p0.len() as int);
                    let e = sr.rebuild_info[i]@;
                    let base = old(writer).content@.len() as int;
                    let a = spec_prefix_lines(p0, i);
                    let l = p0[i].sentences.len() as int;
                    assert(e.line_start == base + a);
                    assert(e.line_end + 1 == base + a + l);
                    assert forall|j: int| 0 <= j < l implies writer.content@.subrange(
                        e.line_start as int,
                        e.line_end + 1,
                    )[j] == strs_view(p0[i].sentences@)[j] by {
                        assert(writer.content@.subrange(e.line_start as int, e.line_end + 1)[j]
                            == writer.content@[e.line_start + j]);
                        assert(writer.content@[base + a + j] == (old(writer).content@
                            + batch_lines(p0))[base + a + j]);
                        assert((old(writer).content@ + batch_lines(p0))[base + a + j]
                            == batch_lines(p0)[a + j]);
                        assert(batch_lines(p0).subrange(a, a + l)[j] == batch_lines(p0)[a + j]);
                    }
                    assert(writer.content@.subrange(e.line_start as int, e.line_end + 1)
                        =~= strs_view(p0[i].sentences@));
                }
            }
            Ok(sr)
        },
    }
}

} // verus!
