//! Per-language content writers: an append-only line counter per
//! language, and the locations its appends assign to written pieces.

use vstd::prelude::*;

use crate::document::MergedPiece;
use crate::error::CorpusError;
use crate::lang::NB_LANGS;
use crate::types::{Location, Metadata, strs_view, lemma_strs_view_index};

verus! {

/// Lines a batch's first `i` pieces contribute.
pub open spec fn spec_prefix_lines(pieces: Seq<MergedPiece>, i: int) -> int
    decreases i,
{
    if i <= 0 {
        0
    } else {
        spec_prefix_lines(pieces, i - 1) + pieces[i - 1].sentences.len()
    }
}

pub proof fn lemma_prefix_lines_mono(pieces: Seq<MergedPiece>, i: int, j: int)
    requires
        0 <= i <= j,
    ensures
        spec_prefix_lines(pieces, i) <= spec_prefix_lines(pieces, j),
    decreases j - i,
{
    if i < j {
        lemma_prefix_lines_mono(pieces, i, j - 1);
    }
}

/// Prefix line counts look only at the pieces before the cut.
proof fn lemma_prefix_lines_agree(s: Seq<MergedPiece>, t: Seq<MergedPiece>, i: int)
    requires
        0 <= i <= s.len(),
        i <= t.len(),
        forall|j: int| 0 <= j < i ==> s[j] == t[j],
    ensures
        spec_prefix_lines(s, i) == spec_prefix_lines(t, i),
    decreases i,
{
    if i > 0 {
        lemma_prefix_lines_agree(s, t, i - 1);
    }
}

/// Offset tiling across shards: consecutive batches lay their pieces out
/// exactly as their concatenation would, since each batch starts at the
/// counter the one before left. With [`lemma_offset_tiling`] and
/// [`lemma_offset_tiling_cover`] applied to the concatenation of all of
/// one language's batches from counter zero, the recorded ranges of a
/// whole run are pairwise disjoint and tile `[0, total)` with no gap,
/// whatever the batch interleaving was.
pub proof fn lemma_prefix_lines_concat(p1: Seq<MergedPiece>, p2: Seq<MergedPiece>, i: int)
    requires
        0 <= i <= p2.len(),
    ensures
        spec_prefix_lines(p1 + p2, p1.len() + i) == spec_prefix_lines(p1, p1.len() as int)
            + spec_prefix_lines(p2, i),
    decreases i,
{
    if i == 0 {
        assert(forall|j: int| 0 <= j < p1.len() ==> (p1 + p2)[j] == p1[j]);
        lemma_prefix_lines_agree(p1 + p2, p1, p1.len() as int);
    } else {
        lemma_prefix_lines_concat(p1, p2, i - 1);
        assert((p1 + p2)[p1.len() + i - 1] == p2[i - 1]);
    }
}

/// The lines a batch appends to its language's content, piece after
/// piece in batch order.
pub open spec fn batch_lines(pieces: Seq<MergedPiece>) -> Seq<Seq<char>>
    decreases pieces.len(),
{
    if pieces.len() == 0 {
        Seq::empty()
    } else {
        strs_view(pieces[0].sentences@) + batch_lines(pieces.drop_first())
    }
}

/// Cutting the first piece off shifts the line count by its length.
proof fn lemma_prefix_lines_shift(pieces: Seq<MergedPiece>, i: int)
    requires
        1 <= i <= pieces.len(),
    ensures
        spec_prefix_lines(pieces, i) == pieces[0].sentences.len() + spec_prefix_lines(
            pieces.drop_first(),
            i - 1,
        ),
    decreases i,
{
    assert(spec_prefix_lines(pieces, 0) == 0);
    assert(spec_prefix_lines(pieces.drop_first(), 0) == 0);
    if i > 1 {
        lemma_prefix_lines_shift(pieces, i - 1);
        assert(pieces[i - 1] == pieces.drop_first()[i - 2]);
        assert(spec_prefix_lines(pieces, i) == spec_prefix_lines(pieces, i - 1) + pieces[i
            - 1].sentences.len());
        assert(spec_prefix_lines(pieces.drop_first(), i - 1) == spec_prefix_lines(
            pieces.drop_first(),
            i - 2,
        ) + pieces.drop_first()[i - 2].sentences.len());
    }
}

/// A batch's lines are exactly as many as its pieces' line counts sum to.
pub proof fn lemma_batch_lines_len(pieces: Seq<MergedPiece>)
    ensures
        batch_lines(pieces).len() == spec_prefix_lines(pieces, pieces.len() as int),
    decreases pieces.len(),
{
    if pieces.len() > 0 {
        lemma_batch_lines_len(pieces.drop_first());
        lemma_prefix_lines_shift(pieces, pieces.len() as int);
    }
}

/// Appending one more piece appends its lines.
proof fn lemma_batch_lines_snoc(pieces: Seq<MergedPiece>, i: int)
    requires
        0 <= i < pieces.len(),
    ensures
        batch_lines(pieces.take(i + 1)) == batch_lines(pieces.take(i)) + strs_view(
            pieces[i].sentences@,
        ),
    decreases i,
{
    if i == 0 {
        assert(pieces.take(1) =~= seq![pieces[0]]);
        assert(pieces.take(1)[0] == pieces[0]);
        assert(pieces.take(1).drop_first() =~= Seq::<MergedPiece>::empty());
        assert(batch_lines(Seq::<MergedPiece>::empty()) == Seq::<Seq<char>>::empty());
        assert(batch_lines(pieces.take(1)) == strs_view(pieces.take(1)[0].sentences@)
            + batch_lines(pieces.take(1).drop_first()));
        assert(batch_lines(pieces.take(1)) =~= strs_view(pieces[0].sentences@));
        assert(batch_lines(pieces.take(0)) + strs_view(pieces[0].sentences@) =~= strs_view(
            pieces[0].sentences@,
        ));
    } else {
        lemma_batch_lines_snoc(pieces.drop_first(), i - 1);
        assert(pieces.take(i + 1).drop_first() =~= pieces.drop_first().take(i));
        assert(pieces.take(i).drop_first() =~= pieces.drop_first().take(i - 1));
        assert(pieces.take(i + 1)[0] == pieces[0]);
        assert(pieces.take(i)[0] == pieces[0]);
        assert(pieces.drop_first()[i - 1] == pieces[i]);
        assert((strs_view(pieces[0].sentences@) + batch_lines(pieces.drop_first().take(i - 1)))
            + strs_view(pieces[i].sentences@) =~= strs_view(pieces[0].sentences@) + (batch_lines(
            pieces.drop_first().take(i - 1),
        ) + strs_view(pieces[i].sentences@)));
    }
}

/// Content binding: within a batch's lines, piece `i` occupies exactly
/// the interval its location records — from its cumulative line offset,
/// for its own line count.
pub proof fn lemma_batch_lines_interval(pieces: Seq<MergedPiece>, i: int)
    requires
        0 <= i < pieces.len(),
    ensures
        spec_prefix_lines(pieces, i) + pieces[i].sentences.len() <= batch_lines(pieces).len(),
        batch_lines(pieces).subrange(
            spec_prefix_lines(pieces, i),
            spec_prefix_lines(pieces, i) + pieces[i].sentences.len(),
        ) == strs_view(pieces[i].sentences@),
    decreases i,
{
    lemma_batch_lines_len(pieces);
    lemma_prefix_lines_mono(pieces, i + 1, pieces.len() as int);
    lemma_prefix_lines_mono(pieces, 0, i);
    assert(spec_prefix_lines(pieces, 0) == 0);
    let a = spec_prefix_lines(pieces, i);
    let l = pieces[i].sentences.len() as int;
    assert(spec_prefix_lines(pieces, i + 1) == a + l);
    assert(a + l <= batch_lines(pieces).len());
    assert(batch_lines(pieces) == strs_view(pieces[0].sentences@) + batch_lines(
        pieces.drop_first(),
    ));
    assert(strs_view(pieces[0].sentences@).len() == pieces[0].sentences@.len());
    if i == 0 {
        assert(spec_prefix_lines(pieces, 0) == 0);
        assert forall|j: int| 0 <= j < l implies batch_lines(pieces).subrange(a, a + l)[j]
            == strs_view(pieces[0].sentences@)[j] by {
            assert(batch_lines(pieces).subrange(a, a + l)[j] == batch_lines(pieces)[a + j]);
            assert(batch_lines(pieces)[j] == (strs_view(pieces[0].sentences@) + batch_lines(
                pieces.drop_first(),
            ))[j]);
        }
        assert(batch_lines(pieces).subrange(a, a + l) =~= strs_view(pieces[i].sentences@));
    } else {
        lemma_batch_lines_interval(pieces.drop_first(), i - 1);
        lemma_prefix_lines_shift(pieces, i);
        lemma_batch_lines_len(pieces.drop_first());
        let l0 = pieces[0].sentences.len() as int;
        let a2 = spec_prefix_lines(pieces.drop_first(), i - 1);
        lemma_prefix_lines_mono(pieces.drop_first(), 0, i - 1);
        assert(spec_prefix_lines(pieces.drop_first(), 0) == 0);
        assert(pieces.drop_first()[i - 1] == pieces[i]);
        assert(a == l0 + a2);
        assert forall|j: int| 0 <= j < l implies batch_lines(pieces).subrange(a, a + l)[j]
            == strs_view(pieces[i].sentences@)[j] by {
            assert(batch_lines(pieces).subrange(a, a + l)[j] == batch_lines(pieces)[a + j]);
            assert(batch_lines(pieces)[a + j] == (strs_view(pieces[0].sentences@) + batch_lines(
                pieces.drop_first(),
            ))[a + j]);
            assert((strs_view(pieces[0].sentences@) + batch_lines(pieces.drop_first()))[a + j]
                == batch_lines(pieces.drop_first())[a2 + j]);
            assert(batch_lines(pieces.drop_first()).subrange(a2, a2 + l)[j] == batch_lines(
                pieces.drop_first(),
            )[a2 + j]);
            assert(batch_lines(pieces.drop_first()).subrange(a2, a2 + l)[j] == strs_view(
                pieces[i].sentences@,
            )[j]);
        }
        assert(batch_lines(pieces).subrange(a, a + l) =~= strs_view(pieces[i].sentences@));
    }
}

/// The content writer of one language: its line counter, and the ghost
/// image of the lines its content file holds.
///
/// The real file handle lives with the caller; this type decides every
/// offset, and its ghost content is the proof-level image of what the
/// caller has appended.
pub struct LangWriter {
    pub lang: usize,
    pub lines_written: usize,
    pub content: Ghost<Seq<Seq<char>>>,
}

impl LangWriter {
    /// The counter always equals the number of content lines.
    pub open spec fn wf(&self) -> bool {
        self.lines_written == self.content@.len()
    }

    /// A fresh writer: empty content, counter zero.
    pub fn new(lang: usize) -> (r: Self)
        ensures
            r.lang == lang,
            r.lines_written == 0,
            r.content@ == Seq::<Seq<char>>::empty(),
            r.wf(),
    {
        LangWriter { lang, lines_written: 0, content: Ghost(Seq::empty()) }
    }

    /// Appends one piece: the piece's lines take the interval
    /// `[r, r + n - 1]` of the content file, where `r` is the returned
    /// counter value and `n` the piece's line count, and the counter
    /// advances past them.
    pub fn append(&mut self, piece: &MergedPiece) -> (r: usize)
        requires
            old(self).wf(),
            piece.lang == old(self).lang,
            piece.sentences.len() > 0,
            old(self).lines_written + piece.sentences.len() <= usize::MAX,
        ensures
            final(self).wf(),
            r == old(self).lines_written,
            final(self).lang == old(self).lang,
            final(self).lines_written == old(self).lines_written + piece.sentences.len(),
            final(self).content@ == old(self).content@ + strs_view(piece.sentences@),
    {
        let start = self.lines_written;
        self.lines_written = self.lines_written + piece.sentences.len();
        proof {
            self.content@ = self.content@ + strs_view(piece.sentences@);
            lemma_strs_view_index(piece.sentences@, 0);
        }
        start
    }

    /// Appends a whole language batch of one shard, and assigns each
    /// piece its location: shard id, source record, the content-file line
    /// interval its append took, and its ordinal within the batch.
    ///
    /// The piece's metadata is built from the same append: its
    /// identifications travel into the returned [`Metadata`] untouched.
    pub fn write_batch(&mut self, shard_id: usize, pieces: Vec<MergedPiece>) -> (r: Result<
        (Vec<Location>, Vec<Metadata>),
        CorpusError,
    >)
        requires
            old(self).wf(),
            old(self).lines_written + spec_prefix_lines(pieces@, pieces@.len() as int)
                <= usize::MAX,
            forall|i: int| 0 <= i < pieces@.len() ==> (#[trigger] pieces@[i].sentences.len()) > 0,
        ensures
            final(self).wf(),
            final(self).lang == old(self).lang,
            match r {
                Ok((locs, metas)) => {
                    &&& forall|i: int| 0 <= i < pieces@.len()
                        ==> (#[trigger] pieces@[i].lang) == old(self).lang
                    &&& locs.len() == pieces@.len()
                    &&& metas.len() == pieces@.len()
                    &&& final(self).lines_written == old(self).lines_written + spec_prefix_lines(
                        pieces@,
                        pieces@.len() as int,
                    )
                    &&& final(self).content@ == old(self).content@ + batch_lines(pieces@)
                    &&& forall|i: int| 0 <= i < locs.len() ==> {
                        let loc = (#[trigger] locs[i])@;
                        &&& loc.shard_id == shard_id
                        &&& loc.record_id == pieces@[i].record_id@
                        &&& loc.line_start == old(self).lines_written + spec_prefix_lines(
                            pieces@,
                            i,
                        )
                        &&& loc.line_end + 1 == loc.line_start + pieces@[i].sentences.len()
                        &&& loc.loc_in_shard == i
                        &&& loc.wf()
                    }
                    &&& forall|i: int| 0 <= i < metas.len() ==> {
                        let m = (#[trigger] metas[i])@;
                        &&& m.identification == pieces@[i].identification@
                        &&& m.annotation is None
                        &&& m.sentence_identifications == crate::types::opt_idents_view(
                            pieces@[i].sentence_identifications@,
                        )
                    }
                },
                Err(e) => {
                    &&& e == CorpusError::UnknownLanguage
                    &&& exists|i: int| 0 <= i < pieces@.len() && (#[trigger] pieces@[i].lang)
                        != old(self).lang
                    &&& *final(self) == *old(self)
                },
            },
    {
        let ghost pieces0 = pieces@;
        let ghost self0 = *self;
        let mut v: usize = 0;
        while v < pieces.len()
            invariant
                v <= pieces.len(),
                pieces@ == pieces0,
                *self == self0,
                self0 == *old(self),
                self.wf(),
                forall|t: int| 0 <= t < v ==> (#[trigger] pieces0[t].lang) == self0.lang,
            decreases pieces.len() - v,
        {
            if pieces[v].lang != self.lang {
                return Err(CorpusError::UnknownLanguage);
            }
            v = v + 1;
        }
        let mut remaining = pieces;
        let mut locs: Vec<Location> = Vec::new();
        let mut metas: Vec<Metadata> = Vec::new();
        proof {
            assert(self.content@ =~= self0.content@ + batch_lines(pieces0.take(0)));
        }
        let mut i: usize = 0;
        while remaining.len() > 0
            invariant
                self.wf(),
                self.lang == self0.lang,
                self0 == *old(self),
                pieces0.len() <= usize::MAX,
                forall|t: int| 0 <= t < pieces0.len() ==> (#[trigger] pieces0[t].lang)
                    == self0.lang,
                i + remaining.len() == pieces0.len(),
                remaining@ == pieces0.skip(i as int),
                locs.len() == i,
                metas.len() == i,
                self0.lines_written + spec_prefix_lines(pieces0, pieces0.len() as int)
                    <= usize::MAX,
                forall|t: int| 0 <= t < pieces0.len() ==> (#[trigger] pieces0[t].sentences.len())
                    > 0,
                self.lines_written == self0.lines_written + spec_prefix_lines(pieces0, i as int),
                self.content@ == self0.content@ + batch_lines(pieces0.take(i as int)),
                forall|t: int| 0 <= t < i ==> {
                    let loc = (#[trigger] locs[t])@;
                    &&& loc.shard_id == shard_id
                    &&& loc.record_id == pieces0[t].record_id@
                    &&& loc.line_start == self0.lines_written + spec_prefix_lines(pieces0, t)
                    &&& loc.line_end + 1 == loc.line_start + pieces0[t].sentences.len()
                    &&& loc.loc_in_shard == t
                    &&& loc.wf()
                },
                forall|t: int| 0 <= t < i ==> {
                    let m = (#[trigger] metas[t])@;
                    &&& m.identification == pieces0[t].identification@
                    &&& m.annotation is None
                    &&& m.sentence_identifications == crate::types::opt_idents_view(
                        pieces0[t].sentence_identifications@,
                    )
                },
            decreases remaining.len(),
        {
            let piece = remaining.remove(0);
            proof {
                assert(piece == pieces0[i as int]);
                assert(remaining@ =~= pieces0.skip(i as int + 1));
                lemma_prefix_lines_mono(pieces0, i as int + 1, pieces0.len() as int);
            }
            let start = self.append(&piece);
            proof {
                lemma_batch_lines_snoc(pieces0, i as int);
                assert(self.content@ =~= self0.content@ + batch_lines(pieces0.take(i as int + 1)));
            }
            let n = piece.sentences.len();
            let MergedPiece {
                lang: _,
                sentences: _,
                line_start: _,
                line_end: _,
                record_id,
                headers: _,
                identification,
                sentence_identifications,
            } = piece;
            let loc = Location::new(shard_id, record_id, start, start + n - 1, i);
            let meta = Metadata::new(identification, None, sentence_identifications);
            locs.push(loc);
            metas.push(meta);
            i = i + 1;
        }
        proof {
            assert(pieces0.skip(pieces0.len() as int) =~= Seq::<MergedPiece>::empty());
            assert(pieces0.take(pieces0.len() as int) =~= pieces0);
        }
        Ok((locs, metas))
    }
}

/// Offset tiling: the line intervals a batch's pieces take, laid out by
/// cumulative line counts from any starting counter, are pairwise
/// disjoint, ordered, and cover the counter's whole advance with no gap.
pub proof fn lemma_offset_tiling(pieces: Seq<MergedPiece>, base: int)
    requires
        forall|i: int| 0 <= i < pieces.len() ==> (#[trigger] pieces[i].sentences.len()) > 0,
    ensures
        forall|i: int, j: int| 0 <= i < j < pieces.len() ==> base + spec_prefix_lines(pieces, i)
            + pieces[i].sentences.len() - 1 < base + spec_prefix_lines(pieces, j),
{
    assert forall|i: int, j: int| 0 <= i < j < pieces.len() implies base + spec_prefix_lines(
        pieces,
        i,
    ) + pieces[i].sentences.len() - 1 < base + spec_prefix_lines(pieces, j) by {
        lemma_prefix_lines_mono(pieces, i + 1, j);
    }
}

/// Offset tiling, the gap-free half: every line index the counter passed
/// over lies inside exactly one piece's interval; together with
/// [`lemma_offset_tiling`], the intervals sorted by start tile the
/// counter's advance `[base, base + total)`.
pub proof fn lemma_offset_tiling_cover(pieces: Seq<MergedPiece>, base: int, k: int)
    requires
        forall|i: int| 0 <= i < pieces.len() ==> (#[trigger] pieces[i].sentences.len()) > 0,
        base <= k < base + spec_prefix_lines(pieces, pieces.len() as int),
    ensures
        exists|i: int|
            0 <= i < pieces.len() && base + spec_prefix_lines(pieces, i) <= k <= base
                + spec_prefix_lines(pieces, i) + (#[trigger] pieces[i].sentences.len()) - 1,
{
    lemma_tiling_cover(pieces, k - base, pieces.len() as int);
    let w = choose|i: int|
        0 <= i < pieces.len() as int && spec_prefix_lines(pieces, i) <= k - base
            <= spec_prefix_lines(pieces, i) + (#[trigger] pieces[i].sentences.len()) - 1;
    assert(0 <= w < pieces.len() && base + spec_prefix_lines(pieces, w) <= k <= base
        + spec_prefix_lines(pieces, w) + pieces[w].sentences.len() - 1);
}

proof fn lemma_tiling_cover(pieces: Seq<MergedPiece>, x: int, n: int)
    requires
        0 <= n <= pieces.len(),
        0 <= x < spec_prefix_lines(pieces, n),
        forall|i: int| 0 <= i < pieces.len() ==> (#[trigger] pieces[i].sentences.len()) > 0,
    ensures
        exists|i: int|
            0 <= i < n && spec_prefix_lines(pieces, i) <= x <= spec_prefix_lines(pieces, i) + (
            #[trigger] pieces[i].sentences.len()) - 1,
    decreases n,
{
    if x >= spec_prefix_lines(pieces, n - 1) {
        assert(0 <= n - 1 < n && spec_prefix_lines(pieces, n - 1) <= x <= spec_prefix_lines(
            pieces,
            n - 1,
        ) + pieces[n - 1].sentences.len() - 1);
    } else {
        lemma_tiling_cover(pieces, x, n - 1);
    }
}

/// One content writer per supported language, created at startup whether
/// or not the language ever receives a piece.
pub struct LangFiles {
    pub writers: Vec<LangWriter>,
}

impl LangFiles {
    /// Each position holds a fresh or advanced writer of that language.
    pub open spec fn wf(&self) -> bool {
        &&& self.writers.len() == NB_LANGS
        &&& forall|l: int| 0 <= l < NB_LANGS ==> (#[trigger] self.writers[l]).wf()
            && self.writers[l].lang == l
    }

    /// One fresh writer per supported language.
    pub fn new() -> (r: Self)
        ensures
            r.wf(),
            forall|l: int| 0 <= l < NB_LANGS ==> (#[trigger] r.writers[l]).lines_written == 0,
    {
        let mut writers: Vec<LangWriter> = Vec::new();
        let mut l: usize = 0;
        while l < NB_LANGS
            invariant
                l <= NB_LANGS,
                writers.len() == l,
                forall|t: int| 0 <= t < l ==> (#[trigger] writers[t]).wf() && writers[t].lang == t
                    && writers[t].lines_written == 0,
            decreases NB_LANGS - l,
        {
            writers.push(LangWriter::new(l));
            l = l + 1;
        }
        LangFiles { writers }
    }

    /// Shared access to one language's writer.
    pub fn get(&self, lang: usize) -> (r: Option<&LangWriter>)
        ensures
            match r {
                Some(w) => lang < self.writers.len() && *w == self.writers[lang as int],
                None => lang >= self.writers.len(),
            },
    {
        if lang < self.writers.len() {
            Some(&self.writers[lang])
        } else {
            None
        }
    }
}

} // verus!
