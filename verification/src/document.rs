//! One record's document and its merging into maximal contiguous
//! same-language pieces.

use vstd::prelude::*;

use crate::types::{Identification, IdentView, opt_idents_view, strs_view, WarcHeaders};

verus! {

/// One surviving line of a record: its text, the classifier's
/// identification, and the table position of the identified language.
#[derive(Debug, Clone)]
pub struct Sentence {
    pub text: String,
    pub identification: Identification,
    pub lang: usize,
}

/// One record, decoded and classified: its identity, its headers, and its
/// surviving lines in original order.
pub struct Document {
    pub record_id: String,
    pub headers: WarcHeaders,
    pub sentences: Vec<Sentence>,
}

/// A maximal contiguous run of same-language lines within one record,
/// ready to be appended to that language's content file.
///
/// `line_start` and `line_end` are the run's inclusive line offsets within
/// its document.
#[derive(Debug, Clone)]
pub struct MergedPiece {
    pub lang: usize,
    pub sentences: Vec<String>,
    pub line_start: usize,
    pub line_end: usize,
    pub record_id: String,
    pub headers: WarcHeaders,
    pub identification: Identification,
    pub sentence_identifications: Vec<Option<Identification>>,
}

impl MergedPiece {
    /// Number of lines of the piece.
    pub fn nb_sentences(&self) -> (r: usize)
        ensures
            r == self.sentences.len(),
    {
        self.sentences.len()
    }

    /// The table position of the piece's language.
    pub fn identification(&self) -> (r: usize)
        ensures
            r == self.lang,
    {
        self.lang
    }
}

/// The pieces `r` are the maximal contiguous same-language runs of the
/// sentences `s`, in order: they tile `[0, s.len())`, each is uniform in
/// one language, and neighbouring pieces differ in language.
pub open spec fn merged_pieces_of(r: Seq<MergedPiece>, s: Seq<Sentence>) -> bool {
    &&& (r.len() == 0 <==> s.len() == 0)
    &&& (r.len() > 0 ==> r[0].line_start == 0 && r[r.len() - 1].line_end == s.len() - 1)
    &&& forall|i: int| 0 <= i < r.len() ==> (#[trigger] r[i].line_start) <= r[i].line_end
        < s.len()
    &&& forall|i: int| 0 < i < r.len() ==> (#[trigger] r[i].line_start) == r[i - 1].line_end + 1
    &&& forall|i: int, j: int| 0 <= i < r.len() && r[i].line_start <= j <= r[i].line_end
        ==> (#[trigger] s[j].lang) == (#[trigger] r[i].lang)
    &&& forall|i: int| 0 < i < r.len() ==> (#[trigger] r[i].lang) != r[i - 1].lang
}

/// Each piece of `r` carries the texts and identifications of its run of
/// `s`, its language's identification from its first line, and the
/// record's identity.
pub open spec fn pieces_carry_runs(
    r: Seq<MergedPiece>,
    s: Seq<Sentence>,
    record_id: Seq<char>,
    headers: Seq<(String, String)>,
) -> bool {
    forall|i: int| 0 <= i < r.len() ==> {
        let p = #[trigger] r[i];
        &&& p.sentences.len() == p.line_end + 1 - p.line_start
        &&& p.sentence_identifications.len() == p.sentences.len()
        &&& forall|k: int| 0 <= k < p.sentences.len() ==> {
            &&& (#[trigger] p.sentences[k])@ == s[p.line_start + k].text@
            &&& p.sentence_identifications[k] matches Some(id) && id@ == s[p.line_start
                + k].identification@
        }
        &&& p.identification@ == s[p.line_start as int].identification@
        &&& p.record_id@ == record_id
        &&& strs_view(p.headers@.map_values(|h: (String, String)| h.0)) == strs_view(
            headers.map_values(|h: (String, String)| h.0),
        )
        &&& strs_view(p.headers@.map_values(|h: (String, String)| h.1)) == strs_view(
            headers.map_values(|h: (String, String)| h.1),
        )
    }
}

/// A merger's pieces are never empty: each holds its run's lines, and a
/// run holds at least one line. This is what a content writer asks of a
/// batch before appending it.
pub proof fn lemma_merged_pieces_nonempty(
    r: Seq<MergedPiece>,
    s: Seq<Sentence>,
    record_id: Seq<char>,
    headers: Seq<(String, String)>,
)
    requires
        merged_pieces_of(r, s),
        pieces_carry_runs(r, s, record_id, headers),
    ensures
        forall|i: int| 0 <= i < r.len() ==> (#[trigger] r[i].sentences.len()) > 0,
{
}

/// Copies a header list field by field.
fn clone_headers(h: &WarcHeaders) -> (r: WarcHeaders)
    ensures
        strs_view(r@.map_values(|p: (String, String)| p.0)) == strs_view(
            h@.map_values(|p: (String, String)| p.0),
        ),
        strs_view(r@.map_values(|p: (String, String)| p.1)) == strs_view(
            h@.map_values(|p: (String, String)| p.1),
        ),
{
    let mut r: WarcHeaders = Vec::new();
    let mut i: usize = 0;
    while i < h.len()
        invariant
            i <= h.len(),
            r.len() == i,
            forall|j: int| 0 <= j < i ==> (#[trigger] r@[j]).0@ == h@[j].0@ && r@[j].1@
                == h@[j].1@,
        decreases h.len() - i,
    {
        let key = h[i].0.clone();
        let val = h[i].1.clone();
        r.push((key, val));
        i = i + 1;
    }
    proof {
        let ks_r = r@.map_values(|p: (String, String)| p.0);
        let ks_h = h@.map_values(|p: (String, String)| p.0);
        let vs_r = r@.map_values(|p: (String, String)| p.1);
        let vs_h = h@.map_values(|p: (String, String)| p.1);
        assert forall|j: int| 0 <= j < r@.len() implies #[trigger] strs_view(ks_r)[j] == strs_view(
            ks_h,
        )[j] && strs_view(vs_r)[j] == strs_view(vs_h)[j] by {
            crate::types::lemma_strs_view_index(ks_r, j);
            crate::types::lemma_strs_view_index(ks_h, j);
            crate::types::lemma_strs_view_index(vs_r, j);
            crate::types::lemma_strs_view_index(vs_h, j);
        }
        assert(strs_view(ks_r) =~= strs_view(ks_h));
        assert(strs_view(vs_r) =~= strs_view(vs_h));
    }
    r
}

impl Document {
    /// Builds a document from its parts.
    pub fn new(record_id: String, headers: WarcHeaders, sentences: Vec<Sentence>) -> (r: Self)
        ensures
            r == (Document { record_id, headers, sentences }),
    {
        Document { record_id, headers, sentences }
    }

    /// Groups the document's lines into maximal contiguous same-language
    /// pieces, in document order.
    ///
    /// A document with no surviving lines yields no pieces; a single line
    /// yields one one-line piece; strictly alternating languages yield one
    /// piece per line.
    pub fn into_merged_pieces_lang(self) -> (r: Vec<MergedPiece>)
        ensures
            merged_pieces_of(r@, self.sentences@),
            pieces_carry_runs(r@, self.sentences@, self.record_id@, self.headers@),
            forall|i: int| 0 <= i < r.len() ==> (#[trigger] r[i].lang) == self.sentences@[r[i].line_start as int].lang,
    {
        let Document { record_id, headers, sentences } = self;
        let n = sentences.len();
        let mut pieces: Vec<MergedPiece> = Vec::new();
        let mut i: usize = 0;
        while i < n
            invariant
                i <= n,
                n == sentences.len(),
                pieces.len() == 0 <==> i == 0,
                pieces.len() > 0 ==> pieces@[0].line_start == 0 && pieces@[pieces.len()
                    - 1].line_end == i - 1,
                forall|t: int| 0 <= t < pieces.len() ==> (#[trigger] pieces@[t].line_start)
                    <= pieces@[t].line_end < i,
                forall|t: int| 0 < t < pieces.len() ==> (#[trigger] pieces@[t].line_start)
                    == pieces@[t - 1].line_end + 1,
                forall|t: int, j: int| 0 <= t < pieces.len() && pieces@[t].line_start <= j
                    <= pieces@[t].line_end ==> (#[trigger] sentences@[j].lang) == (
                #[trigger] pieces@[t].lang),
                forall|t: int| 0 < t < pieces.len() ==> (#[trigger] pieces@[t].lang) != pieces@[t
                    - 1].lang,
                i > 0 && i < n && pieces.len() > 0 ==> sentences@[i as int].lang != pieces@[pieces.len()
                    - 1].lang,
                pieces_carry_runs(pieces@, sentences@, record_id@, headers@),
                forall|t: int| 0 <= t < pieces.len() ==> (#[trigger] pieces@[t].lang)
                    == sentences@[pieces@[t].line_start as int].lang,
            decreases n - i,
        {
            let run_lang = sentences[i].lang;
            let mut j: usize = i + 1;
            while j < n && sentences[j].lang == run_lang
                invariant
                    i < j <= n,
                    n == sentences.len(),
                    run_lang == sentences@[i as int].lang,
                    forall|k: int| i <= k < j ==> (#[trigger] sentences@[k].lang) == run_lang,
                decreases n - j,
            {
                j = j + 1;
            }
            let mut texts: Vec<String> = Vec::new();
            let mut idents: Vec<Option<Identification>> = Vec::new();
            let mut k: usize = i;
            while k < j
                invariant
                    i <= k <= j <= n,
                    n == sentences.len(),
                    texts.len() == k - i,
                    idents.len() == k - i,
                    forall|t: int| 0 <= t < texts.len() ==> (#[trigger] texts@[t])@ == sentences@[i
                        + t].text@,
                    forall|t: int| 0 <= t < idents.len() ==> ((#[trigger] idents@[t]) matches Some(
                        id,
                    ) && id@ == sentences@[i + t].identification@),
                decreases j - k,
            {
                texts.push(sentences[k].text.clone());
                let id = &sentences[k].identification;
                idents.push(Some(Identification { label: id.label.clone(), prob_bits: id.prob_bits }));
                k = k + 1;
            }
            let first = &sentences[i].identification;
            let piece = MergedPiece {
                lang: run_lang,
                sentences: texts,
                line_start: i,
                line_end: j - 1,
                record_id: record_id.clone(),
                headers: clone_headers(&headers),
                identification: Identification {
                    label: first.label.clone(),
                    prob_bits: first.prob_bits,
                },
                sentence_identifications: idents,
            };
            pieces.push(piece);
            i = j;
        }
        pieces
    }
}

} // verus!
