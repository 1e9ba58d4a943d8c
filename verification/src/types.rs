//! Core data model: classifier identifications, piece metadata, and the
//! location of a written piece inside its language's content file.

use vstd::prelude::*;

verus! {

/// One classifier prediction: a language label and the confidence the
/// classifier reported for it.
///
/// The confidence is a 32-bit IEEE-754 value carried as its raw bits, so
/// that the core never computes on it: it is recorded at classification
/// time and reproduced verbatim by the provenance journal.
#[derive(Debug, Clone, PartialEq)]
pub struct Identification {
    pub label: String,
    pub prob_bits: u32,
}

/// Mathematical model of an [`Identification`].
pub struct IdentView {
    pub label: Seq<char>,
    pub prob_bits: u32,
}

impl View for Identification {
    type V = IdentView;

    open spec fn view(&self) -> IdentView {
        IdentView { label: self.label@, prob_bits: self.prob_bits }
    }
}

/// Model of an optional identification.
pub open spec fn opt_ident_view(o: Option<Identification>) -> Option<IdentView> {
    match o {
        Some(id) => Some(id@),
        None => None,
    }
}

/// Model of a per-line identification list.
pub open spec fn opt_idents_view(s: Seq<Option<Identification>>) -> Seq<Option<IdentView>> {
    s.map_values(|o: Option<Identification>| opt_ident_view(o))
}

/// The model of an identification list is the elementwise model.
pub proof fn lemma_opt_idents_view_index(s: Seq<Option<Identification>>, i: int)
    requires
        0 <= i < s.len(),
    ensures
        opt_idents_view(s).len() == s.len(),
        opt_idents_view(s)[i] == opt_ident_view(s[i]),
{
}

/// Model of a list of strings.
pub open spec fn strs_view(s: Seq<String>) -> Seq<Seq<char>> {
    s.map_values(|x: String| x@)
}

/// The model of a string list is the elementwise model.
pub proof fn lemma_strs_view_index(s: Seq<String>, i: int)
    requires
        0 <= i < s.len(),
    ensures
        strs_view(s).len() == s.len(),
        strs_view(s)[i] == s[i]@,
{
}

/// Model of an optional annotation list.
pub open spec fn annotation_view(o: Option<Vec<String>>) -> Option<Seq<Seq<char>>> {
    match o {
        Some(a) => Some(strs_view(a@)),
        None => None,
    }
}

impl Identification {
    pub fn new(label: String, prob_bits: u32) -> (r: Self)
        ensures
            r@.label == label@,
            r@.prob_bits == prob_bits,
    {
        Identification { label, prob_bits }
    }

    pub fn label(&self) -> (r: &String)
        ensures
            r@ == self@.label,
    {
        &self.label
    }

    pub fn prob_bits(&self) -> (r: u32)
        ensures
            r == self@.prob_bits,
    {
        self.prob_bits
    }
}

impl Default for Identification {
    fn default() -> (r: Self)
        ensures
            r@.label == Seq::<char>::empty(),
            r@.prob_bits == 0,
    {
        Identification { label: String::new(), prob_bits: 0 }
    }
}

/// Piece-level identification plus the per-line identifications of the
/// piece's run, preserved even after merging lines into one block.
#[derive(Debug, Clone, PartialEq)]
pub struct Metadata {
    pub identification: Identification,
    pub annotation: Option<Vec<String>>,
    pub sentence_identifications: Vec<Option<Identification>>,
}

/// Mathematical model of a [`Metadata`].
pub struct MetadataView {
    pub identification: IdentView,
    pub annotation: Option<Seq<Seq<char>>>,
    pub sentence_identifications: Seq<Option<IdentView>>,
}

impl View for Metadata {
    type V = MetadataView;

    open spec fn view(&self) -> MetadataView {
        MetadataView {
            identification: self.identification@,
            annotation: annotation_view(self.annotation),
            sentence_identifications: opt_idents_view(self.sentence_identifications@),
        }
    }
}

impl Metadata {
    pub fn new(
        identification: Identification,
        annotation: Option<Vec<String>>,
        sentence_identifications: Vec<Option<Identification>>,
    ) -> (r: Self)
        ensures
            r == (Metadata { identification, annotation, sentence_identifications }),
    {
        Metadata { identification, annotation, sentence_identifications }
    }

    pub fn identification(&self) -> (r: &Identification)
        ensures
            r@ == self@.identification,
    {
        &self.identification
    }

    pub fn annotation(&self) -> (r: &Option<Vec<String>>)
        ensures
            *r == self.annotation,
    {
        &self.annotation
    }

    pub fn sentence_identifications(&self) -> (r: &Vec<Option<Identification>>)
        ensures
            *r == self.sentence_identifications,
    {
        &self.sentence_identifications
    }
}

impl Default for Metadata {
    fn default() -> (r: Self)
        ensures
            r@.identification.label == Seq::<char>::empty(),
            r@.identification.prob_bits == 0,
            r@.annotation is None,
            r@.sentence_identifications == Seq::<Option<IdentView>>::empty(),
    {
        let r = Metadata {
            identification: Identification::default(),
            annotation: None,
            sentence_identifications: Vec::new(),
        };
        proof {
            assert(r@.sentence_identifications =~= Seq::<Option<IdentView>>::empty());
        }
        r
    }
}

/// Where a written piece sits: which shard and record it came from, the
/// line interval it occupies in its language's content file, and its
/// ordinal among the pieces its shard emitted for that language.
///
/// `line_start` and `line_end` are inclusive; a piece of `n` lines written
/// at counter value `c` occupies `[c, c + n - 1]`.
#[derive(Debug, Clone, PartialEq)]
pub struct Location {
    pub shard_id: usize,
    pub record_id: String,
    pub line_start: usize,
    pub line_end: usize,
    pub loc_in_shard: usize,
}

/// Mathematical model of a [`Location`].
pub struct LocationView {
    pub shard_id: usize,
    pub record_id: Seq<char>,
    pub line_start: usize,
    pub line_end: usize,
    pub loc_in_shard: usize,
}

impl View for Location {
    type V = LocationView;

    open spec fn view(&self) -> LocationView {
        LocationView {
            shard_id: self.shard_id,
            record_id: self.record_id@,
            line_start: self.line_start,
            line_end: self.line_end,
            loc_in_shard: self.loc_in_shard,
        }
    }
}

impl LocationView {
    /// A location is well formed when its line interval is not empty.
    pub open spec fn wf(&self) -> bool {
        self.line_start <= self.line_end
    }
}

impl Location {
    pub fn new(
        shard_id: usize,
        record_id: String,
        line_start: usize,
        line_end: usize,
        loc_in_shard: usize,
    ) -> (r: Self)
        requires
            line_start <= line_end,
        ensures
            r@ == (LocationView {
                shard_id,
                record_id: record_id@,
                line_start,
                line_end,
                loc_in_shard,
            }),
            r@.wf(),
    {
        Location { shard_id, record_id, line_start, line_end, loc_in_shard }
    }

    pub fn shard_id(&self) -> (r: usize)
        ensures
            r == self@.shard_id,
    {
        self.shard_id
    }

    pub fn record_id(&self) -> (r: &String)
        ensures
            r@ == self@.record_id,
    {
        &self.record_id
    }

    pub fn line_start(&self) -> (r: usize)
        ensures
            r == self@.line_start,
    {
        self.line_start
    }

    pub fn line_end(&self) -> (r: usize)
        ensures
            r == self@.line_end,
    {
        self.line_end
    }

    pub fn loc_in_shard(&self) -> (r: usize)
        ensures
            r == self@.loc_in_shard,
    {
        self.loc_in_shard
    }
}

impl Default for Location {
    fn default() -> (r: Self)
        ensures
            r@.shard_id == 0,
            r@.record_id == Seq::<char>::empty(),
            r@.line_start == 0,
            r@.line_end == 0,
            r@.loc_in_shard == 0,
            r@.wf(),
    {
        Location {
            shard_id: 0,
            record_id: String::new(),
            line_start: 0,
            line_end: 0,
            loc_in_shard: 0,
        }
    }
}

/// The header map of one crawl record, as plain key/value pairs.
pub type WarcHeaders = Vec<(String, String)>;

} // verus!
