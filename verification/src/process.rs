//! Record processing: keeps only sufficiently long lines whose predicted
//! language is in the supported table, preserving original line order.

use vstd::prelude::*;
use vstd::string::StrSliceExecFns;
use vstd::utf8::{decode_utf8, encode_utf8_decode_utf8, valid_utf8};

use crate::document::Sentence;
use crate::lang::{spec_lang_index, lang_index, NB_LANGS};
use crate::schema::str_from_utf8;
use crate::types::{lemma_strs_view_index, strs_view, IdentView, Identification};

verus! {

/// Lines at or under this character count are dropped as boilerplate.
pub const MIN_SENTENCE_LEN: usize = 100;

/// A line survives when it is long enough and its prediction names a
/// supported language.
pub open spec fn spec_keep(line: String, pred: Option<Identification>) -> bool {
    &&& line@.len() > MIN_SENTENCE_LEN
    &&& pred matches Some(id) && spec_lang_index(id.label@) is Some
}

/// The surviving (line, identification, language) triples of a record, in
/// original line order.
pub open spec fn spec_process(lines: Seq<String>, preds: Seq<Option<Identification>>) -> Seq<
    (Seq<char>, IdentView, int),
>
    decreases lines.len(),
{
    if lines.len() == 0 || preds.len() == 0 {
        Seq::empty()
    } else {
        let rest = spec_process(lines.drop_first(), preds.drop_first());
        if spec_keep(lines[0], preds[0]) {
            seq![
                (
                    lines[0]@,
                    preds[0]->Some_0@,
                    spec_lang_index(preds[0]->Some_0.label@)->Some_0,
                ),
            ] + rest
        } else {
            rest
        }
    }
}

/// Model of a sentence list, as the triples `spec_process` produces.
pub open spec fn sentences_model(s: Seq<Sentence>) -> Seq<(Seq<char>, IdentView, int)> {
    s.map_values(|x: Sentence| (x.text@, x.identification@, x.lang as int))
}

/// The model of a sentence list is the elementwise model.
pub proof fn lemma_sentences_model_index(s: Seq<Sentence>, i: int)
    requires
        0 <= i < s.len(),
    ensures
        sentences_model(s).len() == s.len(),
        sentences_model(s)[i] == (s[i].text@, s[i].identification@, s[i].lang as int),
{
}

/// Validates one line's prediction against the supported-language table.
///
/// Returns the line as a sentence exactly when a prediction is present
/// and its label is a supported language; the line's length is not
/// examined here.
pub fn identify_sentence(sentence: String, prediction: Option<Identification>) -> (r: Option<
    Sentence,
>)
    ensures
        match r {
            Some(s) => {
                &&& prediction matches Some(id) && s.identification == id
                &&& spec_lang_index(s.identification.label@) == Some(s.lang as int)
                &&& s.lang < NB_LANGS
                &&& s.text == sentence
            },
            None => match prediction {
                Some(id) => spec_lang_index(id.label@) is None,
                None => true,
            },
        },
        r is Some <==> (prediction matches Some(id) && spec_lang_index(id.label@) is Some),
{
    match prediction {
        None => None,
        Some(id) => match lang_index(&id.label) {
            None => None,
            Some(ix) => Some(Sentence { text: sentence, identification: id, lang: ix }),
        },
    }
}

/// Turns one record's lines and their predictions into the record's
/// surviving sentences, in original line order.
///
/// A line is kept exactly when its character count exceeds
/// [`MIN_SENTENCE_LEN`], a prediction is present, and the predicted label
/// is a supported language.
pub fn process_record(lines: Vec<String>, predictions: Vec<Option<Identification>>) -> (r: Vec<
    Sentence,
>)
    requires
        lines.len() == predictions.len(),
    ensures
        sentences_model(r@) == spec_process(lines@, predictions@),
{
    let n = lines.len();
    let mut lines = lines;
    let mut predictions = predictions;
    let ghost lines0 = lines@;
    let ghost preds0 = predictions@;
    let mut out: Vec<Sentence> = Vec::new();
    let mut i: usize = 0;
    while i < n
        invariant
            i <= n,
            n == lines0.len(),
            n == preds0.len(),
            lines@ == lines0.skip(i as int),
            predictions@ == preds0.skip(i as int),
            spec_process(lines0, preds0) == sentences_model(out@) + spec_process(
                lines0.skip(i as int),
                preds0.skip(i as int),
            ),
        decreases n - i,
    {
        let line = lines.remove(0);
        let pred = predictions.remove(0);
        let ghost out_before = out@;
        proof {
            assert(line == lines0.skip(i as int)[0]);
            assert(pred == preds0.skip(i as int)[0]);
            assert(lines@ =~= lines0.skip(i as int + 1));
            assert(predictions@ =~= preds0.skip(i as int + 1));
            assert(lines0.skip(i as int).drop_first() =~= lines0.skip(i as int + 1));
            assert(preds0.skip(i as int).drop_first() =~= preds0.skip(i as int + 1));
        }
        if line.as_str().unicode_len() > MIN_SENTENCE_LEN {
            match identify_sentence(line, pred) {
                None => {
                    proof {
                        assert(!spec_keep(lines0.skip(i as int)[0], preds0.skip(i as int)[0]));
                    }
                },
                Some(s) => {
                    out.push(s);
                    proof {
                        assert(spec_keep(lines0.skip(i as int)[0], preds0.skip(i as int)[0]));
                        assert forall|j: int| 0 <= j < out@.len() implies #[trigger] sentences_model(
                            out@,
                        )[j] == (sentences_model(out_before) + seq![
                            (s.text@, s.identification@, s.lang as int),
                        ])[j] by {
                            lemma_sentences_model_index(out@, j);
                            if j < out_before.len() {
                                lemma_sentences_model_index(out_before, j);
                            }
                        }
                        assert(sentences_model(out@) =~= sentences_model(out_before) + seq![
                            (s.text@, s.identification@, s.lang as int),
                        ]);
                    }
                },
            }
        } else {
            proof {
                assert(!spec_keep(lines0.skip(i as int)[0], preds0.skip(i as int)[0]));
            }
        }
        i = i + 1;
    }
    proof {
        assert(lines0.skip(n as int) =~= Seq::<String>::empty());
        assert(preds0.skip(n as int) =~= Seq::<Option<Identification>>::empty());
        assert(sentences_model(out@) =~= sentences_model(out@) + spec_process(
            lines0.skip(n as int),
            preds0.skip(n as int),
        ));
    }
    out
}

/// Position of the first line feed of `s` at or after `i`, or the text's
/// end when none follows.
pub open spec fn spec_first_nl(s: Seq<char>, i: int) -> int
    decreases s.len() - i,
{
    if i < 0 {
        0
    } else if i >= s.len() {
        s.len() as int
    } else if s[i] == '\n' {
        i
    } else {
        spec_first_nl(s, i + 1)
    }
}

/// The first line feed at or after `i` is the first position from `i` on
/// that holds one.
pub proof fn lemma_first_nl_bounds(s: Seq<char>, i: int)
    requires
        0 <= i <= s.len(),
    ensures
        i <= spec_first_nl(s, i) <= s.len(),
        forall|j: int| i <= j < spec_first_nl(s, i) ==> s[j] != '\n',
        spec_first_nl(s, i) < s.len() ==> s[spec_first_nl(s, i)] == '\n',
    decreases s.len() - i,
{
    if i < s.len() && s[i] != '\n' {
        lemma_first_nl_bounds(s, i + 1);
    }
}

/// One produced line: the run before a line feed, with a carriage return
/// stripped when the line feed directly followed one.
pub open spec fn spec_strip_cr(line: Seq<char>) -> Seq<char> {
    if line.len() > 0 && line.last() == '\r' {
        line.drop_last()
    } else {
        line
    }
}

/// The lines of a text, split at `'\n'` or `"\r\n"`; the final line
/// ending is optional, and a carriage return not followed by a line feed
/// stays in its line.
pub open spec fn spec_lines(s: Seq<char>) -> Seq<Seq<char>>
    decreases s.len(),
{
    if s.len() == 0 {
        Seq::empty()
    } else {
        let k = vstd::math::max(0, spec_first_nl(s, 0));
        if k >= s.len() {
            seq![s]
        } else {
            seq![spec_strip_cr(s.take(k))] + spec_lines(s.skip(k + 1))
        }
    }
}

/// Splits a record body into its lines, as the line ends define them.
pub fn split_lines(s: &str) -> (r: Vec<String>)
    ensures
        strs_view(r@) == spec_lines(s@),
    decreases s@.len(),
{
    let n = s.unicode_len();
    if n == 0 {
        let r: Vec<String> = Vec::new();
        proof {
            assert(strs_view(r@) =~= spec_lines(s@));
        }
        return r;
    }
    let mut k: usize = 0;
    while k < n && s.get_char(k) != '\n'
        invariant
            k <= n,
            n == s@.len(),
            forall|j: int| 0 <= j < k ==> s@[j] != '\n',
        decreases n - k,
    {
        k = k + 1;
    }
    proof {
        lemma_first_nl_bounds(s@, 0);
        if spec_first_nl(s@, 0) < k as int {
            assert(s@[spec_first_nl(s@, 0)] == '\n');
            assert(false);
        }
        if (k as int) < spec_first_nl(s@, 0) {
            assert(s@[k as int] == '\n');
            assert(false);
        }
        assert(spec_first_nl(s@, 0) == k as int);
    }
    if k == n {
        let mut r: Vec<String> = Vec::new();
        r.push(s.to_owned());
        proof {
            assert forall|j: int| 0 <= j < r@.len() implies #[trigger] strs_view(r@)[j]
                == spec_lines(s@)[j] by {
                lemma_strs_view_index(r@, j);
            }
            assert(strs_view(r@) =~= spec_lines(s@));
        }
        return r;
    }
    let line_end = if k > 0 && s.get_char(k - 1) == '\r' {
        k - 1
    } else {
        k
    };
    let line = s.substring_char(0, line_end).to_owned();
    let rest = s.substring_char(k + 1, n);
    let rest_lines = split_lines(rest);
    let ghost rest0 = rest_lines@;
    let mut r = rest_lines;
    r.insert(0, line);
    proof {
        assert(s@.take(k as int).len() == k);
        if k > 0 && s@[k as int - 1] == '\r' {
            assert(s@.take(k as int).last() == s@[k as int - 1]);
            assert(line@ =~= spec_strip_cr(s@.take(k as int)));
        } else {
            assert(line@ =~= spec_strip_cr(s@.take(k as int)));
        }
        assert(rest@ =~= s@.skip(k as int + 1));
        assert(spec_lines(s@) == seq![spec_strip_cr(s@.take(k as int))] + spec_lines(
            s@.skip(k as int + 1),
        ));
        assert forall|j: int| 0 <= j < r@.len() implies #[trigger] strs_view(r@)[j] == (seq![
            line@,
        ] + strs_view(rest0))[j] by {
            lemma_strs_view_index(r@, j);
            if j > 0 {
                lemma_strs_view_index(rest0, j - 1);
                assert(r@[j] == rest0[j - 1]);
            }
        }
        assert(strs_view(r@) =~= seq![line@] + strs_view(rest0));
        assert(strs_view(r@) =~= spec_lines(s@));
    }
    r
}

/// Decodes a record body and splits it into lines.
///
/// Succeeds exactly on a valid UTF-8 body; an invalid body is the
/// caller's cue to skip the record.
pub fn body_to_lines(body: Vec<u8>) -> (r: Option<Vec<String>>)
    ensures
        r is Some <==> valid_utf8(body@),
        r matches Some(v) ==> strs_view(v@) == spec_lines(decode_utf8(body@)),
{
    match str_from_utf8(body.as_slice()) {
        None => None,
        Some(s) => {
            proof {
                encode_utf8_decode_utf8(s@);
            }
            Some(split_lines(s))
        },
    }
}

/// Filtering law: every sentence a record yields has more than
/// [`MIN_SENTENCE_LEN`] characters, and its language is the supported
/// table's position of its predicted label.
pub proof fn lemma_filtering(lines: Seq<String>, preds: Seq<Option<Identification>>)
    ensures
        forall|i: int| 0 <= i < spec_process(lines, preds).len() ==> {
            let t = #[trigger] spec_process(lines, preds)[i];
            &&& t.0.len() > MIN_SENTENCE_LEN
            &&& spec_lang_index(t.1.label) == Some(t.2)
        },
    decreases lines.len(),
{
    if lines.len() == 0 || preds.len() == 0 {
    } else {
        lemma_filtering(lines.drop_first(), preds.drop_first());
    }
}

} // verus!
