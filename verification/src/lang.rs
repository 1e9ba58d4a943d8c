//! The static supported-language table.
//!
//! The set of language codes is fixed for the run's lifetime: one content
//! file and one provenance journal exist per entry, and a classifier label
//! outside this table is rejected during record processing.

use vstd::prelude::*;
use vstd::string::StringExecFns;

verus! {

/// Number of supported languages.
pub const NB_LANGS: usize = 8;

/// The supported language codes, as character sequences, in table order.
pub open spec fn spec_lang_codes() -> Seq<Seq<char>> {
    seq!["en"@, "fr"@, "de"@, "es"@, "it"@, "pt"@, "nl"@, "ru"@]
}

/// Position of `label` in the supported-language table, scanning from `i`.
pub open spec fn spec_lang_index_from(label: Seq<char>, i: int) -> Option<int>
    decreases spec_lang_codes().len() - i,
{
    if i < 0 || i >= spec_lang_codes().len() {
        None
    } else if spec_lang_codes()[i] == label {
        Some(i)
    } else {
        spec_lang_index_from(label, i + 1)
    }
}

/// Position of `label` in the supported-language table, or `None` if the
/// label is not a supported language.
pub open spec fn spec_lang_index(label: Seq<char>) -> Option<int> {
    spec_lang_index_from(label, 0)
}

/// The supported-language table as owned strings, in table order.
pub fn lang_codes() -> (r: Vec<String>)
    ensures
        r.deep_view() == spec_lang_codes(),
        r.len() == NB_LANGS,
{
    let mut v: Vec<String> = Vec::new();
    v.push(String::from_str("en"));
    v.push(String::from_str("fr"));
    v.push(String::from_str("de"));
    v.push(String::from_str("es"));
    v.push(String::from_str("it"));
    v.push(String::from_str("pt"));
    v.push(String::from_str("nl"));
    v.push(String::from_str("ru"));
    proof {
        assert(v.deep_view() =~= spec_lang_codes());
    }
    v
}

/// The code of the language at table position `i`.
pub fn lang_code(i: usize) -> (r: String)
    requires
        i < NB_LANGS,
    ensures
        r@ == spec_lang_codes()[i as int],
{
    let codes = lang_codes();
    let c: &String = &codes[i];
    c.clone()
}

/// Looks `label` up in the supported-language table.
///
/// Returns the table position of the label, or `None` for a label outside
/// the supported set.
pub fn lang_index(label: &String) -> (r: Option<usize>)
    ensures
        match r {
            Some(i) => i < NB_LANGS && spec_lang_index(label@) == Some(i as int),
            None => spec_lang_index(label@) is None,
        },
{
    let codes = lang_codes();
    let mut i: usize = 0;
    while i < NB_LANGS
        invariant
            i <= NB_LANGS,
            codes.deep_view() == spec_lang_codes(),
            codes.len() == NB_LANGS,
            spec_lang_index(label@) == spec_lang_index_from(label@, i as int),
        decreases NB_LANGS - i,
    {
        proof {
            assert(codes.deep_view()[i as int] == codes@[i as int]@);
        }
        if label.eq(&codes[i]) {
            assert(spec_lang_codes()[i as int] == label@);
            return Some(i);
        }
        assert(spec_lang_codes()[i as int] != label@);
        i = i + 1;
    }
    None
}

} // verus!
