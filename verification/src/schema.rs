//! The journal's fixed, versioned nested binary schema.
//!
//! Four record shapes are encoded: identification, metadata, rebuild
//! information and shard result, nested in that order. Integers are
//! little-endian and fixed width, strings are a byte length followed by
//! UTF-8 bytes, options are a one-byte tag, and lists are an element count
//! followed by the elements. Every encoder has a matching decoder and the
//! pair is proved to round-trip.

use vstd::prelude::*;
use vstd::bytes::{
    lemma_auto_spec_u32_to_from_le_bytes, lemma_auto_spec_u64_to_from_le_bytes,
    spec_u32_from_le_bytes, spec_u32_to_le_bytes, spec_u64_from_le_bytes, spec_u64_to_le_bytes,
    u32_from_le_bytes, u32_to_le_bytes, u64_from_le_bytes, u64_to_le_bytes,
};
use vstd::utf8::{encode_utf8, decode_utf8, valid_utf8, encode_utf8_valid_utf8,
    encode_utf8_decode_utf8};
use vstd::slice::slice_subrange;
use vstd::string::{StringSliceAdditionalSpecFns, StrSliceExecFns};

use crate::rebuild::{RebuildInfoView, ShardResultView};
use crate::types::{
    lemma_opt_idents_view_index, lemma_strs_view_index, opt_ident_view, opt_idents_view,
    strs_view, IdentView, Identification, Metadata, MetadataView,
};
use crate::rebuild::{lemma_rebuild_infos_view_index, rebuild_infos_view, RebuildInformation, ShardResult};

verus! {

/// `sub` occupies `b` from `pos` on.
pub open spec fn bytes_at(b: Seq<u8>, pos: int, sub: Seq<u8>) -> bool {
    &&& 0 <= pos
    &&& pos + sub.len() <= b.len()
    &&& b.subrange(pos, pos + sub.len()) == sub
}

/// A prefix of an occupied stretch is occupied, and so is the rest after it.
pub proof fn lemma_bytes_at_split(b: Seq<u8>, pos: int, s1: Seq<u8>, s2: Seq<u8>)
    requires
        bytes_at(b, pos, s1 + s2),
    ensures
        bytes_at(b, pos, s1),
        bytes_at(b, pos + s1.len(), s2),
{
    assert forall|i: int| 0 <= i < s1.len() implies b.subrange(pos, pos + s1.len())[i] == s1[i] by {
        assert(b.subrange(pos, pos + (s1 + s2).len())[i] == (s1 + s2)[i]);
    }
    assert(b.subrange(pos, pos + s1.len()) =~= s1);
    assert forall|i: int| 0 <= i < s2.len() implies b.subrange(
        pos + s1.len(),
        pos + s1.len() + s2.len(),
    )[i] == s2[i] by {
        assert(b.subrange(pos, pos + (s1 + s2).len())[s1.len() + i] == (s1 + s2)[s1.len() + i]);
    }
    assert(b.subrange(pos + s1.len(), pos + s1.len() + s2.len()) =~= s2);
}

// --- integers ---

/// Parses a little-endian `u64` at `pos`.
pub open spec fn spec_dec_u64(b: Seq<u8>, pos: int) -> Option<(u64, int)> {
    if 0 <= pos && pos + 8 <= b.len() {
        Some((spec_u64_from_le_bytes(b.subrange(pos, pos + 8)), pos + 8))
    } else {
        None
    }
}

/// Parses a little-endian `u32` at `pos`.
pub open spec fn spec_dec_u32(b: Seq<u8>, pos: int) -> Option<(u32, int)> {
    if 0 <= pos && pos + 4 <= b.len() {
        Some((spec_u32_from_le_bytes(b.subrange(pos, pos + 4)), pos + 4))
    } else {
        None
    }
}

pub proof fn lemma_dec_enc_u64(b: Seq<u8>, pos: int, x: u64)
    requires
        bytes_at(b, pos, spec_u64_to_le_bytes(x)),
    ensures
        spec_dec_u64(b, pos) == Some((x, pos + 8)),
{
    lemma_auto_spec_u64_to_from_le_bytes();
}

pub proof fn lemma_dec_enc_u32(b: Seq<u8>, pos: int, x: u32)
    requires
        bytes_at(b, pos, spec_u32_to_le_bytes(x)),
    ensures
        spec_dec_u32(b, pos) == Some((x, pos + 4)),
{
    lemma_auto_spec_u32_to_from_le_bytes();
}

/// Appends the little-endian bytes of `x`.
pub fn enc_u64(out: &mut Vec<u8>, x: u64)
    ensures
        final(out)@ == old(out)@ + spec_u64_to_le_bytes(x),
{
    let mut b = u64_to_le_bytes(x);
    out.append(&mut b);
}

/// Appends the little-endian bytes of `x`.
pub fn enc_u32(out: &mut Vec<u8>, x: u32)
    ensures
        final(out)@ == old(out)@ + spec_u32_to_le_bytes(x),
{
    let mut b = u32_to_le_bytes(x);
    out.append(&mut b);
}

/// Reads a little-endian `u64` at `pos`.
pub fn dec_u64(b: &Vec<u8>, pos: usize) -> (r: Option<(u64, usize)>)
    ensures
        match r {
            Some((x, p)) => spec_dec_u64(b@, pos as int) == Some((x, p as int)),
            None => spec_dec_u64(b@, pos as int) is None,
        },
{
    if pos <= b.len() && b.len() - pos >= 8 {
        let s = slice_subrange(b.as_slice(), pos, pos + 8);
        let x = u64_from_le_bytes(s);
        Some((x, pos + 8))
    } else {
        None
    }
}

/// Reads a little-endian `u32` at `pos`.
pub fn dec_u32(b: &Vec<u8>, pos: usize) -> (r: Option<(u32, usize)>)
    ensures
        match r {
            Some((x, p)) => spec_dec_u32(b@, pos as int) == Some((x, p as int)),
            None => spec_dec_u32(b@, pos as int) is None,
        },
{
    if pos <= b.len() && b.len() - pos >= 4 {
        let s = slice_subrange(b.as_slice(), pos, pos + 4);
        let x = u32_from_le_bytes(s);
        Some((x, pos + 4))
    } else {
        None
    }
}

// --- strings ---

/// Encoding of a string: UTF-8 byte length, then the UTF-8 bytes.
pub open spec fn spec_enc_str(s: Seq<char>) -> Seq<u8> {
    spec_u64_to_le_bytes(encode_utf8(s).len() as u64) + encode_utf8(s)
}

/// Parses a string at `pos`.
pub open spec fn spec_dec_str(b: Seq<u8>, pos: int) -> Option<(Seq<char>, int)> {
    match spec_dec_u64(b, pos) {
        None => None,
        Some((n, p)) => if p + n as int <= b.len() {
            let bytes = b.subrange(p, p + n as int);
            if valid_utf8(bytes) {
                Some((decode_utf8(bytes), p + n as int))
            } else {
                None
            }
        } else {
            None
        },
    }
}

pub proof fn lemma_dec_enc_str(b: Seq<u8>, pos: int, s: Seq<char>)
    requires
        bytes_at(b, pos, spec_enc_str(s)),
        encode_utf8(s).len() <= u64::MAX,
    ensures
        spec_dec_str(b, pos) == Some((s, pos + spec_enc_str(s).len())),
{
    let bytes = encode_utf8(s);
    let n = bytes.len() as u64;
    lemma_auto_spec_u64_to_from_le_bytes();
    lemma_bytes_at_split(b, pos, spec_u64_to_le_bytes(n), bytes);
    lemma_dec_enc_u64(b, pos, n);
    assert(b.subrange(pos + 8, pos + 8 + bytes.len()) == bytes);
    encode_utf8_valid_utf8(s);
    encode_utf8_decode_utf8(s);
}

/// Relies on core::str::from_utf8: returns the string whose UTF-8 bytes
/// are exactly the input, and fails exactly on invalid UTF-8.
#[verifier::external_body]
pub(crate) fn str_from_utf8(v: &[u8]) -> (r: Option<&str>)
    ensures
        match r {
            Some(s) => valid_utf8(v@) && s.spec_bytes() == v@,
            None => !valid_utf8(v@),
        },
{
    core::str::from_utf8(v).ok()
}

/// Appends the encoding of `s`.
pub fn enc_str(out: &mut Vec<u8>, s: &str)
    ensures
        final(out)@ == old(out)@ + spec_enc_str(s@),
        str_wf(s@),
{
    let mut bytes = s.as_bytes_vec();
    let n = bytes.len();
    proof {
        assert(n == encode_utf8(s@).len());
        assert(usize::MAX <= u64::MAX);
    }
    enc_u64(out, n as u64);
    out.append(&mut bytes);
    proof {
        assert(out@ =~= old(out)@ + spec_enc_str(s@));
    }
}

/// Reads a string at `pos`.
pub fn dec_str(b: &Vec<u8>, pos: usize) -> (r: Option<(String, usize)>)
    ensures
        match r {
            Some((s, p)) => spec_dec_str(b@, pos as int) == Some((s@, p as int)),
            None => spec_dec_str(b@, pos as int) is None,
        },
{
    match dec_u64(b, pos) {
        None => None,
        Some((n, p)) => {
            if n <= (b.len() - p) as u64 {
                let end = p + (n as usize);
                let sub = slice_subrange(b.as_slice(), p, end);
                match str_from_utf8(sub) {
                    None => None,
                    Some(s) => {
                        proof {
                            encode_utf8_decode_utf8(s@);
                        }
                        Some((s.to_owned(), end))
                    },
                }
            } else {
                None
            }
        },
    }
}

// --- bytes and tags ---

/// Tag byte of an absent optional value.
pub const TAG_NONE: u8 = 0;

/// Tag byte of a present optional value.
pub const TAG_SOME: u8 = 1;

/// Parses one byte at `pos`.
pub open spec fn spec_dec_byte(b: Seq<u8>, pos: int) -> Option<(u8, int)> {
    if 0 <= pos && pos + 1 <= b.len() {
        Some((b[pos], pos + 1))
    } else {
        None
    }
}

/// Reads one byte at `pos`.
pub fn dec_byte(b: &Vec<u8>, pos: usize) -> (r: Option<(u8, usize)>)
    ensures
        match r {
            Some((x, p)) => spec_dec_byte(b@, pos as int) == Some((x, p as int)),
            None => spec_dec_byte(b@, pos as int) is None,
        },
{
    if pos < b.len() {
        Some((b[pos], pos + 1))
    } else {
        None
    }
}

// --- well-formedness: every length fits the length fields ---

/// The UTF-8 encoding of the string fits a length field.
pub open spec fn str_wf(s: Seq<char>) -> bool {
    encode_utf8(s).len() <= u64::MAX
}

/// An identification whose label fits.
pub open spec fn ident_wf(id: IdentView) -> bool {
    str_wf(id.label)
}

/// A string list whose count and strings fit.
pub open spec fn strs_wf(ss: Seq<Seq<char>>) -> bool {
    &&& ss.len() <= u64::MAX
    &&& forall|i: int| 0 <= i < ss.len() ==> str_wf(#[trigger] ss[i])
}

/// A metadata record all of whose parts fit.
pub open spec fn meta_wf(m: MetadataView) -> bool {
    &&& ident_wf(m.identification)
    &&& match m.annotation {
        Some(ss) => strs_wf(ss),
        None => true,
    }
    &&& m.sentence_identifications.len() <= u64::MAX
    &&& forall|i: int| 0 <= i < m.sentence_identifications.len()
        ==> match #[trigger] m.sentence_identifications[i] {
            Some(id) => ident_wf(id),
            None => true,
        }
}

/// A provenance entry all of whose parts fit.
pub open spec fn rinfo_wf(ri: RebuildInfoView) -> bool {
    &&& str_wf(ri.record_id)
    &&& meta_wf(ri.metadata)
}

/// A shard result all of whose parts fit.
pub open spec fn shard_result_wf(sr: ShardResultView) -> bool {
    &&& sr.rebuild_info.len() <= u64::MAX
    &&& forall|i: int| 0 <= i < sr.rebuild_info.len() ==> rinfo_wf(#[trigger] sr.rebuild_info[i])
}

// --- identification ---

/// Encoding of an identification: label, then confidence bits.
pub open spec fn spec_enc_ident(id: IdentView) -> Seq<u8> {
    spec_enc_str(id.label) + spec_u32_to_le_bytes(id.prob_bits)
}

/// Parses an identification at `pos`.
pub open spec fn spec_dec_ident(b: Seq<u8>, pos: int) -> Option<(IdentView, int)> {
    match spec_dec_str(b, pos) {
        None => None,
        Some((label, p)) => match spec_dec_u32(b, p) {
            None => None,
            Some((prob_bits, p2)) => Some((IdentView { label, prob_bits }, p2)),
        },
    }
}

pub proof fn lemma_dec_enc_ident(b: Seq<u8>, pos: int, id: IdentView)
    requires
        bytes_at(b, pos, spec_enc_ident(id)),
        ident_wf(id),
    ensures
        spec_dec_ident(b, pos) == Some((id, pos + spec_enc_ident(id).len())),
{
    lemma_auto_spec_u32_to_from_le_bytes();
    lemma_bytes_at_split(b, pos, spec_enc_str(id.label), spec_u32_to_le_bytes(id.prob_bits));
    lemma_dec_enc_str(b, pos, id.label);
    lemma_dec_enc_u32(b, pos + spec_enc_str(id.label).len(), id.prob_bits);
}

/// Encoding of an optional identification: a tag byte, then the value.
pub open spec fn spec_enc_opt_ident(o: Option<IdentView>) -> Seq<u8> {
    match o {
        None => seq![TAG_NONE],
        Some(id) => seq![TAG_SOME] + spec_enc_ident(id),
    }
}

/// Parses an optional identification at `pos`.
pub open spec fn spec_dec_opt_ident(b: Seq<u8>, pos: int) -> Option<(Option<IdentView>, int)> {
    match spec_dec_byte(b, pos) {
        None => None,
        Some((tag, p)) => if tag == TAG_NONE {
            Some((None, p))
        } else if tag == TAG_SOME {
            match spec_dec_ident(b, p) {
                None => None,
                Some((id, p2)) => Some((Some(id), p2)),
            }
        } else {
            None
        },
    }
}

pub proof fn lemma_dec_enc_opt_ident(b: Seq<u8>, pos: int, o: Option<IdentView>)
    requires
        bytes_at(b, pos, spec_enc_opt_ident(o)),
        match o {
            Some(id) => ident_wf(id),
            None => true,
        },
    ensures
        spec_dec_opt_ident(b, pos) == Some((o, pos + spec_enc_opt_ident(o).len())),
{
    match o {
        None => {
            assert(b.subrange(pos, pos + 1)[0] == b[pos]);
            assert(b[pos] == TAG_NONE);
        },
        Some(id) => {
            lemma_bytes_at_split(b, pos, seq![TAG_SOME], spec_enc_ident(id));
            assert(b.subrange(pos, pos + 1)[0] == b[pos]);
            assert(b[pos] == TAG_SOME);
            lemma_dec_enc_ident(b, pos + 1, id);
        },
    }
}

// --- lists ---

/// Back-to-back encodings of a list's strings.
pub open spec fn spec_enc_strs_items(ss: Seq<Seq<char>>) -> Seq<u8>
    decreases ss.len(),
{
    if ss.len() == 0 {
        Seq::empty()
    } else {
        spec_enc_str(ss[0]) + spec_enc_strs_items(ss.drop_first())
    }
}

/// Encoding of a string list: count, then the strings.
pub open spec fn spec_enc_strs(ss: Seq<Seq<char>>) -> Seq<u8> {
    spec_u64_to_le_bytes(ss.len() as u64) + spec_enc_strs_items(ss)
}

/// Parses `n` back-to-back strings at `pos`.
pub open spec fn spec_dec_strs_items(b: Seq<u8>, pos: int, n: int) -> Option<(Seq<Seq<char>>, int)>
    decreases n,
{
    if n <= 0 {
        Some((Seq::empty(), pos))
    } else {
        match spec_dec_str(b, pos) {
            None => None,
            Some((s, p)) => match spec_dec_strs_items(b, p, n - 1) {
                None => None,
                Some((rest, p2)) => Some((seq![s] + rest, p2)),
            },
        }
    }
}

/// Parses a string list at `pos`.
pub open spec fn spec_dec_strs(b: Seq<u8>, pos: int) -> Option<(Seq<Seq<char>>, int)> {
    match spec_dec_u64(b, pos) {
        None => None,
        Some((n, p)) => spec_dec_strs_items(b, p, n as int),
    }
}

pub proof fn lemma_dec_enc_strs_items(b: Seq<u8>, pos: int, ss: Seq<Seq<char>>)
    requires
        bytes_at(b, pos, spec_enc_strs_items(ss)),
        forall|i: int| 0 <= i < ss.len() ==> str_wf(#[trigger] ss[i]),
    ensures
        spec_dec_strs_items(b, pos, ss.len() as int) == Some((
            ss,
            pos + spec_enc_strs_items(ss).len(),
        )),
    decreases ss.len(),
{
    if ss.len() == 0 {
        assert(spec_dec_strs_items(b, pos, 0) == Some((Seq::<Seq<char>>::empty(), pos)));
        assert(ss =~= Seq::<Seq<char>>::empty());
    } else {
        lemma_bytes_at_split(b, pos, spec_enc_str(ss[0]), spec_enc_strs_items(ss.drop_first()));
        lemma_dec_enc_str(b, pos, ss[0]);
        let p = pos + spec_enc_str(ss[0]).len();
        lemma_dec_enc_strs_items(b, p, ss.drop_first());
        assert(seq![ss[0]] + ss.drop_first() =~= ss);
    }
}

pub proof fn lemma_dec_enc_strs(b: Seq<u8>, pos: int, ss: Seq<Seq<char>>)
    requires
        bytes_at(b, pos, spec_enc_strs(ss)),
        strs_wf(ss),
    ensures
        spec_dec_strs(b, pos) == Some((ss, pos + spec_enc_strs(ss).len())),
{
    lemma_auto_spec_u64_to_from_le_bytes();
    lemma_bytes_at_split(
        b,
        pos,
        spec_u64_to_le_bytes(ss.len() as u64),
        spec_enc_strs_items(ss),
    );
    lemma_dec_enc_u64(b, pos, ss.len() as u64);
    lemma_dec_enc_strs_items(b, pos + 8, ss);
}

/// Back-to-back encodings of a list's optional identifications.
pub open spec fn spec_enc_opt_idents_items(s: Seq<Option<IdentView>>) -> Seq<u8>
    decreases s.len(),
{
    if s.len() == 0 {
        Seq::empty()
    } else {
        spec_enc_opt_ident(s[0]) + spec_enc_opt_idents_items(s.drop_first())
    }
}

/// Encoding of a per-line identification list: count, then the entries.
pub open spec fn spec_enc_opt_idents(s: Seq<Option<IdentView>>) -> Seq<u8> {
    spec_u64_to_le_bytes(s.len() as u64) + spec_enc_opt_idents_items(s)
}

/// Parses `n` back-to-back optional identifications at `pos`.
pub open spec fn spec_dec_opt_idents_items(b: Seq<u8>, pos: int, n: int) -> Option<
    (Seq<Option<IdentView>>, int),
>
    decreases n,
{
    if n <= 0 {
        Some((Seq::empty(), pos))
    } else {
        match spec_dec_opt_ident(b, pos) {
            None => None,
            Some((o, p)) => match spec_dec_opt_idents_items(b, p, n - 1) {
                None => None,
                Some((rest, p2)) => Some((seq![o] + rest, p2)),
            },
        }
    }
}

/// Parses a per-line identification list at `pos`.
pub open spec fn spec_dec_opt_idents(b: Seq<u8>, pos: int) -> Option<
    (Seq<Option<IdentView>>, int),
> {
    match spec_dec_u64(b, pos) {
        None => None,
        Some((n, p)) => spec_dec_opt_idents_items(b, p, n as int),
    }
}

pub proof fn lemma_dec_enc_opt_idents_items(b: Seq<u8>, pos: int, s: Seq<Option<IdentView>>)
    requires
        bytes_at(b, pos, spec_enc_opt_idents_items(s)),
        forall|i: int| 0 <= i < s.len()
            ==> match #[trigger] s[i] {
                Some(id) => ident_wf(id),
                None => true,
            },
    ensures
        spec_dec_opt_idents_items(b, pos, s.len() as int) == Some((
            s,
            pos + spec_enc_opt_idents_items(s).len(),
        )),
    decreases s.len(),
{
    if s.len() == 0 {
        assert(s =~= Seq::<Option<IdentView>>::empty());
    } else {
        lemma_bytes_at_split(
            b,
            pos,
            spec_enc_opt_ident(s[0]),
            spec_enc_opt_idents_items(s.drop_first()),
        );
        lemma_dec_enc_opt_ident(b, pos, s[0]);
        let p = pos + spec_enc_opt_ident(s[0]).len();
        lemma_dec_enc_opt_idents_items(b, p, s.drop_first());
        assert(seq![s[0]] + s.drop_first() =~= s);
    }
}

pub proof fn lemma_dec_enc_opt_idents(b: Seq<u8>, pos: int, s: Seq<Option<IdentView>>)
    requires
        bytes_at(b, pos, spec_enc_opt_idents(s)),
        s.len() <= u64::MAX,
        forall|i: int| 0 <= i < s.len()
            ==> match #[trigger] s[i] {
                Some(id) => ident_wf(id),
                None => true,
            },
    ensures
        spec_dec_opt_idents(b, pos) == Some((s, pos + spec_enc_opt_idents(s).len())),
{
    lemma_auto_spec_u64_to_from_le_bytes();
    lemma_bytes_at_split(
        b,
        pos,
        spec_u64_to_le_bytes(s.len() as u64),
        spec_enc_opt_idents_items(s),
    );
    lemma_dec_enc_u64(b, pos, s.len() as u64);
    lemma_dec_enc_opt_idents_items(b, pos + 8, s);
}

// --- metadata ---

/// Encoding of a metadata record: identification, annotation, then the
/// per-line identifications.
pub open spec fn spec_enc_meta(m: MetadataView) -> Seq<u8> {
    spec_enc_ident(m.identification) + spec_enc_opt_strs(m.annotation) + spec_enc_opt_idents(
        m.sentence_identifications,
    )
}

/// Encoding of an optional annotation list: a tag byte, then the list.
pub open spec fn spec_enc_opt_strs(o: Option<Seq<Seq<char>>>) -> Seq<u8> {
    match o {
        None => seq![TAG_NONE],
        Some(ss) => seq![TAG_SOME] + spec_enc_strs(ss),
    }
}

/// Parses an optional annotation list at `pos`.
pub open spec fn spec_dec_opt_strs(b: Seq<u8>, pos: int) -> Option<(Option<Seq<Seq<char>>>, int)> {
    match spec_dec_byte(b, pos) {
        None => None,
        Some((tag, p)) => if tag == TAG_NONE {
            Some((None, p))
        } else if tag == TAG_SOME {
            match spec_dec_strs(b, p) {
                None => None,
                Some((ss, p2)) => Some((Some(ss), p2)),
            }
        } else {
            None
        },
    }
}

pub proof fn lemma_dec_enc_opt_strs(b: Seq<u8>, pos: int, o: Option<Seq<Seq<char>>>)
    requires
        bytes_at(b, pos, spec_enc_opt_strs(o)),
        match o {
            Some(ss) => strs_wf(ss),
            None => true,
        },
    ensures
        spec_dec_opt_strs(b, pos) == Some((o, pos + spec_enc_opt_strs(o).len())),
{
    match o {
        None => {
            assert(b.subrange(pos, pos + 1)[0] == b[pos]);
            assert(b[pos] == TAG_NONE);
        },
        Some(ss) => {
            lemma_bytes_at_split(b, pos, seq![TAG_SOME], spec_enc_strs(ss));
            assert(b.subrange(pos, pos + 1)[0] == b[pos]);
            assert(b[pos] == TAG_SOME);
            lemma_dec_enc_strs(b, pos + 1, ss);
        },
    }
}

/// Parses a metadata record at `pos`.
pub open spec fn spec_dec_meta(b: Seq<u8>, pos: int) -> Option<(MetadataView, int)> {
    match spec_dec_ident(b, pos) {
        None => None,
        Some((identification, p)) => match spec_dec_opt_strs(b, p) {
            None => None,
            Some((annotation, p2)) => match spec_dec_opt_idents(b, p2) {
                None => None,
                Some((sentence_identifications, p3)) => Some((
                    MetadataView { identification, annotation, sentence_identifications },
                    p3,
                )),
            },
        },
    }
}

pub proof fn lemma_dec_enc_meta(b: Seq<u8>, pos: int, m: MetadataView)
    requires
        bytes_at(b, pos, spec_enc_meta(m)),
        meta_wf(m),
    ensures
        spec_dec_meta(b, pos) == Some((m, pos + spec_enc_meta(m).len())),
{
    let e1 = spec_enc_ident(m.identification);
    let e2 = spec_enc_opt_strs(m.annotation);
    let e3 = spec_enc_opt_idents(m.sentence_identifications);
    assert(spec_enc_meta(m) =~= (e1 + e2) + e3);
    lemma_bytes_at_split(b, pos, e1 + e2, e3);
    lemma_bytes_at_split(b, pos, e1, e2);
    lemma_dec_enc_ident(b, pos, m.identification);
    lemma_dec_enc_opt_strs(b, pos + e1.len(), m.annotation);
    lemma_dec_enc_opt_idents(b, pos + e1.len() + e2.len(), m.sentence_identifications);
}

// --- machine integers in records ---

/// Parses a `usize` stored as a `u64` at `pos`; values over `usize::MAX`
/// do not parse.
pub open spec fn spec_dec_usize(b: Seq<u8>, pos: int) -> Option<(usize, int)> {
    match spec_dec_u64(b, pos) {
        None => None,
        Some((x, p)) => if x <= usize::MAX as u64 {
            Some((x as usize, p))
        } else {
            None
        },
    }
}

pub proof fn lemma_dec_enc_usize(b: Seq<u8>, pos: int, x: usize)
    requires
        bytes_at(b, pos, spec_u64_to_le_bytes(x as u64)),
    ensures
        spec_dec_usize(b, pos) == Some((x, pos + 8)),
{
    lemma_dec_enc_u64(b, pos, x as u64);
}

/// Parses an `i64` stored as its bit pattern at `pos`.
pub open spec fn spec_dec_i64(b: Seq<u8>, pos: int) -> Option<(i64, int)> {
    match spec_dec_u64(b, pos) {
        None => None,
        Some((x, p)) => Some((x as i64, p)),
    }
}

/// Casting an `i64` through `u64` and back preserves it.
pub proof fn lemma_i64_bits_round_trip(x: i64)
    ensures
        (x as u64) as i64 == x,
{
    assert((x as u64) as i64 == x) by (bit_vector);
}

pub proof fn lemma_dec_enc_i64(b: Seq<u8>, pos: int, x: i64)
    requires
        bytes_at(b, pos, spec_u64_to_le_bytes(x as u64)),
    ensures
        spec_dec_i64(b, pos) == Some((x, pos + 8)),
{
    lemma_dec_enc_u64(b, pos, x as u64);
    lemma_i64_bits_round_trip(x);
}

// --- rebuild information ---

/// Encoding of a provenance entry: shard id, record id, line interval,
/// ordinal, then the metadata record.
pub open spec fn spec_enc_rinfo(ri: RebuildInfoView) -> Seq<u8> {
    spec_u64_to_le_bytes(ri.shard_id as u64) + spec_enc_str(ri.record_id) + spec_u64_to_le_bytes(
        ri.line_start as u64,
    ) + spec_u64_to_le_bytes(ri.line_end as u64) + spec_u64_to_le_bytes(ri.loc_in_shard as u64)
        + spec_enc_meta(ri.metadata)
}

/// Parses a provenance entry at `pos`.
pub open spec fn spec_dec_rinfo(b: Seq<u8>, pos: int) -> Option<(RebuildInfoView, int)> {
    match spec_dec_usize(b, pos) {
        None => None,
        Some((shard_id, p1)) => match spec_dec_str(b, p1) {
            None => None,
            Some((record_id, p2)) => match spec_dec_usize(b, p2) {
                None => None,
                Some((line_start, p3)) => match spec_dec_usize(b, p3) {
                    None => None,
                    Some((line_end, p4)) => match spec_dec_usize(b, p4) {
                        None => None,
                        Some((loc_in_shard, p5)) => match spec_dec_meta(b, p5) {
                            None => None,
                            Some((metadata, p6)) => Some((
                                RebuildInfoView {
                                    shard_id,
                                    record_id,
                                    line_start,
                                    line_end,
                                    loc_in_shard,
                                    metadata,
                                },
                                p6,
                            )),
                        },
                    },
                },
            },
        },
    }
}

pub proof fn lemma_dec_enc_rinfo(b: Seq<u8>, pos: int, ri: RebuildInfoView)
    requires
        bytes_at(b, pos, spec_enc_rinfo(ri)),
        rinfo_wf(ri),
    ensures
        spec_dec_rinfo(b, pos) == Some((ri, pos + spec_enc_rinfo(ri).len())),
{
    let e1 = spec_u64_to_le_bytes(ri.shard_id as u64);
    let e2 = spec_enc_str(ri.record_id);
    let e3 = spec_u64_to_le_bytes(ri.line_start as u64);
    let e4 = spec_u64_to_le_bytes(ri.line_end as u64);
    let e5 = spec_u64_to_le_bytes(ri.loc_in_shard as u64);
    let e6 = spec_enc_meta(ri.metadata);
    lemma_auto_spec_u64_to_from_le_bytes();
    lemma_bytes_at_split(b, pos, e1 + e2 + e3 + e4 + e5, e6);
    lemma_bytes_at_split(b, pos, e1 + e2 + e3 + e4, e5);
    lemma_bytes_at_split(b, pos, e1 + e2 + e3, e4);
    lemma_bytes_at_split(b, pos, e1 + e2, e3);
    lemma_bytes_at_split(b, pos, e1, e2);
    lemma_dec_enc_usize(b, pos, ri.shard_id);
    lemma_dec_enc_str(b, pos + e1.len(), ri.record_id);
    lemma_dec_enc_usize(b, pos + e1.len() + e2.len(), ri.line_start);
    lemma_dec_enc_usize(b, pos + e1.len() + e2.len() + e3.len(), ri.line_end);
    lemma_dec_enc_usize(b, pos + e1.len() + e2.len() + e3.len() + e4.len(), ri.loc_in_shard);
    lemma_dec_enc_meta(b, pos + e1.len() + e2.len() + e3.len() + e4.len() + e5.len(), ri.metadata);
}

/// Back-to-back encodings of a shard's provenance entries.
pub open spec fn spec_enc_rinfos_items(s: Seq<RebuildInfoView>) -> Seq<u8>
    decreases s.len(),
{
    if s.len() == 0 {
        Seq::empty()
    } else {
        spec_enc_rinfo(s[0]) + spec_enc_rinfos_items(s.drop_first())
    }
}

/// Parses `n` back-to-back provenance entries at `pos`.
pub open spec fn spec_dec_rinfos_items(b: Seq<u8>, pos: int, n: int) -> Option<
    (Seq<RebuildInfoView>, int),
>
    decreases n,
{
    if n <= 0 {
        Some((Seq::empty(), pos))
    } else {
        match spec_dec_rinfo(b, pos) {
            None => None,
            Some((ri, p)) => match spec_dec_rinfos_items(b, p, n - 1) {
                None => None,
                Some((rest, p2)) => Some((seq![ri] + rest, p2)),
            },
        }
    }
}

pub proof fn lemma_dec_enc_rinfos_items(b: Seq<u8>, pos: int, s: Seq<RebuildInfoView>)
    requires
        bytes_at(b, pos, spec_enc_rinfos_items(s)),
        forall|i: int| 0 <= i < s.len() ==> rinfo_wf(#[trigger] s[i]),
    ensures
        spec_dec_rinfos_items(b, pos, s.len() as int) == Some((
            s,
            pos + spec_enc_rinfos_items(s).len(),
        )),
    decreases s.len(),
{
    if s.len() == 0 {
        assert(s =~= Seq::<RebuildInfoView>::empty());
    } else {
        lemma_bytes_at_split(b, pos, spec_enc_rinfo(s[0]), spec_enc_rinfos_items(s.drop_first()));
        lemma_dec_enc_rinfo(b, pos, s[0]);
        let p = pos + spec_enc_rinfo(s[0]).len();
        lemma_dec_enc_rinfos_items(b, p, s.drop_first());
        assert(seq![s[0]] + s.drop_first() =~= s);
    }
}

// --- shard result ---

/// Encoding of a shard result: shard id, entry count, then the entries.
pub open spec fn spec_enc_shard_result(sr: ShardResultView) -> Seq<u8> {
    spec_u64_to_le_bytes(sr.shard_id as u64) + spec_u64_to_le_bytes(sr.rebuild_info.len() as u64)
        + spec_enc_rinfos_items(sr.rebuild_info)
}

/// Parses a shard result at `pos`.
pub open spec fn spec_dec_shard_result(b: Seq<u8>, pos: int) -> Option<(ShardResultView, int)> {
    match spec_dec_i64(b, pos) {
        None => None,
        Some((shard_id, p)) => match spec_dec_u64(b, p) {
            None => None,
            Some((n, p2)) => match spec_dec_rinfos_items(b, p2, n as int) {
                None => None,
                Some((rebuild_info, p3)) => Some((
                    ShardResultView { shard_id, rebuild_info },
                    p3,
                )),
            },
        },
    }
}

/// Round-trip of the journal schema: wherever the encoding of a
/// well-formed shard result sits in a byte stream, decoding there yields
/// exactly that shard result and stops exactly after its bytes.
pub proof fn lemma_dec_enc_shard_result(b: Seq<u8>, pos: int, sr: ShardResultView)
    requires
        bytes_at(b, pos, spec_enc_shard_result(sr)),
        shard_result_wf(sr),
    ensures
        spec_dec_shard_result(b, pos) == Some((sr, pos + spec_enc_shard_result(sr).len())),
{
    let e1 = spec_u64_to_le_bytes(sr.shard_id as u64);
    let e2 = spec_u64_to_le_bytes(sr.rebuild_info.len() as u64);
    let e3 = spec_enc_rinfos_items(sr.rebuild_info);
    lemma_auto_spec_u64_to_from_le_bytes();
    lemma_bytes_at_split(b, pos, e1 + e2, e3);
    lemma_bytes_at_split(b, pos, e1, e2);
    lemma_dec_enc_i64(b, pos, sr.shard_id);
    lemma_dec_enc_u64(b, pos + 8, sr.rebuild_info.len() as u64);
    lemma_dec_enc_rinfos_items(b, pos + 16, sr.rebuild_info);
}

/// Serialize-then-deserialize yields the original shard result.
pub proof fn lemma_shard_result_round_trip(sr: ShardResultView)
    requires
        shard_result_wf(sr),
    ensures
        spec_dec_shard_result(spec_enc_shard_result(sr), 0) == Some((
            sr,
            spec_enc_shard_result(sr).len() as int,
        )),
{
    let b = spec_enc_shard_result(sr);
    assert(b.subrange(0, b.len() as int) =~= b);
    lemma_dec_enc_shard_result(b, 0, sr);
}

// --- executable encoders ---

/// Appends the encoding of `id`.
pub fn enc_ident(out: &mut Vec<u8>, id: &Identification)
    ensures
        final(out)@ == old(out)@ + spec_enc_ident(id@),
        ident_wf(id@),
{
    enc_str(out, id.label.as_str());
    enc_u32(out, id.prob_bits);
    proof {
        assert(out@ =~= old(out)@ + spec_enc_ident(id@));
    }
}

/// Appends the encoding of `o`.
pub fn enc_opt_ident(out: &mut Vec<u8>, o: &Option<Identification>)
    ensures
        final(out)@ == old(out)@ + spec_enc_opt_ident(opt_ident_view(*o)),
        match opt_ident_view(*o) {
            Some(id) => ident_wf(id),
            None => true,
        },
{
    match o {
        None => {
            out.push(TAG_NONE);
            proof {
                assert(out@ =~= old(out)@ + seq![TAG_NONE]);
            }
        },
        Some(id) => {
            out.push(TAG_SOME);
            enc_ident(out, id);
            proof {
                assert(out@ =~= old(out)@ + spec_enc_opt_ident(opt_ident_view(*o)));
            }
        },
    }
}

/// Appends the encodings of the strings of `v`, from position `i` on.
fn enc_strs_items(out: &mut Vec<u8>, v: &Vec<String>, i: usize)
    requires
        i <= v.len(),
    ensures
        final(out)@ == old(out)@ + spec_enc_strs_items(strs_view(v@).skip(i as int)),
        forall|j: int| i <= j < v.len() ==> str_wf(#[trigger] strs_view(v@)[j]),
    decreases v.len() - i,
{
    let ghost s = strs_view(v@);
    if i == v.len() {
        proof {
            assert(s.skip(i as int) =~= Seq::<Seq<char>>::empty());
            assert(out@ =~= old(out)@ + spec_enc_strs_items(s.skip(i as int)));
        }
    } else {
        proof {
            lemma_strs_view_index(v@, i as int);
        }
        enc_str(out, v[i].as_str());
        enc_strs_items(out, v, i + 1);
        proof {
            assert(s.skip(i as int)[0] == s[i as int]);
            assert(s.skip(i as int).drop_first() =~= s.skip(i as int + 1));
            assert(out@ =~= old(out)@ + spec_enc_strs_items(s.skip(i as int)));
        }
    }
}

/// Appends the encoding of the string list `v`.
pub fn enc_strs(out: &mut Vec<u8>, v: &Vec<String>)
    ensures
        final(out)@ == old(out)@ + spec_enc_strs(strs_view(v@)),
        strs_wf(strs_view(v@)),
{
    enc_u64(out, v.len() as u64);
    enc_strs_items(out, v, 0);
    proof {
        assert(strs_view(v@).skip(0) =~= strs_view(v@));
        assert(out@ =~= old(out)@ + spec_enc_strs(strs_view(v@)));
    }
}

/// Appends the encodings of the optional identifications of `v`, from
/// position `i` on.
fn enc_opt_idents_items(out: &mut Vec<u8>, v: &Vec<Option<Identification>>, i: usize)
    requires
        i <= v.len(),
    ensures
        final(out)@ == old(out)@ + spec_enc_opt_idents_items(opt_idents_view(v@).skip(i as int)),
        forall|j: int| i <= j < v.len()
            ==> match #[trigger] opt_idents_view(v@)[j] {
                Some(id) => ident_wf(id),
                None => true,
            },
    decreases v.len() - i,
{
    let ghost s = opt_idents_view(v@);
    if i == v.len() {
        proof {
            assert(s.skip(i as int) =~= Seq::<Option<IdentView>>::empty());
            assert(out@ =~= old(out)@ + spec_enc_opt_idents_items(s.skip(i as int)));
        }
    } else {
        proof {
            lemma_opt_idents_view_index(v@, i as int);
        }
        enc_opt_ident(out, &v[i]);
        enc_opt_idents_items(out, v, i + 1);
        proof {
            assert(s.skip(i as int)[0] == s[i as int]);
            assert(s.skip(i as int).drop_first() =~= s.skip(i as int + 1));
            assert(out@ =~= old(out)@ + spec_enc_opt_idents_items(s.skip(i as int)));
        }
    }
}

/// Appends the encoding of the per-line identification list `v`.
pub fn enc_opt_idents(out: &mut Vec<u8>, v: &Vec<Option<Identification>>)
    ensures
        final(out)@ == old(out)@ + spec_enc_opt_idents(opt_idents_view(v@)),
        opt_idents_view(v@).len() <= u64::MAX,
        forall|j: int| 0 <= j < v.len()
            ==> match #[trigger] opt_idents_view(v@)[j] {
                Some(id) => ident_wf(id),
                None => true,
            },
{
    enc_u64(out, v.len() as u64);
    enc_opt_idents_items(out, v, 0);
    proof {
        assert(opt_idents_view(v@).skip(0) =~= opt_idents_view(v@));
        assert(out@ =~= old(out)@ + spec_enc_opt_idents(opt_idents_view(v@)));
    }
}

/// Appends the encoding of `m`.
pub fn enc_meta(out: &mut Vec<u8>, m: &Metadata)
    ensures
        final(out)@ == old(out)@ + spec_enc_meta(m@),
        meta_wf(m@),
{
    enc_ident(out, &m.identification);
    match &m.annotation {
        None => {
            out.push(TAG_NONE);
        },
        Some(v) => {
            out.push(TAG_SOME);
            enc_strs(out, v);
        },
    }
    enc_opt_idents(out, &m.sentence_identifications);
    proof {
        assert(out@ =~= old(out)@ + spec_enc_meta(m@));
    }
}

/// Appends the encoding of `ri`.
pub fn enc_rinfo(out: &mut Vec<u8>, ri: &RebuildInformation)
    ensures
        final(out)@ == old(out)@ + spec_enc_rinfo(ri@),
        rinfo_wf(ri@),
{
    enc_u64(out, ri.shard_id as u64);
    enc_str(out, ri.record_id.as_str());
    enc_u64(out, ri.line_start as u64);
    enc_u64(out, ri.line_end as u64);
    enc_u64(out, ri.loc_in_shard as u64);
    enc_meta(out, &ri.metadata);
    proof {
        assert(out@ =~= old(out)@ + spec_enc_rinfo(ri@));
    }
}

/// Appends the encodings of the entries of `v`, from position `i` on.
fn enc_rinfos_items(out: &mut Vec<u8>, v: &Vec<RebuildInformation>, i: usize)
    requires
        i <= v.len(),
    ensures
        final(out)@ == old(out)@ + spec_enc_rinfos_items(rebuild_infos_view(v@).skip(i as int)),
        forall|j: int| i <= j < v.len() ==> rinfo_wf(#[trigger] rebuild_infos_view(v@)[j]),
    decreases v.len() - i,
{
    let ghost s = rebuild_infos_view(v@);
    if i == v.len() {
        proof {
            assert(s.skip(i as int) =~= Seq::<RebuildInfoView>::empty());
            assert(out@ =~= old(out)@ + spec_enc_rinfos_items(s.skip(i as int)));
        }
    } else {
        proof {
            lemma_rebuild_infos_view_index(v@, i as int);
        }
        enc_rinfo(out, &v[i]);
        enc_rinfos_items(out, v, i + 1);
        proof {
            assert(s.skip(i as int)[0] == s[i as int]);
            assert(s.skip(i as int).drop_first() =~= s.skip(i as int + 1));
            assert(out@ =~= old(out)@ + spec_enc_rinfos_items(s.skip(i as int)));
        }
    }
}

/// Serializes one shard result under the journal schema.
pub fn encode_shard_result(sr: &ShardResult) -> (r: Vec<u8>)
    ensures
        r@ == spec_enc_shard_result(sr@),
        shard_result_wf(sr@),
{
    let mut out: Vec<u8> = Vec::new();
    enc_u64(&mut out, sr.shard_id as u64);
    enc_u64(&mut out, sr.rebuild_info.len() as u64);
    enc_rinfos_items(&mut out, &sr.rebuild_info, 0);
    proof {
        assert(rebuild_infos_view(sr.rebuild_info@).skip(0) =~= rebuild_infos_view(
            sr.rebuild_info@,
        ));
        assert(out@ =~= spec_enc_shard_result(sr@));
    }
    out
}

// --- executable decoders ---

/// Reads an identification at `pos`.
pub fn dec_ident(b: &Vec<u8>, pos: usize) -> (r: Option<(Identification, usize)>)
    ensures
        match r {
            Some((id, p)) => spec_dec_ident(b@, pos as int) == Some((id@, p as int)),
            None => spec_dec_ident(b@, pos as int) is None,
        },
{
    match dec_str(b, pos) {
        None => None,
        Some((label, p)) => match dec_u32(b, p) {
            None => None,
            Some((prob_bits, p2)) => Some((Identification { label, prob_bits }, p2)),
        },
    }
}

/// Reads an optional identification at `pos`.
pub fn dec_opt_ident(b: &Vec<u8>, pos: usize) -> (r: Option<(Option<Identification>, usize)>)
    ensures
        match r {
            Some((o, p)) => spec_dec_opt_ident(b@, pos as int) == Some((
                opt_ident_view(o),
                p as int,
            )),
            None => spec_dec_opt_ident(b@, pos as int) is None,
        },
{
    match dec_byte(b, pos) {
        None => None,
        Some((tag, p)) => {
            if tag == TAG_NONE {
                Some((None, p))
            } else if tag == TAG_SOME {
                match dec_ident(b, p) {
                    None => None,
                    Some((id, p2)) => Some((Some(id), p2)),
                }
            } else {
                None
            }
        },
    }
}

/// Reads `n` back-to-back strings at `pos`.
fn dec_strs_items(b: &Vec<u8>, pos: usize, n: u64) -> (r: Option<(Vec<String>, usize)>)
    ensures
        match r {
            Some((v, p)) => spec_dec_strs_items(b@, pos as int, n as int) == Some((
                strs_view(v@),
                p as int,
            )),
            None => spec_dec_strs_items(b@, pos as int, n as int) is None,
        },
    decreases n,
{
    if n == 0 {
        let v: Vec<String> = Vec::new();
        proof {
            assert(strs_view(v@) =~= Seq::<Seq<char>>::empty());
        }
        Some((v, pos))
    } else {
        match dec_str(b, pos) {
            None => None,
            Some((s, p)) => match dec_strs_items(b, p, n - 1) {
                None => None,
                Some((rest, p2)) => {
                    let ghost rest0 = rest@;
                    let mut rest = rest;
                    rest.insert(0, s);
                    proof {
                        assert forall|j: int| 0 <= j < rest@.len() implies #[trigger] strs_view(
                            rest@,
                        )[j] == (seq![s@] + strs_view(rest0))[j] by {
                            lemma_strs_view_index(rest@, j);
                            if j > 0 {
                                lemma_strs_view_index(rest0, j - 1);
                                assert(rest@[j] == rest0[j - 1]);
                            }
                        }
                        assert(strs_view(rest@) =~= seq![s@] + strs_view(rest0));
                    }
                    Some((rest, p2))
                },
            },
        }
    }
}

/// Reads a string list at `pos`.
pub fn dec_strs(b: &Vec<u8>, pos: usize) -> (r: Option<(Vec<String>, usize)>)
    ensures
        match r {
            Some((v, p)) => spec_dec_strs(b@, pos as int) == Some((strs_view(v@), p as int)),
            None => spec_dec_strs(b@, pos as int) is None,
        },
{
    match dec_u64(b, pos) {
        None => None,
        Some((n, p)) => dec_strs_items(b, p, n),
    }
}

/// Reads `n` back-to-back optional identifications at `pos`.
fn dec_opt_idents_items(b: &Vec<u8>, pos: usize, n: u64) -> (r: Option<
    (Vec<Option<Identification>>, usize),
>)
    ensures
        match r {
            Some((v, p)) => spec_dec_opt_idents_items(b@, pos as int, n as int) == Some((
                opt_idents_view(v@),
                p as int,
            )),
            None => spec_dec_opt_idents_items(b@, pos as int, n as int) is None,
        },
    decreases n,
{
    if n == 0 {
        let v: Vec<Option<Identification>> = Vec::new();
        proof {
            assert(opt_idents_view(v@) =~= Seq::<Option<IdentView>>::empty());
        }
        Some((v, pos))
    } else {
        match dec_opt_ident(b, pos) {
            None => None,
            Some((o, p)) => match dec_opt_idents_items(b, p, n - 1) {
                None => None,
                Some((rest, p2)) => {
                    let ghost rest0 = rest@;
                    let mut rest = rest;
                    rest.insert(0, o);
                    proof {
                        assert forall|j: int| 0 <= j < rest@.len() implies #[trigger] opt_idents_view(
                            rest@,
                        )[j] == (seq![opt_ident_view(rest@[0])] + opt_idents_view(rest0))[j] by {
                            lemma_opt_idents_view_index(rest@, j);
                            if j > 0 {
                                lemma_opt_idents_view_index(rest0, j - 1);
                                assert(rest@[j] == rest0[j - 1]);
                            }
                        }
                        assert(opt_idents_view(rest@) =~= seq![opt_ident_view(rest@[0])]
                            + opt_idents_view(rest0));
                    }
                    Some((rest, p2))
                },
            },
        }
    }
}

/// Reads a per-line identification list at `pos`.
pub fn dec_opt_idents(b: &Vec<u8>, pos: usize) -> (r: Option<(Vec<Option<Identification>>, usize)>)
    ensures
        match r {
            Some((v, p)) => spec_dec_opt_idents(b@, pos as int) == Some((
                opt_idents_view(v@),
                p as int,
            )),
            None => spec_dec_opt_idents(b@, pos as int) is None,
        },
{
    match dec_u64(b, pos) {
        None => None,
        Some((n, p)) => dec_opt_idents_items(b, p, n),
    }
}

/// Reads a metadata record at `pos`.
pub fn dec_meta(b: &Vec<u8>, pos: usize) -> (r: Option<(Metadata, usize)>)
    ensures
        match r {
            Some((m, p)) => spec_dec_meta(b@, pos as int) == Some((m@, p as int)),
            None => spec_dec_meta(b@, pos as int) is None,
        },
{
    match dec_ident(b, pos) {
        None => None,
        Some((identification, p)) => {
            let annotation: Option<Vec<String>>;
            let p2: usize;
            match dec_byte(b, p) {
                None => {
                    return None;
                },
                Some((tag, pt)) => {
                    if tag == TAG_NONE {
                        annotation = None;
                        p2 = pt;
                    } else if tag == TAG_SOME {
                        match dec_strs(b, pt) {
                            None => {
                                return None;
                            },
                            Some((ss, ps)) => {
                                annotation = Some(ss);
                                p2 = ps;
                            },
                        }
                    } else {
                        return None;
                    }
                },
            }
            match dec_opt_idents(b, p2) {
                None => None,
                Some((sentence_identifications, p3)) => Some((
                    Metadata { identification, annotation, sentence_identifications },
                    p3,
                )),
            }
        },
    }
}

/// Reads a `usize` stored as a `u64` at `pos`.
fn dec_usize(b: &Vec<u8>, pos: usize) -> (r: Option<(usize, usize)>)
    ensures
        match r {
            Some((x, p)) => spec_dec_usize(b@, pos as int) == Some((x, p as int)),
            None => spec_dec_usize(b@, pos as int) is None,
        },
{
    match dec_u64(b, pos) {
        None => None,
        Some((x, p)) => {
            if x <= usize::MAX as u64 {
                Some((x as usize, p))
            } else {
                None
            }
        },
    }
}

/// Reads a provenance entry at `pos`.
pub fn dec_rinfo(b: &Vec<u8>, pos: usize) -> (r: Option<(RebuildInformation, usize)>)
    ensures
        match r {
            Some((ri, p)) => spec_dec_rinfo(b@, pos as int) == Some((ri@, p as int)),
            None => spec_dec_rinfo(b@, pos as int) is None,
        },
{
    match dec_usize(b, pos) {
        None => None,
        Some((shard_id, p1)) => match dec_str(b, p1) {
            None => None,
            Some((record_id, p2)) => match dec_usize(b, p2) {
                None => None,
                Some((line_start, p3)) => match dec_usize(b, p3) {
                    None => None,
                    Some((line_end, p4)) => match dec_usize(b, p4) {
                        None => None,
                        Some((loc_in_shard, p5)) => match dec_meta(b, p5) {
                            None => None,
                            Some((metadata, p6)) => Some((
                                RebuildInformation {
                                    shard_id,
                                    record_id,
                                    line_start,
                                    line_end,
                                    loc_in_shard,
                                    metadata,
                                },
                                p6,
                            )),
                        },
                    },
                },
            },
        },
    }
}

/// Reads `n` back-to-back provenance entries at `pos`.
fn dec_rinfos_items(b: &Vec<u8>, pos: usize, n: u64) -> (r: Option<
    (Vec<RebuildInformation>, usize),
>)
    ensures
        match r {
            Some((v, p)) => spec_dec_rinfos_items(b@, pos as int, n as int) == Some((
                rebuild_infos_view(v@),
                p as int,
            )),
            None => spec_dec_rinfos_items(b@, pos as int, n as int) is None,
        },
    decreases n,
{
    if n == 0 {
        let v: Vec<RebuildInformation> = Vec::new();
        proof {
            assert(rebuild_infos_view(v@) =~= Seq::<RebuildInfoView>::empty());
        }
        Some((v, pos))
    } else {
        match dec_rinfo(b, pos) {
            None => None,
            Some((ri, p)) => match dec_rinfos_items(b, p, n - 1) {
                None => None,
                Some((rest, p2)) => {
                    let ghost rest0 = rest@;
                    let ghost ri0 = ri@;
                    let mut rest = rest;
                    rest.insert(0, ri);
                    proof {
                        assert forall|j: int| 0 <= j < rest@.len() implies #[trigger] rebuild_infos_view(
                            rest@,
                        )[j] == (seq![ri0] + rebuild_infos_view(rest0))[j] by {
                            lemma_rebuild_infos_view_index(rest@, j);
                            if j > 0 {
                                lemma_rebuild_infos_view_index(rest0, j - 1);
                                assert(rest@[j] == rest0[j - 1]);
                            }
                        }
                        assert(rebuild_infos_view(rest@) =~= seq![ri0] + rebuild_infos_view(rest0));
                    }
                    Some((rest, p2))
                },
            },
        }
    }
}

/// Deserializes one shard result at `pos` under the journal schema.
pub fn decode_shard_result(b: &Vec<u8>, pos: usize) -> (r: Option<(ShardResult, usize)>)
    ensures
        match r {
            Some((sr, p)) => spec_dec_shard_result(b@, pos as int) == Some((sr@, p as int)),
            None => spec_dec_shard_result(b@, pos as int) is None,
        },
{
    match dec_u64(b, pos) {
        None => None,
        Some((x, p)) => {
            let shard_id = x as i64;
            match dec_u64(b, p) {
                None => None,
                Some((n, p2)) => match dec_rinfos_items(b, p2, n) {
                    None => None,
                    Some((rebuild_info, p3)) => Some((ShardResult { shard_id, rebuild_info }, p3)),
                },
            }
        },
    }
}

} // verus!
