//! Canonical binary codec with strict structural limits.
//!
//! Values are maps with unsigned-integer keys, byte strings, text strings,
//! unsigned integers, and arrays. The encoding is deterministic: every
//! integer header uses its shortest form and map entries are sorted by the
//! lexicographic order of the keys' encodings. Decoding accepts exactly the
//! canonical encodings, so `decode(encode(v)) == v` for every canonical
//! value and `encode(decode(b)) == b` for every accepted byte string.

use vstd::prelude::*;
use vstd::string::StringSliceAdditionalSpecFns;
use vstd::utf8::{encode_utf8, valid_utf8};
use crate::error::{CoreError, CoreResult};

verus! {

broadcast use vstd::seq::group_seq_axioms, vstd::std_specs::vec::group_vec_axioms;

/// Structural limits applied on decode.
pub struct CborLimits {
    pub max_bytes: usize,
    pub max_depth: usize,
    pub max_items: usize,
}

impl CborLimits {
    /// The default limits: 1 MiB input, nesting depth 64, 4096 items per
    /// container.
    pub fn standard() -> (r: CborLimits)
        ensures
            r.max_bytes == 0x100000int,
            r.max_depth == 64int,
            r.max_items == 4096int,
    {
        CborLimits { max_bytes: 0x100000, max_depth: 64, max_items: 4096 }
    }
}

/// The mathematical form of a codec value. Text carries its UTF-8 bytes.
pub enum CborVal {
    Uint(u64),
    Bytes(Seq<u8>),
    Text(Seq<u8>),
    Array(Seq<CborVal>),
    Dict(Seq<(CborVal, CborVal)>),
}

/// An executable codec value.
#[derive(Debug)]
pub enum CborValue {
    Uint(u64),
    Bytes(Vec<u8>),
    Text(String),
    Array(Vec<CborValue>),
    Dict(Vec<(CborValue, CborValue)>),
}

/// The views of a sequence of executable values.
pub open spec fn view_list(items: Seq<CborValue>) -> Seq<CborVal>
    decreases items,
{
    if items.len() == 0 {
        Seq::empty()
    } else {
        seq![items[0]@] + view_list(items.drop_first())
    }
}

/// The views of a sequence of executable map entries.
pub open spec fn view_pairs(entries: Seq<(CborValue, CborValue)>) -> Seq<(CborVal, CborVal)>
    decreases entries,
{
    if entries.len() == 0 {
        Seq::empty()
    } else {
        seq![(entries[0].0@, entries[0].1@)] + view_pairs(entries.drop_first())
    }
}

impl View for CborValue {
    type V = CborVal;

    open spec fn view(&self) -> CborVal
        decreases self,
    {
        match self {
            CborValue::Uint(n) => CborVal::Uint(*n),
            CborValue::Bytes(b) => CborVal::Bytes(b@),
            CborValue::Text(s) => CborVal::Text(encode_utf8(s@)),
            CborValue::Array(items) => CborVal::Array(view_list(items@)),
            CborValue::Dict(entries) => CborVal::Dict(view_pairs(entries@)),
        }
    }
}

/// `view_list` maps each element to its view.
pub proof fn lemma_view_list(items: Seq<CborValue>)
    ensures
        view_list(items).len() == items.len(),
        forall|i: int| 0 <= i < items.len() ==> view_list(items)[i] == #[trigger] items[i]@,
    decreases items,
{
    assert(view_list(items) == if items.len() == 0 {
        Seq::<CborVal>::empty()
    } else {
        seq![items[0]@] + view_list(items.drop_first())
    });
    if items.len() > 0 {
        lemma_view_list(items.drop_first());
        assert forall|i: int| 0 <= i < items.len() implies view_list(items)[i]
            == #[trigger] items[i]@ by {
            if i == 0 {
                assert(view_list(items)[0] == items[0]@);
            } else {
                assert(view_list(items)[i] == view_list(items.drop_first())[i - 1]);
                assert(items.drop_first()[i - 1] == items[i]);
            }
        }
    }
}

/// `view_pairs` maps each entry to the views of its parts.
pub proof fn lemma_view_pairs(entries: Seq<(CborValue, CborValue)>)
    ensures
        view_pairs(entries).len() == entries.len(),
        forall|i: int|
            0 <= i < entries.len() ==> #[trigger] view_pairs(entries)[i] == (
                entries[i].0@,
                entries[i].1@,
            ),
    decreases entries,
{
    assert(view_pairs(entries) == if entries.len() == 0 {
        Seq::<(CborVal, CborVal)>::empty()
    } else {
        seq![(entries[0].0@, entries[0].1@)] + view_pairs(entries.drop_first())
    });
    if entries.len() > 0 {
        lemma_view_pairs(entries.drop_first());
        assert forall|i: int| 0 <= i < entries.len() implies #[trigger] view_pairs(entries)[i]
            == (entries[i].0@, entries[i].1@) by {
            if i == 0 {
                assert(view_pairs(entries)[0] == (entries[0].0@, entries[0].1@));
            } else {
                assert(view_pairs(entries)[i] == view_pairs(entries.drop_first())[i - 1]);
                assert(entries.drop_first()[i - 1] == entries[i]);
            }
        }
    }
}

/// The canonical header for major type `m` with argument `n`: the shortest
/// form that can carry `n`.
pub open spec fn cbor_hdr(m: u8, n: nat) -> Seq<u8>
    recommends
        n < 0x10000000000000000,
{
    if n < 24 {
        seq![(m * 32 + n) as u8]
    } else if n < 0x100 {
        seq![(m * 32 + 24) as u8, n as u8]
    } else if n < 0x10000 {
        seq![(m * 32 + 25) as u8, (n / 0x100) as u8, (n % 0x100) as u8]
    } else if n < 0x100000000 {
        seq![
            (m * 32 + 26) as u8,
            (n / 0x1000000) as u8,
            ((n / 0x10000) % 0x100) as u8,
            ((n / 0x100) % 0x100) as u8,
            (n % 0x100) as u8,
        ]
    } else {
        seq![
            (m * 32 + 27) as u8,
            (n / 0x100000000000000) as u8,
            ((n / 0x1000000000000) % 0x100) as u8,
            ((n / 0x10000000000) % 0x100) as u8,
            ((n / 0x100000000) % 0x100) as u8,
            ((n / 0x1000000) % 0x100) as u8,
            ((n / 0x10000) % 0x100) as u8,
            ((n / 0x100) % 0x100) as u8,
            (n % 0x100) as u8,
        ]
    }
}

/// The canonical encoding of a value.
pub open spec fn cbor_enc(v: CborVal) -> Seq<u8>
    decreases v,
{
    match v {
        CborVal::Uint(n) => cbor_hdr(0, n as nat),
        CborVal::Bytes(b) => cbor_hdr(2, b.len()) + b,
        CborVal::Text(t) => cbor_hdr(3, t.len()) + t,
        CborVal::Array(items) => cbor_hdr(4, items.len()) + cbor_enc_list(items),
        CborVal::Dict(entries) => cbor_hdr(5, entries.len()) + cbor_enc_pairs(entries),
    }
}

/// The concatenated encodings of a sequence of values.
pub open spec fn cbor_enc_list(items: Seq<CborVal>) -> Seq<u8>
    decreases items,
{
    if items.len() == 0 {
        Seq::empty()
    } else {
        cbor_enc(items[0]) + cbor_enc_list(items.drop_first())
    }
}

/// The concatenated encodings of a sequence of map entries.
pub open spec fn cbor_enc_pairs(entries: Seq<(CborVal, CborVal)>) -> Seq<u8>
    decreases entries,
{
    if entries.len() == 0 {
        Seq::empty()
    } else {
        cbor_enc(entries[0].0) + cbor_enc(entries[0].1) + cbor_enc_pairs(entries.drop_first())
    }
}

/// Strict lexicographic order on byte strings: a proper prefix comes first.
pub open spec fn lex_lt(a: Seq<u8>, b: Seq<u8>) -> bool
    decreases a,
{
    if b.len() == 0 {
        false
    } else if a.len() == 0 {
        true
    } else {
        a[0] < b[0] || (a[0] == b[0] && lex_lt(a.drop_first(), b.drop_first()))
    }
}

/// Every value in the sequence is structurally sound.
pub open spec fn wf_list(items: Seq<CborVal>) -> bool
    decreases items,
{
    items.len() == 0 || (cbor_wf(items[0]) && wf_list(items.drop_first()))
}

/// Every key and value in the entry sequence is structurally sound.
pub open spec fn wf_pairs(entries: Seq<(CborVal, CborVal)>) -> bool
    decreases entries,
{
    entries.len() == 0 || (cbor_wf(entries[0].0) && cbor_wf(entries[0].1) && wf_pairs(
        entries.drop_first(),
    ))
}

/// Structural soundness: every length fits the 64-bit header argument and
/// every text is valid UTF-8.
pub open spec fn cbor_wf(v: CborVal) -> bool
    decreases v,
{
    match v {
        CborVal::Uint(n) => true,
        CborVal::Bytes(b) => b.len() < 0x10000000000000000,
        CborVal::Text(t) => t.len() < 0x10000000000000000 && valid_utf8(t),
        CborVal::Array(items) => items.len() < 0x10000000000000000 && wf_list(items),
        CborVal::Dict(entries) => entries.len() < 0x10000000000000000 && wf_pairs(entries),
    }
}

/// Each element of a sound list is sound.
pub proof fn lemma_wf_list_index(items: Seq<CborVal>, i: int)
    requires
        wf_list(items),
        0 <= i < items.len(),
    ensures
        cbor_wf(items[i]),
    decreases i,
{
    if i > 0 {
        lemma_wf_list_index(items.drop_first(), i - 1);
        assert(items.drop_first()[i - 1] == items[i]);
    }
}

/// Each key and value of a sound entry sequence is sound.
pub proof fn lemma_wf_pairs_index(entries: Seq<(CborVal, CborVal)>, i: int)
    requires
        wf_pairs(entries),
        0 <= i < entries.len(),
    ensures
        cbor_wf(entries[i].0),
        cbor_wf(entries[i].1),
    decreases i,
{
    if i > 0 {
        lemma_wf_pairs_index(entries.drop_first(), i - 1);
        assert(entries.drop_first()[i - 1] == entries[i]);
    }
}

/// Every value in the sequence is canonical.
pub open spec fn canon_list(items: Seq<CborVal>) -> bool
    decreases items,
{
    items.len() == 0 || (cbor_canon(items[0]) && canon_list(items.drop_first()))
}

/// Every key and value in the entry sequence is canonical.
pub open spec fn canon_pairs(entries: Seq<(CborVal, CborVal)>) -> bool
    decreases entries,
{
    entries.len() == 0 || (cbor_canon(entries[0].0) && cbor_canon(entries[0].1) && canon_pairs(
        entries.drop_first(),
    ))
}

/// The keys' encodings are in strictly ascending lexicographic order.
pub open spec fn sorted_keys(entries: Seq<(CborVal, CborVal)>) -> bool
    decreases entries,
{
    entries.len() <= 1 || (lex_lt(cbor_enc(entries[0].0), cbor_enc(entries[1].0)) && sorted_keys(
        entries.drop_first(),
    ))
}

/// Canonical form: every map's entries are in strictly ascending
/// lexicographic order of their keys' encodings.
pub open spec fn cbor_canon(v: CborVal) -> bool
    decreases v,
{
    match v {
        CborVal::Array(items) => canon_list(items),
        CborVal::Dict(entries) => canon_pairs(entries) && sorted_keys(entries),
        _ => true,
    }
}

/// Each element of a canonical list is canonical.
pub proof fn lemma_canon_list_index(items: Seq<CborVal>, i: int)
    requires
        canon_list(items),
        0 <= i < items.len(),
    ensures
        cbor_canon(items[i]),
    decreases i,
{
    if i > 0 {
        lemma_canon_list_index(items.drop_first(), i - 1);
        assert(items.drop_first()[i - 1] == items[i]);
    }
}

/// Each key and value of a canonical entry sequence is canonical.
pub proof fn lemma_canon_pairs_index(entries: Seq<(CborVal, CborVal)>, i: int)
    requires
        canon_pairs(entries),
        0 <= i < entries.len(),
    ensures
        cbor_canon(entries[i].0),
        cbor_canon(entries[i].1),
    decreases i,
{
    if i > 0 {
        lemma_canon_pairs_index(entries.drop_first(), i - 1);
        assert(entries.drop_first()[i - 1] == entries[i]);
    }
}

/// Adjacent keys of a sorted entry sequence are strictly ordered.
pub proof fn lemma_sorted_keys_adjacent(entries: Seq<(CborVal, CborVal)>, i: int)
    requires
        sorted_keys(entries),
        0 <= i < entries.len() - 1,
    ensures
        lex_lt(cbor_enc(entries[i].0), cbor_enc(entries[i + 1].0)),
    decreases i,
{
    if i > 0 {
        lemma_sorted_keys_adjacent(entries.drop_first(), i - 1);
        assert(entries.drop_first()[i - 1] == entries[i]);
        assert(entries.drop_first()[i] == entries[i + 1]);
    }
}

/// A canonical encodable value.
pub open spec fn cbor_valid(v: CborVal) -> bool {
    cbor_wf(v) && cbor_canon(v)
}

/// Relates the view of a container to the views of its elements.
pub proof fn lemma_view_parts(v: CborValue)
    ensures
        v is Array ==> v@->Array_0.len() == v->Array_0@.len(),
        v is Array ==> forall|i: int|
            0 <= i < v->Array_0@.len() ==> v@->Array_0[i] == #[trigger] v->Array_0@[i]@,
        v is Dict ==> v@->Dict_0.len() == v->Dict_0@.len(),
        v is Dict ==> forall|i: int|
            0 <= i < v->Dict_0@.len() ==> #[trigger] v@->Dict_0[i] == (
                v->Dict_0@[i].0@,
                v->Dict_0@[i].1@,
            ),
{
    match v {
        CborValue::Array(items) => {
            lemma_view_list(items@);
        },
        CborValue::Dict(entries) => {
            lemma_view_pairs(entries@);
        },
        _ => {},
    }
}

/// Writes the canonical header for major type `m` with argument `n`.
fn push_hdr(out: &mut Vec<u8>, m: u8, n: u64)
    requires
        m == 0 || m == 2 || m == 3 || m == 4 || m == 5,
    ensures
        final(out)@ == old(out)@ + cbor_hdr(m, n as nat),
{
    if n < 24 {
        out.push(m * 32 + (n as u8));
    } else if n < 0x100 {
        out.push(m * 32 + 24);
        out.push(n as u8);
    } else if n < 0x10000 {
        out.push(m * 32 + 25);
        out.push((n / 0x100) as u8);
        out.push((n % 0x100) as u8);
    } else if n < 0x100000000 {
        out.push(m * 32 + 26);
        out.push((n / 0x1000000) as u8);
        out.push(((n / 0x10000) % 0x100) as u8);
        out.push(((n / 0x100) % 0x100) as u8);
        out.push((n % 0x100) as u8);
    } else {
        out.push(m * 32 + 27);
        out.push((n / 0x100000000000000) as u8);
        out.push(((n / 0x1000000000000) % 0x100) as u8);
        out.push(((n / 0x10000000000) % 0x100) as u8);
        out.push(((n / 0x100000000) % 0x100) as u8);
        out.push(((n / 0x1000000) % 0x100) as u8);
        out.push(((n / 0x10000) % 0x100) as u8);
        out.push(((n / 0x100) % 0x100) as u8);
        out.push((n % 0x100) as u8);
    }
    assert(out@ =~= old(out)@ + cbor_hdr(m, n as nat));
}

/// Appends the bytes of a slice.
pub fn push_bytes(out: &mut Vec<u8>, bytes: &[u8])
    ensures
        final(out)@ == old(out)@ + bytes@,
{
    let mut i: usize = 0;
    while i < bytes.len()
        invariant
            i <= bytes@.len(),
            out@ == old(out)@ + bytes@.take(i as int),
        decreases bytes@.len() - i,
    {
        out.push(bytes[i]);
        assert(out@ =~= old(out)@ + bytes@.take(i + 1));
        i = i + 1;
    }
    assert(out@ =~= old(out)@ + bytes@);
}

/// Appending one value to a list appends its encoding.
proof fn lemma_enc_list_push(items: Seq<CborVal>, v: CborVal)
    ensures
        cbor_enc_list(items.push(v)) == cbor_enc_list(items) + cbor_enc(v),
    decreases items.len(),
{
    let pushed = items.push(v);
    if items.len() == 0 {
        assert(pushed[0] == v);
        assert(pushed.drop_first() =~= Seq::<CborVal>::empty());
        assert(cbor_enc_list(pushed) == cbor_enc(v) + cbor_enc_list(Seq::<CborVal>::empty()));
        assert(cbor_enc_list(Seq::<CborVal>::empty()) =~= Seq::<u8>::empty());
        assert(cbor_enc_list(items) =~= Seq::<u8>::empty());
        assert(cbor_enc_list(pushed) =~= cbor_enc_list(items) + cbor_enc(v));
    } else {
        assert(pushed[0] == items[0]);
        assert(pushed.drop_first() =~= items.drop_first().push(v));
        lemma_enc_list_push(items.drop_first(), v);
        assert(cbor_enc_list(pushed) == cbor_enc(items[0]) + cbor_enc_list(
            items.drop_first().push(v),
        ));
        assert(cbor_enc_list(pushed) =~= cbor_enc_list(items) + cbor_enc(v));
    }
}

/// Appending one entry to a map body appends both encodings.
proof fn lemma_enc_pairs_push(entries: Seq<(CborVal, CborVal)>, e: (CborVal, CborVal))
    ensures
        cbor_enc_pairs(entries.push(e)) == cbor_enc_pairs(entries) + cbor_enc(e.0) + cbor_enc(
            e.1,
        ),
    decreases entries.len(),
{
    let pushed = entries.push(e);
    if entries.len() == 0 {
        assert(pushed[0] == e);
        assert(pushed.drop_first() =~= Seq::<(CborVal, CborVal)>::empty());
        assert(cbor_enc_pairs(pushed) == cbor_enc(e.0) + cbor_enc(e.1) + cbor_enc_pairs(
            Seq::<(CborVal, CborVal)>::empty(),
        ));
        assert(cbor_enc_pairs(Seq::<(CborVal, CborVal)>::empty()) =~= Seq::<u8>::empty());
        assert(cbor_enc_pairs(entries) =~= Seq::<u8>::empty());
        assert(cbor_enc_pairs(pushed) =~= cbor_enc_pairs(entries) + cbor_enc(e.0) + cbor_enc(e.1));
    } else {
        assert(pushed[0] == entries[0]);
        assert(pushed.drop_first() =~= entries.drop_first().push(e));
        lemma_enc_pairs_push(entries.drop_first(), e);
        assert(cbor_enc_pairs(pushed) == cbor_enc(entries[0].0) + cbor_enc(entries[0].1)
            + cbor_enc_pairs(entries.drop_first().push(e)));
        assert(cbor_enc_pairs(pushed) =~= cbor_enc_pairs(entries) + cbor_enc(e.0) + cbor_enc(e.1));
    }
}

/// The concatenated encodings of the values from index `idx` on.
pub open spec fn enc_list_from(s: Seq<CborVal>, idx: int) -> Seq<u8>
    decreases s.len() - idx,
{
    if !(0 <= idx < s.len()) {
        Seq::empty()
    } else {
        cbor_enc(s[idx]) + enc_list_from(s, idx + 1)
    }
}

/// The concatenated encodings of the entries from index `idx` on.
pub open spec fn enc_pairs_from(s: Seq<(CborVal, CborVal)>, idx: int) -> Seq<u8>
    decreases s.len() - idx,
{
    if !(0 <= idx < s.len()) {
        Seq::empty()
    } else {
        cbor_enc(s[idx].0) + cbor_enc(s[idx].1) + enc_pairs_from(s, idx + 1)
    }
}

/// Encoding a whole list from the front is the list's encoding.
pub proof fn lemma_enc_list_from(s: Seq<CborVal>, idx: int)
    requires
        0 <= idx <= s.len(),
    ensures
        enc_list_from(s, idx) == cbor_enc_list(s.subrange(idx, s.len() as int)),
    decreases s.len() - idx,
{
    let sub = s.subrange(idx, s.len() as int);
    if idx == s.len() {
        assert(sub.len() == 0);
    } else {
        lemma_enc_list_from(s, idx + 1);
        assert(sub[0] == s[idx]);
        assert(sub.drop_first() =~= s.subrange(idx + 1, s.len() as int));
        assert(cbor_enc_list(sub) == cbor_enc(sub[0]) + cbor_enc_list(sub.drop_first()));
    }
}

/// Encoding all entries from the front is the map body's encoding.
pub proof fn lemma_enc_pairs_from(s: Seq<(CborVal, CborVal)>, idx: int)
    requires
        0 <= idx <= s.len(),
    ensures
        enc_pairs_from(s, idx) == cbor_enc_pairs(s.subrange(idx, s.len() as int)),
    decreases s.len() - idx,
{
    let sub = s.subrange(idx, s.len() as int);
    if idx == s.len() {
        assert(sub.len() == 0);
    } else {
        lemma_enc_pairs_from(s, idx + 1);
        assert(sub[0] == s[idx]);
        assert(sub.drop_first() =~= s.subrange(idx + 1, s.len() as int));
        assert(cbor_enc_pairs(sub) == cbor_enc(sub[0].0) + cbor_enc(sub[0].1) + cbor_enc_pairs(
            sub.drop_first(),
        ));
    }
}

/// Appends the canonical encoding of an already-canonical value.
fn encode_canon_into(v: &CborValue, out: &mut Vec<u8>)
    requires
        cbor_canon(v@),
    ensures
        final(out)@ == old(out)@ + cbor_enc(v@),
    decreases v, 0int,
{
    match v {
        CborValue::Uint(n) => {
            push_hdr(out, 0, *n);
        },
        CborValue::Bytes(b) => {
            push_hdr(out, 2, b.len() as u64);
            push_bytes(out, b.as_slice());
            assert(out@ =~= old(out)@ + cbor_enc(v@));
        },
        CborValue::Text(s) => {
            let bytes = s.as_str().as_bytes();
            push_hdr(out, 3, bytes.len() as u64);
            push_bytes(out, bytes);
            assert(out@ =~= old(out)@ + cbor_enc(v@));
        },
        CborValue::Array(items) => {
            proof {
                lemma_view_list(items@);
            }
            push_hdr(out, 4, items.len() as u64);
            assert forall|k: int| 0 <= k < items@.len() implies cbor_canon(
                #[trigger] items@[k]@,
            ) by {
                lemma_canon_list_index(view_list(items@), k);
            }
            encode_list_from(items, 0, out);
            proof {
                lemma_enc_list_from(view_list(items@), 0);
                assert(view_list(items@).subrange(0, view_list(items@).len() as int) =~= view_list(
                    items@,
                ));
                assert(out@ =~= old(out)@ + cbor_enc(v@));
            }
        },
        CborValue::Dict(entries) => {
            proof {
                lemma_view_pairs(entries@);
            }
            push_hdr(out, 5, entries.len() as u64);
            assert forall|k: int| 0 <= k < entries@.len() implies cbor_canon(
                #[trigger] entries@[k].0@,
            ) && cbor_canon(entries@[k].1@) by {
                lemma_canon_pairs_index(view_pairs(entries@), k);
            }
            encode_pairs_from(entries, 0, out);
            proof {
                lemma_enc_pairs_from(view_pairs(entries@), 0);
                assert(view_pairs(entries@).subrange(
                    0,
                    view_pairs(entries@).len() as int,
                ) =~= view_pairs(entries@));
                assert(out@ =~= old(out)@ + cbor_enc(v@));
            }
        },
    }
}

/// Appends the encodings of the values from index `idx` on.
fn encode_list_from(items: &Vec<CborValue>, idx: usize, out: &mut Vec<u8>)
    requires
        idx <= items@.len(),
        forall|k: int| 0 <= k < items@.len() ==> cbor_canon(#[trigger] items@[k]@),
    ensures
        final(out)@ == old(out)@ + enc_list_from(view_list(items@), idx as int),
    decreases items, (items@.len() - idx) as int,
{
    proof {
        lemma_view_list(items@);
    }
    if idx < items.len() {
        encode_canon_into(&items[idx], out);
        encode_list_from(items, idx + 1, out);
        assert(out@ =~= old(out)@ + enc_list_from(view_list(items@), idx as int));
    }
}

/// Appends the encodings of the entries from index `idx` on.
fn encode_pairs_from(entries: &Vec<(CborValue, CborValue)>, idx: usize, out: &mut Vec<u8>)
    requires
        idx <= entries@.len(),
        forall|k: int|
            0 <= k < entries@.len() ==> cbor_canon(#[trigger] entries@[k].0@) && cbor_canon(
                entries@[k].1@,
            ),
    ensures
        final(out)@ == old(out)@ + enc_pairs_from(view_pairs(entries@), idx as int),
    decreases entries, (entries@.len() - idx) as int,
{
    proof {
        lemma_view_pairs(entries@);
    }
    if idx < entries.len() {
        encode_canon_into(&entries[idx].0, out);
        encode_canon_into(&entries[idx].1, out);
        encode_pairs_from(entries, idx + 1, out);
        assert(out@ =~= old(out)@ + enc_pairs_from(view_pairs(entries@), idx as int));
    }
}

/// Parses one canonical header at offset `i`: the major type, the argument,
/// and the offset after the header. Non-minimal forms and the reserved
/// argument encodings are rejected.
pub open spec fn dec_hdr(b: Seq<u8>, i: int) -> Option<(u8, u64, int)> {
    if 0 <= i < b.len() {
        let m = b[i] / 32;
        let low = b[i] % 32;
        if low < 24 {
            Some((m, low as u64, i + 1))
        } else if low == 24 {
            if i + 2 <= b.len() && b[i + 1] >= 24 {
                Some((m, b[i + 1] as u64, i + 2))
            } else {
                None
            }
        } else if low == 25 {
            if i + 3 <= b.len() {
                let n = b[i + 1] as int * 0x100 + b[i + 2] as int;
                if n >= 0x100 {
                    Some((m, n as u64, i + 3))
                } else {
                    None
                }
            } else {
                None
            }
        } else if low == 26 {
            if i + 5 <= b.len() {
                let n = b[i + 1] as int * 0x1000000 + b[i + 2] as int * 0x10000 + b[i
                    + 3] as int * 0x100 + b[i + 4] as int;
                if n >= 0x10000 {
                    Some((m, n as u64, i + 5))
                } else {
                    None
                }
            } else {
                None
            }
        } else if low == 27 {
            if i + 9 <= b.len() {
                let n = b[i + 1] as int * 0x100000000000000 + b[i + 2] as int
                    * 0x1000000000000 + b[i + 3] as int * 0x10000000000 + b[i + 4] as int
                    * 0x100000000 + b[i + 5] as int * 0x1000000 + b[i + 6] as int * 0x10000 + b[i
                    + 7] as int * 0x100 + b[i + 8] as int;
                if n >= 0x100000000 {
                    Some((m, n as u64, i + 9))
                } else {
                    None
                }
            } else {
                None
            }
        } else {
            None
        }
    } else {
        None
    }
}

/// Parses one value at offset `i`: the value and the offset after it.
pub open spec fn dec_at(b: Seq<u8>, i: int) -> Option<(CborVal, int)>
    decreases b.len() - i, 0int, 0int,
    when 0 <= i <= b.len()
{
    match dec_hdr(b, i) {
        None => None,
        Some((m, n, j)) => {
            if !(i < j <= b.len()) {
                None
            } else if m == 0 {
                Some((CborVal::Uint(n), j))
            } else if m == 2 {
                if j + n <= b.len() {
                    Some((CborVal::Bytes(b.subrange(j, j + n)), j + n))
                } else {
                    None
                }
            } else if m == 3 {
                if j + n <= b.len() && valid_utf8(b.subrange(j, j + n)) {
                    Some((CborVal::Text(b.subrange(j, j + n)), j + n))
                } else {
                    None
                }
            } else if m == 4 {
                match dec_items(b, j, n as int) {
                    Some((items, k)) => Some((CborVal::Array(items), k)),
                    None => None,
                }
            } else if m == 5 {
                match dec_entries(b, j, n as int, None) {
                    Some((entries, k)) => Some((CborVal::Dict(entries), k)),
                    None => None,
                }
            } else {
                None
            }
        },
    }
}

/// Parses `n` consecutive values starting at offset `i`.
pub open spec fn dec_items(b: Seq<u8>, i: int, n: int) -> Option<(Seq<CborVal>, int)>
    decreases b.len() - i, n, 1int,
    when 0 <= i <= b.len() && n >= 0
{
    if n <= 0 {
        Some((Seq::empty(), i))
    } else {
        match dec_at(b, i) {
            None => None,
            Some((v, j)) => if i < j <= b.len() {
                match dec_items(b, j, n - 1) {
                    None => None,
                    Some((rest, k)) => Some((seq![v] + rest, k)),
                }
            } else {
                None
            },
        }
    }
}

/// Parses `n` consecutive map entries starting at offset `i`, requiring each
/// key's encoding to come strictly after the previous key's in lexicographic
/// order.
pub open spec fn dec_entries(b: Seq<u8>, i: int, n: int, prev: Option<CborVal>) -> Option<
    (Seq<(CborVal, CborVal)>, int),
>
    decreases b.len() - i, n, 1int,
    when 0 <= i <= b.len() && n >= 0
{
    if n <= 0 {
        Some((Seq::empty(), i))
    } else {
        match dec_at(b, i) {
            None => None,
            Some((key, j)) => if i < j <= b.len() && (match prev {
                Some(p) => lex_lt(cbor_enc(p), cbor_enc(key)),
                None => true,
            }) {
                match dec_at(b, j) {
                    None => None,
                    Some((val, l)) => if j < l <= b.len() {
                        match dec_entries(b, l, n - 1, Some(key)) {
                            None => None,
                            Some((rest, k)) => Some((seq![(key, val)] + rest, k)),
                        }
                    } else {
                        None
                    },
                }
            } else {
                None
            },
        }
    }
}

/// The whole-input decode: one value that consumes every byte.
pub open spec fn cbor_dec(b: Seq<u8>) -> Option<CborVal> {
    match dec_at(b, 0) {
        Some((v, j)) => if j == b.len() {
            Some(v)
        } else {
            None
        },
        None => None,
    }
}

/// A parsed header is exactly the canonical header of its argument.
pub proof fn lemma_hdr_sound(b: Seq<u8>, i: int)
    requires
        0 <= i <= b.len(),
        dec_hdr(b, i) is Some,
    ensures
        ({
            let (m, n, j) = dec_hdr(b, i)->Some_0;
            &&& i < j <= b.len()
            &&& m <= 7
            &&& b.subrange(i, j) == cbor_hdr(m, n as nat)
            &&& j - i == cbor_hdr(m, n as nat).len()
        }),
{
    let (m, n, j) = dec_hdr(b, i)->Some_0;
    let first = b[i];
    let low = first % 32;
    let fby = first as u64;
    let m64 = fby / 32;
    let low64 = fby % 32;
    assert(fby == m64 * 32 + low64 && m64 <= 7 && low64 < 32) by (bit_vector)
        requires
            m64 == fby / 32,
            low64 == fby % 32,
            fby < 0x100,
    ;
    assert(m == m64 && low == low64);
    assert(first == m * 32 + low && m <= 7 && low < 32);
    if low < 24 {
        assert(b.subrange(i, j) =~= seq![b[i]]);
        assert(cbor_hdr(m, n as nat) =~= seq![(m * 32 + n as nat) as u8]);
    } else if low == 24 {
        assert(n == b[i + 1] && n >= 24 && n < 0x100);
        assert(b.subrange(i, j) =~= seq![b[i], b[i + 1]]);
        assert(cbor_hdr(m, n as nat) =~= seq![(m * 32 + 24) as u8, n as u8]);
    } else if low == 25 {
        let x1 = b[i + 1] as u64;
        let x2 = b[i + 2] as u64;
        assert(n == x1 * 0x100 + x2);
        assert(n / 0x100 == x1 && n % 0x100 == x2) by (bit_vector)
            requires
                n == x1 * 0x100 + x2,
                x1 < 0x100,
                x2 < 0x100,
        ;
        assert(b.subrange(i, j) =~= seq![b[i], b[i + 1], b[i + 2]]);
        assert(cbor_hdr(m, n as nat) =~= seq![
            (m * 32 + 25) as u8,
            (n as nat / 0x100) as u8,
            (n as nat % 0x100) as u8,
        ]);
    } else if low == 26 {
        let x1 = b[i + 1] as u64;
        let x2 = b[i + 2] as u64;
        let x3 = b[i + 3] as u64;
        let x4 = b[i + 4] as u64;
        assert(n == x1 * 0x1000000 + x2 * 0x10000 + x3 * 0x100 + x4);
        assert(n / 0x1000000 == x1 && (n / 0x10000) % 0x100 == x2 && (n / 0x100) % 0x100 == x3
            && n % 0x100 == x4) by (bit_vector)
            requires
                n == x1 * 0x1000000 + x2 * 0x10000 + x3 * 0x100 + x4,
                x1 < 0x100,
                x2 < 0x100,
                x3 < 0x100,
                x4 < 0x100,
        ;
        assert(b.subrange(i, j) =~= seq![b[i], b[i + 1], b[i + 2], b[i + 3], b[i + 4]]);
        assert(cbor_hdr(m, n as nat) =~= seq![
            (m * 32 + 26) as u8,
            (n as nat / 0x1000000) as u8,
            ((n as nat / 0x10000) % 0x100) as u8,
            ((n as nat / 0x100) % 0x100) as u8,
            (n as nat % 0x100) as u8,
        ]);
    } else {
        let x1 = b[i + 1] as u64;
        let x2 = b[i + 2] as u64;
        let x3 = b[i + 3] as u64;
        let x4 = b[i + 4] as u64;
        let x5 = b[i + 5] as u64;
        let x6 = b[i + 6] as u64;
        let x7 = b[i + 7] as u64;
        let x8 = b[i + 8] as u64;
        assert(low == 27);
        assert(n == x1 * 0x100000000000000 + x2 * 0x1000000000000 + x3 * 0x10000000000 + x4
            * 0x100000000 + x5 * 0x1000000 + x6 * 0x10000 + x7 * 0x100 + x8);
        assert(n / 0x100000000000000 == x1 && (n / 0x1000000000000) % 0x100 == x2 && (n
            / 0x10000000000) % 0x100 == x3 && (n / 0x100000000) % 0x100 == x4 && (n / 0x1000000)
            % 0x100 == x5 && (n / 0x10000) % 0x100 == x6 && (n / 0x100) % 0x100 == x7 && n % 0x100
            == x8) by (bit_vector)
            requires
                n == x1 * 0x100000000000000 + x2 * 0x1000000000000 + x3 * 0x10000000000 + x4
                    * 0x100000000 + x5 * 0x1000000 + x6 * 0x10000 + x7 * 0x100 + x8,
                x1 < 0x100,
                x2 < 0x100,
                x3 < 0x100,
                x4 < 0x100,
                x5 < 0x100,
                x6 < 0x100,
                x7 < 0x100,
                x8 < 0x100,
        ;
        assert(b.subrange(i, j) =~= seq![
            b[i],
            b[i + 1],
            b[i + 2],
            b[i + 3],
            b[i + 4],
            b[i + 5],
            b[i + 6],
            b[i + 7],
            b[i + 8],
        ]);
        assert(cbor_hdr(m, n as nat) =~= seq![
            (m * 32 + 27) as u8,
            (n as nat / 0x100000000000000) as u8,
            ((n as nat / 0x1000000000000) % 0x100) as u8,
            ((n as nat / 0x10000000000) % 0x100) as u8,
            ((n as nat / 0x100000000) % 0x100) as u8,
            ((n as nat / 0x1000000) % 0x100) as u8,
            ((n as nat / 0x10000) % 0x100) as u8,
            ((n as nat / 0x100) % 0x100) as u8,
            (n as nat % 0x100) as u8,
        ]);
    }
}

/// The canonical header of an argument parses back to it.
pub proof fn lemma_hdr_complete(b: Seq<u8>, i: int, m: u8, n: u64)
    requires
        m == 0 || m == 2 || m == 3 || m == 4 || m == 5,
        0 <= i,
        i + cbor_hdr(m, n as nat).len() <= b.len(),
        b.subrange(i, i + cbor_hdr(m, n as nat).len()) == cbor_hdr(m, n as nat),
    ensures
        dec_hdr(b, i) == Some((m, n, i + cbor_hdr(m, n as nat).len())),
{
    let h = cbor_hdr(m, n as nat);
    if n < 24 {
        let first = b[i];
        assert(first == (m * 32 + n as nat) as u8) by {
            assert(b.subrange(i, i + 1)[0] == b[i]);
        }
        let fby = first as u64;
        let m64 = m as u64;
        assert(fby / 32 == m64 && fby % 32 == n) by (bit_vector)
            requires
                fby == m64 * 32 + n,
                m64 <= 5,
                n < 24,
        ;
        assert(first / 32 == m && first % 32 == n);
    } else {
        let d1 = n / 0x100000000000000;
        let d2 = (n / 0x1000000000000) % 0x100;
        let d3 = (n / 0x10000000000) % 0x100;
        let d4 = (n / 0x100000000) % 0x100;
        let d5 = (n / 0x1000000) % 0x100;
        let d6 = (n / 0x10000) % 0x100;
        let d7 = (n / 0x100) % 0x100;
        let d8 = n % 0x100;
        assert(d1 * 0x100000000000000 + d2 * 0x1000000000000 + d3 * 0x10000000000 + d4
            * 0x100000000 + d5 * 0x1000000 + d6 * 0x10000 + d7 * 0x100 + d8 == n && d1 < 0x100
            && d2 < 0x100 && d3 < 0x100 && d4 < 0x100 && d5 < 0x100 && d6 < 0x100 && d7 < 0x100
            && d8 < 0x100 && (n < 0x100 ==> d8 == n) && (n < 0x10000 ==> d7 == n / 0x100) && (n
            < 0x100000000 ==> d5 == n / 0x1000000 && d6 == (n / 0x10000) % 0x100)) by (bit_vector)
            requires
                d1 == n / 0x100000000000000,
                d2 == (n / 0x1000000000000) % 0x100,
                d3 == (n / 0x10000000000) % 0x100,
                d4 == (n / 0x100000000) % 0x100,
                d5 == (n / 0x1000000) % 0x100,
                d6 == (n / 0x10000) % 0x100,
                d7 == (n / 0x100) % 0x100,
                d8 == n % 0x100,
        ;
        if n < 0x100 {
            let first = b[i];
            assert(first == (m * 32 + 24) as u8 && b[i + 1] == n as u8) by {
                assert(b.subrange(i, i + 2)[0] == b[i]);
                assert(b.subrange(i, i + 2)[1] == b[i + 1]);
            }
            let fby = first as u64;
            let m64 = m as u64;
            assert(fby / 32 == m64 && fby % 32 == 24) by (bit_vector)
                requires
                    fby == m64 * 32 + 24,
                    m64 <= 5,
            ;
            assert(first / 32 == m && first % 32 == 24);
        } else if n < 0x10000 {
            let first = b[i];
            assert(first == (m * 32 + 25) as u8 && b[i + 1] == (n as nat / 0x100) as u8 && b[i + 2]
                == (n as nat % 0x100) as u8) by {
                assert(b.subrange(i, i + 3)[0] == b[i]);
                assert(b.subrange(i, i + 3)[1] == b[i + 1]);
                assert(b.subrange(i, i + 3)[2] == b[i + 2]);
            }
            let fby = first as u64;
            let m64 = m as u64;
            assert(fby / 32 == m64 && fby % 32 == 25) by (bit_vector)
                requires
                    fby == m64 * 32 + 25,
                    m64 <= 5,
            ;
            assert(first / 32 == m && first % 32 == 25);
            assert(b[i + 1] as int * 0x100 + b[i + 2] as int == n);
        } else if n < 0x100000000 {
            let first = b[i];
            assert(first == (m * 32 + 26) as u8 && b[i + 1] == (n as nat / 0x1000000) as u8 && b[i
                + 2] == ((n as nat / 0x10000) % 0x100) as u8 && b[i + 3] == ((n as nat / 0x100)
                % 0x100) as u8 && b[i + 4] == (n as nat % 0x100) as u8) by {
                assert(b.subrange(i, i + 5)[0] == b[i]);
                assert(b.subrange(i, i + 5)[1] == b[i + 1]);
                assert(b.subrange(i, i + 5)[2] == b[i + 2]);
                assert(b.subrange(i, i + 5)[3] == b[i + 3]);
                assert(b.subrange(i, i + 5)[4] == b[i + 4]);
            }
            let fby = first as u64;
            let m64 = m as u64;
            assert(fby / 32 == m64 && fby % 32 == 26) by (bit_vector)
                requires
                    fby == m64 * 32 + 26,
                    m64 <= 5,
            ;
            assert(first / 32 == m && first % 32 == 26);
            assert(b[i + 1] as int * 0x1000000 + b[i + 2] as int * 0x10000 + b[i + 3] as int
                * 0x100 + b[i + 4] as int == n);
        } else {
            let first = b[i];
            assert(first == (m * 32 + 27) as u8 && b[i + 1] == d1 as u8 && b[i + 2] == d2 as u8
                && b[i + 3] == d3 as u8 && b[i + 4] == d4 as u8 && b[i + 5] == d5 as u8 && b[i + 6]
                == d6 as u8 && b[i + 7] == d7 as u8 && b[i + 8] == d8 as u8) by {
                assert(b.subrange(i, i + 9)[0] == b[i]);
                assert(b.subrange(i, i + 9)[1] == b[i + 1]);
                assert(b.subrange(i, i + 9)[2] == b[i + 2]);
                assert(b.subrange(i, i + 9)[3] == b[i + 3]);
                assert(b.subrange(i, i + 9)[4] == b[i + 4]);
                assert(b.subrange(i, i + 9)[5] == b[i + 5]);
                assert(b.subrange(i, i + 9)[6] == b[i + 6]);
                assert(b.subrange(i, i + 9)[7] == b[i + 7]);
                assert(b.subrange(i, i + 9)[8] == b[i + 8]);
            }
            let fby = first as u64;
            let m64 = m as u64;
            assert(fby / 32 == m64 && fby % 32 == 27) by (bit_vector)
                requires
                    fby == m64 * 32 + 27,
                    m64 <= 5,
            ;
            assert(first / 32 == m && first % 32 == 27);
            assert(b[i + 1] as int * 0x100000000000000 + b[i + 2] as int * 0x1000000000000 + b[i
                + 3] as int * 0x10000000000 + b[i + 4] as int * 0x100000000 + b[i + 5] as int
                * 0x1000000 + b[i + 6] as int * 0x10000 + b[i + 7] as int * 0x100 + b[i
                + 8] as int == n);
        }
    }
}

/// Every encoding is at least one byte long.
pub proof fn lemma_enc_nonempty(v: CborVal)
    ensures
        cbor_enc(v).len() >= 1,
{
}

/// Whatever `dec_at` accepts is the canonical encoding of a sound,
/// canonical value: the consumed bytes are exactly `cbor_enc` of the result.
pub proof fn lemma_dec_sound(b: Seq<u8>, i: int)
    requires
        0 <= i <= b.len(),
    ensures
        dec_at(b, i) is Some ==> ({
            let (v, j) = dec_at(b, i)->Some_0;
            &&& i < j <= b.len()
            &&& b.subrange(i, j) == cbor_enc(v)
            &&& cbor_wf(v)
            &&& cbor_canon(v)
        }),
    decreases b.len() - i, 0int, 0int,
{
    if dec_at(b, i) is Some {
        let (m, n, h) = dec_hdr(b, i)->Some_0;
        lemma_hdr_sound(b, i);
        let (v, j) = dec_at(b, i)->Some_0;
        if m == 0 {
            assert(b.subrange(i, j) == cbor_enc(v));
        } else if m == 2 || m == 3 {
            assert(b.subrange(i, j) =~= b.subrange(i, h) + b.subrange(h, j));
        } else if m == 4 {
            let (items, k) = dec_items(b, h, n as int)->Some_0;
            lemma_items_sound(b, h, n as int);
            assert(b.subrange(i, j) =~= b.subrange(i, h) + b.subrange(h, j));
            assert(cbor_enc(v) == cbor_hdr(4, items.len()) + cbor_enc_list(items));
        } else {
            let (entries, k) = dec_entries(b, h, n as int, None)->Some_0;
            lemma_entries_sound(b, h, n as int, None);
            assert(b.subrange(i, j) =~= b.subrange(i, h) + b.subrange(h, j));
            assert(cbor_enc(v) == cbor_hdr(5, entries.len()) + cbor_enc_pairs(entries));
        }
    }
}

/// Soundness for a run of `n` consecutive values.
pub proof fn lemma_items_sound(b: Seq<u8>, i: int, n: int)
    requires
        0 <= i <= b.len(),
        n >= 0,
    ensures
        dec_items(b, i, n) is Some ==> ({
            let (vs, k) = dec_items(b, i, n)->Some_0;
            &&& i <= k <= b.len()
            &&& vs.len() == n
            &&& b.subrange(i, k) == cbor_enc_list(vs)
            &&& wf_list(vs)
            &&& canon_list(vs)
        }),
    decreases b.len() - i, n, 1int,
{
    if dec_items(b, i, n) is Some && n > 0 {
        let (v, j) = dec_at(b, i)->Some_0;
        lemma_dec_sound(b, i);
        let (rest, k) = dec_items(b, j, n - 1)->Some_0;
        lemma_items_sound(b, j, n - 1);
        let vs = seq![v] + rest;
        assert(vs[0] == v);
        assert(vs.drop_first() =~= rest);
        assert(b.subrange(i, k) =~= b.subrange(i, j) + b.subrange(j, k));
        assert(cbor_enc_list(vs) == cbor_enc(v) + cbor_enc_list(rest));
        assert(wf_list(vs));
        assert(canon_list(vs));
    }
}

/// Soundness for a run of `n` consecutive map entries: the entries come out
/// canonical and sorted, and strictly after `prev` where one is given.
pub proof fn lemma_entries_sound(b: Seq<u8>, i: int, n: int, prev: Option<CborVal>)
    requires
        0 <= i <= b.len(),
        n >= 0,
    ensures
        dec_entries(b, i, n, prev) is Some ==> ({
            let (es, k) = dec_entries(b, i, n, prev)->Some_0;
            &&& i <= k <= b.len()
            &&& es.len() == n
            &&& b.subrange(i, k) == cbor_enc_pairs(es)
            &&& wf_pairs(es)
            &&& canon_pairs(es)
            &&& sorted_keys(es)
            &&& (prev is Some && es.len() > 0 ==> lex_lt(
                cbor_enc(prev->Some_0),
                cbor_enc(es[0].0),
            ))
        }),
    decreases b.len() - i, n, 1int,
{
    if dec_entries(b, i, n, prev) is Some && n > 0 {
        let (key, j) = dec_at(b, i)->Some_0;
        lemma_dec_sound(b, i);
        let (val, l) = dec_at(b, j)->Some_0;
        lemma_dec_sound(b, j);
        let (rest, k) = dec_entries(b, l, n - 1, Some(key))->Some_0;
        lemma_entries_sound(b, l, n - 1, Some(key));
        let es = seq![(key, val)] + rest;
        assert(es[0] == (key, val));
        assert(es.drop_first() =~= rest);
        assert(b.subrange(i, k) =~= b.subrange(i, j) + b.subrange(j, l) + b.subrange(l, k));
        assert(cbor_enc_pairs(es) == cbor_enc(key) + cbor_enc(val) + cbor_enc_pairs(rest));
        assert(wf_pairs(es));
        assert(canon_pairs(es));
        if rest.len() > 0 {
            assert(es[1] == rest[0]);
            assert(lex_lt(cbor_enc(es[0].0), cbor_enc(es[1].0)));
        }
        assert(sorted_keys(es));
    }
}

/// The canonical encoding of a sound, canonical value parses back to exactly
/// that value.
pub proof fn lemma_dec_complete(v: CborVal, b: Seq<u8>, i: int)
    requires
        cbor_wf(v),
        cbor_canon(v),
        0 <= i,
        i + cbor_enc(v).len() <= b.len(),
        b.subrange(i, i + cbor_enc(v).len()) == cbor_enc(v),
    ensures
        dec_at(b, i) == Some((v, i + cbor_enc(v).len() as int)),
    decreases v, 0int,
{
    let e = cbor_enc(v);
    match v {
        CborVal::Uint(n) => {
            lemma_hdr_complete(b, i, 0, n);
        },
        CborVal::Bytes(bs) => {
            let hl = cbor_hdr(2, bs.len()).len() as int;
            assert(b.subrange(i, i + hl) =~= cbor_hdr(2, bs.len())) by {
                assert(e =~= cbor_hdr(2, bs.len()) + bs);
                assert forall|q: int| 0 <= q < hl implies b.subrange(i, i + hl)[q] == cbor_hdr(
                    2,
                    bs.len(),
                )[q] by {
                    assert(b.subrange(i, i + e.len())[q] == e[q]);
                }
            }
            lemma_hdr_complete(b, i, 2, bs.len() as u64);
            assert(b.subrange(i + hl, i + e.len()) =~= bs) by {
                assert forall|q: int| 0 <= q < bs.len() implies b.subrange(
                    i + hl,
                    i + e.len(),
                )[q] == bs[q] by {
                    assert(b.subrange(i, i + e.len())[hl + q] == e[hl + q]);
                    assert(e[hl + q] == bs[q]);
                }
            }
        },
        CborVal::Text(bs) => {
            let hl = cbor_hdr(3, bs.len()).len() as int;
            assert(b.subrange(i, i + hl) =~= cbor_hdr(3, bs.len())) by {
                assert(e =~= cbor_hdr(3, bs.len()) + bs);
                assert forall|q: int| 0 <= q < hl implies b.subrange(i, i + hl)[q] == cbor_hdr(
                    3,
                    bs.len(),
                )[q] by {
                    assert(b.subrange(i, i + e.len())[q] == e[q]);
                }
            }
            lemma_hdr_complete(b, i, 3, bs.len() as u64);
            assert(b.subrange(i + hl, i + e.len()) =~= bs) by {
                assert forall|q: int| 0 <= q < bs.len() implies b.subrange(
                    i + hl,
                    i + e.len(),
                )[q] == bs[q] by {
                    assert(b.subrange(i, i + e.len())[hl + q] == e[hl + q]);
                    assert(e[hl + q] == bs[q]);
                }
            }
        },
        CborVal::Array(items) => {
            let hl = cbor_hdr(4, items.len()).len() as int;
            let el = cbor_enc_list(items);
            assert(b.subrange(i, i + hl) =~= cbor_hdr(4, items.len())) by {
                assert(e =~= cbor_hdr(4, items.len()) + el);
                assert forall|q: int| 0 <= q < hl implies b.subrange(i, i + hl)[q] == cbor_hdr(
                    4,
                    items.len(),
                )[q] by {
                    assert(b.subrange(i, i + e.len())[q] == e[q]);
                }
            }
            lemma_hdr_complete(b, i, 4, items.len() as u64);
            assert(b.subrange(i + hl, i + e.len()) =~= el) by {
                assert(e =~= cbor_hdr(4, items.len()) + el);
                assert forall|q: int| 0 <= q < el.len() implies b.subrange(
                    i + hl,
                    i + e.len(),
                )[q] == el[q] by {
                    assert(b.subrange(i, i + e.len())[hl + q] == e[hl + q]);
                    assert(e[hl + q] == el[q]);
                }
            }
            lemma_items_complete(items, b, i + hl);
        },
        CborVal::Dict(entries) => {
            let hl = cbor_hdr(5, entries.len()).len() as int;
            let el = cbor_enc_pairs(entries);
            assert(b.subrange(i, i + hl) =~= cbor_hdr(5, entries.len())) by {
                assert(e =~= cbor_hdr(5, entries.len()) + el);
                assert forall|q: int| 0 <= q < hl implies b.subrange(i, i + hl)[q] == cbor_hdr(
                    5,
                    entries.len(),
                )[q] by {
                    assert(b.subrange(i, i + e.len())[q] == e[q]);
                }
            }
            lemma_hdr_complete(b, i, 5, entries.len() as u64);
            assert(b.subrange(i + hl, i + e.len()) =~= el) by {
                assert(e =~= cbor_hdr(5, entries.len()) + el);
                assert forall|q: int| 0 <= q < el.len() implies b.subrange(
                    i + hl,
                    i + e.len(),
                )[q] == el[q] by {
                    assert(b.subrange(i, i + e.len())[hl + q] == e[hl + q]);
                    assert(e[hl + q] == el[q]);
                }
            }
            lemma_entries_complete(entries, b, i + hl, None);
        },
    }
}

/// Completeness for a concatenated run of encoded values.
pub proof fn lemma_items_complete(items: Seq<CborVal>, b: Seq<u8>, i: int)
    requires
        wf_list(items),
        canon_list(items),
        0 <= i,
        i + cbor_enc_list(items).len() <= b.len(),
        b.subrange(i, i + cbor_enc_list(items).len()) == cbor_enc_list(items),
    ensures
        dec_items(b, i, items.len() as int) == Some(
            (items, i + cbor_enc_list(items).len() as int),
        ),
    decreases items, 1int,
{
    let e = cbor_enc_list(items);
    if items.len() == 0 {
        assert(dec_items(b, i, 0) == Some((Seq::<CborVal>::empty(), i)));
        assert(items =~= Seq::<CborVal>::empty());
    } else {
        let v = items[0];
        let rest = items.drop_first();
        let ev = cbor_enc(v);
        let er = cbor_enc_list(rest);
        assert(e == ev + er);
        assert(b.subrange(i, i + ev.len()) =~= ev) by {
            assert forall|q: int| 0 <= q < ev.len() implies b.subrange(i, i + ev.len())[q]
                == ev[q] by {
                assert(b.subrange(i, i + e.len())[q] == e[q]);
            }
        }
        lemma_dec_complete(v, b, i);
        lemma_enc_nonempty(v);
        let j = i + ev.len() as int;
        assert(b.subrange(j, j + er.len()) =~= er) by {
            assert forall|q: int| 0 <= q < er.len() implies b.subrange(j, j + er.len())[q]
                == er[q] by {
                assert(b.subrange(i, i + e.len())[ev.len() + q] == e[ev.len() + q]);
            }
        }
        lemma_items_complete(rest, b, j);
        assert(seq![v] + rest =~= items);
    }
}

/// Completeness for a concatenated run of encoded map entries whose keys are
/// strictly sorted and come strictly after `prev` where one is given.
pub proof fn lemma_entries_complete(
    entries: Seq<(CborVal, CborVal)>,
    b: Seq<u8>,
    i: int,
    prev: Option<CborVal>,
)
    requires
        wf_pairs(entries),
        canon_pairs(entries),
        sorted_keys(entries),
        prev is Some && entries.len() > 0 ==> lex_lt(
            cbor_enc(prev->Some_0),
            cbor_enc(entries[0].0),
        ),
        0 <= i,
        i + cbor_enc_pairs(entries).len() <= b.len(),
        b.subrange(i, i + cbor_enc_pairs(entries).len()) == cbor_enc_pairs(entries),
    ensures
        dec_entries(b, i, entries.len() as int, prev) == Some(
            (entries, i + cbor_enc_pairs(entries).len() as int),
        ),
    decreases entries, 1int,
{
    let e = cbor_enc_pairs(entries);
    if entries.len() == 0 {
        assert(dec_entries(b, i, 0, prev) == Some((Seq::<(CborVal, CborVal)>::empty(), i)));
        assert(entries =~= Seq::<(CborVal, CborVal)>::empty());
    } else {
        let key = entries[0].0;
        let val = entries[0].1;
        let rest = entries.drop_first();
        let ek = cbor_enc(key);
        let ev = cbor_enc(val);
        let er = cbor_enc_pairs(rest);
        assert(e == ek + ev + er);
        assert(b.subrange(i, i + ek.len()) =~= ek) by {
            assert forall|q: int| 0 <= q < ek.len() implies b.subrange(i, i + ek.len())[q]
                == ek[q] by {
                assert(b.subrange(i, i + e.len())[q] == e[q]);
            }
        }
        lemma_dec_complete(key, b, i);
        lemma_enc_nonempty(key);
        let j = i + ek.len() as int;
        assert(b.subrange(j, j + ev.len()) =~= ev) by {
            assert forall|q: int| 0 <= q < ev.len() implies b.subrange(j, j + ev.len())[q]
                == ev[q] by {
                assert(b.subrange(i, i + e.len())[ek.len() + q] == e[ek.len() + q]);
                assert(e[ek.len() + q] == ev[q]);
            }
        }
        lemma_dec_complete(val, b, j);
        lemma_enc_nonempty(val);
        let l = j + ev.len() as int;
        assert(b.subrange(l, l + er.len()) =~= er) by {
            assert forall|q: int| 0 <= q < er.len() implies b.subrange(l, l + er.len())[q]
                == er[q] by {
                assert(b.subrange(i, i + e.len())[ek.len() + ev.len() + q] == e[ek.len()
                    + ev.len() + q]);
                assert(e[ek.len() + ev.len() + q] == er[q]);
            }
        }
        if rest.len() > 0 {
            assert(rest[0] == entries[1]);
            assert(lex_lt(cbor_enc(key), cbor_enc(rest[0].0)));
        }
        lemma_entries_complete(rest, b, l, Some(key));
        assert(seq![(key, val)] + rest =~= entries);
    }
}

/// Round trip: decoding the canonical encoding of a sound, canonical value
/// gives back exactly that value; and whatever decodes re-encodes to the
/// input bytes.
pub proof fn lemma_codec_round_trip(v: CborVal, b: Seq<u8>)
    requires
        cbor_wf(v),
        cbor_canon(v),
    ensures
        cbor_dec(cbor_enc(v)) == Some(v),
        cbor_dec(b) is Some ==> cbor_enc(cbor_dec(b)->Some_0) == b && cbor_wf(
            cbor_dec(b)->Some_0,
        ) && cbor_canon(cbor_dec(b)->Some_0),
{
    let e = cbor_enc(v);
    assert(e.subrange(0, e.len() as int) =~= e);
    lemma_dec_complete(v, e, 0);
    if cbor_dec(b) is Some {
        lemma_dec_sound(b, 0);
        assert(b.subrange(0, b.len() as int) =~= b);
    }
}

/// Structural limits hold of the value when it sits at nesting depth `d`:
/// the depth never exceeds `max_depth` and no container holds more than
/// `max_items` entries.
pub open spec fn within_limits(v: CborVal, d: int, max_depth: int, max_items: int) -> bool
    decreases v, 0int,
{
    d <= max_depth && match v {
        CborVal::Array(items) => items.len() <= max_items && limits_list(
            items,
            d + 1,
            max_depth,
            max_items,
        ),
        CborVal::Dict(entries) => entries.len() <= max_items && limits_pairs(
            entries,
            d + 1,
            max_depth,
            max_items,
        ),
        _ => true,
    }
}

/// Structural limits hold of every value in the sequence at depth `d`.
pub open spec fn limits_list(items: Seq<CborVal>, d: int, max_depth: int, max_items: int) -> bool
    decreases items, 1int,
{
    items.len() == 0 || (within_limits(items[0], d, max_depth, max_items) && limits_list(
        items.drop_first(),
        d,
        max_depth,
        max_items,
    ))
}

/// Structural limits hold of every entry in the sequence at depth `d`.
pub open spec fn limits_pairs(
    entries: Seq<(CborVal, CborVal)>,
    d: int,
    max_depth: int,
    max_items: int,
) -> bool
    decreases entries, 1int,
{
    entries.len() == 0 || (within_limits(entries[0].0, d, max_depth, max_items) && within_limits(
        entries[0].1,
        d,
        max_depth,
        max_items,
    ) && limits_pairs(entries.drop_first(), d, max_depth, max_items))
}

/// Each element of a within-limits list is within limits.
pub proof fn lemma_limits_list_index(
    items: Seq<CborVal>,
    d: int,
    max_depth: int,
    max_items: int,
    i: int,
)
    requires
        limits_list(items, d, max_depth, max_items),
        0 <= i < items.len(),
    ensures
        within_limits(items[i], d, max_depth, max_items),
    decreases i,
{
    if i > 0 {
        lemma_limits_list_index(items.drop_first(), d, max_depth, max_items, i - 1);
        assert(items.drop_first()[i - 1] == items[i]);
    }
}

/// Each key and value of a within-limits entry sequence is within limits.
pub proof fn lemma_limits_pairs_index(
    entries: Seq<(CborVal, CborVal)>,
    d: int,
    max_depth: int,
    max_items: int,
    i: int,
)
    requires
        limits_pairs(entries, d, max_depth, max_items),
        0 <= i < entries.len(),
    ensures
        within_limits(entries[i].0, d, max_depth, max_items),
        within_limits(entries[i].1, d, max_depth, max_items),
    decreases i,
{
    if i > 0 {
        lemma_limits_pairs_index(entries.drop_first(), d, max_depth, max_items, i - 1);
        assert(entries.drop_first()[i - 1] == entries[i]);
    }
}

/// When two byte strings share a prefix of length `t`, their order is the
/// order of their remainders.
pub proof fn lemma_lex_lt_skip(a: Seq<u8>, b: Seq<u8>, t: int)
    requires
        0 <= t <= a.len(),
        t <= b.len(),
        forall|q: int| 0 <= q < t ==> a[q] == b[q],
    ensures
        lex_lt(a, b) == lex_lt(a.skip(t), b.skip(t)),
    decreases t,
{
    if t > 0 {
        assert(a.len() > 0 && b.len() > 0);
        assert(a[0] == b[0]);
        lemma_lex_lt_skip(a.drop_first(), b.drop_first(), t - 1);
        assert(a.drop_first().skip(t - 1) =~= a.skip(t));
        assert(b.drop_first().skip(t - 1) =~= b.skip(t));
    } else {
        assert(a.skip(0) =~= a);
        assert(b.skip(0) =~= b);
    }
}

/// Copies `bytes[from..to]` into a fresh vector.
pub fn slice_to_vec(bytes: &[u8], from: usize, to: usize) -> (r: Vec<u8>)
    requires
        from <= to <= bytes@.len(),
    ensures
        r@ == bytes@.subrange(from as int, to as int),
{
    let mut out: Vec<u8> = Vec::new();
    let mut i: usize = from;
    while i < to
        invariant
            from <= i <= to <= bytes@.len(),
            out@ == bytes@.subrange(from as int, i as int),
        decreases to - i,
    {
        out.push(bytes[i]);
        assert(out@ =~= bytes@.subrange(from as int, i + 1));
        i = i + 1;
    }
    out
}

/// Relies on `String::from_utf8`: it accepts exactly the valid UTF-8 byte
/// strings and preserves the bytes it was given.
#[verifier::external_body]
fn bytes_to_string(v: Vec<u8>) -> (r: Option<String>)
    ensures
        match r {
            Some(s) => valid_utf8(v@) && encode_utf8(s@) == v@,
            None => !valid_utf8(v@),
        },
{
    match String::from_utf8(v) {
        Ok(s) => Some(s),
        Err(_) => None,
    }
}

/// Whether `bytes[s1..e1]` comes strictly before `bytes[s2..e2]` in
/// lexicographic order.
fn lex_range_lt(bytes: &[u8], s1: usize, e1: usize, s2: usize, e2: usize) -> (r: bool)
    requires
        s1 <= e1 <= bytes@.len(),
        s2 <= e2 <= bytes@.len(),
    ensures
        r == lex_lt(
            bytes@.subrange(s1 as int, e1 as int),
            bytes@.subrange(s2 as int, e2 as int),
        ),
{
    let ghost a = bytes@.subrange(s1 as int, e1 as int);
    let ghost b = bytes@.subrange(s2 as int, e2 as int);
    let mut t: usize = 0;
    loop
        invariant
            t <= e1 - s1,
            t <= e2 - s2,
            s1 <= e1 <= bytes@.len(),
            s2 <= e2 <= bytes@.len(),
            a == bytes@.subrange(s1 as int, e1 as int),
            b == bytes@.subrange(s2 as int, e2 as int),
            forall|q: int| 0 <= q < t ==> a[q] == b[q],
        decreases e1 - s1 - t,
    {
        proof {
            lemma_lex_lt_skip(a, b, t as int);
        }
        if t == e1 - s1 {
            proof {
                assert(a.skip(t as int).len() == 0);
            }
            return t < e2 - s2;
        }
        if t == e2 - s2 {
            proof {
                assert(b.skip(t as int).len() == 0);
            }
            return false;
        }
        let x = bytes[s1 + t];
        let y = bytes[s2 + t];
        proof {
            assert(a.skip(t as int)[0] == a[t as int] == x);
            assert(b.skip(t as int)[0] == b[t as int] == y);
            assert(a.skip(t as int).drop_first() =~= a.skip(t + 1));
            assert(b.skip(t as int).drop_first() =~= b.skip(t + 1));
        }
        if x < y {
            return true;
        }
        if x > y {
            return false;
        }
        t = t + 1;
    }
}

/// Builds a structural-fault error.
fn cbor_err(msg: &str) -> (r: CoreError)
    ensures
        r is Cbor,
{
    CoreError::Cbor(msg.to_owned())
}

/// Appending a within-limits value keeps the list within limits.
pub proof fn lemma_limits_list_push(
    items: Seq<CborVal>,
    v: CborVal,
    d: int,
    max_depth: int,
    max_items: int,
)
    requires
        limits_list(items, d, max_depth, max_items),
        within_limits(v, d, max_depth, max_items),
    ensures
        limits_list(items.push(v), d, max_depth, max_items),
    decreases items.len(),
{
    let pushed = items.push(v);
    assert(limits_list(pushed, d, max_depth, max_items) == (pushed.len() == 0 || (within_limits(
        pushed[0],
        d,
        max_depth,
        max_items,
    ) && limits_list(pushed.drop_first(), d, max_depth, max_items))));
    if items.len() == 0 {
        assert(pushed[0] == v);
        assert(pushed.drop_first() =~= Seq::<CborVal>::empty());
        assert(limits_list(pushed.drop_first(), d, max_depth, max_items));
    } else {
        assert(pushed[0] == items[0]);
        assert(pushed.drop_first() =~= items.drop_first().push(v));
        lemma_limits_list_push(items.drop_first(), v, d, max_depth, max_items);
    }
}

/// Appending a within-limits entry keeps the entry sequence within limits.
pub proof fn lemma_limits_pairs_push(
    entries: Seq<(CborVal, CborVal)>,
    e: (CborVal, CborVal),
    d: int,
    max_depth: int,
    max_items: int,
)
    requires
        limits_pairs(entries, d, max_depth, max_items),
        within_limits(e.0, d, max_depth, max_items),
        within_limits(e.1, d, max_depth, max_items),
    ensures
        limits_pairs(entries.push(e), d, max_depth, max_items),
    decreases entries.len(),
{
    let pushed = entries.push(e);
    assert(limits_pairs(pushed, d, max_depth, max_items) == (pushed.len() == 0 || (within_limits(
        pushed[0].0,
        d,
        max_depth,
        max_items,
    ) && within_limits(pushed[0].1, d, max_depth, max_items) && limits_pairs(
        pushed.drop_first(),
        d,
        max_depth,
        max_items,
    ))));
    if entries.len() == 0 {
        assert(pushed[0] == e);
        assert(pushed.drop_first() =~= Seq::<(CborVal, CborVal)>::empty());
        assert(limits_pairs(pushed.drop_first(), d, max_depth, max_items));
    } else {
        assert(pushed[0] == entries[0]);
        assert(pushed.drop_first() =~= entries.drop_first().push(e));
        lemma_limits_pairs_push(entries.drop_first(), e, d, max_depth, max_items);
    }
}

/// Appending one view to a viewed list appends the element's view.
pub proof fn lemma_view_list_push(items: Seq<CborValue>, v: CborValue)
    ensures
        view_list(items.push(v)) == view_list(items).push(v@),
    decreases items.len(),
{
    lemma_view_list(items);
    lemma_view_list(items.push(v));
    assert(items.push(v)[items.len() as int] == v);
    assert forall|q: int| 0 <= q < items.len() + 1 implies view_list(items.push(v))[q]
        == view_list(items).push(v@)[q] by {
        assert(view_list(items.push(v))[q] == items.push(v)[q]@);
        if q < items.len() {
            assert(items.push(v)[q] == items[q]);
            assert(view_list(items)[q] == items[q]@);
        } else {
            assert(items.push(v)[q] == v);
        }
    }
    assert(view_list(items.push(v)) =~= view_list(items).push(v@));
}

/// Appending one entry to a viewed entry list appends its parts' views.
pub proof fn lemma_view_pairs_push(entries: Seq<(CborValue, CborValue)>, e: (CborValue, CborValue))
    ensures
        view_pairs(entries.push(e)) == view_pairs(entries).push((e.0@, e.1@)),
    decreases entries.len(),
{
    lemma_view_pairs(entries);
    lemma_view_pairs(entries.push(e));
    assert(entries.push(e)[entries.len() as int] == e);
    assert forall|q: int| 0 <= q < entries.len() + 1 implies view_pairs(entries.push(e))[q]
        == view_pairs(entries).push((e.0@, e.1@))[q] by {
        assert(view_pairs(entries.push(e))[q] == (entries.push(e)[q].0@, entries.push(e)[q].1@));
        if q < entries.len() {
            assert(entries.push(e)[q] == entries[q]);
            assert(view_pairs(entries)[q] == (entries[q].0@, entries[q].1@));
        } else {
            assert(entries.push(e)[q] == e);
        }
    }
    assert(view_pairs(entries.push(e)) =~= view_pairs(entries).push((e.0@, e.1@)));
}

/// Parses one header, enforcing the shortest form.
fn parse_hdr(bytes: &[u8], i: usize) -> (r: Result<(u8, u64, usize), CoreError>)
    requires
        i <= bytes@.len(),
    ensures
        r is Ok ==> ({
            let (m, n, j) = r->Ok_0;
            &&& dec_hdr(bytes@, i as int) == Some((m, n, j as int))
            &&& i < j <= bytes@.len()
        }),
        r is Err ==> dec_hdr(bytes@, i as int) is None && r->Err_0 is Cbor,
{
    if bytes.len() - i < 1 {
        return Err(cbor_err("unexpected end of cbor"));
    }
    let first = bytes[i];
    let m = first / 32;
    let low = first % 32;
    if low < 24 {
        Ok((m, low as u64, i + 1))
    } else if low == 24 {
        if bytes.len() - i < 2 {
            return Err(cbor_err("unexpected end of cbor"));
        }
        let n = bytes[i + 1] as u64;
        if n < 24 {
            return Err(cbor_err("non-canonical cbor"));
        }
        Ok((m, n, i + 2))
    } else if low == 25 {
        if bytes.len() - i < 3 {
            return Err(cbor_err("unexpected end of cbor"));
        }
        let n = bytes[i + 1] as u64 * 0x100 + bytes[i + 2] as u64;
        if n < 0x100 {
            return Err(cbor_err("non-canonical cbor"));
        }
        Ok((m, n, i + 3))
    } else if low == 26 {
        if bytes.len() - i < 5 {
            return Err(cbor_err("unexpected end of cbor"));
        }
        let n = bytes[i + 1] as u64 * 0x1000000 + bytes[i + 2] as u64 * 0x10000 + bytes[i
            + 3] as u64 * 0x100 + bytes[i + 4] as u64;
        if n < 0x10000 {
            return Err(cbor_err("non-canonical cbor"));
        }
        Ok((m, n, i + 5))
    } else if low == 27 {
        if bytes.len() - i < 9 {
            return Err(cbor_err("unexpected end of cbor"));
        }
        let hi = bytes[i + 1] as u64 * 0x1000000 + bytes[i + 2] as u64 * 0x10000 + bytes[i
            + 3] as u64 * 0x100 + bytes[i + 4] as u64;
        let lo = bytes[i + 5] as u64 * 0x1000000 + bytes[i + 6] as u64 * 0x10000 + bytes[i
            + 7] as u64 * 0x100 + bytes[i + 8] as u64;
        let n = hi * 0x100000000 + lo;
        if n < 0x100000000 {
            return Err(cbor_err("non-canonical cbor"));
        }
        Ok((m, n, i + 9))
    } else {
        Err(cbor_err("unsupported cbor header"))
    }
}

/// Parses one value at offset `i`, holding it to the depth and item limits
/// with this node at depth `depth`.
#[verifier::loop_isolation(false)]
#[verifier::rlimit(100)]
fn parse_at(bytes: &[u8], i: usize, depth: usize, limits: &CborLimits) -> (r: Result<
    (CborValue, usize),
    CoreError,
>)
    requires
        i <= bytes@.len(),
        depth <= limits.max_depth,
    ensures
        r is Ok ==> ({
            let (v, j) = r->Ok_0;
            &&& dec_at(bytes@, i as int) == Some((v@, j as int))
            &&& i < j <= bytes@.len()
            &&& within_limits(v@, depth as int, limits.max_depth as int, limits.max_items as int)
        }),
        r is Err ==> r->Err_0 is Cbor && !(dec_at(bytes@, i as int) is Some && within_limits(
            dec_at(bytes@, i as int)->Some_0.0,
            depth as int,
            limits.max_depth as int,
            limits.max_items as int,
        )),
    decreases bytes@.len() - i,
{
    let hdr = parse_hdr(bytes, i);
    match hdr {
        Err(e) => Err(e),
        Ok((m, n, j)) => {
            if m == 0 {
                proof {
                    assert(dec_at(bytes@, i as int) == Some((CborVal::Uint(n), j as int)));
                }
                Ok((CborValue::Uint(n), j))
            } else if m == 2 {
                if n > (bytes.len() - j) as u64 {
                    return Err(cbor_err("cbor length exceeds input"));
                }
                let end = j + (n as usize);
                let v = slice_to_vec(bytes, j, end);
                proof {
                    assert(dec_at(bytes@, i as int) == Some(
                        (CborVal::Bytes(bytes@.subrange(j as int, j + n)), j + n),
                    ));
                }
                Ok((CborValue::Bytes(v), end))
            } else if m == 3 {
                if n > (bytes.len() - j) as u64 {
                    return Err(cbor_err("cbor length exceeds input"));
                }
                let end = j + (n as usize);
                let v = slice_to_vec(bytes, j, end);
                match bytes_to_string(v) {
                    Some(text) => {
                        proof {
                            assert(dec_at(bytes@, i as int) == Some(
                                (CborVal::Text(bytes@.subrange(j as int, j + n)), j + n),
                            ));
                        }
                        Ok((CborValue::Text(text), end))
                    },
                    None => Err(cbor_err("invalid utf-8 in cbor text")),
                }
            } else if m == 4 {
                if n > limits.max_items as u64 {
                    proof {
                        if dec_at(bytes@, i as int) is Some {
                            lemma_items_sound(bytes@, j as int, n as int);
                        }
                    }
                    return Err(cbor_err("cbor array too large"));
                }
                let count = n as usize;
                if count > 0 && depth >= limits.max_depth {
                    proof {
                        if dec_at(bytes@, i as int) is Some {
                            lemma_items_sound(bytes@, j as int, n as int);
                            let vs = dec_items(bytes@, j as int, n as int)->Some_0.0;
                            if within_limits(
                                CborVal::Array(vs),
                                depth as int,
                                limits.max_depth as int,
                                limits.max_items as int,
                            ) {
                                lemma_limits_list_index(
                                    vs,
                                    depth + 1,
                                    limits.max_depth as int,
                                    limits.max_items as int,
                                    0,
                                );
                            }
                        }
                    }
                    return Err(cbor_err("cbor depth exceeded"));
                }
                let mut acc: Vec<CborValue> = Vec::new();
                let mut cur = j;
                let mut k: usize = 0;
                while k < count
                    invariant
                        k <= count,
                        k == acc@.len(),
                        i < j <= cur <= bytes@.len(),
                        dec_items(bytes@, j as int, n as int) == (match dec_items(
                            bytes@,
                            cur as int,
                            n - k,
                        ) {
                            Some((rest, end)) => Some((view_list(acc@) + rest, end)),
                            None => None,
                        }),
                        limits_list(
                            view_list(acc@),
                            depth + 1,
                            limits.max_depth as int,
                            limits.max_items as int,
                        ),
                    decreases count - k,
                {
                    proof {
                        lemma_view_list(acc@);
                    }
                    let sub = parse_at(bytes, cur, depth + 1, limits);
                    match sub {
                        Err(e) => {
                            proof {
                                if dec_at(bytes@, i as int) is Some {
                                    let (child, cj) = dec_at(bytes@, cur as int)->Some_0;
                                    let (vs, vend) = dec_items(bytes@, j as int, n as int)
                                        ->Some_0;
                                    assert(vs == view_list(acc@) + (seq![child] + dec_items(
                                        bytes@,
                                        cj,
                                        n - k - 1,
                                    )->Some_0.0));
                                    assert(vs[k as int] == child);
                                    if within_limits(
                                        dec_at(bytes@, i as int)->Some_0.0,
                                        depth as int,
                                        limits.max_depth as int,
                                        limits.max_items as int,
                                    ) {
                                        lemma_limits_list_index(
                                            vs,
                                            depth + 1,
                                            limits.max_depth as int,
                                            limits.max_items as int,
                                            k as int,
                                        );
                                    }
                                }
                            }
                            return Err(e);
                        },
                        Ok((v, nxt)) => {
                            proof {
                                lemma_view_list_push(acc@, v);
                                lemma_limits_list_push(
                                    view_list(acc@),
                                    v@,
                                    depth + 1,
                                    limits.max_depth as int,
                                    limits.max_items as int,
                                );
                                let rest0 = dec_items(bytes@, cur as int, n - k);
                                if rest0 is Some {
                                    assert(view_list(acc@) + rest0->Some_0.0 =~= view_list(
                                        acc@.push(v),
                                    ) + dec_items(bytes@, nxt as int, n - k - 1)->Some_0.0);
                                }
                            }
                            acc.push(v);
                            cur = nxt;
                            k = k + 1;
                        },
                    }
                }
                proof {
                    assert(dec_items(bytes@, cur as int, 0) == Some(
                        (Seq::<CborVal>::empty(), cur as int),
                    ));
                    assert(view_list(acc@) + Seq::<CborVal>::empty() =~= view_list(acc@));
                    lemma_view_list(acc@);
                    assert(dec_items(bytes@, j as int, n as int) == Some(
                        (view_list(acc@), cur as int),
                    ));
                    assert(dec_at(bytes@, i as int) == Some(
                        (CborVal::Array(view_list(acc@)), cur as int),
                    ));
                }
                Ok((CborValue::Array(acc), cur))
            } else if m == 5 {
                if n > limits.max_items as u64 {
                    proof {
                        if dec_at(bytes@, i as int) is Some {
                            lemma_entries_sound(bytes@, j as int, n as int, None);
                        }
                    }
                    return Err(cbor_err("cbor map too large"));
                }
                let count = n as usize;
                if count > 0 && depth >= limits.max_depth {
                    proof {
                        if dec_at(bytes@, i as int) is Some {
                            lemma_entries_sound(bytes@, j as int, n as int, None);
                            let es = dec_entries(bytes@, j as int, n as int, None)->Some_0.0;
                            if within_limits(
                                CborVal::Dict(es),
                                depth as int,
                                limits.max_depth as int,
                                limits.max_items as int,
                            ) {
                                lemma_limits_pairs_index(
                                    es,
                                    depth + 1,
                                    limits.max_depth as int,
                                    limits.max_items as int,
                                    0,
                                );
                            }
                        }
                    }
                    return Err(cbor_err("cbor depth exceeded"));
                }
                let mut acc: Vec<(CborValue, CborValue)> = Vec::new();
                let mut cur = j;
                let mut k: usize = 0;
                let mut pks: usize = 0;
                let mut pke: usize = 0;
                let ghost mut gprev: Option<CborVal> = None;
                while k < count
                    invariant
                        k <= count,
                        k == acc@.len(),
                        i < j <= cur <= bytes@.len(),
                        k > 0 ==> gprev is Some && pks <= pke <= bytes@.len() && cbor_enc(
                            gprev->Some_0,
                        ) == bytes@.subrange(pks as int, pke as int),
                        k == 0 ==> gprev is None,
                        dec_entries(bytes@, j as int, n as int, None) == (match dec_entries(
                            bytes@,
                            cur as int,
                            n - k,
                            gprev,
                        ) {
                            Some((rest, end)) => Some((view_pairs(acc@) + rest, end)),
                            None => None,
                        }),
                        limits_pairs(
                            view_pairs(acc@),
                            depth + 1,
                            limits.max_depth as int,
                            limits.max_items as int,
                        ),
                    decreases count - k,
                {
                    proof {
                        lemma_view_pairs(acc@);
                    }
                    let keyres = parse_at(bytes, cur, depth + 1, limits);
                    match keyres {
                        Err(e) => {
                            proof {
                                if dec_at(bytes@, i as int) is Some {
                                    let (child, cj) = dec_at(bytes@, cur as int)->Some_0;
                                    let (es, vend) = dec_entries(
                                        bytes@,
                                        j as int,
                                        n as int,
                                        None,
                                    )->Some_0;
                                    assert(es[k as int].0 == child);
                                    if within_limits(
                                        dec_at(bytes@, i as int)->Some_0.0,
                                        depth as int,
                                        limits.max_depth as int,
                                        limits.max_items as int,
                                    ) {
                                        lemma_limits_pairs_index(
                                            es,
                                            depth + 1,
                                            limits.max_depth as int,
                                            limits.max_items as int,
                                            k as int,
                                        );
                                    }
                                }
                            }
                            return Err(e);
                        },
                        Ok((key, kend)) => {
                            proof {
                                lemma_dec_sound(bytes@, cur as int);
                            }
                            if k > 0 {
                                if !lex_range_lt(bytes, pks, pke, cur, kend) {
                                    return Err(cbor_err("non-canonical cbor"));
                                }
                            }
                            let valres = parse_at(bytes, kend, depth + 1, limits);
                            match valres {
                                Err(e) => {
                                    proof {
                                        if dec_at(bytes@, i as int) is Some {
                                            let (vchild, vj) = dec_at(bytes@, kend as int)
                                                ->Some_0;
                                            let (es, vend) = dec_entries(
                                                bytes@,
                                                j as int,
                                                n as int,
                                                None,
                                            )->Some_0;
                                            assert(es[k as int].1 == vchild);
                                            if within_limits(
                                                dec_at(bytes@, i as int)->Some_0.0,
                                                depth as int,
                                                limits.max_depth as int,
                                                limits.max_items as int,
                                            ) {
                                                lemma_limits_pairs_index(
                                                    es,
                                                    depth + 1,
                                                    limits.max_depth as int,
                                                    limits.max_items as int,
                                                    k as int,
                                                );
                                            }
                                        }
                                    }
                                    return Err(e);
                                },
                                Ok((val, vend)) => {
                                    proof {
                                        lemma_view_pairs_push(acc@, (key, val));
                                        lemma_limits_pairs_push(
                                            view_pairs(acc@),
                                            (key@, val@),
                                            depth + 1,
                                            limits.max_depth as int,
                                            limits.max_items as int,
                                        );
                                        let rest0 = dec_entries(
                                            bytes@,
                                            cur as int,
                                            n - k,
                                            gprev,
                                        );
                                        if rest0 is Some {
                                            assert(view_pairs(acc@) + rest0->Some_0.0
                                                =~= view_pairs(acc@.push((key, val)))
                                                + dec_entries(
                                                bytes@,
                                                vend as int,
                                                n - k - 1,
                                                Some(key@),
                                            )->Some_0.0);
                                        }
                                        gprev = Some(key@);
                                    }
                                    acc.push((key, val));
                                    pks = cur;
                                    pke = kend;
                                    cur = vend;
                                    k = k + 1;
                                },
                            }
                        },
                    }
                }
                proof {
                    assert(dec_entries(bytes@, cur as int, 0, gprev) == Some(
                        (Seq::<(CborVal, CborVal)>::empty(), cur as int),
                    ));
                    assert(view_pairs(acc@) + Seq::<(CborVal, CborVal)>::empty() =~= view_pairs(
                        acc@,
                    ));
                    lemma_view_pairs(acc@);
                    assert(dec_entries(bytes@, j as int, n as int, None) == Some(
                        (view_pairs(acc@), cur as int),
                    ));
                    assert(dec_at(bytes@, i as int) == Some(
                        (CborVal::Dict(view_pairs(acc@)), cur as int),
                    ));
                }
                Ok((CborValue::Dict(acc), cur))
            } else {
                Err(cbor_err("unsupported cbor type"))
            }
        },
    }
}

/// The whole-input decode under limits: the value decoded from `b` when `b`
/// is one canonical value within the byte, depth, and item limits.
pub open spec fn decode_spec(b: Seq<u8>, max_bytes: int, max_depth: int, max_items: int) -> Option<
    CborVal,
> {
    if b.len() <= max_bytes {
        match dec_at(b, 0) {
            Some((v, j)) => if j == b.len() && within_limits(v, 0, max_depth, max_items) {
                Some(v)
            } else {
                None
            },
            None => None,
        }
    } else {
        None
    }
}

/// Decodes one canonical value that must span the whole input, under the
/// given limits. Exactly the encodings of canonical values are accepted:
/// on success the input re-encodes byte-for-byte, and every accepted value
/// is sound and canonical.
pub fn decode_canonical_value(bytes: &[u8], limits: &CborLimits) -> (r: CoreResult<CborValue>)
    ensures
        r is Ok ==> decode_spec(
            bytes@,
            limits.max_bytes as int,
            limits.max_depth as int,
            limits.max_items as int,
        ) == Some(r->Ok_0@),
        r is Ok ==> cbor_enc(r->Ok_0@) == bytes@ && cbor_wf(r->Ok_0@) && cbor_canon(r->Ok_0@),
        r is Err ==> decode_spec(
            bytes@,
            limits.max_bytes as int,
            limits.max_depth as int,
            limits.max_items as int,
        ) is None && r->Err_0 is Cbor,
{
    if bytes.len() > limits.max_bytes {
        return Err(cbor_err("cbor too large"));
    }
    match parse_at(bytes, 0, 0, limits) {
        Err(e) => Err(e),
        Ok((v, j)) => {
            if j != bytes.len() {
                return Err(cbor_err("trailing bytes after cbor value"));
            }
            proof {
                lemma_dec_sound(bytes@, 0);
                assert(bytes@.subrange(0, bytes@.len() as int) =~= bytes@);
            }
            Ok(v)
        },
    }
}

/// Whether `a` comes strictly before `b` in lexicographic order.
pub fn lex_vec_lt(a: &Vec<u8>, b: &Vec<u8>) -> (r: bool)
    ensures
        r == lex_lt(a@, b@),
{
    let mut t: usize = 0;
    loop
        invariant
            t <= a@.len(),
            t <= b@.len(),
            forall|q: int| 0 <= q < t ==> a@[q] == b@[q],
        decreases a@.len() - t,
    {
        proof {
            lemma_lex_lt_skip(a@, b@, t as int);
        }
        if t == a.len() {
            proof {
                assert(a@.skip(t as int).len() == 0);
            }
            return t < b.len();
        }
        if t == b.len() {
            proof {
                assert(b@.skip(t as int).len() == 0);
            }
            return false;
        }
        let x = a[t];
        let y = b[t];
        proof {
            assert(a@.skip(t as int)[0] == a@[t as int]);
            assert(b@.skip(t as int)[0] == b@[t as int]);
            assert(a@.skip(t as int).drop_first() =~= a@.skip(t + 1));
            assert(b@.skip(t as int).drop_first() =~= b@.skip(t + 1));
        }
        if x < y {
            return true;
        }
        if x > y {
            return false;
        }
        t = t + 1;
    }
}

/// Whether every value from index `idx` on is canonical.
fn check_list_from(items: &Vec<CborValue>, idx: usize) -> (r: bool)
    requires
        idx <= items@.len(),
    ensures
        r == canon_list(view_list(items@).skip(idx as int)),
    decreases items, (items@.len() - idx) as int,
{
    proof {
        lemma_view_list(items@);
    }
    let ghost s = view_list(items@);
    if idx == items.len() {
        proof {
            assert(s.skip(idx as int).len() == 0);
        }
        true
    } else {
        proof {
            assert(s.skip(idx as int)[0] == s[idx as int]);
            assert(s.skip(idx as int).drop_first() =~= s.skip(idx + 1));
        }
        if !is_canonical(&items[idx]) {
            return false;
        }
        check_list_from(items, idx + 1)
    }
}

/// Whether every key and value from index `idx` on is canonical.
fn check_pairs_from(entries: &Vec<(CborValue, CborValue)>, idx: usize) -> (r: bool)
    requires
        idx <= entries@.len(),
    ensures
        r == canon_pairs(view_pairs(entries@).skip(idx as int)),
    decreases entries, (entries@.len() - idx) as int,
{
    proof {
        lemma_view_pairs(entries@);
    }
    let ghost s = view_pairs(entries@);
    if idx == entries.len() {
        proof {
            assert(s.skip(idx as int).len() == 0);
        }
        true
    } else {
        proof {
            assert(s.skip(idx as int)[0] == s[idx as int]);
            assert(s.skip(idx as int).drop_first() =~= s.skip(idx + 1));
        }
        if !is_canonical(&entries[idx].0) {
            return false;
        }
        if !is_canonical(&entries[idx].1) {
            return false;
        }
        check_pairs_from(entries, idx + 1)
    }
}

/// Whether the keys from index `idx` on are in strictly ascending order of
/// their encodings. The keys must already be canonical.
fn check_sorted_from(entries: &Vec<(CborValue, CborValue)>, idx: usize) -> (r: bool)
    requires
        idx <= entries@.len(),
        canon_pairs(view_pairs(entries@)),
    ensures
        r == sorted_keys(view_pairs(entries@).skip(idx as int)),
    decreases entries, (entries@.len() - idx) as int,
{
    proof {
        lemma_view_pairs(entries@);
    }
    let ghost s = view_pairs(entries@);
    if entries.len() - idx <= 1 {
        proof {
            assert(s.skip(idx as int).len() <= 1);
        }
        true
    } else {
        proof {
            lemma_canon_pairs_index(s, idx as int);
            lemma_canon_pairs_index(s, idx + 1);
            assert(s.skip(idx as int)[0] == s[idx as int]);
            assert(s.skip(idx as int)[1] == s[idx + 1]);
            assert(s.skip(idx as int).drop_first() =~= s.skip(idx + 1));
        }
        let mut ka: Vec<u8> = Vec::new();
        encode_canon_into(&entries[idx].0, &mut ka);
        let mut kb: Vec<u8> = Vec::new();
        encode_canon_into(&entries[idx + 1].0, &mut kb);
        if !lex_vec_lt(&ka, &kb) {
            return false;
        }
        check_sorted_from(entries, idx + 1)
    }
}

/// Whether the value is in canonical form: every map's entries strictly
/// ascend in the lexicographic order of their keys' encodings.
pub fn is_canonical(v: &CborValue) -> (r: bool)
    ensures
        r == cbor_canon(v@),
    decreases v, 0int,
{
    match v {
        CborValue::Uint(n) => true,
        CborValue::Bytes(b) => true,
        CborValue::Text(s) => true,
        CborValue::Array(items) => {
            let ghost s = view_list(items@);
            proof {
                assert(s.skip(0) =~= s);
            }
            check_list_from(items, 0)
        },
        CborValue::Dict(entries) => {
            let ghost s = view_pairs(entries@);
            proof {
                assert(s.skip(0) =~= s);
            }
            if !check_pairs_from(entries, 0) {
                return false;
            }
            check_sorted_from(entries, 0)
        },
    }
}

/// Encodes a value canonically: the deterministic byte string every other
/// canonical codec produces for it. A value whose map entries are out of
/// canonical order is rejected.
pub fn encode_canonical_value(value: &CborValue) -> (r: CoreResult<Vec<u8>>)
    ensures
        r is Ok <==> cbor_canon(value@),
        r is Ok ==> r->Ok_0@ == cbor_enc(value@),
        r is Err ==> r->Err_0 is Cbor,
{
    if !is_canonical(value) {
        return Err(cbor_err("non-canonical map ordering"));
    }
    let mut out: Vec<u8> = Vec::new();
    encode_canon_into(value, &mut out);
    Ok(out)
}

/// Copies a byte vector.
pub fn clone_bytes(v: &Vec<u8>) -> (r: Vec<u8>)
    ensures
        r@ == v@,
{
    let r = slice_to_vec(v.as_slice(), 0, v.len());
    proof {
        assert(v@.subrange(0, v@.len() as int) =~= v@);
    }
    r
}

impl Clone for CborValue {
    /// A structural copy: the clone stands for the same value.
    #[verifier::loop_isolation(false)]
    fn clone(&self) -> (r: Self)
        ensures
            r@ == self@,
        decreases self,
    {
        match self {
            CborValue::Uint(n) => CborValue::Uint(*n),
            CborValue::Bytes(b) => CborValue::Bytes(clone_bytes(b)),
            CborValue::Text(s) => CborValue::Text(s.clone()),
            CborValue::Array(items) => {
                let mut out: Vec<CborValue> = Vec::new();
                let mut i: usize = 0;
                while i < items.len()
                    invariant
                        i <= items@.len(),
                        out@.len() == i,
                        view_list(out@) == view_list(items@).take(i as int),
                    decreases items@.len() - i,
                {
                    let c = items[i].clone();
                    proof {
                        lemma_view_list(items@);
                        lemma_view_list_push(out@, c);
                        assert(view_list(items@).take(i + 1) =~= view_list(items@).take(
                            i as int,
                        ).push(view_list(items@)[i as int]));
                    }
                    out.push(c);
                    i = i + 1;
                }
                proof {
                    lemma_view_list(items@);
                    assert(view_list(items@).take(items@.len() as int) =~= view_list(items@));
                }
                CborValue::Array(out)
            },
            CborValue::Dict(entries) => {
                let mut out: Vec<(CborValue, CborValue)> = Vec::new();
                let mut i: usize = 0;
                while i < entries.len()
                    invariant
                        i <= entries@.len(),
                        out@.len() == i,
                        view_pairs(out@) == view_pairs(entries@).take(i as int),
                    decreases entries@.len() - i,
                {
                    let ck = entries[i].0.clone();
                    let cv = entries[i].1.clone();
                    proof {
                        lemma_view_pairs(entries@);
                        lemma_view_pairs_push(out@, (ck, cv));
                        assert(view_pairs(entries@).take(i + 1) =~= view_pairs(entries@).take(
                            i as int,
                        ).push(view_pairs(entries@)[i as int]));
                    }
                    out.push((ck, cv));
                    i = i + 1;
                }
                proof {
                    lemma_view_pairs(entries@);
                    assert(view_pairs(entries@).take(entries@.len() as int) =~= view_pairs(
                        entries@,
                    ));
                }
                CborValue::Dict(out)
            },
        }
    }
}

/// Builds an unsigned-integer value.
pub fn cbor_uint(value: u64) -> (r: CborValue)
    ensures
        r@ == CborVal::Uint(value),
        cbor_wf(r@),
        cbor_canon(r@),
{
    CborValue::Uint(value)
}

/// Builds a byte-string value.
pub fn cbor_bytes(bytes: &[u8]) -> (r: CborValue)
    ensures
        r@ == CborVal::Bytes(bytes@),
        cbor_wf(r@),
        cbor_canon(r@),
{
    let v = slice_to_vec(bytes, 0, bytes.len());
    proof {
        assert(bytes@.subrange(0, bytes@.len() as int) =~= bytes@);
    }
    CborValue::Bytes(v)
}

/// Builds a text value.
pub fn cbor_text(text: &str) -> (r: CborValue)
    ensures
        r@ == CborVal::Text(encode_utf8(text@)),
        cbor_wf(r@),
        cbor_canon(r@),
{
    broadcast use vstd::utf8::encode_utf8_valid_utf8;

    let b = text.as_bytes();
    let n = b.len();
    proof {
        assert(n == b@.len());
        assert(b@ == encode_utf8(text@));
    }
    let s = text.to_owned();
    CborValue::Text(s)
}

/// Builds an array value from the items, in the order given.
pub fn cbor_array(items: Vec<CborValue>) -> (r: CborValue)
    ensures
        r@ is Array,
        r@->Array_0 == view_list(items@),
        r@->Array_0.len() == items@.len(),
        forall|i: int| 0 <= i < items@.len() ==> r@->Array_0[i] == #[trigger] items@[i]@,
{
    proof {
        lemma_view_list(items@);
    }
    CborValue::Array(items)
}

/// Builds an integer-keyed map from the entries, in the order given.
pub fn cbor_map(entries: Vec<(u64, CborValue)>) -> (r: CborValue)
    ensures
        r@ is Dict,
        r@->Dict_0.len() == entries@.len(),
        forall|i: int|
            0 <= i < entries@.len() ==> #[trigger] r@->Dict_0[i] == (
                CborVal::Uint(entries@[i].0),
                entries@[i].1@,
            ),
{
    let ghost orig = entries@;
    let n = entries.len();
    let mut rest = entries;
    let mut out: Vec<(CborValue, CborValue)> = Vec::new();
    let mut i: usize = 0;
    while i < n
        invariant
            i <= n,
            out@.len() == i,
            rest@ == orig.subrange(i as int, n as int),
            orig.len() == n,
            forall|q: int|
                0 <= q < i ==> #[trigger] view_pairs(out@)[q] == (
                    CborVal::Uint(orig[q].0),
                    orig[q].1@,
                ),
        decreases n - i,
    {
        let (k, v) = rest.remove(0);
        proof {
            assert(orig.subrange(i as int, n as int)[0] == orig[i as int]);
            lemma_view_pairs_push(out@, (CborValue::Uint(k), v));
            lemma_view_pairs(out@);
            assert(orig.subrange(i as int, n as int).subrange(
                1,
                orig.subrange(i as int, n as int).len() as int,
            ) =~= orig.subrange(i + 1, n as int));
        }
        out.push((CborValue::Uint(k), v));
        i = i + 1;
    }
    proof {
        lemma_view_pairs(out@);
    }
    CborValue::Dict(out)
}

/// A map whose integer keys ascend strictly and stay below 24 is canonical
/// when its values are: such keys encode as single bytes, so their numeric
/// order is the lexicographic order of their encodings.
pub proof fn lemma_uint_map_canon(dv: Seq<(CborVal, CborVal)>)
    requires
        forall|i: int|
            0 <= i < dv.len() ==> (#[trigger] dv[i].0) is Uint && dv[i].0->Uint_0 < 24,
        forall|i: int|
            0 <= i < dv.len() - 1 ==> (#[trigger] dv[i].0)->Uint_0 < dv[i + 1].0->Uint_0,
        forall|i: int| 0 <= i < dv.len() ==> cbor_canon(#[trigger] dv[i].1),
    ensures
        canon_pairs(dv),
        sorted_keys(dv),
    decreases dv,
{
    if dv.len() > 0 {
        assert(dv[0].0 is Uint);
        assert(cbor_canon(dv[0].0));
        assert(cbor_canon(dv[0].1));
        if dv.len() > 1 {
            let a = dv[0].0->Uint_0;
            let b = dv[1].0->Uint_0;
            assert(cbor_enc(dv[0].0) =~= seq![(a as nat) as u8]);
            assert(cbor_enc(dv[1].0) =~= seq![(b as nat) as u8]);
            assert(lex_lt(cbor_enc(dv[0].0), cbor_enc(dv[1].0)));
        }
        assert forall|i: int| 0 <= i < dv.drop_first().len() implies (#[trigger] dv.drop_first()[i].0) is Uint
            && dv.drop_first()[i].0->Uint_0 < 24 && cbor_canon(dv.drop_first()[i].1) by {
            assert(dv.drop_first()[i] == dv[i + 1]);
        }
        assert forall|i: int| 0 <= i < dv.drop_first().len() - 1 implies (#[trigger] dv.drop_first()[i].0)->Uint_0
            < dv.drop_first()[i + 1].0->Uint_0 by {
            assert(dv.drop_first()[i] == dv[i + 1]);
            assert(dv.drop_first()[i + 1] == dv[i + 2]);
        }
        lemma_uint_map_canon(dv.drop_first());
    }
}

/// A map and an array are sound when their parts are.
pub proof fn lemma_wf_pairs_build(dv: Seq<(CborVal, CborVal)>)
    requires
        forall|i: int|
            0 <= i < dv.len() ==> cbor_wf((#[trigger] dv[i]).0) && cbor_wf(dv[i].1),
    ensures
        wf_pairs(dv),
    decreases dv,
{
    if dv.len() > 0 {
        assert(dv[0] == dv[0]);
        assert forall|i: int| 0 <= i < dv.drop_first().len() implies cbor_wf(
            (#[trigger] dv.drop_first()[i]).0,
        ) && cbor_wf(dv.drop_first()[i].1) by {
            assert(dv.drop_first()[i] == dv[i + 1]);
        }
        lemma_wf_pairs_build(dv.drop_first());
    }
}

/// A list is sound when its items are.
pub proof fn lemma_wf_list_build(items: Seq<CborVal>)
    requires
        forall|i: int| 0 <= i < items.len() ==> cbor_wf(#[trigger] items[i]),
    ensures
        wf_list(items),
    decreases items,
{
    if items.len() > 0 {
        assert forall|i: int| 0 <= i < items.drop_first().len() implies cbor_wf(
            #[trigger] items.drop_first()[i],
        ) by {
            assert(items.drop_first()[i] == items[i + 1]);
        }
        lemma_wf_list_build(items.drop_first());
    }
}

/// A list is canonical when its items are.
pub proof fn lemma_canon_list_build(items: Seq<CborVal>)
    requires
        forall|i: int| 0 <= i < items.len() ==> cbor_canon(#[trigger] items[i]),
    ensures
        canon_list(items),
    decreases items,
{
    if items.len() > 0 {
        assert forall|i: int| 0 <= i < items.drop_first().len() implies cbor_canon(
            #[trigger] items.drop_first()[i],
        ) by {
            assert(items.drop_first()[i] == items[i + 1]);
        }
        lemma_canon_list_build(items.drop_first());
    }
}

/// The value at the first entry whose key is the integer `key`.
pub open spec fn map_get_spec(entries: Seq<(CborVal, CborVal)>, key: u64) -> Option<CborVal>
    decreases entries,
{
    if entries.len() == 0 {
        None
    } else if entries[0].0 == CborVal::Uint(key) {
        Some(entries[0].1)
    } else {
        map_get_spec(entries.drop_first(), key)
    }
}

/// Finds the value at integer key `key`, scanning from index `idx`.
fn map_find_from<'a>(map: &'a Vec<(CborValue, CborValue)>, idx: usize, key: u64) -> (r: Option<
    &'a CborValue,
>)
    requires
        idx <= map@.len(),
    ensures
        match r {
            Some(v) => map_get_spec(view_pairs(map@).skip(idx as int), key) == Some(v@),
            None => map_get_spec(view_pairs(map@).skip(idx as int), key) is None,
        },
    decreases map@.len() - idx,
{
    proof {
        lemma_view_pairs(map@);
    }
    let ghost s = view_pairs(map@);
    if idx == map.len() {
        proof {
            assert(s.skip(idx as int).len() == 0);
        }
        None
    } else {
        proof {
            assert(s.skip(idx as int)[0] == s[idx as int]);
            assert(s.skip(idx as int).drop_first() =~= s.skip(idx + 1));
        }
        match &map[idx].0 {
            CborValue::Uint(k) => {
                if *k == key {
                    Some(&map[idx].1)
                } else {
                    map_find_from(map, idx + 1, key)
                }
            },
            _ => map_find_from(map, idx + 1, key),
        }
    }
}

/// Finds the value at integer key `key`.
fn map_find<'a>(map: &'a Vec<(CborValue, CborValue)>, key: u64) -> (r: Option<&'a CborValue>)
    ensures
        match r {
            Some(v) => map_get_spec(view_pairs(map@), key) == Some(v@),
            None => map_get_spec(view_pairs(map@), key) is None,
        },
{
    proof {
        assert(view_pairs(map@).skip(0) =~= view_pairs(map@));
    }
    map_find_from(map, 0, key)
}

/// The entries of a map value.
pub fn as_map<'a>(value: &'a CborValue) -> (r: CoreResult<&'a Vec<(CborValue, CborValue)>>)
    ensures
        r is Ok <==> value@ is Dict,
        r is Ok ==> view_pairs(r->Ok_0@) == value@->Dict_0,
        r is Err ==> r->Err_0 is Cbor,
{
    match value {
        CborValue::Dict(entries) => Ok(entries),
        _ => Err(cbor_err("expected cbor map")),
    }
}

/// The items of an array value.
pub fn as_array<'a>(value: &'a CborValue) -> (r: CoreResult<&'a Vec<CborValue>>)
    ensures
        r is Ok <==> value@ is Array,
        r is Ok ==> view_list(r->Ok_0@) == value@->Array_0,
        r is Err ==> r->Err_0 is Cbor,
{
    match value {
        CborValue::Array(items) => Ok(items),
        _ => Err(cbor_err("expected cbor array")),
    }
}

/// The required text at integer key `key`.
pub fn req_text(map: &Vec<(CborValue, CborValue)>, key: u64) -> (r: CoreResult<String>)
    ensures
        r is Ok <==> (map_get_spec(view_pairs(map@), key) matches Some(v) && v is Text),
        r is Ok ==> map_get_spec(view_pairs(map@), key) == Some(
            CborVal::Text(encode_utf8(r->Ok_0@)),
        ),
        r is Err ==> r->Err_0 is Cbor,
{
    match map_find(map, key) {
        Some(CborValue::Text(text)) => Ok(text.clone()),
        Some(_) => Err(cbor_err("expected text value")),
        None => Err(cbor_err("missing map key")),
    }
}

/// The required byte string at integer key `key`.
pub fn req_bytes(map: &Vec<(CborValue, CborValue)>, key: u64) -> (r: CoreResult<Vec<u8>>)
    ensures
        r is Ok <==> (map_get_spec(view_pairs(map@), key) matches Some(v) && v is Bytes),
        r is Ok ==> map_get_spec(view_pairs(map@), key) == Some(CborVal::Bytes(r->Ok_0@)),
        r is Err ==> r->Err_0 is Cbor,
{
    match map_find(map, key) {
        Some(CborValue::Bytes(b)) => Ok(clone_bytes(b)),
        Some(_) => Err(cbor_err("expected bytes value")),
        None => Err(cbor_err("missing map key")),
    }
}

/// The required unsigned integer at integer key `key`.
pub fn req_uint(map: &Vec<(CborValue, CborValue)>, key: u64) -> (r: CoreResult<u64>)
    ensures
        r is Ok <==> (map_get_spec(view_pairs(map@), key) matches Some(v) && v is Uint),
        r is Ok ==> map_get_spec(view_pairs(map@), key) == Some(CborVal::Uint(r->Ok_0)),
        r is Err ==> r->Err_0 is Cbor,
{
    match map_find(map, key) {
        Some(CborValue::Uint(n)) => Ok(*n),
        Some(_) => Err(cbor_err("expected unsigned integer value")),
        None => Err(cbor_err("missing map key")),
    }
}

/// The whole value at integer key `key`, required to be present.
pub fn req_value<'a>(map: &'a Vec<(CborValue, CborValue)>, key: u64) -> (r: CoreResult<
    &'a CborValue,
>)
    ensures
        r is Ok <==> map_get_spec(view_pairs(map@), key) is Some,
        r is Ok ==> map_get_spec(view_pairs(map@), key) == Some(r->Ok_0@),
        r is Err ==> r->Err_0 is Cbor,
{
    match map_find(map, key) {
        Some(v) => Ok(v),
        None => Err(cbor_err("missing map key")),
    }
}

/// The optional byte string at integer key `key`: absent keys give `None`.
pub fn opt_bytes(map: &Vec<(CborValue, CborValue)>, key: u64) -> (r: CoreResult<Option<Vec<u8>>>)
    ensures
        r is Ok ==> ({
            let g = map_get_spec(view_pairs(map@), key);
            match r->Ok_0 {
                Some(b) => g == Some(CborVal::Bytes(b@)),
                None => g is None,
            }
        }),
        r is Ok <==> (map_get_spec(view_pairs(map@), key) matches Some(v) ==> v is Bytes),
        r is Err ==> r->Err_0 is Cbor,
{
    match map_find(map, key) {
        Some(CborValue::Bytes(b)) => Ok(Some(clone_bytes(b))),
        Some(_) => Err(cbor_err("expected bytes value")),
        None => Ok(None),
    }
}

/// The optional text at integer key `key`: absent keys give `None`.
pub fn opt_text(map: &Vec<(CborValue, CborValue)>, key: u64) -> (r: CoreResult<Option<String>>)
    ensures
        r is Ok ==> ({
            let g = map_get_spec(view_pairs(map@), key);
            match r->Ok_0 {
                Some(t) => g == Some(CborVal::Text(encode_utf8(t@))),
                None => g is None,
            }
        }),
        r is Ok <==> (map_get_spec(view_pairs(map@), key) matches Some(v) ==> v is Text),
        r is Err ==> r->Err_0 is Cbor,
{
    match map_find(map, key) {
        Some(CborValue::Text(t)) => Ok(Some(t.clone())),
        Some(_) => Err(cbor_err("expected text value")),
        None => Ok(None),
    }
}

/// The optional unsigned integer at integer key `key`: absent keys give
/// `None`.
pub fn opt_uint(map: &Vec<(CborValue, CborValue)>, key: u64) -> (r: CoreResult<Option<u64>>)
    ensures
        r is Ok ==> ({
            let g = map_get_spec(view_pairs(map@), key);
            match r->Ok_0 {
                Some(n) => g == Some(CborVal::Uint(n)),
                None => g is None,
            }
        }),
        r is Ok <==> (map_get_spec(view_pairs(map@), key) matches Some(v) ==> v is Uint),
        r is Err ==> r->Err_0 is Cbor,
{
    match map_find(map, key) {
        Some(CborValue::Uint(n)) => Ok(Some(*n)),
        Some(_) => Err(cbor_err("expected unsigned integer value")),
        None => Ok(None),
    }
}

/// Entries of an integer-keyed map at the spec level.
pub open spec fn uint_entries(entries: Seq<(u64, CborVal)>) -> Seq<(CborVal, CborVal)>
    decreases entries,
{
    if entries.len() == 0 {
        Seq::empty()
    } else {
        seq![(CborVal::Uint(entries[0].0), entries[0].1)] + uint_entries(entries.drop_first())
    }
}

/// An integer-keyed map at the spec level.
pub open spec fn uint_map(entries: Seq<(u64, CborVal)>) -> CborVal {
    CborVal::Dict(uint_entries(entries))
}

/// `uint_entries` maps each pair to an integer-keyed entry.
pub proof fn lemma_uint_entries(entries: Seq<(u64, CborVal)>)
    ensures
        uint_entries(entries).len() == entries.len(),
        forall|i: int|
            0 <= i < entries.len() ==> #[trigger] uint_entries(entries)[i] == (
                CborVal::Uint(entries[i].0),
                entries[i].1,
            ),
    decreases entries,
{
    if entries.len() > 0 {
        lemma_uint_entries(entries.drop_first());
        assert forall|i: int| 0 <= i < entries.len() implies #[trigger] uint_entries(entries)[i]
            == (CborVal::Uint(entries[i].0), entries[i].1) by {
            if i == 0 {
                assert(uint_entries(entries)[0] == (CborVal::Uint(entries[0].0), entries[0].1));
            } else {
                assert(uint_entries(entries)[i] == uint_entries(entries.drop_first())[i - 1]);
                assert(entries.drop_first()[i - 1] == entries[i]);
            }
        }
    }
}

/// The views of executable integer-keyed entries.
pub open spec fn uint_entry_views(entries: Seq<(u64, CborValue)>) -> Seq<(u64, CborVal)>
    decreases entries,
{
    if entries.len() == 0 {
        Seq::empty()
    } else {
        seq![(entries[0].0, entries[0].1@)] + uint_entry_views(entries.drop_first())
    }
}

/// `uint_entry_views` maps each pair to its key and the value's view.
pub proof fn lemma_uint_entry_views(entries: Seq<(u64, CborValue)>)
    ensures
        uint_entry_views(entries).len() == entries.len(),
        forall|i: int|
            0 <= i < entries.len() ==> #[trigger] uint_entry_views(entries)[i] == (
                entries[i].0,
                entries[i].1@,
            ),
    decreases entries,
{
    if entries.len() > 0 {
        lemma_uint_entry_views(entries.drop_first());
        assert forall|i: int| 0 <= i < entries.len() implies #[trigger] uint_entry_views(
            entries,
        )[i] == (entries[i].0, entries[i].1@) by {
            if i == 0 {
                assert(uint_entry_views(entries)[0] == (entries[0].0, entries[0].1@));
            } else {
                assert(uint_entry_views(entries)[i] == uint_entry_views(entries.drop_first())[i
                    - 1]);
                assert(entries.drop_first()[i - 1] == entries[i]);
            }
        }
    }
}

/// Builds a canonical integer-keyed map: the keys must ascend strictly and
/// stay below 24, and the values must be canonical.
pub fn build_uint_map(entries: Vec<(u64, CborValue)>) -> (r: CborValue)
    requires
        forall|i: int| 0 <= i < entries@.len() ==> (#[trigger] entries@[i].0) < 24,
        forall|i: int|
            0 <= i < entries@.len() - 1 ==> (#[trigger] entries@[i].0) < entries@[i + 1].0,
        forall|i: int| 0 <= i < entries@.len() ==> cbor_canon(#[trigger] entries@[i].1@),
    ensures
        r@ == uint_map(uint_entry_views(entries@)),
        cbor_canon(r@),
{
    let ghost orig = entries@;
    let r = cbor_map(entries);
    proof {
        lemma_uint_entry_views(orig);
        lemma_uint_entries(uint_entry_views(orig));
        assert(r@->Dict_0 =~= uint_entries(uint_entry_views(orig)));
        let dv = r@->Dict_0;
        assert forall|i: int| 0 <= i < dv.len() implies (#[trigger] dv[i].0) is Uint && dv[i].0->Uint_0
            < 24 && cbor_canon(dv[i].1) by {
            assert(dv[i] == (CborVal::Uint(orig[i].0), orig[i].1@));
        }
        assert forall|i: int| 0 <= i < dv.len() - 1 implies (#[trigger] dv[i].0)->Uint_0 < dv[i
            + 1].0->Uint_0 by {
            assert(dv[i] == (CborVal::Uint(orig[i].0), orig[i].1@));
            assert(dv[i + 1] == (CborVal::Uint(orig[i + 1].0), orig[i + 1].1@));
        }
        lemma_uint_map_canon(dv);
    }
    r
}

/// Encodes a canonical value, whose encoding never fails.
pub fn encode_canon_value(value: &CborValue) -> (r: Vec<u8>)
    requires
        cbor_canon(value@),
    ensures
        r@ == cbor_enc(value@),
{
    match encode_canonical_value(value) {
        Ok(b) => b,
        Err(_) => {
            proof {
                assert(false);
            }
            Vec::new()
        },
    }
}

/// The whole value at integer key `key`, or nothing when absent.
pub fn opt_value<'a>(map: &'a Vec<(CborValue, CborValue)>, key: u64) -> (r: Option<
    &'a CborValue,
>)
    ensures
        match r {
            Some(v) => map_get_spec(view_pairs(map@), key) == Some(v@),
            None => map_get_spec(view_pairs(map@), key) is None,
        },
{
    map_find(map, key)
}

/// A value found in a canonical map is canonical.
pub proof fn lemma_map_get_canon(entries: Seq<(CborVal, CborVal)>, key: u64)
    requires
        canon_pairs(entries),
        map_get_spec(entries, key) is Some,
    ensures
        cbor_canon(map_get_spec(entries, key)->Some_0),
    decreases entries,
{
    if entries.len() > 0 {
        if entries[0].0 == CborVal::Uint(key) {
        } else {
            lemma_map_get_canon(entries.drop_first(), key);
        }
    }
}

/// The entries of a canonical map value are canonical and sorted.
pub proof fn lemma_canon_dict_parts(v: CborVal)
    requires
        cbor_canon(v),
        v is Dict,
    ensures
        canon_pairs(v->Dict_0),
        sorted_keys(v->Dict_0),
{
}

/// Whether two byte vectors hold the same bytes.
pub fn bytes_eq(a: &Vec<u8>, b: &Vec<u8>) -> (r: bool)
    ensures
        r == (a@ == b@),
{
    if a.len() != b.len() {
        proof {
            assert(a@ != b@);
        }
        return false;
    }
    let mut i: usize = 0;
    while i < a.len()
        invariant
            i <= a@.len(),
            a@.len() == b@.len(),
            forall|q: int| 0 <= q < i ==> a@[q] == b@[q],
        decreases a@.len() - i,
    {
        if a[i] != b[i] {
            return false;
        }
        i = i + 1;
    }
    proof {
        assert(a@ =~= b@);
    }
    true
}

} // verus!