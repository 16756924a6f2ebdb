//! The buffered storage mirror behind the asynchronous shim: reads are
//! served from the mirror, writes update it and join the pending list, and
//! a drain hands the pending writes out in insertion order.

use vstd::prelude::*;
use vstd::string::StringSliceAdditionalSpecFns;
use crate::cbor::{clone_bytes, lex_lt, slice_to_vec};
use crate::types::str_eq;

verus! {

broadcast use vstd::seq::group_seq_axioms, vstd::std_specs::vec::group_vec_axioms;

/// The mirror: an append-only list of `(namespace, key, value)` writes
/// where the newest entry for a pair wins, plus the pending writes in
/// insertion order.
pub struct StorageMirror {
    pub values: Vec<(String, String, Vec<u8>)>,
    pub pending: Vec<(String, String, Vec<u8>)>,
}

/// The newest value stored for a namespace and key.
pub open spec fn mirror_get_spec(
    values: Seq<(String, String, Vec<u8>)>,
    ns: Seq<char>,
    key: Seq<char>,
) -> Option<Seq<u8>>
    decreases values,
{
    if values.len() == 0 {
        None
    } else if values.last().0@ == ns && values.last().1@ == key {
        Some(values.last().2@)
    } else {
        mirror_get_spec(values.drop_last(), ns, key)
    }
}

/// The UTF-8 bytes of a character sequence.
pub open spec fn spec_bytes_of(s: Seq<char>) -> Seq<u8> {
    vstd::utf8::encode_utf8(s)
}

/// Whether the listed keys ascend strictly in byte order.
pub open spec fn keys_ascending(keys: Seq<(String, Vec<u8>)>) -> bool {
    forall|i: int|
        0 <= i < keys.len() - 1 ==> lex_lt(
            spec_bytes_of((#[trigger] keys[i]).0@),
            spec_bytes_of(keys[i + 1].0@),
        )
}

/// A namespace-and-key pair that appears in the mirror maps to some value.
proof fn lemma_mirror_get_some(
    values: Seq<(String, String, Vec<u8>)>,
    ns: Seq<char>,
    key: Seq<char>,
    t: int,
)
    requires
        0 <= t < values.len(),
        values[t].0@ == ns,
        values[t].1@ == key,
    ensures
        mirror_get_spec(values, ns, key) is Some,
    decreases values,
{
    if !(values.last().0@ == ns && values.last().1@ == key) {
        assert(values.drop_last()[t] == values[t]);
        lemma_mirror_get_some(values.drop_last(), ns, key, t);
    }
}

impl StorageMirror {
    /// An empty mirror.
    pub fn new() -> (r: StorageMirror)
        ensures
            r.values@.len() == 0,
            r.pending@.len() == 0,
    {
        StorageMirror { values: Vec::new(), pending: Vec::new() }
    }

    /// Stores a value under a namespace and key: the pair now maps to this
    /// value, every other pair is unchanged, and the write joins the back
    /// of the pending list.
    pub fn put(&mut self, namespace: &str, key: &str, value: &[u8])
        ensures
            mirror_get_spec(final(self).values@, namespace@, key@) == Some(value@),
            forall|ons: Seq<char>, ok: Seq<char>|
                !(ons == namespace@ && ok == key@) ==> #[trigger] mirror_get_spec(
                    final(self).values@,
                    ons,
                    ok,
                ) == mirror_get_spec(old(self).values@, ons, ok),
            final(self).pending@.len() == old(self).pending@.len() + 1,
            final(self).pending@.drop_last() == old(self).pending@,
            final(self).pending@.last().0@ == namespace@,
            final(self).pending@.last().1@ == key@,
            final(self).pending@.last().2@ == value@,
    {
        self.values.push((namespace.to_owned(), key.to_owned(), slice_to_vec(
            value,
            0,
            value.len(),
        )));
        self.pending.push((namespace.to_owned(), key.to_owned(), slice_to_vec(
            value,
            0,
            value.len(),
        )));
        proof {
            assert(value@.subrange(0, value@.len() as int) =~= value@);
            let vs = self.values@;
            assert(vs.drop_last() =~= old(self).values@);
            assert forall|ons: Seq<char>, ok: Seq<char>|
                !(ons == namespace@ && ok == key@) implies #[trigger] mirror_get_spec(
                vs,
                ons,
                ok,
            ) == mirror_get_spec(old(self).values@, ons, ok) by {
                assert(mirror_get_spec(vs, ons, ok) == mirror_get_spec(
                    vs.drop_last(),
                    ons,
                    ok,
                ));
            }
            assert(self.pending@.drop_last() =~= old(self).pending@);
        }
    }

    /// Preloads a mapping into the mirror without enqueuing a pending
    /// write: used when paging the durable store in at construction.
    pub fn load(&mut self, namespace: &str, key: &str, value: &[u8])
        ensures
            mirror_get_spec(final(self).values@, namespace@, key@) == Some(value@),
            forall|ons: Seq<char>, ok: Seq<char>|
                !(ons == namespace@ && ok == key@) ==> #[trigger] mirror_get_spec(
                    final(self).values@,
                    ons,
                    ok,
                ) == mirror_get_spec(old(self).values@, ons, ok),
            final(self).pending@ == old(self).pending@,
    {
        self.values.push((namespace.to_owned(), key.to_owned(), slice_to_vec(
            value,
            0,
            value.len(),
        )));
        proof {
            assert(value@.subrange(0, value@.len() as int) =~= value@);
            let vs = self.values@;
            assert(vs.drop_last() =~= old(self).values@);
            assert forall|ons: Seq<char>, ok: Seq<char>|
                !(ons == namespace@ && ok == key@) implies #[trigger] mirror_get_spec(
                vs,
                ons,
                ok,
            ) == mirror_get_spec(old(self).values@, ons, ok) by {
                assert(mirror_get_spec(vs, ons, ok) == mirror_get_spec(
                    vs.drop_last(),
                    ons,
                    ok,
                ));
            }
        }
    }

    /// The newest value stored for a namespace and key, if any.
    pub fn get(&self, namespace: &str, key: &str) -> (r: Option<Vec<u8>>)
        ensures
            match r {
                Some(v) => mirror_get_spec(self.values@, namespace@, key@) == Some(v@),
                None => mirror_get_spec(self.values@, namespace@, key@) is None,
            },
    {
        proof {
            assert(self.values@.take(self.values@.len() as int) =~= self.values@);
        }
        let mut i: usize = self.values.len();
        while i > 0
            invariant
                i <= self.values@.len(),
                mirror_get_spec(self.values@, namespace@, key@) == mirror_get_spec(
                    self.values@.take(i as int),
                    namespace@,
                    key@,
                ),
            decreases i,
        {
            i = i - 1;
            let entry = &self.values[i];
            proof {
                assert(self.values@.take(i + 1).last() == self.values@[i as int]);
                assert(self.values@.take(i + 1).drop_last() =~= self.values@.take(i as int));
            }
            if str_eq(entry.0.as_str(), namespace) && str_eq(entry.1.as_str(), key) {
                return Some(clone_bytes(&entry.2));
            }
        }
        proof {
            assert(self.values@.take(0).len() == 0);
        }
        None
    }

    /// Hands the pending writes out in insertion order and empties the
    /// pending list; the mirror's values are untouched.
    pub fn drain_pending(&mut self) -> (r: Vec<(String, String, Vec<u8>)>)
        ensures
            r@ == old(self).pending@,
            final(self).pending@.len() == 0,
            final(self).values@ == old(self).values@,
    {
        let mut out: Vec<(String, String, Vec<u8>)> = Vec::new();
        core::mem::swap(&mut out, &mut self.pending);
        out
    }

    /// One page of the namespace's mappings with keys strictly after the
    /// cursor, in strictly ascending byte order, at most `limit` entries;
    /// the continuation cursor is the last key handed out, or the given
    /// cursor when the page is empty. Every entry is a current mapping.
    pub fn list_since(&self, namespace: &str, cursor: &str, limit: usize) -> (r: (
        Vec<(String, Vec<u8>)>,
        String,
    ))
        ensures
            r.0@.len() <= limit,
            keys_ascending(r.0@),
            forall|i: int|
                0 <= i < r.0@.len() ==> mirror_get_spec(
                    self.values@,
                    namespace@,
                    (#[trigger] r.0@[i]).0@,
                ) == Some(r.0@[i].1@) && lex_lt(
                    spec_bytes_of(cursor@),
                    spec_bytes_of(r.0@[i].0@),
                ),
    {
        let mut keys: Vec<String> = Vec::new();
        let mut t: usize = 0;
        while t < self.values.len()
            invariant
                t <= self.values@.len(),
                forall|i: int|
                    0 <= i < keys@.len() - 1 ==> lex_lt(
                        spec_bytes_of((#[trigger] keys@[i])@),
                        spec_bytes_of(keys@[i + 1]@),
                    ),
                forall|i: int|
                    0 <= i < keys@.len() ==> lex_lt(
                        spec_bytes_of(cursor@),
                        spec_bytes_of((#[trigger] keys@[i])@),
                    ),
                forall|i: int|
                    0 <= i < keys@.len() ==> mirror_get_spec(
                        self.values@,
                        namespace@,
                        (#[trigger] keys@[i])@,
                    ) is Some,
            decreases self.values@.len() - t,
        {
            let entry = &self.values[t];
            if str_eq(entry.0.as_str(), namespace) && str_lex_lt(cursor, entry.1.as_str()) {
                let ghost keys0 = keys@;
                proof {
                    lemma_mirror_get_some(self.values@, namespace@, entry.1@, t as int);
                }
                insert_key_sorted(&mut keys, entry.1.as_str());
                proof {
                    assert forall|i: int| 0 <= i < keys@.len() implies mirror_get_spec(
                        self.values@,
                        namespace@,
                        (#[trigger] keys@[i])@,
                    ) is Some by {
                        if keys@[i]@ != entry.1@ {
                            let j = choose|j: int|
                                0 <= j < keys0.len() && keys@[i]@ == (#[trigger] keys0[j])@;
                        }
                    }
                }
            }
            t = t + 1;
        }
        let mut out: Vec<(String, Vec<u8>)> = Vec::new();
        let mut i: usize = 0;
        while i < keys.len() && out.len() < limit
            invariant
                i <= keys@.len(),
                out@.len() == i,
                out@.len() <= limit,
                forall|q: int|
                    0 <= q < keys@.len() - 1 ==> lex_lt(
                        spec_bytes_of((#[trigger] keys@[q])@),
                        spec_bytes_of(keys@[q + 1]@),
                    ),
                forall|q: int|
                    0 <= q < keys@.len() ==> lex_lt(
                        spec_bytes_of(cursor@),
                        spec_bytes_of((#[trigger] keys@[q])@),
                    ),
                forall|q: int|
                    0 <= q < keys@.len() ==> mirror_get_spec(
                        self.values@,
                        namespace@,
                        (#[trigger] keys@[q])@,
                    ) is Some,
                forall|q: int|
                    0 <= q < out@.len() ==> mirror_get_spec(
                        self.values@,
                        namespace@,
                        (#[trigger] out@[q]).0@,
                    ) == Some(out@[q].1@) && lex_lt(
                        spec_bytes_of(cursor@),
                        spec_bytes_of(out@[q].0@),
                    ) && out@[q].0@ == keys@[q]@,
            decreases keys@.len() - i,
        {
            let found = self.get(namespace, keys[i].as_str());
            match found {
                Some(v) => {
                    let ghost out0 = out@;
                    out.push((keys[i].clone(), v));
                    proof {
                        assert(out@.drop_last() =~= out0);
                    }
                },
                None => {
                    proof {
                        assert(false);
                    }
                },
            }
            i = i + 1;
        }
        proof {
            assert forall|q: int| 0 <= q < out@.len() - 1 implies lex_lt(
                spec_bytes_of((#[trigger] out@[q]).0@),
                spec_bytes_of(out@[q + 1].0@),
            ) by {
                assert(out@[q].0@ == keys@[q]@);
                assert(out@[q + 1].0@ == keys@[q + 1]@);
            }
        }
        let next_cursor = if out.len() > 0 {
            let last = out.len() - 1;
            out[last].0.clone()
        } else {
            cursor.to_owned()
        };
        (out, next_cursor)
    }
}

/// Strict lexicographic order is transitive.
proof fn lemma_lex_lt_trans(a: Seq<u8>, b: Seq<u8>, c: Seq<u8>)
    requires
        lex_lt(a, b),
        lex_lt(b, c),
    ensures
        lex_lt(a, c),
    decreases a,
{
    if a.len() > 0 && b.len() > 0 && c.len() > 0 {
        if a[0] == b[0] && b[0] == c[0] {
            lemma_lex_lt_trans(a.drop_first(), b.drop_first(), c.drop_first());
        }
    }
}

/// Whether `a` comes strictly before `b` in the byte order of their UTF-8
/// spellings.
fn str_lex_lt(a: &str, b: &str) -> (r: bool)
    ensures
        r == lex_lt(spec_bytes_of(a@), spec_bytes_of(b@)),
{
    let ab = a.as_bytes();
    let bb = b.as_bytes();
    let av = slice_to_vec(ab, 0, ab.len());
    let bv = slice_to_vec(bb, 0, bb.len());
    proof {
        assert(ab@.subrange(0, ab@.len() as int) =~= ab@);
        assert(bb@.subrange(0, bb@.len() as int) =~= bb@);
    }
    crate::cbor::lex_vec_lt(&av, &bv)
}

/// Inserts a key into a strictly ascending list, keeping it strictly
/// ascending; a key already present is left alone. Every key that was
/// above the cursor stays above it.
fn insert_key_sorted(keys: &mut Vec<String>, key: &str)
    requires
        forall|i: int|
            0 <= i < old(keys)@.len() - 1 ==> lex_lt(
                spec_bytes_of((#[trigger] old(keys)@[i])@),
                spec_bytes_of(old(keys)@[i + 1]@),
            ),
    ensures
        forall|i: int|
            0 <= i < final(keys)@.len() - 1 ==> lex_lt(
                spec_bytes_of((#[trigger] final(keys)@[i])@),
                spec_bytes_of(final(keys)@[i + 1]@),
            ),
        forall|i: int|
            0 <= i < final(keys)@.len() ==> ((#[trigger] final(keys)@[i])@ == key@ || exists|
                j: int,
            |
                0 <= j < old(keys)@.len() && final(keys)@[i]@ == (#[trigger] old(keys)@[j])@),
{
    let mut p: usize = 0;
    while p < keys.len() && str_lex_lt(keys[p].as_str(), key)
        invariant
            p <= keys@.len(),
            keys@ == old(keys)@,
            forall|q: int|
                0 <= q < p ==> lex_lt(
                    spec_bytes_of((#[trigger] keys@[q])@),
                    spec_bytes_of(key@),
                ),
        decreases keys@.len() - p,
    {
        p = p + 1;
    }
    if p < keys.len() && str_eq(keys[p].as_str(), key) {
        proof {
            broadcast use vstd::utf8::encode_utf8_decode_utf8;

        }
        return ;
    }
    let ghost before = keys@;
    keys.insert(p, key.to_owned());
    proof {
        broadcast use vstd::utf8::encode_utf8_decode_utf8;

        lemma_lex_total(before, key@, p as int);
        assert forall|i: int| 0 <= i < keys@.len() - 1 implies lex_lt(
            spec_bytes_of((#[trigger] keys@[i])@),
            spec_bytes_of(keys@[i + 1]@),
        ) by {
            if i + 1 < p {
                assert(keys@[i] == before[i]);
                assert(keys@[i + 1] == before[i + 1]);
            } else if i + 1 == p {
                assert(keys@[i] == before[i]);
            } else if i == p {
                assert(keys@[i + 1] == before[i]);
            } else {
                assert(keys@[i] == before[i - 1]);
                assert(keys@[i + 1] == before[i]);
            }
        }
        assert forall|i: int| 0 <= i < keys@.len() implies ((#[trigger] keys@[i])@ == key@
            || exists|j: int|
            0 <= j < before.len() && keys@[i]@ == (#[trigger] before[j])@) by {
            if i < p {
                assert(keys@[i] == before[i]);
            } else if i > p {
                assert(keys@[i] == before[i - 1]);
            }
        }
    }
}

/// At the insertion point, the new key is strictly below the old occupant
/// unless it equals it, which the caller has excluded.
proof fn lemma_lex_total(before: Seq<String>, key: Seq<char>, p: int)
    requires
        0 <= p <= before.len(),
        p < before.len() ==> !lex_lt(spec_bytes_of(before[p]@), spec_bytes_of(key))
            && before[p]@ != key,
    ensures
        p < before.len() ==> lex_lt(spec_bytes_of(key), spec_bytes_of(before[p]@)),
{
    if p < before.len() {
        lemma_lex_trichotomy(spec_bytes_of(key), spec_bytes_of(before[p]@));
        if spec_bytes_of(key) == spec_bytes_of(before[p]@) {
            broadcast use vstd::utf8::encode_utf8_decode_utf8;

            assert(vstd::utf8::decode_utf8(spec_bytes_of(key)) == key);
            assert(vstd::utf8::decode_utf8(spec_bytes_of(before[p]@)) == before[p]@);
        }
    }
}

/// Any two byte strings are ordered, equal, or ordered the other way.
proof fn lemma_lex_trichotomy(a: Seq<u8>, b: Seq<u8>)
    ensures
        lex_lt(a, b) || lex_lt(b, a) || a == b,
    decreases a,
{
    if a.len() > 0 && b.len() > 0 && a[0] == b[0] {
        lemma_lex_trichotomy(a.drop_first(), b.drop_first());
        if a.drop_first() == b.drop_first() {
            assert(a.drop_first().len() == a.len() - 1);
            assert(b.drop_first().len() == b.len() - 1);
            assert(a.len() == b.len());
            assert forall|i: int| 0 <= i < a.len() implies a[i] == b[i] by {
                if i > 0 {
                    assert(a.drop_first()[i - 1] == a[i]);
                    assert(b.drop_first()[i - 1] == b[i]);
                }
            }
            assert(a =~= b);
        }
    } else if a.len() == 0 && b.len() == 0 {
        assert(a =~= b);
    }
}

} // verus!
