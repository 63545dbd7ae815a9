use vstd::prelude::*;
use crate::value::VdfModel;
use crate::text::{fold_key, lossy_of};
use crate::grammar::{
    cstr_end, cstr_bytes, map_of, entry_of, insert_if_new, EntryHead, TAG_OBJECT, TAG_TEXT,
    TAG_INTEGER, TAG_END,
};
use crate::errors::VdfError;
use vstd::bytes::{spec_u32_to_le_bytes, spec_u32_from_le_bytes, lemma_auto_spec_u32_to_from_le_bytes};

verus! {

/// A value to be encoded: raw text fields as bytes.
pub enum EncValue {
    Text(Seq<u8>),
    Integer(u32),
    Object(Seq<(Seq<u8>, EncValue)>),
}

/// No zero byte: the field can be written with a zero terminator.
pub open spec fn no_zero(bs: Seq<u8>) -> bool {
    forall|i: int| 0 <= i < bs.len() ==> bs[i] != 0
}

/// Every key and every text of the value, at every depth, is free of zero
/// bytes.
pub open spec fn enc_wf_value(v: EncValue) -> bool
    decreases v,
{
    match v {
        EncValue::Text(t) => no_zero(t),
        EncValue::Integer(_) => true,
        EncValue::Object(es) => enc_wf_entries(es),
    }
}

/// Every key and every value of the entries can be encoded.
pub open spec fn enc_wf_entries(es: Seq<(Seq<u8>, EncValue)>) -> bool
    decreases es,
{
    if es.len() == 0 {
        true
    } else {
        no_zero(es.first().0) && enc_wf_value(es.first().1) && enc_wf_entries(es.drop_first())
    }
}

/// The encoding of one entry: its tag, its zero-terminated key, and its
/// value; a nested object carries its own entries and closing sentinel.
pub open spec fn enc_entry(k: Seq<u8>, v: EncValue) -> Seq<u8>
    decreases v,
{
    match v {
        EncValue::Text(t) => seq![TAG_TEXT] + k + seq![0u8] + t + seq![0u8],
        EncValue::Integer(n) => seq![TAG_INTEGER] + k + seq![0u8] + spec_u32_to_le_bytes(n),
        EncValue::Object(es) => seq![TAG_OBJECT] + k + seq![0u8] + enc_entries(es) + seq![TAG_END],
    }
}

/// The encoding of an entry list: the entries in order, without a closing
/// sentinel.
pub open spec fn enc_entries(es: Seq<(Seq<u8>, EncValue)>) -> Seq<u8>
    decreases es,
{
    if es.len() == 0 {
        Seq::empty()
    } else {
        enc_entry(es.first().0, es.first().1) + enc_entries(es.drop_first())
    }
}

/// The tree that decoding an encoded value must yield.
pub open spec fn enc_model(v: EncValue) -> VdfModel
    decreases v,
{
    match v {
        EncValue::Text(t) => VdfModel::Text(lossy_of(t)),
        EncValue::Integer(n) => VdfModel::Integer(n),
        EncValue::Object(es) => VdfModel::Object(entries_model(es)),
    }
}

/// The mapping that decoding an encoded entry list must yield: normalized
/// keys, the later entry winning a collision.
pub open spec fn entries_model(es: Seq<(Seq<u8>, EncValue)>) -> Map<Seq<char>, VdfModel>
    decreases es,
{
    if es.len() == 0 {
        Map::empty()
    } else {
        insert_if_new(
            entries_model(es.drop_first()),
            fold_key(es.first().0),
            enc_model(es.first().1),
        )
    }
}

/// A zero-terminated field written at `a` reads back as itself.
proof fn lemma_cstr_of(data: Seq<u8>, a: int, k: Seq<u8>)
    requires
        0 <= a,
        a + k.len() + 1 <= data.len(),
        no_zero(k),
        data.subrange(a, a + k.len()) == k,
        data[a + k.len()] == 0,
    ensures
        cstr_end(data, a) == Some(a + k.len() + 1),
        cstr_bytes(data, a) == k,
    decreases k.len(),
{
    if k.len() == 0 {
        assert(data[a] == 0);
        assert(cstr_bytes(data, a) =~= k);
    } else {
        assert(data[a] == data.subrange(a, a + k.len())[0]);
        assert(data[a] == k[0]);
        assert(data[a] != 0);
        let k2 = k.drop_first();
        assert(data.subrange(a + 1, a + 1 + k2.len()) =~= k2);
        lemma_cstr_of(data, a + 1, k2);
        assert(cstr_end(data, a) == cstr_end(data, a + 1));
        assert(cstr_bytes(data, a) =~= k);
    }
}

/// Decoding replays an encoded entry list exactly: from the start of the
/// encoding, it consumes the entries and their closing sentinel, whatever
/// follows, and yields the mapping of their normalized keys.
pub proof fn lemma_decode_entries(
    data: Seq<u8>,
    pos: int,
    es: Seq<(Seq<u8>, EncValue)>,
    rest: Seq<u8>,
)
    requires
        enc_wf_entries(es),
        0 <= pos <= data.len(),
        data.subrange(pos, data.len() as int) == enc_entries(es) + seq![TAG_END] + rest,
    ensures
        map_of(data, pos) == Ok::<(Map<Seq<char>, VdfModel>, int), VdfError>(
            (entries_model(es), pos + enc_entries(es).len() + 1),
        ),
    decreases es,
{
    let whole = enc_entries(es) + seq![TAG_END] + rest;
    assert(data.len() - pos == whole.len());
    if es.len() == 0 {
        assert(whole[0] == TAG_END);
        assert(data[pos] == data.subrange(pos, data.len() as int)[0]);
        assert(data[pos] == TAG_END);
        assert(entry_of(data, pos) == Ok::<EntryHead, VdfError>(EntryHead::End { end: pos + 1 }));
        assert(map_of(data, pos) == Ok::<(Map<Seq<char>, VdfModel>, int), VdfError>(
            (Map::empty(), pos + 1),
        ));
    } else {
        let k = es.first().0;
        let v = es.first().1;
        let head = enc_entry(k, v);
        let tailall = enc_entries(es.drop_first()) + seq![TAG_END] + rest;
        assert(enc_entries(es) == head + enc_entries(es.drop_first()));
        assert(whole =~= head + tailall);
        assert(forall|y: int|
            0 <= y < whole.len() ==> data[pos + y] == #[trigger] whole[y]) by {
            assert(forall|y: int|
                0 <= y < whole.len() ==> #[trigger] whole[y] == data.subrange(
                    pos,
                    data.len() as int,
                )[y]);
        }
        // the head encodes its tag, then the zero-terminated key, whatever
        // the value's kind
        match v {
            EncValue::Text(t) => {
                assert(head =~= seq![TAG_TEXT] + k + seq![0u8] + t + seq![0u8]);
                assert(head.len() == k.len() + t.len() + 3);
            },
            EncValue::Integer(n) => {
                lemma_auto_spec_u32_to_from_le_bytes();
                assert(head =~= seq![TAG_INTEGER] + k + seq![0u8] + spec_u32_to_le_bytes(n));
                assert(head.len() == k.len() + 6);
            },
            EncValue::Object(sub) => {
                assert(head =~= seq![TAG_OBJECT] + k + seq![0u8] + enc_entries(sub) + seq![
                    TAG_END,
                ]);
                assert(head.len() == k.len() + enc_entries(sub).len() + 3);
            },
        }
        assert(head.len() >= k.len() + 2);
        let after_head = pos + head.len();
        assert forall|j: int| after_head <= j < data.len() implies #[trigger] data[j] == tailall[j
            - after_head] by {
            assert(data[j] == whole[j - pos]);
            assert(whole[j - pos] == tailall[j - pos - head.len()]);
        }
        assert(data.subrange(after_head, data.len() as int) =~= tailall);
        // the key sits just after the tag, zero-terminated
        assert(data[pos] == whole[0]);
        assert(whole[0] == head[0]);
        let a = pos + 1;
        assert forall|j: int| a <= j < a + k.len() implies #[trigger] data[j] == k[j - a] by {
            assert(data[j] == whole[j - pos]);
            assert(whole[j - pos] == head[j - pos]);
            assert(head[j - pos] == k[j - pos - 1]);
        }
        assert(data.subrange(a, a + k.len()) =~= k);
        assert(head[1 + k.len() as int] == 0);
        assert(whole[1 + k.len() as int] == 0);
        assert(data[a + k.len()] == 0);
        let e = a + k.len() + 1;
        lemma_cstr_of(data, a, k);
        assert(cstr_end(data, a) == Some(e));
        assert(cstr_bytes(data, a) == k);
        assert(no_zero(k) && enc_wf_value(v) && enc_wf_entries(es.drop_first()));
        assert(enc_entries(es).len() == head.len() + enc_entries(es.drop_first()).len());
        match v {
            EncValue::Text(t) => {
                assert(data[pos] == TAG_TEXT);
                assert forall|j: int| e <= j < e + t.len() implies #[trigger] data[j] == t[j - e]
                by {
                    assert(data[j] == whole[j - pos]);
                    assert(whole[j - pos] == head[j - pos]);
                    assert(head[j - pos] == t[j - pos - 2 - k.len()]);
                }
                assert(data.subrange(e, e + t.len()) =~= t);
                assert(head[2 + k.len() as int + t.len() as int] == 0);
                assert(whole[2 + k.len() as int + t.len() as int] == 0);
                assert(data[e + t.len()] == 0);
                assert(no_zero(t));
                lemma_cstr_of(data, e, t);
                let end = e + t.len() + 1;
                assert(end == after_head);
                assert(entry_of(data, pos) == Ok::<EntryHead, VdfError>(
                    EntryHead::Scalar {
                        key: fold_key(k),
                        value: VdfModel::Text(lossy_of(t)),
                        end: end,
                    },
                ));
                lemma_decode_entries(data, end, es.drop_first(), rest);
                assert(map_of(data, end) == Ok::<(Map<Seq<char>, VdfModel>, int), VdfError>(
                    (entries_model(es.drop_first()), end + enc_entries(es.drop_first()).len() + 1),
                ));
                assert(enc_model(v) == VdfModel::Text(lossy_of(t)));
                assert(entries_model(es) == insert_if_new(
                    entries_model(es.drop_first()),
                    fold_key(k),
                    enc_model(v),
                ));
                assert(map_of(data, pos) == Ok::<(Map<Seq<char>, VdfModel>, int), VdfError>(
                    (entries_model(es), pos + enc_entries(es).len() + 1),
                ));
            },
            EncValue::Integer(n) => {
                assert(data[pos] == TAG_INTEGER);
                lemma_auto_spec_u32_to_from_le_bytes();
                assert(spec_u32_to_le_bytes(n).len() == 4);
                assert forall|j: int| e <= j < e + 4 implies #[trigger] data[j]
                    == spec_u32_to_le_bytes(n)[j - e] by {
                    assert(data[j] == whole[j - pos]);
                    assert(whole[j - pos] == head[j - pos]);
                    assert(head[j - pos] == spec_u32_to_le_bytes(n)[j - pos - 2 - k.len()]);
                }
                assert(data.subrange(e, e + 4) =~= spec_u32_to_le_bytes(n));
                assert(spec_u32_from_le_bytes(data.subrange(e, e + 4)) == n);
                let end = e + 4;
                assert(end == after_head);
                assert(e + 4 <= data.len());
                assert(entry_of(data, pos) == Ok::<EntryHead, VdfError>(
                    EntryHead::Scalar { key: fold_key(k), value: VdfModel::Integer(n), end: end },
                ));
                lemma_decode_entries(data, end, es.drop_first(), rest);
                assert(map_of(data, pos) == Ok::<(Map<Seq<char>, VdfModel>, int), VdfError>(
                    (entries_model(es), pos + enc_entries(es).len() + 1),
                ));
            },
            EncValue::Object(sub) => {
                assert(data[pos] == TAG_OBJECT);
                assert(entry_of(data, pos) == Ok::<EntryHead, VdfError>(
                    EntryHead::Nested { key: fold_key(k), start: e },
                ));
                let subrest = enc_entries(es.drop_first()) + seq![TAG_END] + rest;
                let subwhole = enc_entries(sub) + seq![TAG_END] + subrest;
                assert forall|j: int| e <= j < data.len() implies #[trigger] data[j] == subwhole[j
                    - e] by {
                    assert(data[j] == whole[j - pos]);
                    if j < after_head {
                        assert(whole[j - pos] == head[j - pos]);
                        assert(head[j - pos] == (enc_entries(sub) + seq![TAG_END])[j - pos - 2
                            - k.len()]);
                        assert(subwhole[j - e] == (enc_entries(sub) + seq![TAG_END])[j - e]);
                    } else {
                        assert(whole[j - pos] == tailall[j - pos - head.len()]);
                        assert(subwhole[j - e] == subrest[j - e - enc_entries(sub).len() - 1]);
                    }
                }
                assert(data.subrange(e, data.len() as int) =~= subwhole);
                lemma_decode_entries(data, e, sub, subrest);
                let after = e + enc_entries(sub).len() + 1;
                assert(after == after_head);
                assert(map_of(data, e) == Ok::<(Map<Seq<char>, VdfModel>, int), VdfError>(
                    (entries_model(sub), after),
                ));
                lemma_decode_entries(data, after, es.drop_first(), rest);
                assert(pos < after && after <= data.len());
                assert(map_of(data, pos) == Ok::<(Map<Seq<char>, VdfModel>, int), VdfError>(
                    (entries_model(es), pos + enc_entries(es).len() + 1),
                ));
            },
        }
    }
}

} // verus!
