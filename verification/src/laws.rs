use vstd::prelude::*;
use crate::errors::VdfError;
use crate::value::{VdfMap, VdfModel};
use crate::text::fold_key;
use crate::grammar::{decode_model, insert_if_new, TAG_END};
use crate::decode::decode_result_matches;
use crate::encoding::{
    EncValue, enc_entries, entries_model, enc_model, enc_wf_entries, enc_wf_value, no_zero,
    lemma_decode_entries,
};

verus! {

/// LAW: decoding a complete valid encoding of an entry list succeeds and
/// yields exactly the mapping of the entries' normalized keys, each key
/// bound to the correctly-typed decoded value, the later entry winning a
/// collision.
pub proof fn lemma_decode_of_encoding(es: Seq<(Seq<u8>, EncValue)>)
    requires
        enc_wf_entries(es),
    ensures
        decode_model(enc_entries(es) + seq![TAG_END]) == Ok::<Map<Seq<char>, VdfModel>, VdfError>(
            entries_model(es),
        ),
{
    let data = enc_entries(es) + seq![TAG_END];
    assert(data.subrange(0, data.len() as int) =~= enc_entries(es) + seq![TAG_END]
        + Seq::<u8>::empty());
    lemma_decode_entries(data, 0, es, Seq::empty());
}

/// LAW: the decoded mapping holds exactly the normalized keys of the
/// encoded entries.
pub proof fn lemma_entries_model_dom(es: Seq<(Seq<u8>, EncValue)>, k: Seq<char>)
    ensures
        entries_model(es).dom().contains(k) <==> exists|i: int|
            0 <= i < es.len() && fold_key(#[trigger] es[i].0) == k,
    decreases es.len(),
{
    if es.len() > 0 {
        lemma_entries_model_dom(es.drop_first(), k);
        assert(forall|i: int|
            0 <= i < es.drop_first().len() ==> #[trigger] es.drop_first()[i] == es[i + 1]);
        if entries_model(es).dom().contains(k) {
            if fold_key(es.first().0) == k {
                assert(fold_key(es[0].0) == k);
            } else {
                let i = choose|i: int|
                    0 <= i < es.drop_first().len() && fold_key(
                        #[trigger] es.drop_first()[i].0,
                    ) == k;
                assert(fold_key(es[i + 1].0) == k);
            }
        }
        if exists|i: int| 0 <= i < es.len() && fold_key(#[trigger] es[i].0) == k {
            let i = choose|i: int| 0 <= i < es.len() && fold_key(#[trigger] es[i].0) == k;
            if i > 0 {
                assert(fold_key(es.drop_first()[i - 1].0) == k);
            }
            assert(entries_model(es).dom().contains(k));
        }
    }
}

/// LAW: when the normalized keys of the entries are pairwise distinct, each
/// key is bound to the decoded value of its own entry, wherever in the
/// stream the entry stands.
pub proof fn lemma_entries_model_distinct(es: Seq<(Seq<u8>, EncValue)>, i: int)
    requires
        0 <= i < es.len(),
        forall|a: int, b: int|
            0 <= a < b < es.len() ==> fold_key(#[trigger] es[a].0) != fold_key(
                #[trigger] es[b].0,
            ),
    ensures
        entries_model(es).dom().contains(fold_key(es[i].0)),
        entries_model(es)[fold_key(es[i].0)] == enc_model(es[i].1),
    decreases es.len(),
{
    assert(forall|j: int|
        0 <= j < es.drop_first().len() ==> #[trigger] es.drop_first()[j] == es[j + 1]);
    if i == 0 {
        lemma_entries_model_dom(es.drop_first(), fold_key(es[0].0));
        assert(!entries_model(es.drop_first()).dom().contains(fold_key(es[0].0))) by {
            if entries_model(es.drop_first()).dom().contains(fold_key(es[0].0)) {
                let j = choose|j: int|
                    0 <= j < es.drop_first().len() && fold_key(
                        #[trigger] es.drop_first()[j].0,
                    ) == fold_key(es[0].0);
                assert(fold_key(es[j + 1].0) == fold_key(es[0].0));
                assert(false);
            }
        }
        assert(es.first() == es[0]);
    } else {
        lemma_entries_model_distinct(es.drop_first(), i - 1);
        assert(es.drop_first()[i - 1] == es[i]);
        assert(fold_key(es.first().0) != fold_key(es[i].0)) by {
            assert(es.first() == es[0]);
        }
    }
}

/// LAW: two entries whose raw keys fold to the same normalized key yield
/// exactly one key in the decoded object, bound to the value of the entry
/// that appears later in the byte stream.
pub proof fn lemma_key_fold_later_wins(k1: Seq<u8>, v1: EncValue, k2: Seq<u8>, v2: EncValue)
    requires
        no_zero(k1),
        no_zero(k2),
        enc_wf_value(v1),
        enc_wf_value(v2),
        fold_key(k1) == fold_key(k2),
    ensures
        decode_model(enc_entries(seq![(k1, v1), (k2, v2)]) + seq![TAG_END]) == Ok::<
            Map<Seq<char>, VdfModel>,
            VdfError,
        >(Map::empty().insert(fold_key(k1), enc_model(v2))),
{
    reveal_with_fuel(entries_model, 3);
    reveal_with_fuel(enc_wf_entries, 3);
    let es = seq![(k1, v1), (k2, v2)];
    let tail = es.drop_first();
    assert(tail =~= seq![(k2, v2)]);
    assert(tail.drop_first() =~= Seq::<(Seq<u8>, EncValue)>::empty());
    assert(es.first() == (k1, v1));
    assert(tail.first() == (k2, v2));
    assert(enc_wf_entries(es));
    lemma_decode_of_encoding(es);
    assert(entries_model(tail) == insert_if_new(Map::empty(), fold_key(k2), enc_model(v2)));
    assert(entries_model(tail) == Map::<Seq<char>, VdfModel>::empty().insert(
        fold_key(k2),
        enc_model(v2),
    ));
    assert(entries_model(tail).dom().contains(fold_key(k1)));
    assert(entries_model(es) == entries_model(tail));
}

/// LAW: decoding is deterministic and side-effect-free: any two results
/// that a buffer admits agree, as trees on success and as failures
/// otherwise.
pub proof fn lemma_decode_deterministic(
    data: Seq<u8>,
    r1: Result<VdfMap, VdfError>,
    r2: Result<VdfMap, VdfError>,
)
    requires
        decode_result_matches(data, r1),
        decode_result_matches(data, r2),
    ensures
        (r1 is Ok) == (r2 is Ok),
        r1 matches Ok(m1) ==> (r2 matches Ok(m2) && m1@ == m2@),
        r1 matches Err(e1) ==> (r2 matches Err(e2) && e1 == e2),
{
}

} // verus!
