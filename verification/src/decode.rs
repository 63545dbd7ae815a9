use vstd::prelude::*;
use crate::cursor::ByteCursor;
use crate::errors::VdfError;
use crate::grammar::{
    cstr_end, cstr_bytes, item_of, map_of, decode_model, insert_if_new, lemma_cstr_end,
    lemma_cstr_step, lemma_map_of_step, lemma_item_of_end, TAG_OBJECT, TAG_TEXT, TAG_INTEGER,
    TAG_END,
};
use crate::text::{lossy_of, fold_key, lossy_decode, to_lower};
use crate::value::{VdfMap, VdfModel, VdfValue};

verus! {

/// Reads bytes up to and including the next zero byte, returning the text
/// before the terminator, decoded leniently. Fails only when the buffer is
/// exhausted before a terminator is found.
pub fn read_cstring(cursor: &mut ByteCursor) -> (r: Result<String, VdfError>)
    requires
        old(cursor).wf(),
    ensures
        final(cursor).wf(),
        final(cursor).data@ == old(cursor).data@,
        match r {
            Ok(s) => match cstr_end(old(cursor).data@, old(cursor).pos as int) {
                Some(e) => final(cursor).pos == e && s@ == lossy_of(
                    cstr_bytes(old(cursor).data@, old(cursor).pos as int),
                ),
                None => false,
            },
            Err(e) => e == VdfError::UnexpectedEnd && cstr_end(
                old(cursor).data@,
                old(cursor).pos as int,
            ) is None && final(cursor).pos == old(cursor).data@.len(),
        },
{
    let ghost data = cursor.data@;
    let ghost start = cursor.pos as int;
    let mut buf: Vec<u8> = Vec::new();
    loop
        invariant
            cursor.wf(),
            data == old(cursor).data@,
            start == old(cursor).pos as int,
            cursor.data@ == data,
            start <= cursor.pos as int <= data.len(),
            buf@ == data.subrange(start, cursor.pos as int),
            cstr_end(data, start) == cstr_end(data, cursor.pos as int),
        decreases data.len() - cursor.pos,
    {
        let ghost cur = cursor.pos as int;
        match cursor.try_read_one() {
            None => {
                return Err(VdfError::UnexpectedEnd);
            },
            Some(b) => {
                if b == 0 {
                    proof {
                        assert(cstr_end(data, cur) == Some(cur + 1));
                        assert(cstr_bytes(data, start) =~= buf@);
                    }
                    let s = lossy_decode(buf.as_slice());
                    return Ok(s);
                }
                buf.push(b);
                proof {
                    lemma_cstr_step(data, cur);
                    assert(buf@ =~= data.subrange(start, cur + 1));
                }
            },
        }
    }
}

/// Decodes one entry of the current object: `None` when the object ends,
/// here by its sentinel or by exhaustion of the buffer; otherwise the
/// normalized key and the decoded value, a whole nested object included.
pub fn next_map_item(cursor: &mut ByteCursor) -> (r: Result<
    Option<(String, VdfValue)>,
    VdfError,
>)
    requires
        old(cursor).wf(),
    ensures
        final(cursor).wf(),
        final(cursor).data@ == old(cursor).data@,
        match r {
            Ok(None) => item_of(old(cursor).data@, old(cursor).pos as int) == Ok::<
                (Option<(Seq<char>, VdfModel)>, int),
                VdfError,
            >((None, final(cursor).pos as int)),
            Ok(Some((k, v))) => item_of(old(cursor).data@, old(cursor).pos as int) == Ok::<
                (Option<(Seq<char>, VdfModel)>, int),
                VdfError,
            >((Some((k@, v@)), final(cursor).pos as int)) && v.wf(),
            Err(e) => item_of(old(cursor).data@, old(cursor).pos as int) == Err::<
                (Option<(Seq<char>, VdfModel)>, int),
                VdfError,
            >(e),
        },
        ({
            let d = old(cursor).data@;
            let p = old(cursor).pos as int;
            p < d.len() && d[p] != TAG_OBJECT && d[p] != TAG_TEXT && d[p] != TAG_INTEGER && d[p]
                != TAG_END
        }) ==> r == Err::<Option<(String, VdfValue)>, VdfError>(
            VdfError::UnknownTag(old(cursor).data@[old(cursor).pos as int]),
        ) && final(cursor).pos == old(cursor).pos + 1,
    decreases old(cursor).data@.len() - old(cursor).pos, 0nat,
{
    let ghost data = cursor.data@;
    let ghost pos = cursor.pos as int;
    let tag = match cursor.try_read_one() {
        None => {
            return Ok(None);
        },
        Some(t) => t,
    };
    if tag == TAG_END {
        return Ok(None);
    }
    if tag == TAG_OBJECT {
        let name = match read_cstring(cursor) {
            Ok(s) => s,
            Err(e) => {
                return Err(e);
            },
        };
        let key = to_lower(name.as_str());
        proof {
            assert(key@ == fold_key(cstr_bytes(data, pos + 1)));
            lemma_cstr_end(data, pos + 1);
        }
        let value = match next_map(cursor) {
            Ok(m) => m,
            Err(e) => {
                return Err(e);
            },
        };
        return Ok(Some((key, VdfValue::Object(value))));
    }
    if tag == TAG_TEXT {
        let name = match read_cstring(cursor) {
            Ok(s) => s,
            Err(e) => {
                return Err(e);
            },
        };
        let key = to_lower(name.as_str());
        let value = match read_cstring(cursor) {
            Ok(s) => s,
            Err(e) => {
                return Err(e);
            },
        };
        return Ok(Some((key, VdfValue::Text(value))));
    }
    if tag == TAG_INTEGER {
        let name = match read_cstring(cursor) {
            Ok(s) => s,
            Err(e) => {
                return Err(e);
            },
        };
        let key = to_lower(name.as_str());
        let bytes = match cursor.read_exact(4) {
            Ok(b) => b,
            Err(e) => {
                return Err(e);
            },
        };
        let value = vstd::bytes::u32_from_le_bytes(bytes.as_slice());
        return Ok(Some((key, VdfValue::Integer(value))));
    }
    Err(VdfError::UnknownTag(tag))
}

/// Decodes the entries of one object until its sentinel or the end of the
/// buffer, the later entry winning when two keys collide. Any failure below
/// aborts this object as well.
pub fn next_map(cursor: &mut ByteCursor) -> (r: Result<VdfMap, VdfError>)
    requires
        old(cursor).wf(),
    ensures
        final(cursor).wf(),
        final(cursor).data@ == old(cursor).data@,
        match r {
            Ok(m) => m.wf() && map_of(old(cursor).data@, old(cursor).pos as int) == Ok::<
                (Map<Seq<char>, VdfModel>, int),
                VdfError,
            >((m@, final(cursor).pos as int)),
            Err(e) => map_of(old(cursor).data@, old(cursor).pos as int) == Err::<
                (Map<Seq<char>, VdfModel>, int),
                VdfError,
            >(e),
        },
    decreases old(cursor).data@.len() - old(cursor).pos, 1nat,
{
    let ghost data = cursor.data@;
    let ghost pos0 = cursor.pos as int;
    let mut map = VdfMap::new();
    proof {
        match map_of(data, pos0) {
            Ok((m2, e)) => {
                assert(Map::<Seq<char>, VdfModel>::empty().union_prefer_right(m2) =~= m2);
            },
            Err(_) => {},
        }
    }
    loop
        invariant
            cursor.wf(),
            data == old(cursor).data@,
            pos0 == old(cursor).pos as int,
            cursor.data@ == data,
            pos0 <= cursor.pos as int <= data.len(),
            map.wf(),
            map_of(data, pos0) == (match map_of(data, cursor.pos as int) {
                Ok((m2, e)) => Ok::<(Map<Seq<char>, VdfModel>, int), VdfError>(
                    (map@.union_prefer_right(m2), e),
                ),
                Err(e) => Err(e),
            }),
        decreases data.len() - cursor.pos,
    {
        let ghost cur = cursor.pos as int;
        proof {
            lemma_map_of_step(data, cur);
            lemma_item_of_end(data, cur);
        }
        match next_map_item(cursor) {
            Err(e) => {
                return Err(e);
            },
            Ok(None) => {
                proof {
                    assert(map_of(data, cur) == Ok::<(Map<Seq<char>, VdfModel>, int), VdfError>(
                        (Map::empty(), cursor.pos as int),
                    ));
                    assert(map@.union_prefer_right(Map::empty()) =~= map@);
                }
                return Ok(map);
            },
            Ok(Some((key, value))) => {
                let ghost k = key@;
                let ghost v = value@;
                let ghost acc = map@;
                proof {
                    crate::value::lemma_wf_entries_char(map.entries@);
                }
                map.insert(key, value);
                proof {
                    assert(map@ == acc.insert(k, v));
                    match map_of(data, cursor.pos as int) {
                        Ok((m2, e)) => {
                            assert(map_of(data, cur) == Ok::<
                                (Map<Seq<char>, VdfModel>, int),
                                VdfError,
                            >((insert_if_new(m2, k, v), e)));
                            assert(acc.union_prefer_right(insert_if_new(m2, k, v)) =~= acc.insert(
                                k,
                                v,
                            ).union_prefer_right(m2));
                            assert(map_of(data, pos0) == Ok::<
                                (Map<Seq<char>, VdfModel>, int),
                                VdfError,
                            >((map@.union_prefer_right(m2), e)));
                        },
                        Err(e) => {
                            assert(map_of(data, cur) == Err::<
                                (Map<Seq<char>, VdfModel>, int),
                                VdfError,
                            >(e));
                        },
                    }
                }
            },
        }
    }
}

/// Whether a decode result is the one the buffer's bytes determine: a tree
/// whose view is the decoded mapping, or exactly the failure the grammar
/// assigns to the buffer.
pub open spec fn decode_result_matches(data: Seq<u8>, r: Result<VdfMap, VdfError>) -> bool {
    match r {
        Ok(m) => m.wf() && decode_model(data) == Ok::<Map<Seq<char>, VdfModel>, VdfError>(m@),
        Err(e) => decode_model(data) == Err::<Map<Seq<char>, VdfModel>, VdfError>(e),
    }
}

/// Decodes a whole buffer: wraps it in a cursor at offset zero and decodes
/// the root object. The returned tree is a function of the bytes alone, so
/// decoding a buffer twice yields equal trees, and a failure leaves nothing
/// behind.
pub fn read_vdf(data: Vec<u8>) -> (r: Result<VdfMap, VdfError>)
    ensures
        decode_result_matches(data@, r),
{
    let mut cursor = ByteCursor::new(data);
    next_map(&mut cursor)
}

} // verus!
