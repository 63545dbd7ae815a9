use vstd::prelude::*;
use crate::errors::VdfError;
use crate::value::VdfModel;
use crate::text::{fold_key, lossy_of};
use vstd::bytes::spec_u32_from_le_bytes;

verus! {

/// Tag opening a nested object entry.
pub const TAG_OBJECT: u8 = 0x00;

/// Tag of a string entry.
pub const TAG_TEXT: u8 = 0x01;

/// Tag of a 32-bit little-endian integer entry.
pub const TAG_INTEGER: u8 = 0x02;

/// Sentinel closing the entry list of an object.
pub const TAG_END: u8 = 0x08;

/// The position just after the first zero byte at or after `pos`, if the
/// buffer holds one.
pub open spec fn cstr_end(data: Seq<u8>, pos: int) -> Option<int>
    decreases data.len() - pos,
{
    if pos < 0 || pos >= data.len() {
        None
    } else if data[pos] == 0 {
        Some(pos + 1)
    } else {
        cstr_end(data, pos + 1)
    }
}

/// The bytes of the zero-terminated field starting at `pos`, without the
/// terminator.
pub open spec fn cstr_bytes(data: Seq<u8>, pos: int) -> Seq<u8> {
    match cstr_end(data, pos) {
        Some(e) => data.subrange(pos, e - 1),
        None => Seq::empty(),
    }
}

/// Bounds of a zero-terminated field: its end lies past `pos` and within
/// the buffer, the terminator is the first zero byte.
pub proof fn lemma_cstr_end(data: Seq<u8>, pos: int)
    requires
        0 <= pos,
    ensures
        match cstr_end(data, pos) {
            Some(e) => {
                &&& pos < e <= data.len()
                &&& data[e - 1] == 0
                &&& forall|i: int| pos <= i < e - 1 ==> data[i] != 0
            },
            None => forall|i: int| pos <= i < data.len() ==> data[i] != 0,
        },
    decreases data.len() - pos,
{
    if pos < data.len() && data[pos] != 0 {
        lemma_cstr_end(data, pos + 1);
    }
}

/// A zero-terminated field is unchanged by skipping one of its leading
/// non-zero bytes.
pub proof fn lemma_cstr_step(data: Seq<u8>, pos: int)
    requires
        0 <= pos < data.len(),
        data[pos] != 0,
    ensures
        cstr_end(data, pos) == cstr_end(data, pos + 1),
{
}

/// The head of one entry at `pos`: the end of the current object, a scalar
/// entry, or the opening of a nested object, with the position where
/// decoding continues.
pub enum EntryHead {
    End { end: int },
    Scalar { key: Seq<char>, value: VdfModel, end: int },
    Nested { key: Seq<char>, start: int },
}

/// Reads the tag at `pos` and the fields of its entry, except for the body
/// of a nested object. Exhaustion at the tag itself is an ordinary end of
/// the current object, not an error.
pub open spec fn entry_of(data: Seq<u8>, pos: int) -> Result<EntryHead, VdfError> {
    if pos < 0 || pos >= data.len() {
        Ok(EntryHead::End { end: pos })
    } else {
        let tag = data[pos];
        if tag == TAG_END {
            Ok(EntryHead::End { end: pos + 1 })
        } else if tag == TAG_OBJECT {
            match cstr_end(data, pos + 1) {
                Some(e) => Ok(
                    EntryHead::Nested { key: fold_key(cstr_bytes(data, pos + 1)), start: e },
                ),
                None => Err(VdfError::UnexpectedEnd),
            }
        } else if tag == TAG_TEXT {
            match cstr_end(data, pos + 1) {
                Some(e) => match cstr_end(data, e) {
                    Some(e2) => Ok(
                        EntryHead::Scalar {
                            key: fold_key(cstr_bytes(data, pos + 1)),
                            value: VdfModel::Text(lossy_of(cstr_bytes(data, e))),
                            end: e2,
                        },
                    ),
                    None => Err(VdfError::UnexpectedEnd),
                },
                None => Err(VdfError::UnexpectedEnd),
            }
        } else if tag == TAG_INTEGER {
            match cstr_end(data, pos + 1) {
                Some(e) => if e + 4 <= data.len() {
                    Ok(
                        EntryHead::Scalar {
                            key: fold_key(cstr_bytes(data, pos + 1)),
                            value: VdfModel::Integer(
                                spec_u32_from_le_bytes(data.subrange(e, e + 4)),
                            ),
                            end: e + 4,
                        },
                    )
                } else {
                    Err(VdfError::UnexpectedEnd)
                },
                None => Err(VdfError::UnexpectedEnd),
            }
        } else {
            Err(VdfError::UnknownTag(tag))
        }
    }
}

/// Positions reached by one entry head stay within the buffer and advance
/// past `pos` whenever anything was read.
pub proof fn lemma_entry_of_end(data: Seq<u8>, pos: int)
    requires
        0 <= pos <= data.len(),
    ensures
        match entry_of(data, pos) {
            Ok(EntryHead::End { end }) => pos <= end <= data.len(),
            Ok(EntryHead::Scalar { end, .. }) => pos < end <= data.len(),
            Ok(EntryHead::Nested { start, .. }) => pos < start <= data.len(),
            Err(_) => true,
        },
{
    if pos < data.len() {
        lemma_cstr_end(data, pos + 1);
        match cstr_end(data, pos + 1) {
            Some(e) => {
                lemma_cstr_end(data, e);
            },
            None => {},
        }
    }
}

/// Adds an entry to the mapping of the entries that follow it: the later
/// binding of the key wins, so the entry is kept only when the key is new.
pub open spec fn insert_if_new(
    m: Map<Seq<char>, VdfModel>,
    key: Seq<char>,
    value: VdfModel,
) -> Map<Seq<char>, VdfModel> {
    if m.dom().contains(key) {
        m
    } else {
        m.insert(key, value)
    }
}

/// Decodes the object whose entries start at `pos`: the mapping built from
/// its entries up to the closing sentinel or the end of the buffer, and the
/// position just after it.
pub open spec fn map_of(data: Seq<u8>, pos: int) -> Result<
    (Map<Seq<char>, VdfModel>, int),
    VdfError,
>
    decreases data.len() - pos,
{
    match entry_of(data, pos) {
        Err(e) => Err(e),
        Ok(EntryHead::End { end }) => Ok((Map::empty(), end)),
        Ok(EntryHead::Scalar { key, value, end }) => {
            proof {
                if 0 <= pos <= data.len() {
                    lemma_entry_of_end(data, pos);
                }
            }
            match map_of(data, end) {
                Err(e2) => Err(e2),
                Ok((m, fin)) => Ok((insert_if_new(m, key, value), fin)),
            }
        },
        Ok(EntryHead::Nested { key, start }) => {
            proof {
                if 0 <= pos <= data.len() {
                    lemma_entry_of_end(data, pos);
                }
            }
            match map_of(data, start) {
                Err(e2) => Err(e2),
                Ok((child, after)) => if pos < after && after <= data.len() {
                    match map_of(data, after) {
                        Err(e3) => Err(e3),
                        Ok((m, fin)) => Ok((insert_if_new(m, key, VdfModel::Object(child)), fin)),
                    }
                } else {
                    // never reached: a nested decode always ends within the
                    // buffer and past the tag that opened it
                    Err(VdfError::UnexpectedEnd)
                },
            }
        },
    }
}

/// A decoded object ends within the buffer, at or after where it started.
pub proof fn lemma_map_of_end(data: Seq<u8>, pos: int)
    requires
        0 <= pos <= data.len(),
    ensures
        match map_of(data, pos) {
            Ok((m, e)) => pos <= e <= data.len(),
            Err(_) => true,
        },
    decreases data.len() - pos,
{
    lemma_entry_of_end(data, pos);
    match entry_of(data, pos) {
        Ok(EntryHead::Scalar { end, .. }) => {
            lemma_map_of_end(data, end);
        },
        Ok(EntryHead::Nested { start, .. }) => {
            lemma_map_of_end(data, start);
            match map_of(data, start) {
                Ok((child, after)) => {
                    if pos < after && after <= data.len() {
                        lemma_map_of_end(data, after);
                    }
                },
                Err(_) => {},
            }
        },
        _ => {},
    }
}

/// One decoding step of an object: its first entry, with the end of the
/// whole entry (a nested object's body included).
pub open spec fn item_of(data: Seq<u8>, pos: int) -> Result<
    (Option<(Seq<char>, VdfModel)>, int),
    VdfError,
> {
    match entry_of(data, pos) {
        Err(e) => Err(e),
        Ok(EntryHead::End { end }) => Ok((None, end)),
        Ok(EntryHead::Scalar { key, value, end }) => Ok((Some((key, value)), end)),
        Ok(EntryHead::Nested { key, start }) => match map_of(data, start) {
            Err(e2) => Err(e2),
            Ok((child, after)) => Ok((Some((key, VdfModel::Object(child))), after)),
        },
    }
}

/// An object's mapping unfolds along its first entry.
pub proof fn lemma_map_of_step(data: Seq<u8>, pos: int)
    requires
        0 <= pos <= data.len(),
    ensures
        match item_of(data, pos) {
            Err(e) => map_of(data, pos) == Err::<(Map<Seq<char>, VdfModel>, int), VdfError>(e),
            Ok((opt, end)) => match opt {
                None => map_of(data, pos) == Ok::<(Map<Seq<char>, VdfModel>, int), VdfError>(
                    (Map::empty(), end),
                ),
                Some((k, v)) => map_of(data, pos) == (match map_of(data, end) {
                    Err(e2) => Err::<(Map<Seq<char>, VdfModel>, int), VdfError>(e2),
                    Ok((m, fin)) => Ok((insert_if_new(m, k, v), fin)),
                }),
            },
        },
{
    lemma_entry_of_end(data, pos);
    match entry_of(data, pos) {
        Ok(EntryHead::Nested { key, start }) => {
            lemma_map_of_end(data, start);
        },
        _ => {},
    }
}

/// Each decoded entry ends within the buffer; one that yields a key and a
/// value advances past `pos`.
pub proof fn lemma_item_of_end(data: Seq<u8>, pos: int)
    requires
        0 <= pos <= data.len(),
    ensures
        match item_of(data, pos) {
            Ok((opt, end)) => pos <= end <= data.len() && (opt is Some ==> pos < end),
            Err(_) => true,
        },
{
    lemma_entry_of_end(data, pos);
    match entry_of(data, pos) {
        Ok(EntryHead::Nested { key, start }) => {
            lemma_map_of_end(data, start);
        },
        _ => {},
    }
}

/// The whole-buffer decode: the object decoded from position zero.
pub open spec fn decode_model(data: Seq<u8>) -> Result<Map<Seq<char>, VdfModel>, VdfError> {
    match map_of(data, 0) {
        Ok((m, _)) => Ok(m),
        Err(e) => Err(e),
    }
}

} // verus!
