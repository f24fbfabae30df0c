//! The durable byte format of values and mappings, as mathematics.
//!
//! A value is one tag byte followed by its payload. Integers are
//! little-endian; a string is the 64-bit length of its UTF-8 bytes and
//! then the bytes; a container is its 64-bit entry count and then the
//! entries, each one self-describing.

use crate::value::{
    tag_of, EntriesModel, ValueModel, TAG_ARRAY, TAG_BOOLEAN, TAG_F64, TAG_I32, TAG_I64, TAG_NULL,
    TAG_OBJECT, TAG_STRING, TAG_U32, TAG_U64,
};
use vstd::bytes::*;
use vstd::prelude::*;
use vstd::utf8::*;

verus! {

/// The largest length or count that the format can record.
pub open spec fn max_len() -> int {
    0xffff_ffff_ffff_ffff
}

/// A string whose UTF-8 length the format can record.
pub open spec fn str_bounded(s: Seq<char>) -> bool {
    encode_utf8(s).len() <= max_len()
}

/// A value that can be held in memory: the format can record all of
/// its lengths and counts, and in an object no key occurs twice.
pub open spec fn storable(v: ValueModel) -> bool
    decreases v,
{
    match v {
        ValueModel::String(s) => str_bounded(s),
        ValueModel::Array(items) => items.len() <= max_len() && forall|i: int|
            0 <= i < items.len() ==> storable(#[trigger] items[i]),
        ValueModel::Object(entries) => distinct_keys(entries) && entries_bounded(entries),
        _ => true,
    }
}

/// A sequence of entries that can be held in memory.
pub open spec fn entries_bounded(entries: EntriesModel) -> bool
    decreases entries,
{
    entries.len() <= max_len() && forall|i: int|
        0 <= i < entries.len() ==> str_bounded((#[trigger] entries[i]).0) && storable(
            entries[i].1,
        )
}

/// The bytes of a string: length, then UTF-8.
pub open spec fn enc_str(s: Seq<char>) -> Seq<u8> {
    spec_u64_to_le_bytes(encode_utf8(s).len() as u64) + encode_utf8(s)
}

/// The bytes of a value: tag, then payload.
pub open spec fn enc_value(v: ValueModel) -> Seq<u8>
    decreases v, 0int,
{
    match v {
        ValueModel::I32(x) => seq![TAG_I32] + spec_u32_to_le_bytes(
            #[verifier::truncate] (x as u32),
        ),
        ValueModel::U32(x) => seq![TAG_U32] + spec_u32_to_le_bytes(x),
        ValueModel::I64(x) => seq![TAG_I64] + spec_u64_to_le_bytes(
            #[verifier::truncate] (x as u64),
        ),
        ValueModel::U64(x) => seq![TAG_U64] + spec_u64_to_le_bytes(x),
        ValueModel::F64(x) => seq![TAG_F64] + spec_u64_to_le_bytes(x),
        ValueModel::Boolean(x) => seq![TAG_BOOLEAN, if x { 1u8 } else { 0u8 }],
        ValueModel::String(s) => seq![TAG_STRING] + enc_str(s),
        ValueModel::Null => seq![TAG_NULL],
        ValueModel::Array(items) => seq![TAG_ARRAY] + spec_u64_to_le_bytes(items.len() as u64)
            + enc_items(items, 0),
        ValueModel::Object(entries) => seq![TAG_OBJECT] + enc_mapping(entries),
    }
}

/// Every encoded value is self-describing: it starts with the tag of its variant.
pub proof fn lemma_tag_first(v: ValueModel)
    ensures
        enc_value(v).len() >= 1,
        enc_value(v)[0] == tag_of(v),
{
}

/// The bytes of the items of an array from index `i` on.
pub open spec fn enc_items(items: Seq<ValueModel>, i: int) -> Seq<u8>
    decreases items, items.len() - i,
{
    if 0 <= i < items.len() {
        enc_value(items[i]) + enc_items(items, i + 1)
    } else {
        Seq::empty()
    }
}

/// The bytes of the entries of a mapping from index `i` on.
pub open spec fn enc_entries(entries: EntriesModel, i: int) -> Seq<u8>
    decreases entries, entries.len() - i,
{
    if 0 <= i < entries.len() {
        enc_str(entries[i].0) + enc_value(entries[i].1) + enc_entries(entries, i + 1)
    } else {
        Seq::empty()
    }
}

/// The bytes of a mapping: entry count, then the entries in order.
pub open spec fn enc_mapping(entries: EntriesModel) -> Seq<u8>
    decreases entries, entries.len() + 1,
{
    spec_u64_to_le_bytes(entries.len() as u64) + enc_entries(entries, 0)
}

/// The 32-bit integer at `pos`, if four bytes are there.
pub open spec fn parse_u32(b: Seq<u8>, pos: int) -> Option<u32> {
    if 0 <= pos && pos + 4 <= b.len() {
        Some(spec_u32_from_le_bytes(b.subrange(pos, pos + 4)))
    } else {
        None
    }
}

/// The 64-bit integer at `pos`, if eight bytes are there.
pub open spec fn parse_u64(b: Seq<u8>, pos: int) -> Option<u64> {
    if 0 <= pos && pos + 8 <= b.len() {
        Some(spec_u64_from_le_bytes(b.subrange(pos, pos + 8)))
    } else {
        None
    }
}

/// The string at `pos` and the position behind it, if a length and
/// that many bytes of valid UTF-8 are there.
pub open spec fn parse_str(b: Seq<u8>, pos: int) -> Option<(Seq<char>, int)> {
    match parse_u64(b, pos) {
        Some(n) => {
            let body = b.subrange(pos + 8, pos + 8 + n);
            if pos + 8 + n <= b.len() && valid_utf8(body) {
                Some((decode_utf8(body), pos + 8 + n))
            } else {
                None
            }
        },
        None => None,
    }
}

/// The value at `pos` and the position behind it; `None` where the tag
/// is unknown, the payload does not fit the tag, the bytes end early,
/// or a key occurs twice in an object.
pub open spec fn parse_value(b: Seq<u8>, pos: int) -> Option<(ValueModel, int)>
    decreases b.len() - pos, 0int,
{
    if pos < 0 || pos >= b.len() {
        None
    } else if b[pos] == TAG_I32 {
        match parse_u32(b, pos + 1) {
            Some(w) => Some((ValueModel::I32(#[verifier::truncate] (w as i32)), pos + 5)),
            None => None,
        }
    } else if b[pos] == TAG_U32 {
        match parse_u32(b, pos + 1) {
            Some(w) => Some((ValueModel::U32(w), pos + 5)),
            None => None,
        }
    } else if b[pos] == TAG_I64 {
        match parse_u64(b, pos + 1) {
            Some(w) => Some((ValueModel::I64(#[verifier::truncate] (w as i64)), pos + 9)),
            None => None,
        }
    } else if b[pos] == TAG_U64 {
        match parse_u64(b, pos + 1) {
            Some(w) => Some((ValueModel::U64(w), pos + 9)),
            None => None,
        }
    } else if b[pos] == TAG_F64 {
        match parse_u64(b, pos + 1) {
            Some(w) => Some((ValueModel::F64(w), pos + 9)),
            None => None,
        }
    } else if b[pos] == TAG_BOOLEAN {
        if pos + 2 <= b.len() && b[pos + 1] <= 1 {
            Some((ValueModel::Boolean(b[pos + 1] == 1), pos + 2))
        } else {
            None
        }
    } else if b[pos] == TAG_STRING {
        match parse_str(b, pos + 1) {
            Some((s, p)) => Some((ValueModel::String(s), p)),
            None => None,
        }
    } else if b[pos] == TAG_NULL {
        Some((ValueModel::Null, pos + 1))
    } else if b[pos] == TAG_ARRAY {
        match parse_u64(b, pos + 1) {
            Some(n) => match parse_items(b, pos + 9, n as nat, Seq::empty()) {
                Some((items, p)) => Some((ValueModel::Array(items), p)),
                None => None,
            },
            None => None,
        }
    } else if b[pos] == TAG_OBJECT {
        match parse_u64(b, pos + 1) {
            Some(n) => match parse_entries(b, pos + 9, n as nat, Seq::empty()) {
                Some((entries, p)) => if distinct_keys(entries) {
                    Some((ValueModel::Object(entries), p))
                } else {
                    None
                },
                None => None,
            },
            None => None,
        }
    } else {
        None
    }
}

/// `n` values from `pos` on, appended to `acc`, and the position behind them.
pub open spec fn parse_items(b: Seq<u8>, pos: int, n: nat, acc: Seq<ValueModel>) -> Option<
    (Seq<ValueModel>, int),
>
    decreases b.len() - pos, n + 1,
{
    if n == 0 {
        Some((acc, pos))
    } else {
        match parse_value(b, pos) {
            Some((v, p)) => if pos < p <= b.len() {
                parse_items(b, p, (n - 1) as nat, acc.push(v))
            } else {
                None
            },
            None => None,
        }
    }
}

/// `n` entries from `pos` on, appended to `acc`, and the position behind them.
pub open spec fn parse_entries(b: Seq<u8>, pos: int, n: nat, acc: EntriesModel) -> Option<
    (EntriesModel, int),
>
    decreases b.len() - pos, n + 1,
{
    if n == 0 {
        Some((acc, pos))
    } else {
        match parse_str(b, pos) {
            Some((k, p1)) => match parse_value(b, p1) {
                Some((v, p2)) => if p1 < p2 <= b.len() {
                    parse_entries(b, p2, (n - 1) as nat, acc.push((k, v)))
                } else {
                    None
                },
                None => None,
            },
            None => None,
        }
    }
}

/// No key occurs twice.
pub open spec fn distinct_keys(entries: EntriesModel) -> bool {
    forall|i: int, j: int|
        0 <= i < j < entries.len() ==> (#[trigger] entries[i]).0 != (#[trigger] entries[j]).0
}

/// The mapping that a whole byte string holds: a count and that many
/// entries with distinct keys, and nothing behind them.
pub open spec fn parse_mapping(b: Seq<u8>) -> Option<EntriesModel> {
    match parse_u64(b, 0) {
        Some(n) => match parse_entries(b, 8, n as nat, Seq::empty()) {
            Some((entries, p)) => if p == b.len() && distinct_keys(entries) {
                Some(entries)
            } else {
                None
            },
            None => None,
        },
        None => None,
    }
}

} // verus!
