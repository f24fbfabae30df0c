//! Decoding undoes encoding: the proofs.

use crate::format::{
    distinct_keys, enc_entries, enc_items, enc_mapping, enc_str, enc_value, entries_bounded,
    max_len, parse_entries, parse_items, parse_mapping, parse_str, parse_u32, parse_u64,
    parse_value, storable, str_bounded,
};
use crate::value::{
    EntriesModel, ValueModel, TAG_ARRAY, TAG_BOOLEAN, TAG_F64, TAG_I32, TAG_I64, TAG_NULL,
    TAG_OBJECT, TAG_STRING, TAG_U32, TAG_U64,
};
use vstd::bytes::*;
use vstd::prelude::*;
use vstd::utf8::*;

verus! {

/// The bytes `e` stand in `b` from `pos` on.
pub open spec fn holds_at(b: Seq<u8>, pos: int, e: Seq<u8>) -> bool {
    0 <= pos && pos + e.len() <= b.len() && b.subrange(pos, pos + e.len()) == e
}

/// Where two byte strings stand one behind the other, each stands at its place.
pub proof fn lemma_holds_split(b: Seq<u8>, pos: int, a: Seq<u8>, c: Seq<u8>)
    requires
        holds_at(b, pos, a + c),
    ensures
        holds_at(b, pos, a),
        holds_at(b, pos + a.len(), c),
{
    let e = a + c;
    let s = b.subrange(pos, pos + e.len());
    assert forall|i: int| 0 <= i < a.len() implies b.subrange(pos, pos + a.len())[i] == a[i] by {
        assert(s[i] == e[i]);
    }
    assert(b.subrange(pos, pos + a.len()) =~= a);
    assert forall|i: int| 0 <= i < c.len() implies b.subrange(
        pos + a.len(),
        pos + a.len() + c.len(),
    )[i] == c[i] by {
        assert(s[a.len() + i] == e[a.len() + i]);
    }
    assert(b.subrange(pos + a.len(), pos + a.len() + c.len()) =~= c);
}

proof fn lemma_tag_at(b: Seq<u8>, pos: int, t: u8, rest: Seq<u8>)
    requires
        holds_at(b, pos, seq![t] + rest),
    ensures
        0 <= pos < b.len(),
        b[pos] == t,
        holds_at(b, pos + 1, rest),
{
    lemma_holds_split(b, pos, seq![t], rest);
    assert(b.subrange(pos, pos + 1)[0] == b[pos]);
}

proof fn lemma_u32_at(b: Seq<u8>, pos: int, x: u32)
    requires
        holds_at(b, pos, spec_u32_to_le_bytes(x)),
    ensures
        parse_u32(b, pos) == Some(x),
        spec_u32_to_le_bytes(x).len() == 4,
{
    lemma_auto_spec_u32_to_from_le_bytes();
}

proof fn lemma_u64_at(b: Seq<u8>, pos: int, x: u64)
    requires
        holds_at(b, pos, spec_u64_to_le_bytes(x)),
    ensures
        parse_u64(b, pos) == Some(x),
        spec_u64_to_le_bytes(x).len() == 8,
{
    lemma_auto_spec_u64_to_from_le_bytes();
}

/// A string's bytes are read back as that string.
pub proof fn lemma_str_at(s: Seq<char>, b: Seq<u8>, pos: int)
    requires
        str_bounded(s),
        holds_at(b, pos, enc_str(s)),
    ensures
        parse_str(b, pos) == Some((s, pos + enc_str(s).len())),
        enc_str(s).len() >= 8,
{
    broadcast use encode_utf8_valid_utf8, encode_utf8_decode_utf8;

    let n = encode_utf8(s).len() as u64;
    lemma_holds_split(b, pos, spec_u64_to_le_bytes(n), encode_utf8(s));
    lemma_u64_at(b, pos, n);
}

/// A value's bytes, wherever they stand, are read back as that value.
pub proof fn lemma_value_at(v: ValueModel, b: Seq<u8>, pos: int)
    requires
        storable(v),
        holds_at(b, pos, enc_value(v)),
    ensures
        parse_value(b, pos) == Some((v, pos + enc_value(v).len())),
        enc_value(v).len() >= 1,
    decreases v, 0int,
{
    match v {
        ValueModel::I32(x) => {
            let w = #[verifier::truncate] (x as u32);
            lemma_tag_at(b, pos, TAG_I32, spec_u32_to_le_bytes(w));
            lemma_u32_at(b, pos + 1, w);
            assert(w as i32 == x) by (bit_vector)
                requires
                    w == #[verifier::truncate] (x as u32),
            ;
        },
        ValueModel::U32(x) => {
            lemma_tag_at(b, pos, TAG_U32, spec_u32_to_le_bytes(x));
            lemma_u32_at(b, pos + 1, x);
        },
        ValueModel::I64(x) => {
            let w = #[verifier::truncate] (x as u64);
            lemma_tag_at(b, pos, TAG_I64, spec_u64_to_le_bytes(w));
            lemma_u64_at(b, pos + 1, w);
            assert(w as i64 == x) by (bit_vector)
                requires
                    w == #[verifier::truncate] (x as u64),
            ;
        },
        ValueModel::U64(x) => {
            lemma_tag_at(b, pos, TAG_U64, spec_u64_to_le_bytes(x));
            lemma_u64_at(b, pos + 1, x);
        },
        ValueModel::F64(x) => {
            lemma_tag_at(b, pos, TAG_F64, spec_u64_to_le_bytes(x));
            lemma_u64_at(b, pos + 1, x);
        },
        ValueModel::Boolean(x) => {
            let flag = if x { 1u8 } else { 0u8 };
            assert(enc_value(v) =~= seq![TAG_BOOLEAN] + seq![flag]);
            lemma_tag_at(b, pos, TAG_BOOLEAN, seq![flag]);
            assert(b.subrange(pos + 1, pos + 2)[0] == b[pos + 1]);
        },
        ValueModel::String(s) => {
            lemma_tag_at(b, pos, TAG_STRING, enc_str(s));
            lemma_str_at(s, b, pos + 1);
        },
        ValueModel::Null => {
            assert(enc_value(v) =~= seq![TAG_NULL] + Seq::<u8>::empty());
            lemma_tag_at(b, pos, TAG_NULL, Seq::<u8>::empty());
        },
        ValueModel::Array(items) => {
            let count = spec_u64_to_le_bytes(items.len() as u64);
            assert(enc_value(v) =~= seq![TAG_ARRAY] + (count + enc_items(items, 0)));
            lemma_tag_at(b, pos, TAG_ARRAY, count + enc_items(items, 0));
            lemma_holds_split(b, pos + 1, count, enc_items(items, 0));
            lemma_u64_at(b, pos + 1, items.len() as u64);
            assert(Seq::<ValueModel>::empty() =~= items.subrange(0, 0));
            lemma_items_at(items, 0, b, pos + 9, Seq::empty());
        },
        ValueModel::Object(entries) => {
            let count = spec_u64_to_le_bytes(entries.len() as u64);
            lemma_tag_at(b, pos, TAG_OBJECT, enc_mapping(entries));
            lemma_holds_split(b, pos + 1, count, enc_entries(entries, 0));
            lemma_u64_at(b, pos + 1, entries.len() as u64);
            assert(Seq::<(Seq<char>, ValueModel)>::empty() =~= entries.subrange(0, 0));
            lemma_entries_at(entries, 0, b, pos + 9, Seq::empty());
        },
    }
}

/// The bytes of an array's items from `i` on are read back as those items.
pub proof fn lemma_items_at(
    items: Seq<ValueModel>,
    i: int,
    b: Seq<u8>,
    pos: int,
    acc: Seq<ValueModel>,
)
    requires
        forall|j: int| 0 <= j < items.len() ==> storable(#[trigger] items[j]),
        0 <= i <= items.len(),
        acc == items.subrange(0, i),
        holds_at(b, pos, enc_items(items, i)),
    ensures
        parse_items(b, pos, (items.len() - i) as nat, acc) == Some(
            (items, pos + enc_items(items, i).len()),
        ),
    decreases items, items.len() - i,
{
    if i == items.len() {
        assert(acc =~= items);
    } else {
        lemma_holds_split(b, pos, enc_value(items[i]), enc_items(items, i + 1));
        lemma_value_at(items[i], b, pos);
        let p = pos + enc_value(items[i]).len();
        assert(acc.push(items[i]) =~= items.subrange(0, i + 1));
        lemma_items_at(items, i + 1, b, p, acc.push(items[i]));
    }
}

/// The bytes of a mapping's entries from `i` on are read back as those entries.
pub proof fn lemma_entries_at(
    entries: EntriesModel,
    i: int,
    b: Seq<u8>,
    pos: int,
    acc: EntriesModel,
)
    requires
        entries_bounded(entries),
        0 <= i <= entries.len(),
        acc == entries.subrange(0, i),
        holds_at(b, pos, enc_entries(entries, i)),
    ensures
        parse_entries(b, pos, (entries.len() - i) as nat, acc) == Some(
            (entries, pos + enc_entries(entries, i).len()),
        ),
        entries.len() <= max_len(),
    decreases entries, entries.len() - i,
{
    if i == entries.len() {
        assert(acc =~= entries);
    } else {
        let k = enc_str(entries[i].0);
        let v = enc_value(entries[i].1);
        let rest = enc_entries(entries, i + 1);
        lemma_holds_split(b, pos, k + v, rest);
        lemma_holds_split(b, pos, k, v);
        lemma_str_at(entries[i].0, b, pos);
        lemma_value_at(entries[i].1, b, pos + k.len());
        assert(acc.push(entries[i]) =~= entries.subrange(0, i + 1));
        lemma_entries_at(entries, i + 1, b, pos + k.len() + v.len(), acc.push(entries[i]));
    }
}

/// Round trip: the bytes of a mapping with distinct keys decode to that
/// mapping, entry for entry.
pub proof fn lemma_round_trip(entries: EntriesModel)
    requires
        entries_bounded(entries),
        distinct_keys(entries),
    ensures
        parse_mapping(enc_mapping(entries)) == Some(entries),
{
    let b = enc_mapping(entries);
    let count = spec_u64_to_le_bytes(entries.len() as u64);
    assert(b.subrange(0, b.len() as int) =~= b);
    lemma_holds_split(b, 0, count, enc_entries(entries, 0));
    lemma_u64_at(b, 0, entries.len() as u64);
    assert(Seq::<(Seq<char>, ValueModel)>::empty() =~= entries.subrange(0, 0));
    lemma_entries_at(entries, 0, b, 8, Seq::empty());
}

} // verus!
