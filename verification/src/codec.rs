//! The codec: values and mappings to bytes and back.

use crate::error::ErrorCode;
use crate::format::{
    enc_entries, enc_items, enc_mapping, enc_str, enc_value, entries_bounded, parse_entries,
    parse_items, parse_mapping, parse_str, parse_u32, parse_u64, parse_value, storable,
    str_bounded,
};
use crate::mapping::KvsMap;
use crate::value::{
    entries_of, lemma_array_model, models_of, Value, ValueModel, TAG_ARRAY, TAG_BOOLEAN,
    TAG_F64, TAG_I32, TAG_I64, TAG_NULL, TAG_OBJECT, TAG_STRING, TAG_U32, TAG_U64,
};
use vstd::bytes::*;
use vstd::prelude::*;
use vstd::slice::*;
use vstd::utf8::*;

verus! {

/// `String::from_utf8` of the standard library, with its error dropped:
/// it returns a string exactly when the bytes are valid UTF-8, and the
/// UTF-8 bytes of that string are the bytes given.
#[verifier::external_body]
fn string_from_utf8(bytes: Vec<u8>) -> (r: Option<String>)
    ensures
        r is Some <==> valid_utf8(bytes@),
        r matches Some(s) ==> encode_utf8(s@) == bytes@,
{
    String::from_utf8(bytes).ok()
}

fn put_u32(out: &mut Vec<u8>, x: u32)
    ensures
        final(out)@ == old(out)@ + spec_u32_to_le_bytes(x),
{
    let mut bytes = u32_to_le_bytes(x);
    out.append(&mut bytes);
}

fn put_u64(out: &mut Vec<u8>, x: u64)
    ensures
        final(out)@ == old(out)@ + spec_u64_to_le_bytes(x),
{
    let mut bytes = u64_to_le_bytes(x);
    out.append(&mut bytes);
}

/// Appends the bytes of a string to `out`.
pub fn encode_str(s: &String, out: &mut Vec<u8>)
    ensures
        final(out)@ == old(out)@ + enc_str(s@),
        str_bounded(s@),
{
    let bytes = s.as_str().as_bytes();
    let ghost before = out@;
    put_u64(out, bytes.len() as u64);
    let ghost mid = out@;
    out.extend_from_slice(bytes);
    assert(out@ =~= mid + bytes@);
    assert(out@ =~= before + enc_str(s@));
}

/// Appends the bytes of a value to `out`.
pub fn encode_value(v: &Value, out: &mut Vec<u8>)
    ensures
        final(out)@ == old(out)@ + enc_value(v.model()),
        storable(v.model()),
    decreases v, 0int,
{
    let ghost before = out@;
    match v {
        Value::I32(x) => {
            out.push(TAG_I32);
            put_u32(out, #[verifier::truncate] (*x as u32));
            assert(out@ =~= before + enc_value(v.model()));
        },
        Value::U32(x) => {
            out.push(TAG_U32);
            put_u32(out, *x);
            assert(out@ =~= before + enc_value(v.model()));
        },
        Value::I64(x) => {
            out.push(TAG_I64);
            put_u64(out, #[verifier::truncate] (*x as u64));
            assert(out@ =~= before + enc_value(v.model()));
        },
        Value::U64(x) => {
            out.push(TAG_U64);
            put_u64(out, *x);
            assert(out@ =~= before + enc_value(v.model()));
        },
        Value::F64(x) => {
            out.push(TAG_F64);
            put_u64(out, *x);
            assert(out@ =~= before + enc_value(v.model()));
        },
        Value::Boolean(x) => {
            out.push(TAG_BOOLEAN);
            out.push(if *x { 1u8 } else { 0u8 });
            assert(out@ =~= before + enc_value(v.model()));
        },
        Value::String(s) => {
            out.push(TAG_STRING);
            encode_str(s, out);
            assert(out@ =~= before + enc_value(v.model()));
        },
        Value::Null => {
            out.push(TAG_NULL);
            assert(out@ =~= before + enc_value(v.model()));
        },
        Value::Array(items) => {
            out.push(TAG_ARRAY);
            put_u64(out, items.len() as u64);
            proof {
                lemma_array_model(*v);
            }
            let ghost ms = models_of(items@);
            let ghost start = out@;
            let mut i: usize = 0;
            while i < items.len()
                invariant
                    i <= items.len(),
                    ms == models_of(items@),
                    matches!(*v, Value::Array(_)),
                    v->Array_0 == *items,
                    out@ + enc_items(ms, i as int) == start + enc_items(ms, 0),
                    forall|j: int| 0 <= j < i ==> storable(#[trigger] ms[j]),
                decreases items.len() - i,
            {
                let ghost prev = out@;
                encode_value(&items[i], out);
                proof {
                    assert(ms[i as int] == items@[i as int].model());
                    assert(out@ + enc_items(ms, i + 1) =~= prev + enc_items(ms, i as int));
                }
                i += 1;
            }
            assert(out@ =~= start + enc_items(ms, 0));
            assert(out@ =~= before + enc_value(v.model()));
        },
        Value::Object(m) => {
            out.push(TAG_OBJECT);
            encode_mapping(m.as_entries(), out);
            assert(out@ =~= before + enc_value(v.model()));
        },
    }
}

/// Appends the bytes of a sequence of entries, count first, to `out`.
pub fn encode_mapping(entries: &Vec<(String, Value)>, out: &mut Vec<u8>)
    ensures
        final(out)@ == old(out)@ + enc_mapping(entries_of(entries@)),
        entries_bounded(entries_of(entries@)),
    decreases entries, 1int,
{
    let ghost before = out@;
    put_u64(out, entries.len() as u64);
    let ghost es = entries_of(entries@);
    let ghost start = out@;
    let mut i: usize = 0;
    while i < entries.len()
        invariant
            i <= entries.len(),
            es == entries_of(entries@),
            out@ + enc_entries(es, i as int) == start + enc_entries(es, 0),
            forall|j: int|
                0 <= j < i ==> str_bounded((#[trigger] es[j]).0) && storable(es[j].1),
        decreases entries.len() - i,
    {
        let ghost prev = out@;
        encode_str(&entries[i].0, out);
        encode_value(&entries[i].1, out);
        proof {
            assert(es[i as int] == (entries@[i as int].0@, entries@[i as int].1.model()));
            assert(out@ + enc_entries(es, i + 1) =~= prev + enc_entries(es, i as int));
        }
        i += 1;
    }
    assert(out@ =~= start + enc_entries(es, 0));
    assert(out@ =~= before + enc_mapping(es));
}

fn read_u32(b: &[u8], pos: usize) -> (r: Option<u32>)
    requires
        pos <= b.len(),
    ensures
        r == parse_u32(b@, pos as int),
{
    if b.len() - pos < 4 {
        None
    } else {
        Some(u32_from_le_bytes(slice_subrange(b, pos, pos + 4)))
    }
}

fn read_u64(b: &[u8], pos: usize) -> (r: Option<u64>)
    requires
        pos <= b.len(),
    ensures
        r == parse_u64(b@, pos as int),
{
    if b.len() - pos < 8 {
        None
    } else {
        Some(u64_from_le_bytes(slice_subrange(b, pos, pos + 8)))
    }
}

/// Reads the string that stands at `pos`.
pub fn decode_str(b: &[u8], pos: usize) -> (r: Option<(String, usize)>)
    requires
        pos <= b.len(),
    ensures
        match r {
            Some((s, p)) => parse_str(b@, pos as int) == Some((s@, p as int)) && p <= b.len(),
            None => parse_str(b@, pos as int) is None,
        },
{
    match read_u64(b, pos) {
        None => None,
        Some(n) => {
            let avail = b.len() - pos - 8;
            if n > avail as u64 {
                None
            } else {
                let len = n as usize;
                let body = slice_to_vec(slice_subrange(b, pos + 8, pos + 8 + len));
                match string_from_utf8(body) {
                    Some(s) => {
                        proof {
                            encode_utf8_decode_utf8(s@);
                        }
                        Some((s, pos + 8 + len))
                    },
                    None => None,
                }
            }
        },
    }
}

/// Reads the value that stands at `pos`.
pub fn decode_value(b: &[u8], pos: usize) -> (r: Option<(Value, usize)>)
    ensures
        match r {
            Some((v, p)) => parse_value(b@, pos as int) == Some((v.model(), p as int)),
            None => parse_value(b@, pos as int) is None,
        },
    decreases b.len() - pos, 0int,
{
    if pos >= b.len() {
        return None;
    }
    let tag = b[pos];
    if tag == TAG_I32 {
        match read_u32(b, pos + 1) {
            Some(w) => Some((Value::I32(#[verifier::truncate] (w as i32)), pos + 5)),
            None => None,
        }
    } else if tag == TAG_U32 {
        match read_u32(b, pos + 1) {
            Some(w) => Some((Value::U32(w), pos + 5)),
            None => None,
        }
    } else if tag == TAG_I64 {
        match read_u64(b, pos + 1) {
            Some(w) => Some((Value::I64(#[verifier::truncate] (w as i64)), pos + 9)),
            None => None,
        }
    } else if tag == TAG_U64 {
        match read_u64(b, pos + 1) {
            Some(w) => Some((Value::U64(w), pos + 9)),
            None => None,
        }
    } else if tag == TAG_F64 {
        match read_u64(b, pos + 1) {
            Some(w) => Some((Value::F64(w), pos + 9)),
            None => None,
        }
    } else if tag == TAG_BOOLEAN {
        if b.len() - pos >= 2 && b[pos + 1] <= 1 {
            Some((Value::Boolean(b[pos + 1] == 1), pos + 2))
        } else {
            None
        }
    } else if tag == TAG_STRING {
        match decode_str(b, pos + 1) {
            Some((s, p)) => Some((Value::String(s), p)),
            None => None,
        }
    } else if tag == TAG_NULL {
        Some((Value::Null, pos + 1))
    } else if tag == TAG_ARRAY {
        match read_u64(b, pos + 1) {
            None => None,
            Some(n) => {
                let mut items: Vec<Value> = Vec::new();
                let mut p: usize = pos + 9;
                let mut k: u64 = 0;
                assert(models_of(items@) =~= Seq::<ValueModel>::empty());
                while k < n
                    invariant
                        k <= n,
                        pos + 9 <= p <= b.len(),
                        b@[pos as int] == TAG_ARRAY,
                        parse_u64(b@, pos + 1) == Some(n),
                        parse_items(b@, pos + 9, n as nat, Seq::empty()) == parse_items(
                            b@,
                            p as int,
                            (n - k) as nat,
                            models_of(items@),
                        ),
                    decreases n - k,
                {
                    match decode_value(b, p) {
                        None => {
                            return None;
                        },
                        Some((v, q)) => {
                            if q <= p || q > b.len() {
                                return None;
                            }
                            proof {
                                assert(models_of(items@.push(v)) =~= models_of(items@).push(
                                    v.model(),
                                ));
                            }
                            items.push(v);
                            p = q;
                            k += 1;
                        },
                    }
                }
                let v = Value::Array(items);
                proof {
                    lemma_array_model(v);
                }
                Some((v, p))
            },
        }
    } else if tag == TAG_OBJECT {
        match decode_mapping(b, pos + 1) {
            None => None,
            Some((entries, p)) => match KvsMap::from_entries(entries) {
                Some(m) => Some((Value::Object(m), p)),
                None => None,
            },
        }
    } else {
        None
    }
}

/// What a count at `pos` and that many entries behind it hold.
pub open spec fn parse_counted(b: Seq<u8>, pos: int) -> Option<
    (Seq<(Seq<char>, ValueModel)>, int),
> {
    match parse_u64(b, pos) {
        Some(n) => parse_entries(b, pos + 8, n as nat, Seq::empty()),
        None => None,
    }
}

/// Reads a count at `pos` and that many entries behind it.
pub fn decode_mapping(b: &[u8], pos: usize) -> (r: Option<(Vec<(String, Value)>, usize)>)
    requires
        pos <= b.len(),
    ensures
        match r {
            Some((entries, p)) => parse_counted(b@, pos as int) == Some(
                (entries_of(entries@), p as int),
            ) && p <= b.len(),
            None => parse_counted(b@, pos as int) is None,
        },
    decreases b.len() - pos, 1int,
{
    match read_u64(b, pos) {
        None => None,
        Some(n) => {
            let mut entries: Vec<(String, Value)> = Vec::new();
            let mut p: usize = pos + 8;
            let mut k: u64 = 0;
            assert(entries_of(entries@) =~= Seq::<(Seq<char>, ValueModel)>::empty());
            while k < n
                invariant
                    k <= n,
                    pos + 8 <= p <= b.len(),
                    parse_u64(b@, pos as int) == Some(n),
                    parse_entries(b@, pos + 8, n as nat, Seq::empty()) == parse_entries(
                        b@,
                        p as int,
                        (n - k) as nat,
                        entries_of(entries@),
                    ),
                decreases n - k,
            {
                match decode_str(b, p) {
                    None => {
                        return None;
                    },
                    Some((key, p1)) => match decode_value(b, p1) {
                        None => {
                            return None;
                        },
                        Some((v, p2)) => {
                            if p2 <= p1 || p2 > b.len() {
                                return None;
                            }
                            proof {
                                assert(entries_of(entries@.push((key, v))) =~= entries_of(
                                    entries@,
                                ).push((key@, v.model())));
                            }
                            entries.push((key, v));
                            p = p2;
                            k += 1;
                        },
                    },
                }
            }
            Some((entries, p))
        },
    }
}

/// The durable bytes of a mapping.
pub fn encode(m: &KvsMap) -> (out: Vec<u8>)
    ensures
        out@ == enc_mapping(m.entries()),
        entries_bounded(m.entries()),
{
    let mut out: Vec<u8> = Vec::new();
    encode_mapping(m.as_entries(), &mut out);
    assert(out@ =~= enc_mapping(m.entries()));
    out
}

/// The mapping that the bytes hold. The bytes are corrupt where a tag
/// is unknown, a payload does not fit its tag, the bytes end early,
/// bytes are left over, or a key occurs twice.
pub fn decode(b: &[u8]) -> (r: Result<KvsMap, ErrorCode>)
    ensures
        match r {
            Ok(m) => m.wf() && parse_mapping(b@) == Some(m.entries()),
            Err(e) => e == ErrorCode::CorruptData && parse_mapping(b@) is None,
        },
{
    match decode_mapping(b, 0) {
        None => Err(ErrorCode::CorruptData),
        Some((entries, p)) => {
            if p != b.len() {
                Err(ErrorCode::CorruptData)
            } else {
                match KvsMap::from_entries(entries) {
                    Some(m) => Ok(m),
                    None => Err(ErrorCode::CorruptData),
                }
            }
        },
    }
}

} // verus!
