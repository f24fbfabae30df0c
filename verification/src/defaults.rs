//! The defaults layer: an immutable document of default values and the
//! override-then-default resolution of a key.

use crate::codec::decode;
use crate::error::ErrorCode;
use crate::format::parse_mapping;
use crate::mapping::{map_of, KvsMap};
use crate::value::{Value, ValueModel};
use vstd::prelude::*;

verus! {

/// Whether an instance must have a defaults source.
#[derive(Clone, Copy, Debug, PartialEq, Eq, Structural)]
pub enum KvsDefaults {
    /// A missing source gives an empty document.
    Optional,
    /// A missing source is an error.
    Required,
}

/// What loading a defaults source gives: the document, or the error.
pub open spec fn loaded_defaults(source: Option<Seq<u8>>, policy: KvsDefaults) -> Result<
    Map<Seq<char>, ValueModel>,
    ErrorCode,
> {
    match source {
        None => if policy == KvsDefaults::Required {
            Err(ErrorCode::DefaultsMissing)
        } else {
            Ok(Map::empty())
        },
        Some(b) => match parse_mapping(b) {
            Some(es) => Ok(map_of(es)),
            None => Err(ErrorCode::CorruptData),
        },
    }
}

/// What a key resolves to: its override, else its default, else nothing.
pub open spec fn resolved(
    overrides: Map<Seq<char>, ValueModel>,
    defaults: Map<Seq<char>, ValueModel>,
    key: Seq<char>,
) -> Option<ValueModel> {
    if overrides.contains_key(key) {
        Some(overrides[key])
    } else if defaults.contains_key(key) {
        Some(defaults[key])
    } else {
        None
    }
}

/// Loads the defaults document from the bytes of its source, `None`
/// where the source is absent. A source that is present is decoded
/// under either policy.
pub fn load(source: Option<&[u8]>, policy: KvsDefaults) -> (r: Result<KvsMap, ErrorCode>)
    ensures
        match r {
            Ok(m) => m.wf() && loaded_defaults(
                match source {
                    Some(b) => Some(b@),
                    None => None,
                },
                policy,
            ) == Ok::<Map<Seq<char>, ValueModel>, ErrorCode>(m@),
            Err(e) => loaded_defaults(
                match source {
                    Some(b) => Some(b@),
                    None => None,
                },
                policy,
            ) == Err::<Map<Seq<char>, ValueModel>, ErrorCode>(e),
        },
{
    match source {
        None => match policy {
            KvsDefaults::Required => Err(ErrorCode::DefaultsMissing),
            KvsDefaults::Optional => Ok(KvsMap::new()),
        },
        Some(b) => decode(b),
    }
}

/// Resolves a key: the override if there is one, else the default,
/// else `KeyNotFound`.
pub fn resolve<'a>(key: &String, overrides: &'a KvsMap, defaults: &'a KvsMap) -> (r: Result<
    &'a Value,
    ErrorCode,
>)
    ensures
        match r {
            Ok(v) => resolved(overrides@, defaults@, key@) == Some(v.model()),
            Err(e) => e == ErrorCode::KeyNotFound && resolved(overrides@, defaults@, key@)
                is None,
        },
{
    match overrides.get(key) {
        Some(v) => Ok(v),
        None => match defaults.get(key) {
            Some(v) => Ok(v),
            None => Err(ErrorCode::KeyNotFound),
        },
    }
}

/// Whether a key is default-resolved: it has no override, whether or
/// not it has a default.
pub fn is_default(key: &String, overrides: &KvsMap) -> (r: bool)
    ensures
        r == !overrides@.contains_key(key@),
{
    !overrides.contains_key(key)
}

/// Override precedence: a key that was just set resolves to the value
/// set, whatever its default.
pub proof fn lemma_override_wins(
    overrides: Map<Seq<char>, ValueModel>,
    defaults: Map<Seq<char>, ValueModel>,
    key: Seq<char>,
    value: ValueModel,
)
    ensures
        resolved(overrides.insert(key, value), defaults, key) == Some(value),
{
}

/// A key whose override was removed resolves to its default if it has
/// one, and to nothing otherwise.
pub proof fn lemma_removed_falls_back(
    overrides: Map<Seq<char>, ValueModel>,
    defaults: Map<Seq<char>, ValueModel>,
    key: Seq<char>,
)
    ensures
        resolved(overrides.remove(key), defaults, key) == if defaults.contains_key(key) {
            Some(defaults[key])
        } else {
            None::<ValueModel>
        },
{
}

/// With no overrides at all, every key resolves to its default if it
/// has one, and to nothing otherwise.
pub proof fn lemma_empty_overrides(defaults: Map<Seq<char>, ValueModel>, key: Seq<char>)
    ensures
        resolved(Map::empty(), defaults, key) == if defaults.contains_key(key) {
            Some(defaults[key])
        } else {
            None::<ValueModel>
        },
{
}

} // verus!
