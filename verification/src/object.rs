//! Options for enumerating the property keys of an object, and their
//! conversion to and from the runtime's own tags.

use crate::sys;
use vstd::prelude::*;
use vstd::std_specs::convert::FromSpecImpl;

verus! {

/// Whether the keys of the prototype chain are collected too.
#[derive(Clone, Copy, Debug, PartialEq, Eq, Structural)]
pub enum KeyCollectionMode {
    IncludePrototypes,
    OwnOnly,
}

impl From<sys::napi_key_collection_mode> for KeyCollectionMode {
    fn from(value: sys::napi_key_collection_mode) -> (mode: Self) {
        match value {
            sys::napi_key_collection_mode::napi_key_include_prototypes => Self::IncludePrototypes,
            sys::napi_key_collection_mode::napi_key_own_only => Self::OwnOnly,
        }
    }
}

/// The collection mode that the tag `value` stands for.
pub open spec fn collection_mode_of(value: sys::napi_key_collection_mode) -> KeyCollectionMode {
    match value {
        sys::napi_key_collection_mode::napi_key_include_prototypes => {
            KeyCollectionMode::IncludePrototypes
        },
        sys::napi_key_collection_mode::napi_key_own_only => KeyCollectionMode::OwnOnly,
    }
}

impl FromSpecImpl<sys::napi_key_collection_mode> for KeyCollectionMode {
    open spec fn obeys_from_spec() -> bool {
        true
    }

    open spec fn from_spec(value: sys::napi_key_collection_mode) -> Self {
        collection_mode_of(value)
    }
}

impl From<KeyCollectionMode> for sys::napi_key_collection_mode {
    fn from(value: KeyCollectionMode) -> (tag: Self) {
        match value {
            KeyCollectionMode::IncludePrototypes => {
                sys::napi_key_collection_mode::napi_key_include_prototypes
            },
            KeyCollectionMode::OwnOnly => sys::napi_key_collection_mode::napi_key_own_only,
        }
    }
}

/// The tag that stands for `value`.
pub open spec fn collection_tag_of(value: KeyCollectionMode) -> sys::napi_key_collection_mode {
    match value {
        KeyCollectionMode::IncludePrototypes => {
            sys::napi_key_collection_mode::napi_key_include_prototypes
        },
        KeyCollectionMode::OwnOnly => sys::napi_key_collection_mode::napi_key_own_only,
    }
}

impl FromSpecImpl<KeyCollectionMode> for sys::napi_key_collection_mode {
    open spec fn obeys_from_spec() -> bool {
        true
    }

    open spec fn from_spec(value: KeyCollectionMode) -> Self {
        collection_tag_of(value)
    }
}

/// Which property keys are collected.
#[derive(Clone, Copy, Debug, PartialEq, Eq, Structural)]
pub enum KeyFilter {
    AllProperties,
    Writable,
    Enumerable,
    Configurable,
    SkipStrings,
    SkipSymbols,
}

impl From<sys::napi_key_filter> for KeyFilter {
    fn from(value: sys::napi_key_filter) -> (filter: Self) {
        match value {
            sys::napi_key_filter::napi_key_all_properties => Self::AllProperties,
            sys::napi_key_filter::napi_key_writable => Self::Writable,
            sys::napi_key_filter::napi_key_enumerable => Self::Enumerable,
            sys::napi_key_filter::napi_key_configurable => Self::Configurable,
            sys::napi_key_filter::napi_key_skip_strings => Self::SkipStrings,
            sys::napi_key_filter::napi_key_skip_symbols => Self::SkipSymbols,
        }
    }
}

/// The filter that the tag `value` stands for.
pub open spec fn filter_of(value: sys::napi_key_filter) -> KeyFilter {
    match value {
        sys::napi_key_filter::napi_key_all_properties => KeyFilter::AllProperties,
        sys::napi_key_filter::napi_key_writable => KeyFilter::Writable,
        sys::napi_key_filter::napi_key_enumerable => KeyFilter::Enumerable,
        sys::napi_key_filter::napi_key_configurable => KeyFilter::Configurable,
        sys::napi_key_filter::napi_key_skip_strings => KeyFilter::SkipStrings,
        sys::napi_key_filter::napi_key_skip_symbols => KeyFilter::SkipSymbols,
    }
}

impl FromSpecImpl<sys::napi_key_filter> for KeyFilter {
    open spec fn obeys_from_spec() -> bool {
        true
    }

    open spec fn from_spec(value: sys::napi_key_filter) -> Self {
        filter_of(value)
    }
}

impl From<KeyFilter> for sys::napi_key_filter {
    fn from(value: KeyFilter) -> (tag: Self) {
        match value {
            KeyFilter::AllProperties => Self::napi_key_all_properties,
            KeyFilter::Writable => Self::napi_key_writable,
            KeyFilter::Enumerable => Self::napi_key_enumerable,
            KeyFilter::Configurable => Self::napi_key_configurable,
            KeyFilter::SkipStrings => Self::napi_key_skip_strings,
            KeyFilter::SkipSymbols => Self::napi_key_skip_symbols,
        }
    }
}

/// The tag that stands for `value`.
pub open spec fn filter_tag_of(value: KeyFilter) -> sys::napi_key_filter {
    match value {
        KeyFilter::AllProperties => sys::napi_key_filter::napi_key_all_properties,
        KeyFilter::Writable => sys::napi_key_filter::napi_key_writable,
        KeyFilter::Enumerable => sys::napi_key_filter::napi_key_enumerable,
        KeyFilter::Configurable => sys::napi_key_filter::napi_key_configurable,
        KeyFilter::SkipStrings => sys::napi_key_filter::napi_key_skip_strings,
        KeyFilter::SkipSymbols => sys::napi_key_filter::napi_key_skip_symbols,
    }
}

impl FromSpecImpl<KeyFilter> for sys::napi_key_filter {
    open spec fn obeys_from_spec() -> bool {
        true
    }

    open spec fn from_spec(value: KeyFilter) -> Self {
        filter_tag_of(value)
    }
}

/// Whether integer keys are handed out as numbers or as strings.
#[derive(Clone, Copy, Debug, PartialEq, Eq, Structural)]
pub enum KeyConversion {
    KeepNumbers,
    NumbersToStrings,
}

impl From<sys::napi_key_conversion> for KeyConversion {
    fn from(value: sys::napi_key_conversion) -> (conversion: Self) {
        match value {
            sys::napi_key_conversion::napi_key_keep_numbers => Self::KeepNumbers,
            sys::napi_key_conversion::napi_key_numbers_to_strings => Self::NumbersToStrings,
        }
    }
}

/// The key conversion that the tag `value` stands for.
pub open spec fn conversion_of(value: sys::napi_key_conversion) -> KeyConversion {
    match value {
        sys::napi_key_conversion::napi_key_keep_numbers => KeyConversion::KeepNumbers,
        sys::napi_key_conversion::napi_key_numbers_to_strings => KeyConversion::NumbersToStrings,
    }
}

impl FromSpecImpl<sys::napi_key_conversion> for KeyConversion {
    open spec fn obeys_from_spec() -> bool {
        true
    }

    open spec fn from_spec(value: sys::napi_key_conversion) -> Self {
        conversion_of(value)
    }
}

impl From<KeyConversion> for sys::napi_key_conversion {
    fn from(value: KeyConversion) -> (tag: Self) {
        match value {
            KeyConversion::KeepNumbers => Self::napi_key_keep_numbers,
            KeyConversion::NumbersToStrings => Self::napi_key_numbers_to_strings,
        }
    }
}

/// The tag that stands for `value`.
pub open spec fn conversion_tag_of(value: KeyConversion) -> sys::napi_key_conversion {
    match value {
        KeyConversion::KeepNumbers => sys::napi_key_conversion::napi_key_keep_numbers,
        KeyConversion::NumbersToStrings => sys::napi_key_conversion::napi_key_numbers_to_strings,
    }
}

impl FromSpecImpl<KeyConversion> for sys::napi_key_conversion {
    open spec fn obeys_from_spec() -> bool {
        true
    }

    open spec fn from_spec(value: KeyConversion) -> Self {
        conversion_tag_of(value)
    }
}

/// Converting a collection mode to its tag and back gives the mode, and
/// the other way round.
pub proof fn lemma_key_collection_mode_round_trip(
    mode: KeyCollectionMode,
    tag: sys::napi_key_collection_mode,
)
    ensures
        collection_mode_of(collection_tag_of(mode)) == mode,
        collection_tag_of(collection_mode_of(tag)) == tag,
{
}

/// Converting a filter to its tag and back gives the filter, and the
/// other way round.
pub proof fn lemma_key_filter_round_trip(filter: KeyFilter, tag: sys::napi_key_filter)
    ensures
        filter_of(filter_tag_of(filter)) == filter,
        filter_tag_of(filter_of(tag)) == tag,
{
}

/// Converting a key conversion to its tag and back gives the conversion,
/// and the other way round.
pub proof fn lemma_key_conversion_round_trip(
    conversion: KeyConversion,
    tag: sys::napi_key_conversion,
)
    ensures
        conversion_of(conversion_tag_of(conversion)) == conversion,
        conversion_tag_of(conversion_of(tag)) == tag,
{
}

} // verus!
