//! The options of the runtime's property-key enumeration, under the
//! names that its C interface gives them.

use vstd::prelude::*;

verus! {

/// Whether the keys of the prototype chain are collected too.
#[allow(non_camel_case_types)]
#[derive(Clone, Copy, Debug, PartialEq, Eq, Structural)]
pub enum napi_key_collection_mode {
    napi_key_include_prototypes,
    napi_key_own_only,
}

/// Which property keys are collected.
#[allow(non_camel_case_types)]
#[derive(Clone, Copy, Debug, PartialEq, Eq, Structural)]
pub enum napi_key_filter {
    napi_key_all_properties,
    napi_key_writable,
    napi_key_enumerable,
    napi_key_configurable,
    napi_key_skip_strings,
    napi_key_skip_symbols,
}

/// Whether integer keys are handed out as numbers or as strings.
#[allow(non_camel_case_types)]
#[derive(Clone, Copy, Debug, PartialEq, Eq, Structural)]
pub enum napi_key_conversion {
    napi_key_keep_numbers,
    napi_key_numbers_to_strings,
}

} // verus!
