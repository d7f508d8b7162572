//! Status codes shared by the image plugins and their host, and the checks
//! and outcome of a plugin call.

use vstd::prelude::*;
use vstd::string::{StrSliceExecFns, StringExecFns};

use crate::error::PluginError;
use crate::text::{decimal, format_decimal, format_signed_decimal, signed_decimal};

verus! {

/// The plugin finished successfully.
pub const PLUGIN_SUCCESS: i32 = 0;

/// The plugin received no pixel buffer or an image with a zero dimension.
pub const PLUGIN_ERROR_NULL_POINTER: i32 = 1;

/// The plugin reported invalid dimensions.
pub const PLUGIN_ERROR_INVALID_DIMENSIONS: i32 = 2;

/// The plugin failed while processing.
pub const PLUGIN_ERROR_PROCESSING: i32 = 3;

/// Text of the error for a pixel buffer of `actual` bytes handed over for a
/// `width` by `height` image that needs `expected` bytes.
pub open spec fn size_mismatch_message(expected: nat, width: u32, height: u32, actual: nat) -> Seq<char> {
    "RGBA data size mismatch: expected "@ + decimal(expected) + " bytes ("@ + decimal(width as nat)
        + "x"@ + decimal(height as nat) + "x4), got "@ + decimal(actual) + " bytes"@
}

/// Text of the error for parameters that hold a NUL character.
pub open spec fn params_nul_message() -> Seq<char> {
    "Params contain embedded null byte"@
}

/// Whether `s` holds a NUL character, which a C string cannot carry.
pub open spec fn has_nul(s: Seq<char>) -> bool {
    exists|i: int| 0 <= i < s.len() && s[i] == '\0'
}

/// What a plugin's failure status `code` means.
pub open spec fn status_description(code: i32) -> Seq<char> {
    if code == PLUGIN_ERROR_NULL_POINTER {
        "Plugin received null pointer"@
    } else if code == PLUGIN_ERROR_INVALID_DIMENSIONS {
        "Plugin reported invalid dimensions"@
    } else if code == PLUGIN_ERROR_PROCESSING {
        "Plugin processing error"@
    } else {
        "Unknown plugin error"@
    }
}

/// Text of the error for a plugin that returned the failure status `code`.
pub open spec fn status_message(code: i32) -> Seq<char> {
    status_description(code) + " (error code: "@ + signed_decimal(code as int) + ")"@
}

/// Whether `s` holds a NUL character.
fn contains_nul(s: &str) -> (b: bool)
    ensures
        b == has_nul(s@),
        b <==> exists|i: int| 0 <= i < s@.len() && s@[i] == '\0',
{
    let n = s.unicode_len();
    let mut i: usize = 0;
    while i < n
        invariant
            n == s@.len(),
            i <= n,
            forall|j: int| 0 <= j < i ==> s@[j] != '\0',
        decreases n - i,
    {
        if s.get_char(i) == '\0' {
            return true;
        }
        i = i + 1;
    }
    false
}

/// Checks what a plugin call is handed: the pixel buffer must hold exactly
/// `width * height * 4` bytes, and the parameters must not hold a NUL
/// character (they travel as a C string). The size is checked first.
pub fn check_plugin_call(width: u32, height: u32, data_len: usize, params: &str) -> (result: Result<(), PluginError>)
    requires
        width * height * 4 <= usize::MAX,
    ensures
        data_len != width * height * 4 ==> (result matches Err(PluginError::ProcessingFailed(m))
            && m@ == size_mismatch_message((width * height * 4) as nat, width, height, data_len as nat)),
        data_len == width * height * 4 && has_nul(params@) ==> (result matches Err(
            PluginError::ProcessingFailed(m),
        ) && m@ == params_nul_message()),
        data_len == width * height * 4 && !has_nul(params@) ==> result is Ok,
        result is Ok <==> (data_len == width * height * 4 && forall|i: int|
            0 <= i < params@.len() ==> params@[i] != '\0'),
{
    assert(width * height <= width * height * 4) by (nonlinear_arith);
    let expected_size = (width as usize) * (height as usize) * 4;
    if data_len != expected_size {
        let mut m = String::from_str("RGBA data size mismatch: expected ");
        m.append(format_decimal(expected_size as u64).as_str());
        m.append(" bytes (");
        m.append(format_decimal(width as u64).as_str());
        m.append("x");
        m.append(format_decimal(height as u64).as_str());
        m.append("x4), got ");
        m.append(format_decimal(data_len as u64).as_str());
        m.append(" bytes");
        return Err(PluginError::ProcessingFailed(m));
    }
    if contains_nul(params) {
        return Err(PluginError::ProcessingFailed(String::from_str("Params contain embedded null byte")));
    }
    Ok(())
}

/// Turns the status a plugin returned into the outcome of the call:
/// `PLUGIN_SUCCESS` is success; any other status is a
/// `PluginError::ProcessingFailed` that names its meaning and its number.
pub fn plugin_status(code: i32) -> (result: Result<(), PluginError>)
    ensures
        code == PLUGIN_SUCCESS ==> result is Ok,
        code != PLUGIN_SUCCESS ==> (result matches Err(PluginError::ProcessingFailed(m)) && m@
            == status_message(code)),
{
    if code == PLUGIN_SUCCESS {
        return Ok(());
    }
    let description = if code == PLUGIN_ERROR_NULL_POINTER {
        "Plugin received null pointer"
    } else if code == PLUGIN_ERROR_INVALID_DIMENSIONS {
        "Plugin reported invalid dimensions"
    } else if code == PLUGIN_ERROR_PROCESSING {
        "Plugin processing error"
    } else {
        "Unknown plugin error"
    };
    let mut m = String::from_str(description);
    m.append(" (error code: ");
    m.append(format_signed_decimal(code).as_str());
    m.append(")");
    Err(PluginError::ProcessingFailed(m))
}

} // verus!
