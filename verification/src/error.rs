//! Errors of image handling, of plugin handling, and of the application as a whole.

use vstd::prelude::*;
use vstd::string::StringExecFns;
use vstd::std_specs::convert::FromSpecImpl;

verus! {

/// An error reported by the operating system, carried through unchanged.
#[verifier::external_type_specification]
#[verifier::external_body]
pub struct ExIoError(std::io::Error);

/// Errors while loading, saving or checking an image.
#[derive(Debug)]
pub enum ImageError {
    /// The image could not be loaded.
    LoadError(String),
    /// The image could not be saved.
    SaveError(String),
    /// The image data has an unsupported format.
    InvalidFormat(String),
    /// The pixel buffer does not have the size its dimensions call for.
    SizeMismatch { expected: usize, actual: usize },
    /// An input or output operation failed.
    IoError(std::io::Error),
}

/// Errors while loading or running a plugin.
#[derive(Debug)]
pub enum PluginError {
    /// The plugin library could not be loaded.
    LoadError(String),
    /// The plugin does not export `process_image`.
    SymbolNotFound(String),
    /// The plugin could not be initialised.
    InitFailed(String),
    /// The plugin call could not be made or reported a failure.
    ProcessingFailed(String),
}

/// Errors of the image processing application.
#[derive(Debug)]
pub enum AppError {
    /// An image could not be handled.
    Image(ImageError),
    /// A plugin could not be handled.
    Plugin(PluginError),
    /// The command line arguments are not usable.
    InvalidArgs(String),
}

impl From<ImageError> for AppError {
    fn from(e: ImageError) -> (r: AppError) {
        AppError::Image(e)
    }
}

impl FromSpecImpl<ImageError> for AppError {
    open spec fn obeys_from_spec() -> bool {
        true
    }

    open spec fn from_spec(e: ImageError) -> AppError {
        AppError::Image(e)
    }
}

impl From<PluginError> for AppError {
    fn from(e: PluginError) -> (r: AppError) {
        AppError::Plugin(e)
    }
}

impl FromSpecImpl<PluginError> for AppError {
    open spec fn obeys_from_spec() -> bool {
        true
    }

    open spec fn from_spec(e: PluginError) -> AppError {
        AppError::Plugin(e)
    }
}

impl<'a> From<&'a str> for AppError {
    fn from(s: &'a str) -> (r: AppError)
        ensures
            r matches AppError::InvalidArgs(m) && m@ == s@,
    {
        AppError::InvalidArgs(String::from_str(s))
    }
}

/// The text of the error is stated on `from` itself (a `String` is known only
/// by its characters), so `from_spec` makes no claim.
impl<'a> FromSpecImpl<&'a str> for AppError {
    open spec fn obeys_from_spec() -> bool {
        false
    }

    open spec fn from_spec(s: &'a str) -> AppError {
        AppError::InvalidArgs(choose|m: String| m@ == s@)
    }
}

} // verus!
