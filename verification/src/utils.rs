//! Conversions from file system paths.

pub mod configuration;

use std::path::{Path, PathBuf};
use vstd::prelude::*;

verus! {

/// `std::path::Path`, carried through as an opaque value.
#[verifier::external_type_specification]
#[verifier::external_body]
pub struct ExPath(Path);

/// Try to convert from a path.
pub trait TryFromPath {
    /// Converts from a path reference.
    fn from_path(path: &Path) -> Result<Self, anyhow::Error> where Self: Sized;
}

/// Defines a trait for converting from a path.
pub trait FromPath {
    /// Converts from a path reference.
    fn from_path(path: &Path) -> Self where Self: Sized;
}

/// The text that `Path::to_string_lossy` gives for a path: the text of the
/// path, with whatever in it is no Unicode replaced by U+FFFD.
pub uninterp spec fn lossy_text(path: &Path) -> Seq<char>;

/// The path that a `PathBuf` owns, as `PathBuf::as_path` gives it.
pub uninterp spec fn owned_path(buffer: &PathBuf) -> &Path;

/// `Path::to_string_lossy`, with the text it yields made an owned string.
/// The string holds the text that the name `lossy_text` stands for;
/// nothing more is claimed of the text.
#[verifier::external_body]
fn path_text(path: &Path) -> (text: String)
    ensures
        text@ == lossy_text(path),
{
    path.to_string_lossy().into_owned()
}

/// `Path::to_path_buf`. The buffer that comes back owns the path that was
/// handed in.
#[verifier::external_body]
fn path_copy(path: &Path) -> (buffer: PathBuf)
    ensures
        owned_path(&buffer) == path,
{
    path.to_path_buf()
}

impl FromPath for String {
    /// The text of the path, made Unicode where it is not.
    fn from_path(path: &Path) -> (text: String)
        ensures
            text@ == lossy_text(path),
    {
        path_text(path)
    }
}

impl FromPath for PathBuf {
    /// A buffer that owns the path.
    fn from_path(path: &Path) -> (buffer: PathBuf)
        ensures
            owned_path(&buffer) == path,
    {
        path_copy(path)
    }
}

} // verus!
