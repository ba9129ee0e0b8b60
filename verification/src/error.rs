use vstd::prelude::*;

verus! {

/// Why decoding a candidate save file failed.
///
/// A decode failure aborts the whole load: no partial manifest is ever
/// surfaced. Missing on-disk inventory sources are not errors and never
/// produce one of these; they degrade to empty collections instead.
#[derive(Clone, Copy, Debug, PartialEq, Eq, Structural)]
pub enum DecodeError {
    /// The buffer does not begin with the save-file magic signature.
    NotASaveFile,
    /// The buffer ends before the fixed-layout header is complete.
    UnexpectedEndOfData,
    /// The buffer ends before the declared plugin table is complete.
    TruncatedManifest,
    /// A decoded plugin filename is empty or holds a byte outside the
    /// printable range.
    MalformedPluginName,
}

impl DecodeError {
    /// A short human-readable description for the presentation layer.
    pub fn message(&self) -> (r: &'static str)
        ensures
            *self is NotASaveFile ==> r@ == "not a save file"@,
            *self is UnexpectedEndOfData ==> r@ == "unexpected end of data"@,
            *self is TruncatedManifest ==> r@ == "save file ends inside its plugin table"@,
            *self is MalformedPluginName ==> r@ == "malformed plugin filename"@,
    {
        match self {
            DecodeError::NotASaveFile => "not a save file",
            DecodeError::UnexpectedEndOfData => "unexpected end of data",
            DecodeError::TruncatedManifest => "save file ends inside its plugin table",
            DecodeError::MalformedPluginName => "malformed plugin filename",
        }
    }
}

} // verus!
