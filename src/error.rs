use vstd::prelude::*;

verus! {

/// The ways in which decoding or searching can fail.
#[derive(Debug, Clone, Copy, PartialEq, Eq, Structural)]
pub enum SearchError {
    /// The text is not a non-empty, even-length run of hexadecimal digits once
    /// whitespace is removed. `position` indexes the whitespace-free text: it is
    /// the first character that is not a hexadecimal digit, or the length of
    /// the text where every character is one but the count is empty or odd.
    MalformedHex { position: usize },
    /// A decoded checksum or suffix is not exactly 32 bytes long.
    InvalidInputLength,
    /// No code in the whole space yields the target checksum.
    NotFound,
}

} // verus!
