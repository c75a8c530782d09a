//! Converts decoded records of a schema-typed binary serialization format
//! into generic JSON values and serializes them to text: as one JSON array
//! or newline-delimited, compact or indented, optionally colorized for a
//! terminal.
//!
//! The decoding of the binary container, file handling and the terminal
//! check stay outside this crate; it consumes already-decoded values and
//! produces the complete output text.
use vstd::prelude::*;

pub mod base64;
pub mod colorize;
pub mod json_text;
pub mod mapper;
pub mod numtext;
pub mod value;
pub mod writer;

pub use base64::base64_encode;
pub use mapper::avro_value_to_json;
pub use writer::convert_avro_to_json;
pub use writer::convert_avro_to_json_with_color;
pub use writer::write_json_output;

verus! {

/// Relies on std's `String::push`: it appends the given character to the
/// end of the string.
pub assume_specification[ String::push ](s: &mut String, c: char)
    ensures
        final(s)@ == old(s)@ + seq![c],
;

} // verus!
