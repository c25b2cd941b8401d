//! The text that a document is decoded from: which decoder reads it.

use crate::text::chars_of;
use vstd::prelude::*;

verus! {

/// The ending of the name of a file that holds JSON.
pub const JSON_SUFFIX: &'static str = ".json";

/// The notation that a document is written in.
#[derive(Clone, Copy, Debug, PartialEq, Eq, Structural)]
pub enum SourceFormat {
    Json,
    Yaml,
}

/// A file without any text: there is nothing to decode.
#[derive(Clone, Copy, Debug, PartialEq, Eq, Structural)]
pub struct EmptyInput {}

/// Whether `text` ends with `suffix`.
pub open spec fn has_suffix(text: Seq<char>, suffix: Seq<char>) -> bool {
    text.len() >= suffix.len() && text.skip(text.len() - suffix.len()) == suffix
}

/// The notation to expect in a file of this name: JSON where the name ends
/// in `.json`, YAML in every other file.
pub open spec fn format_of(file_name: Seq<char>) -> SourceFormat {
    if has_suffix(file_name, JSON_SUFFIX@) {
        SourceFormat::Json
    } else {
        SourceFormat::Yaml
    }
}

/// Whether `text` ends with `suffix`.
pub fn ends_with(text: &str, suffix: &str) -> (r: bool)
    ensures
        r == has_suffix(text@, suffix@),
{
    let whole = chars_of(text);
    let end = chars_of(suffix);
    if whole.len() < end.len() {
        return false;
    }
    let shift = whole.len() - end.len();
    let ghost tail = whole@.skip(shift as int);
    let mut i: usize = 0;
    while i < end.len()
        invariant
            i <= end.len(),
            shift + end.len() == whole.len(),
            tail == whole@.skip(shift as int),
            whole@ == text@,
            end@ == suffix@,
            forall|j: int| 0 <= j < i ==> tail[j] == end@[j],
        decreases end.len() - i,
    {
        assert(tail[i as int] == whole@[shift + i]);
        if whole[shift + i] != end[i] {
            assert(tail[i as int] != end@[i as int]);
            return false;
        }
        i += 1;
    }
    assert(tail =~= end@);
    true
}

/// The decoder for the text of a file: none for an empty text, else the one
/// that the name of the file asks for.
pub fn choose_decoder(file_name: &str, content: &str) -> (r: Result<SourceFormat, EmptyInput>)
    ensures
        r == (if content@.len() == 0 {
            Err::<SourceFormat, EmptyInput>(EmptyInput {  })
        } else {
            Ok(format_of(file_name@))
        }),
{
    if content.unicode_len() == 0 {
        return Err(EmptyInput {  });
    }
    if ends_with(file_name, JSON_SUFFIX) {
        Ok(SourceFormat::Json)
    } else {
        Ok(SourceFormat::Yaml)
    }
}

} // verus!
