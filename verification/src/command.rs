//! The commands that the runtime lets other programs run.
use vstd::prelude::*;
use crate::externals;
use crate::externals::utf8_text_lossy;
use crate::text;
use crate::text::{chars_of, string_of, trimmed};

verus! {

/// What a command wrote to its error output, as it is shown in messages.
pub open spec fn error_output(stderr: Seq<u8>) -> Seq<char> {
    text::trim(externals::utf8_lossy(stderr))
}

/// What a command wrote to its error output, without white space around it.
pub fn error_output_text(stderr: &[u8]) -> (s: String)
    ensures
        s@ == error_output(stderr@),
{
    let chars = chars_of(&utf8_text_lossy(stderr));
    string_of(trimmed(&chars))
}

} // verus!
