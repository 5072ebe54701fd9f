//! The constants and replies of the backup service.
use vstd::prelude::*;

use crate::text::str_concat;

verus! {

/// Size of every part but the last of a split archive: 50 MB.
pub const CHUNK_SIZE: usize = 50 * 1000 * 1000;

/// The message of a successful backup.
pub open spec fn creation_message_spec(input: Seq<char>, output: Seq<char>, pass: Seq<char>) -> Seq<char> {
    "Backup created for input_folder "@ + input + ",\n                            output_folder "@
        + output + " with pass "@ + pass
}

/// The message of a successful restore.
pub open spec fn restoration_message_spec(input: Seq<char>, output: Seq<char>, pass: Seq<char>) -> Seq<char> {
    "Backup restored for input_folder "@ + input + ", \n                        output_folder "@
        + output + " with pass "@ + pass
}

/// Appends the three parts of a reply around the given fields.
fn fill(head: &str, input: &str, middle: &str, output: &str, tail: &str, pass: &str) -> (r: String)
    ensures
        r@ == head@ + input@ + middle@ + output@ + tail@ + pass@,
{
    let mut r = str_concat(head, input);
    r.append(middle);
    r.append(output);
    r.append(tail);
    r.append(pass);
    r
}

/// The message of a successful backup of `input` into `output` with password `pass`.
pub fn creation_message(input: &str, output: &str, pass: &str) -> (r: String)
    ensures
        r@ == creation_message_spec(input@, output@, pass@),
{
    fill(
        "Backup created for input_folder ",
        input,
        ",\n                            output_folder ",
        output,
        " with pass ",
        pass,
    )
}

/// The message of a successful restore of `input` into `output` with password `pass`.
pub fn restoration_message(input: &str, output: &str, pass: &str) -> (r: String)
    ensures
        r@ == restoration_message_spec(input@, output@, pass@),
{
    fill(
        "Backup restored for input_folder ",
        input,
        ", \n                        output_folder ",
        output,
        " with pass ",
        pass,
    )
}

} // verus!
