//! Edits that the editor's key handling makes on the lines of its buffer.

use vstd::prelude::*;
use crate::text::{byte_len, char_index, is_boundary, str_tail};

verus! {

/// The text of line `y` from byte offset `x` (the cursor) to its end; empty
/// when the cursor is at or past the end of the line. The line's byte length
/// fits in `usize`, as that of every string in memory does.
pub fn getTextAfterCusor(lines: &Vec<String>, x: usize, y: usize) -> (r: String)
    requires
        y < lines@.len(),
        byte_len(lines@[y as int]@) <= usize::MAX,
        x < byte_len(lines@[y as int]@) ==> is_boundary(lines@[y as int]@, x as int),
    ensures
        r@ == (if x >= byte_len(lines@[y as int]@) || byte_len(lines@[y as int]@) == 0 {
            Seq::<char>::empty()
        } else {
            lines@[y as int]@.skip(char_index(lines@[y as int]@, x as int))
        }),
{
    let line = lines[y].clone();
    let len = line.as_str().len();
    if x >= len || len == 0 {
        return String::new();
    }
    str_tail(line.as_str(), x).to_owned()
}

} // verus!
