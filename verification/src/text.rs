//! Text is positionally indexable: reading one character, and replacing one.

use vstd::prelude::*;

use crate::chars::{chars_of, push_char, string_of, text};
use crate::error::{SixError, err_at};

verus! {

/// The one-character text at position `i` of `s`.
pub fn char_at(s: &str, i: usize) -> (r: String)
    requires
        i < s@.len(),
    ensures
        r@ == seq![s@[i as int]],
{
    let mut r = String::new();
    push_char(&mut r, s.get_char(i));
    r
}

/// `s` with the character at position `i` replaced by `repl`, which must be a
/// single character.
pub fn replace_char(s: &str, i: usize, repl: &str, line: usize) -> (r: Result<String, SixError>)
    requires
        i < s@.len(),
    ensures
        repl@.len() == 1 ==> (r matches Ok(t) && t@ == s@.update(i as int, repl@[0])),
        repl@.len() != 1 ==> (r matches Err(e) && e@ == err_at(
            line,
            "text position assignment expects a single character"@,
        )),
{
    if repl.unicode_len() != 1 {
        return Err(SixError::at(line, text("text position assignment expects a single character")));
    }
    let mut cs = chars_of(s);
    cs.set(i, repl.get_char(0));
    Ok(string_of(cs.as_slice()))
}

} // verus!
