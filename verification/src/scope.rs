//! The rules every scope applies to names: a name is declared once per scope,
//! and neither a builtin nor an immutable name (its first alphabetic
//! character uppercase) can be reassigned.

use vstd::prelude::*;

use crate::chars::text;
use crate::error::{SixError, err_at};
use crate::grammar::immutable_name;
use crate::parser::is_immutable_name;

verus! {

/// Declaring `name` (`:`, `::`, a function declaration or an import) in a
/// scope where it `exists` or not. A new name may be added; a name the scope
/// already holds is an error, at the top level of an interactive session as
/// in a file (a session frees a name with `clear`).
pub fn declare(name: &str, exists: bool, line: usize) -> (r: Result<(), SixError>)
    ensures
        r is Ok <==> !exists,
        exists ==> (r matches Err(e) && e@ == err_at(
            line,
            "'"@ + name@ + "' is already defined in this scope"@,
        )),
{
    if exists {
        let mut m = text("'");
        m.append(name);
        m.append("' is already defined in this scope");
        Err(SixError::at(line, m))
    } else {
        Ok(())
    }
}

/// Reassigning `name` (`=`) where the nearest scope holding it is the
/// builtins' (`in_builtins`) or an ordinary one. Builtins cannot be
/// reassigned, nor can immutable names.
pub fn reassign(name: &str, in_builtins: bool, line: usize) -> (r: Result<(), SixError>)
    ensures
        in_builtins ==> (r matches Err(e) && e@ == err_at(
            line,
            "cannot reassign builtin '"@ + name@ + "'"@,
        )),
        !in_builtins && immutable_name(name@) ==> (r matches Err(e) && e@ == err_at(
            line,
            "cannot reassign immutable name '"@ + name@ + "'"@,
        )),
        !in_builtins && !immutable_name(name@) ==> r is Ok,
{
    if in_builtins {
        let mut m = text("cannot reassign builtin '");
        m.append(name);
        m.append("'");
        return Err(SixError::at(line, m));
    }
    if is_immutable_name(name) {
        let mut m = text("cannot reassign immutable name '");
        m.append(name);
        m.append("'");
        return Err(SixError::at(line, m));
    }
    Ok(())
}

} // verus!
