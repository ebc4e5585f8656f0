//! The rules the runtime builtins apply to their arguments: how many they
//! take, which positions of a Group or a text they accept, and how text reads
//! as a number.

use vstd::prelude::*;

use crate::chars::{chars_of, is_whitespace, spec_is_whitespace, string_of, text};
use crate::error::{ErrView, SixError, decimal, err_at, numeral};
use crate::lexer::strip_commas;

verus! {

/// How many arguments a builtin taking `min` to `max` of them wants, in words.
pub open spec fn wanted(min: nat, max: nat) -> Seq<char> {
    if min == max {
        decimal(min)
    } else {
        decimal(min) + " to "@ + decimal(max)
    }
}

/// The error for calling builtin `name` with `got` arguments when it takes
/// `min` to `max` of them.
pub open spec fn arity_err(name: Seq<char>, got: nat, min: nat, max: nat, line: usize) -> ErrView {
    err_at(
        line,
        "'"@ + name + "' expects "@ + wanted(min, max) + " argument(s) but got "@ + decimal(got),
    )
}

/// Checks that builtin `name`, called with `got` arguments, takes that many:
/// between `min` and `max`.
pub fn arity(name: &str, got: usize, min: usize, max: usize, line: usize) -> (r: Result<
    (),
    SixError,
>)
    ensures
        r is Ok <==> min <= got <= max,
        r matches Err(e) ==> e@ == arity_err(name@, got as nat, min as nat, max as nat, line),
{
    if got < min || got > max {
        let mut want = numeral(min);
        if min != max {
            want.append(" to ");
            want.append(numeral(max).as_str());
        }
        let mut m = text("'");
        m.append(name);
        m.append("' expects ");
        m.append(want.as_str());
        m.append(" argument(s) but got ");
        m.append(numeral(got).as_str());
        return Err(SixError::at(line, m));
    }
    Ok(())
}

// --- positions ----------------------------------------------------------------------

/// `$`, the final position of something of length `len` (a `what`), or the
/// error when it is empty.
pub fn last_position(len: usize, line: usize, what: &str) -> (r: Result<usize, SixError>)
    ensures
        len > 0 ==> r == Ok::<usize, SixError>((len - 1) as usize),
        len == 0 ==> (r matches Err(e) && e@ == err_at(
            line,
            "'$' has no final position in an empty "@ + what@,
        )),
{
    if len == 0 {
        let mut m = text("'$' has no final position in an empty ");
        m.append(what);
        Err(SixError::at(line, m))
    } else {
        Ok(len - 1)
    }
}

/// Position `i` of something of length `len` (a `what`), or the error when it
/// is out of range.
pub fn position_in(i: usize, len: usize, line: usize, what: &str) -> (r: Result<usize, SixError>)
    ensures
        i < len ==> r == Ok::<usize, SixError>(i),
        i >= len ==> (r matches Err(e) && e@ == err_at(
            line,
            "index "@ + decimal(i as nat) + " is out of range for a "@ + what@ + " of size "@
                + decimal(len as nat),
        )),
{
    if i >= len {
        let mut m = text("index ");
        m.append(numeral(i).as_str());
        m.append(" is out of range for a ");
        m.append(what);
        m.append(" of size ");
        m.append(numeral(len).as_str());
        Err(SixError::at(line, m))
    } else {
        Ok(i)
    }
}

/// Where `insert` puts a value given position `p` in a Group of size `len`:
/// anywhere up to just after the last member.
pub fn insert_position(p: usize, len: usize, line: usize) -> (r: Result<usize, SixError>)
    ensures
        p <= len ==> r == Ok::<usize, SixError>(p),
        p > len ==> (r matches Err(e) && e@ == err_at(
            line,
            "insert position "@ + decimal(p as nat) + " is out of range for a Group of size "@
                + decimal(len as nat),
        )),
{
    if p > len {
        let mut m = text("insert position ");
        m.append(numeral(p).as_str());
        m.append(" is out of range for a Group of size ");
        m.append(numeral(len).as_str());
        Err(SixError::at(line, m))
    } else {
        Ok(p)
    }
}

/// Which member `remove` takes given position `p` (or `$`, `None`) in a Group
/// of size `len`.
pub fn remove_position(p: Option<usize>, len: usize, line: usize) -> (r: Result<usize, SixError>)
    ensures
        match p {
            None => if len > 0 {
                r == Ok::<usize, SixError>((len - 1) as usize)
            } else {
                r matches Err(e) && e@ == err_at(line, "cannot remove from an empty Group"@)
            },
            Some(i) => if i < len {
                r == Ok::<usize, SixError>(i)
            } else {
                r matches Err(e) && e@ == err_at(
                    line,
                    "remove position "@ + decimal(i as nat)
                        + " is out of range for a Group of size "@ + decimal(len as nat),
                )
            },
        },
{
    match p {
        None => {
            if len == 0 {
                return Err(SixError::at(line, text("cannot remove from an empty Group")));
            }
            Ok(len - 1)
        },
        Some(i) => {
            if i >= len {
                let mut m = text("remove position ");
                m.append(numeral(i).as_str());
                m.append(" is out of range for a Group of size ");
                m.append(numeral(len).as_str());
                return Err(SixError::at(line, m));
            }
            Ok(i)
        },
    }
}

// --- text to number -----------------------------------------------------------------

/// Where the text `s` starts once leading whitespace is skipped from `i`.
pub open spec fn lead(s: Seq<char>, i: int) -> int
    decreases s.len() - i,
{
    if 0 <= i < s.len() && spec_is_whitespace(s[i]) {
        lead(s, i + 1)
    } else {
        i
    }
}

/// Where the text `s` ends once trailing whitespace before `j` is dropped.
pub open spec fn trail(s: Seq<char>, j: int) -> int
    decreases j,
{
    if 0 < j <= s.len() && spec_is_whitespace(s[j - 1]) {
        trail(s, j - 1)
    } else {
        j
    }
}

/// `s` with leading and trailing whitespace removed, as `str::trim` gives it.
pub open spec fn trimmed(s: Seq<char>) -> Seq<char> {
    let a = lead(s, 0);
    let b = trail(s, s.len() as int);
    if a < b {
        s.subrange(a, b)
    } else {
        Seq::empty()
    }
}

/// The text the `number` conversion reads: its thousands separators (every
/// comma) removed, then surrounding whitespace trimmed.
pub fn number_text(s: &str) -> (r: String)
    ensures
        r@ == trimmed(strip_commas(s@)),
{
    let cs = chars_of(s);
    let mut kept: Vec<char> = Vec::new();
    let mut i: usize = 0;
    while i < cs.len()
        invariant
            i <= cs@.len(),
            cs@ == s@,
            kept@ == strip_commas(cs@.take(i as int)),
        decreases cs@.len() - i,
    {
        assert(cs@.take(i + 1).drop_last() =~= cs@.take(i as int));
        if cs[i] != ',' {
            kept.push(cs[i]);
        }
        assert(kept@ =~= strip_commas(cs@.take(i + 1)));
        i = i + 1;
    }
    assert(cs@.take(cs@.len() as int) =~= cs@);
    let ghost k = kept@;
    let n = kept.len();
    let mut a: usize = 0;
    while a < n && is_whitespace(kept[a])
        invariant
            k == kept@,
            n == k.len(),
            a <= n,
            lead(k, 0) == lead(k, a as int),
        decreases n - a,
    {
        a = a + 1;
    }
    let mut b: usize = n;
    while b > 0 && is_whitespace(kept[b - 1])
        invariant
            k == kept@,
            n == k.len(),
            b <= n,
            trail(k, n as int) == trail(k, b as int),
        decreases b,
    {
        b = b - 1;
    }
    if a < b {
        string_of(&kept.as_slice()[a..b])
    } else {
        String::new()
    }
}

} // verus!
