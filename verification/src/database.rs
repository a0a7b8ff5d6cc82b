//! Helpers for naming the per-type persistence tables.
//!
//! The actual storage engine and statement text live outside the library;
//! only the table-name spelling is shared logic.

use vstd::prelude::*;

verus! {

/// What `char::to_uppercase` yields for one character.
pub uninterp spec fn upper_of(c: char) -> Seq<char>;

/// Relies on `char::to_uppercase`: the Unicode uppercase mapping of a
/// character, a function of the character alone, collected into a string.
#[verifier::external_body]
fn char_to_uppercase(c: char) -> (r: String)
    ensures
        r@ == upper_of(c),
{
    c.to_uppercase().collect()
}

/// Uppercases the first character of `s` and keeps the rest as it is.
pub fn capitalize(s: &str) -> (r: String)
    ensures
        s@.len() == 0 ==> r@ == Seq::<char>::empty(),
        s@.len() > 0 ==> r@ == upper_of(s@[0]) + s@.skip(1),
{
    let n = s.unicode_len();
    if n == 0 {
        String::new()
    } else {
        let first = s.get_char(0);
        let rest = s.substring_char(1, n);
        let mut out = char_to_uppercase(first);
        out.append(rest);
        proof {
            assert(s@.subrange(1, s@.len() as int) =~= s@.skip(1));
        }
        out
    }
}

} // verus!
