use vstd::prelude::*;

verus! {

/// Number of characters in a rule identifier.
pub const ID_LEN: usize = 36;

/// A character allowed in the digit groups of an identifier: an ASCII digit
/// or a lower-case ASCII letter.
pub open spec fn is_id_char(c: char) -> bool {
    ('0' <= c && c <= '9') || ('a' <= c && c <= 'z')
}

/// The positions of the four dashes in an identifier, which split it into
/// groups of 8, 4, 4, 4 and 12 characters.
pub open spec fn is_dash_position(i: int) -> bool {
    i == 8 || i == 13 || i == 18 || i == 23
}

/// The structural identifier format: five groups of digits and lower-case
/// letters of lengths 8, 4, 4, 4 and 12, joined by dashes.
pub open spec fn valid_id(s: Seq<char>) -> bool {
    &&& s.len() == ID_LEN
    &&& forall|i: int|
        0 <= i < s.len() ==> if is_dash_position(i) {
            s[i] == '-'
        } else {
            is_id_char(s[i])
        }
}

/// Whether `s` is a well-formed rule identifier.
pub fn is_rule_id(s: &str) -> (r: bool)
    ensures
        r == valid_id(s@),
{
    let n = s.unicode_len();
    if n != ID_LEN {
        return false;
    }
    let mut i: usize = 0;
    while i < n
        invariant
            n == s@.len() == ID_LEN,
            i <= n,
            forall|j: int|
                0 <= j < i ==> if is_dash_position(j) {
                    s@[j] == '-'
                } else {
                    is_id_char(s@[j])
                },
        decreases n - i,
    {
        let c = s.get_char(i);
        let ok = if i == 8 || i == 13 || i == 18 || i == 23 {
            c == '-'
        } else {
            ('0' <= c && c <= '9') || ('a' <= c && c <= 'z')
        };
        if !ok {
            return false;
        }
        i = i + 1;
    }
    true
}

} // verus!
