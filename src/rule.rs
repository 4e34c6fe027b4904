use vstd::prelude::*;
use crate::level::{starts_with, str_starts_with};
use crate::text::{split_on, split_text, trim, trim_text};

verus! {

/// The value that a line declares for `key`: the line, without surrounding
/// blanks, begins with `key` and a colon; the value is the rest of the line
/// without surrounding blanks.
pub open spec fn line_value(line: Seq<char>, key: Seq<char>) -> Option<Seq<char>> {
    let t = trim(line);
    let head = key.push(':');
    if starts_with(t, head) {
        Some(trim(t.subrange(head.len() as int, t.len() as int)))
    } else {
        None
    }
}

/// The value declared for `key` by the first of `lines` that declares one.
pub open spec fn first_value(lines: Seq<Seq<char>>, key: Seq<char>) -> Option<Seq<char>>
    decreases lines.len(),
{
    if lines.len() == 0 {
        None
    } else {
        match line_value(lines[0], key) {
            Some(v) => Some(v),
            None => first_value(lines.drop_first(), key),
        }
    }
}

/// The value of the field `key` in the text of a rule file: that of the
/// first line declaring it.
pub open spec fn rule_field_value(content: Seq<char>, key: Seq<char>) -> Option<Seq<char>> {
    first_value(split_on(content, '\n'), key)
}

/// The value a single line declares for `key`, if it declares one.
fn value_in_line(line: &str, key: &str) -> (r: Option<String>)
    ensures
        match r {
            Some(v) => line_value(line@, key@) == Some(v@),
            None => line_value(line@, key@) is None,
        },
{
    let t = trim_text(line);
    let head = String::from_str(key).concat(":");
    proof {
        reveal_strlit(":");
        assert(head@ == key@.push(':'));
    }
    if str_starts_with(t, head.as_str()) {
        let rest = t.substring_char(head.as_str().unicode_len(), t.unicode_len());
        Some(String::from_str(trim_text(rest)))
    } else {
        None
    }
}

/// The value of the field `key` in the text of a rule file, taken from the
/// first line that declares it.
pub fn rule_field(content: &str, key: &str) -> (r: Option<String>)
    ensures
        match r {
            Some(v) => rule_field_value(content@, key@) == Some(v@),
            None => rule_field_value(content@, key@) is None,
        },
{
    let lines = split_text(content, '\n');
    let ghost lv = lines@.map_values(|p: String| p@);
    let mut i: usize = 0;
    assert(lv.subrange(0, lv.len() as int) == lv);
    while i < lines.len()
        invariant
            lv == lines@.map_values(|p: String| p@),
            lv == split_on(content@, '\n'),
            i <= lines@.len(),
            first_value(lv, key@) == first_value(lv.subrange(i as int, lv.len() as int), key@),
        decreases lines@.len() - i,
    {
        let ghost rest = lv.subrange(i as int, lv.len() as int);
        assert(rest[0] == lines[i as int]@);
        assert(rest.drop_first() == lv.subrange(i + 1, lv.len() as int));
        match value_in_line(lines[i].as_str(), key) {
            Some(v) => {
                return Some(v);
            },
            None => {},
        }
        i = i + 1;
    }
    None
}

} // verus!
