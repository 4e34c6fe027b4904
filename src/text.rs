use vstd::prelude::*;

verus! {

/// The pieces of `s` between occurrences of `sep`, in order; a text with
/// `k` separators has `k + 1` pieces, some of them possibly empty.
pub open spec fn split_on(s: Seq<char>, sep: char) -> Seq<Seq<char>>
    decreases s.len(),
{
    if s.len() == 0 {
        seq![Seq::empty()]
    } else {
        let init = split_on(s.drop_last(), sep);
        if s.last() == sep {
            init.push(Seq::empty())
        } else {
            init.update(init.len() - 1, init.last().push(s.last()))
        }
    }
}

/// Blank characters removed around a field: space, tab and carriage return.
pub open spec fn is_blank(c: char) -> bool {
    c == ' ' || c == '\t' || c == '\r'
}

/// `s` without its leading blanks.
pub open spec fn trim_start(s: Seq<char>) -> Seq<char>
    decreases s.len(),
{
    if s.len() > 0 && is_blank(s[0]) {
        trim_start(s.drop_first())
    } else {
        s
    }
}

/// `s` without its trailing blanks.
pub open spec fn trim_end(s: Seq<char>) -> Seq<char>
    decreases s.len(),
{
    if s.len() > 0 && is_blank(s.last()) {
        trim_end(s.drop_last())
    } else {
        s
    }
}

/// `s` without its leading and trailing blanks.
pub open spec fn trim(s: Seq<char>) -> Seq<char> {
    trim_end(trim_start(s))
}

/// The pieces of `s` between occurrences of `sep`.
pub fn split_text(s: &str, sep: char) -> (r: Vec<String>)
    ensures
        r@.map_values(|p: String| p@) == split_on(s@, sep),
{
    let n = s.unicode_len();
    let mut done: Vec<String> = Vec::new();
    let mut start: usize = 0;
    let mut i: usize = 0;
    assert(s@.subrange(0, 0) == Seq::<char>::empty());
    assert(s@.subrange(0, 0).len() == 0);
    while i < n
        invariant
            n == s@.len(),
            start <= i <= n,
            split_on(s@.subrange(0, i as int), sep) == done@.map_values(|p: String| p@).push(
                s@.subrange(start as int, i as int),
            ),
        decreases n - i,
    {
        let c = s.get_char(i);
        let ghost prev = s@.subrange(0, i as int);
        let ghost cur = s@.subrange(0, i + 1);
        assert(cur.drop_last() == prev);
        assert(cur.last() == c);
        if c == sep {
            let piece = String::from_str(s.substring_char(start, i));
            done.push(piece);
            i = i + 1;
            start = i;
            assert(done@.map_values(|p: String| p@) == split_on(prev, sep));
            assert(s@.subrange(start as int, i as int) == Seq::<char>::empty());
        } else {
            let ghost d = done@.map_values(|p: String| p@);
            i = i + 1;
            assert(s@.subrange(start as int, i as int) == s@.subrange(start as int, i - 1).push(c));
            assert(split_on(cur, sep) == d.push(s@.subrange(start as int, i - 1)).update(
                d.len() as int,
                s@.subrange(start as int, i - 1).push(c),
            ));
            assert(split_on(cur, sep) == d.push(s@.subrange(start as int, i as int)));
        }
    }
    let ghost d = done@.map_values(|p: String| p@);
    done.push(String::from_str(s.substring_char(start, n)));
    assert(s@.subrange(0, n as int) == s@);
    assert(done@.map_values(|p: String| p@) == d.push(s@.subrange(start as int, n as int)));
    done
}

proof fn lemma_trim_start_at(s: Seq<char>, a: int)
    requires
        0 <= a <= s.len(),
        forall|j: int| 0 <= j < a ==> is_blank(#[trigger] s[j]),
        a == s.len() || !is_blank(s[a]),
    ensures
        trim_start(s) == s.subrange(a, s.len() as int),
    decreases a,
{
    if a > 0 {
        let t = s.drop_first();
        lemma_trim_start_at(t, a - 1);
        assert(t.subrange(a - 1, t.len() as int) == s.subrange(a, s.len() as int));
    } else {
        assert(s.subrange(0, s.len() as int) == s);
    }
}

proof fn lemma_trim_end_at(s: Seq<char>, b: int)
    requires
        0 <= b <= s.len(),
        forall|j: int| b <= j < s.len() ==> is_blank(#[trigger] s[j]),
        b == 0 || !is_blank(s[b - 1]),
    ensures
        trim_end(s) == s.subrange(0, b),
    decreases s.len() - b,
{
    if b < s.len() {
        let t = s.drop_last();
        lemma_trim_end_at(t, b);
        assert(t.subrange(0, b) == s.subrange(0, b));
    } else {
        assert(s.subrange(0, s.len() as int) == s);
    }
}

/// `s` without its leading and trailing blanks.
pub fn trim_text(s: &str) -> (r: &str)
    ensures
        r@ == trim(s@),
{
    let n = s.unicode_len();
    let mut a: usize = 0;
    while a < n && is_blank_char(s.get_char(a))
        invariant
            n == s@.len(),
            a <= n,
            forall|j: int| 0 <= j < a ==> is_blank(#[trigger] s@[j]),
        decreases n - a,
    {
        a = a + 1;
    }
    proof {
        lemma_trim_start_at(s@, a as int);
    }
    let mut b: usize = n;
    while b > a && is_blank_char(s.get_char(b - 1))
        invariant
            n == s@.len(),
            a <= b <= n,
            forall|j: int| b <= j < n ==> is_blank(#[trigger] s@[j]),
        decreases b - a,
    {
        b = b - 1;
    }
    let ghost u = s@.subrange(a as int, n as int);
    proof {
        assert forall|j: int| b - a <= j < u.len() implies is_blank(#[trigger] u[j]) by {
            assert(u[j] == s@[a + j]);
        }
        lemma_trim_end_at(u, b - a);
        assert(u.subrange(0, b - a) == s@.subrange(a as int, b as int));
    }
    s.substring_char(a, b)
}

/// Whether `c` is a blank character.
fn is_blank_char(c: char) -> (r: bool)
    ensures
        r == is_blank(c),
{
    c == ' ' || c == '\t' || c == '\r'
}

} // verus!
