use vstd::prelude::*;
use crate::level::{level_word, Level};

verus! {

/// `s` with every non-overlapping occurrence of `pat`, found from left to
/// right, replaced by `rep`. An empty pattern leaves `s` as it is.
pub open spec fn replace_all(s: Seq<char>, pat: Seq<char>, rep: Seq<char>) -> Seq<char>
    decreases s.len(),
{
    if pat.len() == 0 || s.len() < pat.len() {
        s
    } else if s.subrange(0, pat.len() as int) == pat {
        rep + replace_all(s.subrange(pat.len() as int, s.len() as int), pat, rep)
    } else {
        seq![s[0]] + replace_all(s.drop_first(), pat, rep)
    }
}

/// The text of a level declaration in a rule file.
pub open spec fn level_line(level: Seq<char>) -> Seq<char> {
    "level: "@ + level
}

/// The characters of `s`, in order.
fn chars_of(s: &str) -> (r: Vec<char>)
    ensures
        r@ == s@,
{
    let n = s.unicode_len();
    let mut r: Vec<char> = Vec::new();
    let mut i: usize = 0;
    while i < n
        invariant
            n == s@.len(),
            i <= n,
            r@ == s@.subrange(0, i as int),
        decreases n - i,
    {
        r.push(s.get_char(i));
        assert(s@.subrange(0, i + 1) == s@.subrange(0, i as int).push(s@[i as int]));
        i = i + 1;
    }
    assert(s@.subrange(0, n as int) == s@);
    r
}

/// Whether `p` occurs in `s` at position `i`.
fn matches_at(s: &Vec<char>, i: usize, p: &Vec<char>) -> (r: bool)
    requires
        i <= s@.len(),
    ensures
        r == (i + p@.len() <= s@.len() && s@.subrange(i as int, i + p@.len()) == p@),
{
    let m = p.len();
    let n = s.len();
    if m > n - i {
        return false;
    }
    let mut j: usize = 0;
    while j < m
        invariant
            m == p@.len(),
            n == s@.len(),
            i + m <= n,
            j <= m,
            s@.subrange(i as int, i + j) == p@.subrange(0, j as int),
        decreases m - j,
    {
        if s[i + j] != p[j] {
            assert(s@.subrange(i as int, i + m)[j as int] != p@[j as int]);
            return false;
        }
        assert(s@.subrange(i as int, i + j + 1) == s@.subrange(i as int, i + j).push(s@[i + j]));
        assert(p@.subrange(0, j + 1) == p@.subrange(0, j as int).push(p@[j as int]));
        j = j + 1;
    }
    assert(p@.subrange(0, m as int) == p@);
    true
}

/// `replace_all` on the suffix of `s` from `i` takes one step: a match of
/// `pat` at `i`, or the single character at `i`.
proof fn lemma_replace_step(s: Seq<char>, i: int, pat: Seq<char>, rep: Seq<char>)
    requires
        0 <= i,
        pat.len() > 0,
        i + pat.len() <= s.len(),
    ensures
        s.subrange(i, i + pat.len()) == pat ==> replace_all(s.subrange(i, s.len() as int), pat, rep)
            == rep + replace_all(s.subrange(i + pat.len(), s.len() as int), pat, rep),
        s.subrange(i, i + pat.len()) != pat ==> replace_all(s.subrange(i, s.len() as int), pat, rep)
            == seq![s[i]] + replace_all(s.subrange(i + 1, s.len() as int), pat, rep),
{
    let t = s.subrange(i, s.len() as int);
    assert(t.subrange(0, pat.len() as int) == s.subrange(i, i + pat.len()));
    assert(t.subrange(pat.len() as int, t.len() as int) == s.subrange(i + pat.len(), s.len() as int));
    assert(t.drop_first() == s.subrange(i + 1, s.len() as int));
}

/// `s` with every occurrence of `pat`, taken from left to right without
/// overlap, replaced by `rep`; `s` itself when `pat` is empty.
pub fn replace_text(s: &str, pat: &str, rep: &str) -> (r: String)
    ensures
        r@ == replace_all(s@, pat@, rep@),
{
    let cs = chars_of(s);
    let ps = chars_of(pat);
    let n = cs.len();
    let m = ps.len();
    if m == 0 {
        return String::from_str(s);
    }
    let mut out = String::new();
    let mut start: usize = 0;
    let mut i: usize = 0;
    assert(s@.subrange(0, 0) == Seq::<char>::empty());
    assert(s@.subrange(0, n as int) == s@);
    assert(out@ + s@.subrange(0, 0) == Seq::<char>::empty());
    while m <= n && i <= n - m
        invariant
            cs@ == s@,
            ps@ == pat@,
            n == s@.len(),
            m == pat@.len(),
            m > 0,
            start <= i <= n,
            out@ + s@.subrange(start as int, i as int) + replace_all(
                s@.subrange(i as int, n as int),
                pat@,
                rep@,
            ) == replace_all(s@, pat@, rep@),
        decreases n - i,
    {
        proof {
            lemma_replace_step(s@, i as int, pat@, rep@);
        }
        if matches_at(&cs, i, &ps) {
            let ghost before = out@;
            out.append(s.substring_char(start, i));
            out.append(rep);
            proof {
                assert(out@ + s@.subrange(i + m, i + m) == before + s@.subrange(start as int, i as int)
                    + rep@);
            }
            i = i + m;
            start = i;
        } else {
            let ghost j = i;
            i = i + 1;
            proof {
                assert(s@.subrange(start as int, i as int) == s@.subrange(start as int, j as int)
                    + seq![s@[j as int]]);
            }
        }
    }
    assert(s@.subrange(i as int, n as int).len() < m);
    assert(replace_all(s@.subrange(i as int, n as int), pat@, rep@) == s@.subrange(i as int, n as int));
    assert(s@.subrange(start as int, i as int) + s@.subrange(i as int, n as int) == s@.subrange(
        start as int,
        n as int,
    ));
    out.append(s.substring_char(start, n));
    out
}

/// The new text of a rule file whose level was recorded as `old_level`:
/// every `level: <old_level>` becomes the declaration of `target`, and all
/// other text is kept as it is. When the old declaration does not occur,
/// the text comes back unchanged.
pub fn rewrite_level(content: &str, old_level: &str, target: Level) -> (r: String)
    ensures
        r@ == replace_all(content@, level_line(old_level@), level_line(level_word(target))),
{
    let pat = String::from_str("level: ").concat(old_level);
    let rep = String::from_str("level: ").concat(target.as_str());
    replace_text(content, pat.as_str(), rep.as_str())
}

/// Replacing a pattern by itself changes nothing.
pub proof fn lemma_replace_with_itself(s: Seq<char>, pat: Seq<char>)
    ensures
        replace_all(s, pat, pat) == s,
    decreases s.len(),
{
    if pat.len() == 0 || s.len() < pat.len() {
    } else if s.subrange(0, pat.len() as int) == pat {
        let rest = s.subrange(pat.len() as int, s.len() as int);
        lemma_replace_with_itself(rest, pat);
        assert(pat + rest == s);
    } else {
        lemma_replace_with_itself(s.drop_first(), pat);
        assert(seq![s[0]] + s.drop_first() == s);
    }
}

/// `pat` occurs in `s` at position `i`.
pub open spec fn occurs_at(s: Seq<char>, i: int, pat: Seq<char>) -> bool {
    0 <= i && i + pat.len() <= s.len() && s.subrange(i, i + pat.len()) == pat
}

/// Text in which the pattern never occurs is left as it is.
pub proof fn lemma_replace_absent(s: Seq<char>, pat: Seq<char>, rep: Seq<char>)
    requires
        forall|i: int| !#[trigger] occurs_at(s, i, pat),
    ensures
        replace_all(s, pat, rep) == s,
    decreases s.len(),
{
    if pat.len() == 0 || s.len() < pat.len() {
    } else {
        assert(!occurs_at(s, 0, pat));
        let t = s.drop_first();
        assert forall|i: int| !#[trigger] occurs_at(t, i, pat) by {
            assert(!occurs_at(s, i + 1, pat));
            if 0 <= i && i + pat.len() <= t.len() {
                assert(t.subrange(i, i + pat.len()) == s.subrange(i + 1, i + 1 + pat.len()));
            }
        }
        lemma_replace_absent(t, pat, rep);
        assert(seq![s[0]] + t == s);
    }
}

/// Tuning a rule a second time to the same level changes nothing: after
/// the first rewrite the rule's level is `target`, and rewriting from
/// `target` to `target` leaves the text as the first rewrite left it.
pub proof fn lemma_retune_is_stable(content: Seq<char>, old_level: Seq<char>, target: Level)
    ensures
        ({
            let once = replace_all(content, level_line(old_level), level_line(level_word(target)));
            replace_all(once, level_line(level_word(target)), level_line(level_word(target)))
                == once
        }),
{
    let once = replace_all(content, level_line(old_level), level_line(level_word(target)));
    lemma_replace_with_itself(once, level_line(level_word(target)));
}

} // verus!
