use vstd::prelude::*;

verus! {

/// The five severity levels a rule can carry, from least to most severe.
#[derive(Clone, Copy, Debug, PartialEq, Eq, Structural)]
pub enum Level {
    Informational,
    Low,
    Medium,
    High,
    Critical,
}

/// The word that names a level in rule files and in the override table.
pub open spec fn level_word(l: Level) -> Seq<char> {
    match l {
        Level::Informational => "informational"@,
        Level::Low => "low"@,
        Level::Medium => "medium"@,
        Level::High => "high"@,
        Level::Critical => "critical"@,
    }
}

/// `p` is a prefix of `s`.
pub open spec fn starts_with(s: Seq<char>, p: Seq<char>) -> bool {
    p.len() <= s.len() && s.subrange(0, p.len() as int) == p
}

/// The level whose word begins `s`, if any (no level word is a prefix of
/// another, so at most one can match).
pub open spec fn prefix_level(s: Seq<char>) -> Option<Level> {
    if starts_with(s, level_word(Level::Informational)) {
        Some(Level::Informational)
    } else if starts_with(s, level_word(Level::Low)) {
        Some(Level::Low)
    } else if starts_with(s, level_word(Level::Medium)) {
        Some(Level::Medium)
    } else if starts_with(s, level_word(Level::High)) {
        Some(Level::High)
    } else if starts_with(s, level_word(Level::Critical)) {
        Some(Level::Critical)
    } else {
        None
    }
}

/// The part of `s` before its first `#`, or all of `s` when it has none.
pub open spec fn before_hash(s: Seq<char>) -> Seq<char>
    decreases s.len(),
{
    if s.len() == 0 {
        s
    } else if s[0] == '#' {
        Seq::empty()
    } else {
        seq![s[0]] + before_hash(s.drop_first())
    }
}

impl Level {
    /// The word naming this level.
    pub fn as_str(&self) -> (r: &'static str)
        ensures
            r@ == level_word(*self),
    {
        match self {
            Level::Informational => "informational",
            Level::Low => "low",
            Level::Medium => "medium",
            Level::High => "high",
            Level::Critical => "critical",
        }
    }
}

/// Whether `p` is a prefix of `s`.
pub fn str_starts_with(s: &str, p: &str) -> (r: bool)
    ensures
        r == starts_with(s@, p@),
{
    let n = s.unicode_len();
    let m = p.unicode_len();
    if m > n {
        return false;
    }
    let mut i: usize = 0;
    while i < m
        invariant
            m == p@.len(),
            n == s@.len(),
            m <= n,
            i <= m,
            s@.subrange(0, i as int) == p@.subrange(0, i as int),
        decreases m - i,
    {
        if s.get_char(i) != p.get_char(i) {
            assert(s@.subrange(0, m as int)[i as int] != p@[i as int]);
            return false;
        }
        assert(s@.subrange(0, i + 1) == s@.subrange(0, i as int).push(s@[i as int]));
        assert(p@.subrange(0, i + 1) == p@.subrange(0, i as int).push(p@[i as int]));
        i = i + 1;
    }
    assert(p@.subrange(0, m as int) == p@);
    true
}

/// The level whose word begins `s`, if any.
pub fn level_prefix(s: &str) -> (r: Option<Level>)
    ensures
        r == prefix_level(s@),
{
    if str_starts_with(s, Level::Informational.as_str()) {
        Some(Level::Informational)
    } else if str_starts_with(s, Level::Low.as_str()) {
        Some(Level::Low)
    } else if str_starts_with(s, Level::Medium.as_str()) {
        Some(Level::Medium)
    } else if str_starts_with(s, Level::High.as_str()) {
        Some(Level::High)
    } else if str_starts_with(s, Level::Critical.as_str()) {
        Some(Level::Critical)
    } else {
        None
    }
}

proof fn lemma_before_hash_prefix(s: Seq<char>, i: int)
    requires
        0 <= i <= s.len(),
        forall|j: int| 0 <= j < i ==> s[j] != '#',
    ensures
        i < s.len() && s[i] == '#' ==> before_hash(s) == s.subrange(0, i),
        i == s.len() ==> before_hash(s) == s,
    decreases i,
{
    if i > 0 {
        let t = s.drop_first();
        lemma_before_hash_prefix(t, i - 1);
        assert(t.subrange(0, i - 1) == s.subrange(1, i));
        assert(s.subrange(0, i) == seq![s[0]] + s.subrange(1, i));
        assert(i == s.len() ==> seq![s[0]] + t == s);
    } else if s.len() > 0 {
        assert(s.subrange(0, 0) == Seq::<char>::empty());
    }
}

/// `before_hash(s)` is the prefix of `s` up to its first `#`.
proof fn lemma_before_hash_shape(s: Seq<char>)
    ensures
        before_hash(s).len() <= s.len(),
        before_hash(s) == s.subrange(0, before_hash(s).len() as int),
        forall|j: int| 0 <= j < before_hash(s).len() ==> s[j] != '#',
        before_hash(s).len() < s.len() ==> s[before_hash(s).len() as int] == '#',
    decreases s.len(),
{
    if s.len() > 0 && s[0] != '#' {
        let t = s.drop_first();
        lemma_before_hash_shape(t);
        let k = before_hash(t).len() as int;
        assert(s.subrange(0, k + 1) == seq![s[0]] + t.subrange(0, k));
        assert forall|j: int| 0 <= j < before_hash(s).len() implies s[j] != '#' by {
            if j > 0 {
                assert(s[j] == t[j - 1]);
            }
        }
    } else if s.len() > 0 {
        assert(s.subrange(0, 0) == Seq::<char>::empty());
    }
}

proof fn lemma_words_have_no_hash(l: Level)
    ensures
        forall|j: int| 0 <= j < level_word(l).len() ==> level_word(l)[j] != '#',
{
    reveal_strlit("informational");
    reveal_strlit("low");
    reveal_strlit("medium");
    reveal_strlit("high");
    reveal_strlit("critical");
}

proof fn lemma_before_hash_keeps_word(s: Seq<char>, l: Level)
    ensures
        starts_with(before_hash(s), level_word(l)) == starts_with(s, level_word(l)),
{
    let w = level_word(l);
    let b = before_hash(s);
    lemma_before_hash_shape(s);
    lemma_words_have_no_hash(l);
    if starts_with(b, w) {
        assert(s.subrange(0, w.len() as int) == b.subrange(0, w.len() as int));
    }
    if starts_with(s, w) {
        if b.len() < w.len() {
            assert(s[b.len() as int] == w[b.len() as int]);
        }
        assert(b.subrange(0, w.len() as int) == s.subrange(0, w.len() as int));
    }
}

/// Cutting a level field at its first `#` keeps the level it begins with.
pub proof fn lemma_before_hash_keeps_level(s: Seq<char>)
    ensures
        prefix_level(before_hash(s)) == prefix_level(s),
{
    lemma_before_hash_keeps_word(s, Level::Informational);
    lemma_before_hash_keeps_word(s, Level::Low);
    lemma_before_hash_keeps_word(s, Level::Medium);
    lemma_before_hash_keeps_word(s, Level::High);
    lemma_before_hash_keeps_word(s, Level::Critical);
}

/// The part of `s` before its first `#`, or all of `s` when it has none.
pub fn text_before_hash(s: &str) -> (r: &str)
    ensures
        r@ == before_hash(s@),
{
    let n = s.unicode_len();
    let mut i: usize = 0;
    while i < n
        invariant
            n == s@.len(),
            i <= n,
            forall|j: int| 0 <= j < i ==> s@[j] != '#',
        decreases n - i,
    {
        if s.get_char(i) == '#' {
            proof {
                lemma_before_hash_prefix(s@, i as int);
            }
            return s.substring_char(0, i);
        }
        i = i + 1;
    }
    proof {
        lemma_before_hash_prefix(s@, i as int);
        assert(s@.subrange(0, n as int) == s@);
    }
    s.substring_char(0, n)
}

} // verus!
