use vstd::prelude::*;
use crate::ident::{is_rule_id, valid_id};
use crate::text::{split_on, split_text, trim, trim_text};
use crate::level::{before_hash, lemma_before_hash_keeps_level, level_prefix, prefix_level, text_before_hash, Level};

verus! {

/// The validated override table: from rule identifier to the level text
/// given for it (the text of the level field before any `#` comment).
#[verifier::external_body]
pub struct OverrideMap {
    entries: hashbrown::HashMap<String, String>,
}

/// What an override table holds, keyed by identifier.
pub uninterp spec fn override_entries(m: OverrideMap) -> Map<Seq<char>, Seq<char>>;

impl View for OverrideMap {
    type V = Map<Seq<char>, Seq<char>>;

    open spec fn view(&self) -> Map<Seq<char>, Seq<char>> {
        override_entries(*self)
    }
}

/// Relies on hashbrown::HashMap::new: a new map holds no entry.
#[verifier::external_body]
fn empty_overrides() -> (r: OverrideMap)
    ensures
        override_entries(r).dom() == Set::<Seq<char>>::empty(),
{
    OverrideMap { entries: hashbrown::HashMap::new() }
}

/// Relies on hashbrown::HashMap::insert: the key is bound to the value,
/// replacing any earlier value for an equal key; other entries stay.
#[verifier::external_body]
fn insert_override(m: &mut OverrideMap, id: String, level: String)
    ensures
        override_entries(*final(m)) == override_entries(*old(m)).insert(id@, level@),
{
    m.entries.insert(id, level);
}

/// Relies on hashbrown::HashMap::get: the value bound to an equal key, if any.
#[verifier::external_body]
fn lookup_override<'a>(m: &'a OverrideMap, id: &str) -> (r: Option<&'a String>)
    ensures
        match r {
            Some(v) => override_entries(*m).contains_key(id@) && v@ == override_entries(
                *m,
            )[id@],
            None => !override_entries(*m).contains_key(id@),
        },
{
    m.entries.get(id)
}

/// Relies on hashbrown::HashMap::len: the number of entries.
#[verifier::external_body]
fn count_overrides(m: &OverrideMap) -> (r: usize)
    ensures
        r == override_entries(*m).len(),
{
    m.entries.len()
}

impl OverrideMap {
    /// The level text stored for `id`, if the table has an entry for it.
    pub fn level_text(&self, id: &str) -> (r: Option<&str>)
        ensures
            match r {
                Some(t) => self@.contains_key(id@) && t@ == self@[id@],
                None => !self@.contains_key(id@),
            },
    {
        match lookup_override(self, id) {
            Some(v) => Some(v.as_str()),
            None => None,
        }
    }

    /// The number of identifiers in the table.
    pub fn len(&self) -> (r: usize)
        ensures
            r == self@.len(),
    {
        count_overrides(self)
    }

    /// The level a rule with identifier `id` is to be given, or `None` when
    /// the table holds no override for it (such a rule is left untouched).
    pub fn target_for(&self, id: &str) -> (r: Option<Level>)
        ensures
            !self@.contains_key(id@) ==> r is None,
            self@.contains_key(id@) ==> r == prefix_level(self@[id@]),
    {
        match lookup_override(self, id) {
            Some(v) => level_prefix(v.as_str()),
            None => None,
        }
    }
}

/// Why an override table was rejected.
#[derive(Debug)]
pub enum MappingError {
    /// A row has no identifier field.
    MissingId,
    /// A row's identifier is not in the identifier format; it holds that
    /// identifier.
    InvalidId(String),
    /// A row has no level field.
    MissingLevel,
    /// A row's level field does not begin with a level word.
    InvalidLevel,
}

/// The mathematical form of a `MappingError`.
pub enum MappingErrorView {
    MissingId,
    InvalidId(Seq<char>),
    MissingLevel,
    InvalidLevel,
}

impl View for MappingError {
    type V = MappingErrorView;

    open spec fn view(&self) -> MappingErrorView {
        match self {
            MappingError::MissingId => MappingErrorView::MissingId,
            MappingError::InvalidId(id) => MappingErrorView::InvalidId(id@),
            MappingError::MissingLevel => MappingErrorView::MissingLevel,
            MappingError::InvalidLevel => MappingErrorView::InvalidLevel,
        }
    }
}

/// The text shown for an error.
pub open spec fn error_message(e: MappingErrorView) -> Seq<char> {
    match e {
        MappingErrorView::MissingId => "Failed to read id..."@,
        MappingErrorView::InvalidId(id) => "Failed to read level tuning file. "@ + id
            + " is not correct id format, fix it."@,
        MappingErrorView::MissingLevel => "Failed to read level..."@,
        MappingErrorView::InvalidLevel =>
            "level tuning file's level must in informational, low, medium, high, critical"@,
    }
}

impl MappingError {
    /// The text shown for this error.
    pub fn message(&self) -> (r: String)
        ensures
            r@ == error_message(self@),
    {
        match self {
            MappingError::MissingId => String::from_str("Failed to read id..."),
            MappingError::InvalidId(id) => String::from_str(
                "Failed to read level tuning file. ",
            ).concat(id.as_str()).concat(" is not correct id format, fix it."),
            MappingError::MissingLevel => String::from_str("Failed to read level..."),
            MappingError::InvalidLevel => String::from_str(
                "level tuning file's level must in informational, low, medium, high, critical",
            ),
        }
    }
}

/// The text shown when the override table at `path` cannot be read.
pub open spec fn open_error_message(path: Seq<char>) -> Seq<char> {
    "Cannot open file. [file:"@ + path + "]"@
}

/// The text shown when the override table at `path` cannot be read.
pub fn open_error(path: &str) -> (r: String)
    ensures
        r@ == open_error_message(path@),
{
    String::from_str("Cannot open file. [file:").concat(path).concat("]")
}

/// The fields of each row of a table, as character sequences.
pub open spec fn cells(rows: Seq<Vec<String>>) -> Seq<Seq<Seq<char>>> {
    rows.map_values(|r: Vec<String>| r@.map_values(|f: String| f@))
}

/// What is wrong with one row, checked in field order: the identifier
/// first, then the level.
pub open spec fn row_error(row: Seq<Seq<char>>) -> Option<MappingErrorView> {
    if row.len() < 1 {
        Some(MappingErrorView::MissingId)
    } else if !valid_id(row[0]) {
        Some(MappingErrorView::InvalidId(row[0]))
    } else if row.len() < 2 {
        Some(MappingErrorView::MissingLevel)
    } else if prefix_level(row[1]) is None {
        Some(MappingErrorView::InvalidLevel)
    } else {
        None
    }
}

/// The error of the first faulty row among the first `n` rows.
pub open spec fn first_error(rows: Seq<Seq<Seq<char>>>, n: int) -> Option<MappingErrorView>
    decreases n,
{
    if n <= 0 {
        None
    } else {
        match first_error(rows, n - 1) {
            Some(e) => Some(e),
            None => row_error(rows[n - 1]),
        }
    }
}

/// Once a faulty row is met, later rows do not change the error reported.
pub proof fn lemma_first_error_stays(rows: Seq<Seq<Seq<char>>>, k: int, n: int)
    requires
        k <= n,
        first_error(rows, k) is Some,
    ensures
        first_error(rows, n) == first_error(rows, k),
    decreases n - k,
{
    if n > k {
        lemma_first_error_stays(rows, k, n - 1);
    }
}

/// The table built from the first `n` rows, each inserted in turn, so that
/// the last row for an identifier decides its level.
pub open spec fn table_of(rows: Seq<Seq<Seq<char>>>, n: int) -> Map<Seq<char>, Seq<char>>
    decreases n,
{
    if n <= 0 {
        Map::empty()
    } else {
        table_of(rows, n - 1).insert(rows[n - 1][0], before_hash(rows[n - 1][1]))
    }
}

/// Validates the rows of an override table (identifier, level, further
/// fields ignored) and builds the table. The first faulty row decides the
/// error; no table is returned unless every row is well-formed.
pub fn parse_rows(rows: &Vec<Vec<String>>) -> (r: Result<OverrideMap, MappingError>)
    ensures
        match r {
            Ok(m) => first_error(cells(rows@), rows@.len() as int) is None && m@ == table_of(
                cells(rows@),
                rows@.len() as int,
            ),
            Err(e) => first_error(cells(rows@), rows@.len() as int) == Some(e@),
        },
{
    let ghost t = cells(rows@);
    let mut m = empty_overrides();
    let mut i: usize = 0;
    while i < rows.len()
        invariant
            t == cells(rows@),
            i <= rows@.len(),
            first_error(t, i as int) is None,
            m@ == table_of(t, i as int),
        decreases rows@.len() - i,
    {
        let row = &rows[i];
        assert(t[i as int] == row@.map_values(|f: String| f@));
        if row.len() < 1 {
            proof {
                lemma_first_error_stays(t, i + 1, rows@.len() as int);
            }
            return Err(MappingError::MissingId);
        }
        let id = &row[0];
        assert(t[i as int][0] == id@);
        if !is_rule_id(id.as_str()) {
            proof {
                lemma_first_error_stays(t, i + 1, rows@.len() as int);
            }
            return Err(MappingError::InvalidId(id.clone()));
        }
        if row.len() < 2 {
            proof {
                lemma_first_error_stays(t, i + 1, rows@.len() as int);
            }
            return Err(MappingError::MissingLevel);
        }
        let level = &row[1];
        assert(t[i as int][1] == level@);
        if level_prefix(level.as_str()).is_none() {
            proof {
                lemma_first_error_stays(t, i + 1, rows@.len() as int);
            }
            return Err(MappingError::InvalidLevel);
        }
        let stored = String::from_str(text_before_hash(level.as_str()));
        insert_override(&mut m, id.clone(), stored);
        i = i + 1;
    }
    Ok(m)
}

/// The error reported for a table is that of its first faulty row: a faulty
/// row `i` makes the table fail, and when every row before it is
/// well-formed, with `i`'s own fault.
proof fn lemma_faulty_row(rows: Seq<Seq<Seq<char>>>, i: int)
    requires
        0 <= i < rows.len(),
        row_error(rows[i]) is Some,
    ensures
        first_error(rows, rows.len() as int) is Some,
        (forall|j: int| 0 <= j < i ==> #[trigger] row_error(rows[j]) is None) ==> first_error(
            rows,
            rows.len() as int,
        ) == row_error(rows[i]),
{
    assert(first_error(rows, i + 1) is Some);
    lemma_first_error_stays(rows, i + 1, rows.len() as int);
    if forall|j: int| 0 <= j < i ==> #[trigger] row_error(rows[j]) is None {
        lemma_clean_prefix(rows, i);
    }
}

proof fn lemma_clean_prefix(rows: Seq<Seq<Seq<char>>>, k: int)
    requires
        0 <= k <= rows.len(),
        forall|j: int| 0 <= j < k ==> #[trigger] row_error(rows[j]) is None,
    ensures
        first_error(rows, k) is None,
    decreases k,
{
    if k > 0 {
        lemma_clean_prefix(rows, k - 1);
    }
}

/// A row whose identifier is not in the identifier format makes the whole
/// table fail; when the rows before it are well-formed, the error names
/// that identifier.
pub proof fn lemma_bad_id_rejected(rows: Seq<Seq<Seq<char>>>, i: int)
    requires
        0 <= i < rows.len(),
        rows[i].len() >= 1,
        !valid_id(rows[i][0]),
    ensures
        first_error(rows, rows.len() as int) is Some,
        (forall|j: int| 0 <= j < i ==> #[trigger] row_error(rows[j]) is None) ==> first_error(
            rows,
            rows.len() as int,
        ) == Some(MappingErrorView::InvalidId(rows[i][0])),
{
    lemma_faulty_row(rows, i);
}

/// A row with a well-formed identifier whose level field does not begin
/// with a level word makes the whole table fail; when the rows before it
/// are well-formed, with the error on the level.
pub proof fn lemma_bad_level_rejected(rows: Seq<Seq<Seq<char>>>, i: int)
    requires
        0 <= i < rows.len(),
        rows[i].len() >= 2,
        valid_id(rows[i][0]),
        prefix_level(rows[i][1]) is None,
    ensures
        first_error(rows, rows.len() as int) is Some,
        (forall|j: int| 0 <= j < i ==> #[trigger] row_error(rows[j]) is None) ==> first_error(
            rows,
            rows.len() as int,
        ) == Some(MappingErrorView::InvalidLevel),
{
    lemma_faulty_row(rows, i);
}

/// A table built from well-formed rows has one entry per distinct
/// identifier among the rows, and no other; the entry of an identifier is
/// the level field of its last row, cut at the first `#`, and still begins
/// with a level word.
pub proof fn lemma_table_entries(rows: Seq<Seq<Seq<char>>>)
    requires
        first_error(rows, rows.len() as int) is None,
    ensures
        forall|k: Seq<char>|
            #[trigger] table_of(rows, rows.len() as int).contains_key(k) <==> exists|i: int|
                0 <= i < rows.len() && rows[i][0] == k,
        forall|i: int|
            0 <= i < rows.len() && (forall|j: int| i < j < rows.len() ==> rows[j][0] != rows[i][0])
                ==> #[trigger] table_of(rows, rows.len() as int)[rows[i][0]] == before_hash(
                rows[i][1],
            ),
        forall|k: Seq<char>| #[trigger]
            table_of(rows, rows.len() as int).contains_key(k) ==> valid_id(k) && prefix_level(
                table_of(rows, rows.len() as int)[k],
            ) is Some,
{
    lemma_table_prefix(rows, rows.len() as int);
    lemma_table_levels(rows, rows.len() as int);
}

proof fn lemma_table_levels(rows: Seq<Seq<Seq<char>>>, n: int)
    requires
        0 <= n <= rows.len(),
        first_error(rows, n) is None,
    ensures
        forall|k: Seq<char>| #[trigger]
            table_of(rows, n).contains_key(k) ==> valid_id(k) && prefix_level(table_of(rows, n)[k])
                is Some,
    decreases n,
{
    if n > 0 {
        assert(first_error(rows, n - 1) is None);
        assert(row_error(rows[n - 1]) is None);
        lemma_table_levels(rows, n - 1);
        lemma_before_hash_keeps_level(rows[n - 1][1]);
        assert forall|k: Seq<char>| #[trigger] table_of(rows, n).contains_key(k) implies valid_id(k)
            && prefix_level(table_of(rows, n)[k]) is Some by {
            if k != rows[n - 1][0] {
                assert(table_of(rows, n - 1).contains_key(k));
            }
        }
    }
}

proof fn lemma_table_prefix(rows: Seq<Seq<Seq<char>>>, n: int)
    requires
        0 <= n <= rows.len(),
    ensures
        forall|k: Seq<char>|
            #[trigger] table_of(rows, n).contains_key(k) <==> exists|i: int|
                0 <= i < n && rows[i][0] == k,
        forall|i: int|
            0 <= i < n && (forall|j: int| i < j < n ==> rows[j][0] != rows[i][0])
                ==> #[trigger] table_of(rows, n)[rows[i][0]] == before_hash(rows[i][1]),
    decreases n,
{
    if n > 0 {
        lemma_table_prefix(rows, n - 1);
        let t = table_of(rows, n);
        assert forall|k: Seq<char>| #[trigger] t.contains_key(k) <==> exists|i: int|
            0 <= i < n && rows[i][0] == k by {
            if t.contains_key(k) && k != rows[n - 1][0] {
                assert(table_of(rows, n - 1).contains_key(k));
                let i = choose|i: int| 0 <= i < n - 1 && rows[i][0] == k;
                assert(0 <= i < n && rows[i][0] == k);
            }
            if exists|i: int| 0 <= i < n && rows[i][0] == k {
                let i = choose|i: int| 0 <= i < n && rows[i][0] == k;
                if i < n - 1 {
                    assert(table_of(rows, n - 1).contains_key(k));
                }
            }
        }
        assert forall|i: int|
            0 <= i < n && (forall|j: int| i < j < n ==> rows[j][0] != rows[i][0]) implies #[trigger] t[rows[i][0]]
            == before_hash(rows[i][1]) by {
            if i < n - 1 {
                assert(rows[n - 1][0] != rows[i][0]);
                assert(forall|j: int| i < j < n - 1 ==> rows[j][0] != rows[i][0]);
                assert(table_of(rows, n - 1)[rows[i][0]] == before_hash(rows[i][1]));
                assert(t[rows[i][0]] == table_of(rows, n - 1)[rows[i][0]]);
            } else {
                assert(t[rows[n - 1][0]] == before_hash(rows[n - 1][1]));
            }
        }
    }
}

/// The fields of one line of an override table, each without surrounding
/// blanks.
pub open spec fn line_fields(line: Seq<char>) -> Seq<Seq<char>> {
    split_on(line, ',').map_values(|f: Seq<char>| trim(f))
}

/// The rows of an override table given by its lines: one row per line that
/// is not blank, in order.
pub open spec fn rows_of_lines(lines: Seq<Seq<char>>) -> Seq<Seq<Seq<char>>>
    decreases lines.len(),
{
    if lines.len() == 0 {
        Seq::empty()
    } else {
        let init = rows_of_lines(lines.drop_last());
        if trim(lines.last()).len() == 0 {
            init
        } else {
            init.push(line_fields(lines.last()))
        }
    }
}

/// The rows of an override table's text: its lines are separated by line
/// feeds and its fields by commas.
pub open spec fn text_rows(text: Seq<char>) -> Seq<Seq<Seq<char>>> {
    rows_of_lines(split_on(text, '\n'))
}

/// The fields of one line, each without surrounding blanks.
fn fields_of(line: &str) -> (r: Vec<String>)
    ensures
        r@.map_values(|f: String| f@) == line_fields(line@),
{
    let pieces = split_text(line, ',');
    let ghost pv = pieces@.map_values(|p: String| p@);
    let mut r: Vec<String> = Vec::new();
    let mut j: usize = 0;
    while j < pieces.len()
        invariant
            pv == pieces@.map_values(|p: String| p@),
            pv == split_on(line@, ','),
            j <= pieces@.len(),
            r@.map_values(|f: String| f@) == pv.subrange(0, j as int).map_values(
                |f: Seq<char>| trim(f),
            ),
        decreases pieces@.len() - j,
    {
        let ghost before = r@.map_values(|f: String| f@);
        r.push(String::from_str(trim_text(pieces[j].as_str())));
        assert(pv.subrange(0, j + 1) == pv.subrange(0, j as int).push(pv[j as int]));
        assert(r@.map_values(|f: String| f@) == before.push(trim(pv[j as int])));
        j = j + 1;
    }
    assert(pv.subrange(0, j as int) == pv);
    r
}

/// The rows of an override table's text.
pub fn rows_of_text(text: &str) -> (r: Vec<Vec<String>>)
    ensures
        cells(r@) == text_rows(text@),
{
    let lines = split_text(text, '\n');
    let ghost lv = lines@.map_values(|p: String| p@);
    let mut rows: Vec<Vec<String>> = Vec::new();
    let mut i: usize = 0;
    while i < lines.len()
        invariant
            lv == lines@.map_values(|p: String| p@),
            lv == split_on(text@, '\n'),
            i <= lines@.len(),
            cells(rows@) == rows_of_lines(lv.subrange(0, i as int)),
        decreases lines@.len() - i,
    {
        let line = lines[i].as_str();
        let ghost before = cells(rows@);
        assert(lv.subrange(0, i + 1).drop_last() == lv.subrange(0, i as int));
        assert(lv.subrange(0, i + 1).last() == line@);
        if trim_text(line).unicode_len() != 0 {
            let f = fields_of(line);
            rows.push(f);
            assert(cells(rows@) == before.push(line_fields(line@)));
        }
        i = i + 1;
    }
    assert(lv.subrange(0, i as int) == lv);
    rows
}

/// Parses and validates the text of an override table: one row per line
/// that is not blank, fields separated by commas, the identifier first and
/// the level second. The first faulty row decides the error; no table is
/// returned unless every row is well-formed.
pub fn parse(text: &str) -> (r: Result<OverrideMap, MappingError>)
    ensures
        match r {
            Ok(m) => first_error(text_rows(text@), text_rows(text@).len() as int) is None && m@
                == table_of(text_rows(text@), text_rows(text@).len() as int),
            Err(e) => first_error(text_rows(text@), text_rows(text@).len() as int) == Some(e@),
        },
{
    let rows = rows_of_text(text);
    parse_rows(&rows)
}

} // verus!
