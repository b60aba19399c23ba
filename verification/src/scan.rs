// Scans a formula for A1-style references without evaluating it. There is
// no full expression grammar here: finding dependencies only needs the
// reference tokens, and string literals and quoted sheet names skipped
// correctly.

use vstd::prelude::*;

use crate::reference::{
    lemma_letters_col_bound, letters_col, letters_to_col, Cell, CellRange, CellRangeView, NamedRange, NamedRangeView,
    Reference, ReferenceView, TableRef, TableRefView,
};
use crate::laws::well_formed_ref;
use crate::text::{
    ascii_alpha, ascii_digit, chars_of, digit_value, digits_value, is_ascii_alpha, is_ascii_digit,
    is_word_char, name_start_char, push_char, string_of, upper, word_char,
};

verus! {

// ---------------------------------------------------------------------------
// The grammar of reference tokens
// ---------------------------------------------------------------------------

/// Whether position `i` of `s` holds `c`.
pub open spec fn has_char(s: Seq<char>, i: int, c: char) -> bool {
    0 <= i < s.len() && s[i] == c
}

/// The end of the run of letters that starts at `i`.
pub open spec fn alpha_end(s: Seq<char>, i: int) -> int
    decreases s.len() - i,
{
    if 0 <= i < s.len() && ascii_alpha(s[i]) {
        alpha_end(s, i + 1)
    } else {
        i
    }
}

/// The end of the run of digits that starts at `i`.
pub open spec fn digit_end(s: Seq<char>, i: int) -> int
    decreases s.len() - i,
{
    if 0 <= i < s.len() && ascii_digit(s[i]) {
        digit_end(s, i + 1)
    } else {
        i
    }
}

/// The end of the run of word characters that starts at `i`.
pub open spec fn word_end(s: Seq<char>, i: int) -> int
    decreases s.len() - i,
{
    if 0 <= i < s.len() && word_char(s[i]) {
        word_end(s, i + 1)
    } else {
        i
    }
}

/// A cell reference starting at `i`: an optional `$`, one to three
/// letters, an optional `$`, then digits that end the word and give a row
/// from 1 to `u32::MAX`. Gives the cell and the position just past it.
pub open spec fn cell_at(s: Seq<char>, i: int) -> Option<(Cell, int)> {
    let col_absolute = has_char(s, i, '$');
    let ls = if col_absolute {
        i + 1
    } else {
        i
    };
    let le = alpha_end(s, ls);
    let row_absolute = has_char(s, le, '$');
    let ds = if row_absolute {
        le + 1
    } else {
        le
    };
    let de = digit_end(s, ds);
    let row = digits_value(s.subrange(ds, de));
    if le == ls || le - ls > 3 || de == ds || (de < s.len() && word_char(s[de])) || row == 0
        || row > u32::MAX {
        None
    } else {
        Some(
            (
                Cell {
                    col: letters_col(s.subrange(ls, le)) as u32,
                    row: row as u32,
                    col_absolute,
                    row_absolute,
                },
                de,
            ),
        )
    }
}

/// An unquoted sheet qualifier `Name!` starting at `i`: the name and the
/// position just past the `!`.
pub open spec fn unquoted_sheet_at(s: Seq<char>, i: int) -> Option<(Seq<char>, int)> {
    let e = word_end(s, i);
    if 0 <= i < s.len() && name_start_char(s[i]) && has_char(s, e, '!') {
        Some((s.subrange(i, e), e + 1))
    } else {
        None
    }
}

/// The inside of a quoted sheet name from position `pos` on, where `''`
/// stands for one quote: the name and the position just past the closing
/// quote, or `None` where no closing quote comes.
pub open spec fn quoted_body(s: Seq<char>, pos: int) -> Option<(Seq<char>, int)>
    decreases s.len() - pos,
{
    if pos < 0 || pos >= s.len() {
        None
    } else if s[pos] == '\'' {
        if has_char(s, pos + 1, '\'') {
            match quoted_body(s, pos + 2) {
                Some((n, e)) => Some((seq!['\''] + n, e)),
                None => None,
            }
        } else {
            Some((seq![], pos + 1))
        }
    } else {
        match quoted_body(s, pos + 1) {
            Some((n, e)) => Some((seq![s[pos]] + n, e)),
            None => None,
        }
    }
}

/// A quoted sheet qualifier `'Quoted Name'!` starting at `i` (where
/// `s[i]` is the opening quote): the name and the position just past `!`.
pub open spec fn quoted_sheet_at(s: Seq<char>, i: int) -> Option<(Seq<char>, int)> {
    match quoted_body(s, i + 1) {
        Some((n, e)) => if has_char(s, e, '!') {
            Some((n, e + 1))
        } else {
            None
        },
        None => None,
    }
}

/// A bare identifier starting at `i`: a letter or `_` and the word
/// characters after it.
pub open spec fn name_at(s: Seq<char>, i: int) -> Option<(Seq<char>, int)> {
    if 0 <= i < s.len() && name_start_char(s[i]) {
        Some((s.subrange(i, word_end(s, i)), word_end(s, i)))
    } else {
        None
    }
}

/// Scanning brackets from `pos` at nesting `depth`: the position just past
/// the bracket that closes the first one, or `None` where the formula ends
/// first.
pub open spec fn bracket_close(s: Seq<char>, pos: int, depth: nat) -> Option<int>
    decreases s.len() - pos,
{
    if pos < 0 || pos >= s.len() {
        None
    } else if s[pos] == '[' {
        bracket_close(s, pos + 1, depth + 1)
    } else if s[pos] == ']' {
        if depth <= 1 {
            Some(pos + 1)
        } else {
            bracket_close(s, pos + 1, (depth - 1) as nat)
        }
    } else {
        bracket_close(s, pos + 1, depth)
    }
}

/// A balanced `[...]` specifier starting at `i` (where `s[i]` is `[`): the
/// text inside the outer brackets and the position just past them.
pub open spec fn bracket_at(s: Seq<char>, i: int) -> Option<(Seq<char>, int)> {
    match bracket_close(s, i, 0) {
        Some(after) => Some((s.subrange(i + 1, after - 1), after)),
        None => None,
    }
}

/// The position just past a string literal whose body starts at `pos`,
/// where `""` stands for one quote; the end of the formula where the
/// literal is not closed.
pub open spec fn string_end(s: Seq<char>, pos: int) -> int
    decreases s.len() - pos,
{
    if pos < 0 || pos >= s.len() {
        pos
    } else if s[pos] == '"' {
        if has_char(s, pos + 1, '"') {
            string_end(s, pos + 2)
        } else {
            pos + 1
        }
    } else {
        string_end(s, pos + 1)
    }
}

/// `TRUE` or `FALSE`, in any case.
pub open spec fn is_boolean_name(name: Seq<char>) -> bool {
    let u = name.map_values(|c: char| upper(c));
    u =~= seq!['T', 'R', 'U', 'E'] || u =~= seq!['F', 'A', 'L', 'S', 'E']
}

/// What follows a (possibly absent) sheet qualifier that ends at `cs`: a
/// cell or range, a table reference, a defined name, or a word that is
/// none of these (a function name or a boolean). Gives the reference found,
/// if any, and where scanning resumes.
pub open spec fn token_at(s: Seq<char>, i: int, sheet: Option<Seq<char>>, cs: int) -> (
    Option<ReferenceView>,
    int,
) {
    match cell_at(s, cs) {
        Some((start, pos)) => {
            let end_cell = if has_char(s, pos, ':') {
                cell_at(s, pos + 1)
            } else {
                None
            };
            match end_cell {
                Some((e, next)) => (
                    Some(ReferenceView::Cell(CellRangeView { sheet, start, end: Some(e) })),
                    next,
                ),
                None => (Some(ReferenceView::Cell(CellRangeView { sheet, start, end: None })), pos),
            }
        },
        None => match name_at(s, cs) {
            Some((name, next)) => {
                let table = if has_char(s, next, '[') {
                    bracket_at(s, next)
                } else {
                    None
                };
                match table {
                    Some((specifier, after)) => (
                        Some(ReferenceView::Table(TableRefView { table: name, specifier })),
                        after,
                    ),
                    None => if has_char(s, next, '(') || is_boolean_name(name) {
                        (None, next)
                    } else {
                        (Some(ReferenceView::Named(NamedRangeView { sheet, name })), next)
                    },
                }
            },
            None => if sheet is Some {
                (None, cs)
            } else {
                (None, i + 1)
            },
        },
    }
}

/// The sheet qualifier that starts at `i`, if any.
pub open spec fn sheet_at(s: Seq<char>, i: int) -> Option<(Seq<char>, int)> {
    if s[i] == '\'' {
        quoted_sheet_at(s, i)
    } else if name_start_char(s[i]) {
        unquoted_sheet_at(s, i)
    } else {
        None
    }
}

/// One step of the scan at `i < s.len()`: the reference found there, if
/// any, and where scanning resumes. String literals are skipped whole; a
/// quote that opens no sheet name is skipped on its own.
pub open spec fn step(s: Seq<char>, i: int) -> (Option<ReferenceView>, int) {
    if s[i] == '"' {
        (None, string_end(s, i + 1))
    } else {
        match sheet_at(s, i) {
            Some((name, cs)) => token_at(s, i, Some(name), cs),
            None => if s[i] == '\'' {
                (None, i + 1)
            } else {
                token_at(s, i, None, i)
            },
        }
    }
}

/// The references of `s` from position `i` on, in order.
pub open spec fn scan(s: Seq<char>, i: int) -> Seq<ReferenceView>
    decreases s.len() - i,
    via scan_decreases
{
    if i < 0 || i >= s.len() {
        seq![]
    } else {
        let (r, next) = step(s, i);
        match r {
            Some(x) => seq![x] + scan(s, next),
            None => scan(s, next),
        }
    }
}

/// The references of a formula, in the order they appear.
pub open spec fn references_of(formula: Seq<char>) -> Seq<ReferenceView> {
    scan(formula, 0)
}

/// The models of a sequence of references.
pub open spec fn views(refs: Seq<Reference>) -> Seq<ReferenceView> {
    refs.map_values(|r: Reference| r@)
}

// ---------------------------------------------------------------------------
// Lemmas: every token ends after it starts and within the formula
// ---------------------------------------------------------------------------

pub(crate) proof fn lemma_alpha_end(s: Seq<char>, i: int)
    requires
        0 <= i <= s.len(),
    ensures
        i <= alpha_end(s, i) <= s.len(),
        forall|k: int| i <= k < alpha_end(s, i) ==> #[trigger] ascii_alpha(s[k]),
    decreases s.len() - i,
{
    if i < s.len() && ascii_alpha(s[i]) {
        lemma_alpha_end(s, i + 1);
    }
}

pub(crate) proof fn lemma_digit_end(s: Seq<char>, i: int)
    requires
        0 <= i <= s.len(),
    ensures
        i <= digit_end(s, i) <= s.len(),
        forall|k: int| i <= k < digit_end(s, i) ==> #[trigger] ascii_digit(s[k]),
    decreases s.len() - i,
{
    if i < s.len() && ascii_digit(s[i]) {
        lemma_digit_end(s, i + 1);
    }
}

pub(crate) proof fn lemma_word_end(s: Seq<char>, i: int)
    requires
        0 <= i <= s.len(),
    ensures
        i <= word_end(s, i) <= s.len(),
        forall|k: int| i <= k < word_end(s, i) ==> #[trigger] word_char(s[k]),
    decreases s.len() - i,
{
    if i < s.len() && word_char(s[i]) {
        lemma_word_end(s, i + 1);
    }
}

proof fn lemma_cell_at_bounds(s: Seq<char>, i: int)
    requires
        0 <= i <= s.len(),
    ensures
        cell_at(s, i) matches Some((c, p)) ==> i < p <= s.len(),
{
    let ls = if has_char(s, i, '$') {
        i + 1
    } else {
        i
    };
    lemma_alpha_end(s, ls);
    let le = alpha_end(s, ls);
    let ds = if has_char(s, le, '$') {
        le + 1
    } else {
        le
    };
    lemma_digit_end(s, ds);
}

pub(crate) proof fn lemma_quoted_body_bounds(s: Seq<char>, pos: int)
    ensures
        quoted_body(s, pos) matches Some((n, e)) ==> pos < e <= s.len(),
    decreases s.len() - pos,
{
    if 0 <= pos < s.len() {
        if s[pos] == '\'' {
            if has_char(s, pos + 1, '\'') {
                lemma_quoted_body_bounds(s, pos + 2);
            }
        } else {
            lemma_quoted_body_bounds(s, pos + 1);
        }
    }
}

pub(crate) proof fn lemma_bracket_close_bounds(s: Seq<char>, pos: int, depth: nat)
    ensures
        bracket_close(s, pos, depth) matches Some(e) ==> pos < e <= s.len(),
    decreases s.len() - pos,
{
    if 0 <= pos < s.len() {
        if s[pos] == '[' {
            lemma_bracket_close_bounds(s, pos + 1, depth + 1);
        } else if s[pos] == ']' {
            if depth > 1 {
                lemma_bracket_close_bounds(s, pos + 1, (depth - 1) as nat);
            }
        } else {
            lemma_bracket_close_bounds(s, pos + 1, depth);
        }
    }
}

proof fn lemma_string_end_bounds(s: Seq<char>, pos: int)
    requires
        0 <= pos <= s.len(),
    ensures
        pos <= string_end(s, pos) <= s.len(),
    decreases s.len() - pos,
{
    if pos < s.len() {
        if s[pos] == '"' {
            if has_char(s, pos + 1, '"') {
                lemma_string_end_bounds(s, pos + 2);
            }
        } else {
            lemma_string_end_bounds(s, pos + 1);
        }
    }
}

proof fn lemma_token_bounds(s: Seq<char>, i: int, sheet: Option<Seq<char>>, cs: int)
    requires
        0 <= i < s.len(),
        i <= cs <= s.len(),
        sheet is None ==> cs == i,
        sheet is Some ==> i < cs,
    ensures
        i < token_at(s, i, sheet, cs).1 <= s.len(),
{
    lemma_cell_at_bounds(s, cs);
    if let Some((start, pos)) = cell_at(s, cs) {
        if has_char(s, pos, ':') {
            lemma_cell_at_bounds(s, pos + 1);
        }
    } else {
        lemma_word_end(s, cs);
        if let Some((name, next)) = name_at(s, cs) {
            lemma_word_end(s, cs + 1);
            if has_char(s, next, '[') {
                lemma_bracket_close_bounds(s, next, 0);
            }
        }
    }
}

/// Each step of the scan moves forward and stays within the formula, so
/// scanning always ends.
pub proof fn law_step_advances(s: Seq<char>, i: int)
    requires
        0 <= i < s.len(),
    ensures
        i < step(s, i).1 <= s.len(),
{
    if s[i] == '"' {
        lemma_string_end_bounds(s, i + 1);
    } else {
        lemma_quoted_body_bounds(s, i + 1);
        lemma_word_end(s, i);
        match sheet_at(s, i) {
            Some((name, cs)) => lemma_token_bounds(s, i, Some(name), cs),
            None => if s[i] != '\'' {
                lemma_token_bounds(s, i, None, i);
            },
        }
    }
}

#[via_fn]
proof fn scan_decreases(s: Seq<char>, i: int) {
    if 0 <= i < s.len() {
        law_step_advances(s, i);
    }
}


// ---------------------------------------------------------------------------
// Executable scanner
// ---------------------------------------------------------------------------

/// Whether `v[pos]` exists and is `c`.
fn char_is(v: &Vec<char>, pos: usize, c: char) -> (b: bool)
    ensures
        b == has_char(v@, pos as int, c),
{
    pos < v.len() && v[pos] == c
}

/// The end of the run of letters from `i`.
fn skip_alpha(v: &Vec<char>, i: usize) -> (e: usize)
    ensures
        e == alpha_end(v@, i as int),
        i <= e,
        e > i ==> e <= v.len(),
{
    let mut pos = i;
    while pos < v.len() && is_ascii_alpha(v[pos])
        invariant
            i <= pos,
            pos > i ==> pos <= v.len(),
            alpha_end(v@, i as int) == alpha_end(v@, pos as int),
        decreases v.len() - pos,
    {
        pos = pos + 1;
    }
    pos
}

/// The end of the run of digits from `i`.
fn skip_digits(v: &Vec<char>, i: usize) -> (e: usize)
    ensures
        e == digit_end(v@, i as int),
        i <= e,
        e > i ==> e <= v.len(),
{
    let mut pos = i;
    while pos < v.len() && is_ascii_digit(v[pos])
        invariant
            i <= pos,
            pos > i ==> pos <= v.len(),
            digit_end(v@, i as int) == digit_end(v@, pos as int),
        decreases v.len() - pos,
    {
        pos = pos + 1;
    }
    pos
}

/// The end of the run of word characters from `i`.
fn skip_word(v: &Vec<char>, i: usize) -> (e: usize)
    ensures
        e == word_end(v@, i as int),
        i <= e,
        e > i ==> e <= v.len(),
{
    let mut pos = i;
    while pos < v.len() && is_word_char(v[pos])
        invariant
            i <= pos,
            pos > i ==> pos <= v.len(),
            word_end(v@, i as int) == word_end(v@, pos as int),
        decreases v.len() - pos,
    {
        pos = pos + 1;
    }
    pos
}

/// The row number written by the digits `v[from..to]`, or `None` where it
/// exceeds `u32::MAX`.
fn digits_to_row(v: &Vec<char>, from: usize, to: usize) -> (r: Option<u32>)
    requires
        from <= to <= v.len(),
        forall|k: int| from <= k < to ==> #[trigger] ascii_digit(v@[k]),
    ensures
        match r {
            Some(n) => n == digits_value(v@.subrange(from as int, to as int)),
            None => digits_value(v@.subrange(from as int, to as int)) > u32::MAX,
        },
{
    let mut n: u64 = 0;
    let mut k = from;
    while k < to
        invariant
            from <= k <= to <= v.len(),
            forall|j: int| from <= j < to ==> #[trigger] ascii_digit(v@[j]),
            n == digits_value(v@.subrange(from as int, k as int)),
            n <= u32::MAX,
        decreases to - k,
    {
        assert(ascii_digit(v@[k as int]));
        let d = (v[k] as u32 - '0' as u32) as u64;
        assert(d == digit_value(v@[k as int]));
        assert(v@.subrange(from as int, k + 1).drop_last() =~= v@.subrange(from as int, k as int));
        n = n * 10 + d;
        k = k + 1;
        if n > 4294967295u64 {
            proof {
                lemma_digits_value_prefix(v@.subrange(from as int, to as int), k - from);
                assert(v@.subrange(from as int, to as int).subrange(0, k - from) =~= v@.subrange(
                    from as int,
                    k as int,
                ));
            }
            return None;
        }
    }
    Some(n as u32)
}

/// A prefix of a digit string reads as no more than the whole.
proof fn lemma_digits_value_prefix(s: Seq<char>, k: int)
    requires
        0 <= k <= s.len(),
    ensures
        digits_value(s.subrange(0, k)) <= digits_value(s),
    decreases s.len() - k,
{
    if k < s.len() {
        lemma_digits_value_prefix(s, k + 1);
        assert(s.subrange(0, k + 1).drop_last() =~= s.subrange(0, k));
    } else {
        assert(s.subrange(0, k) =~= s);
    }
}

/// Tries to read a cell reference at `v[i]`: the cell and the position
/// just past it.
fn try_parse_cell(v: &Vec<char>, i: usize) -> (r: Option<(Cell, usize)>)
    ensures
        match r {
            Some((c, p)) => cell_at(v@, i as int) == Some((c, p as int)),
            None => cell_at(v@, i as int) is None,
        },
        r matches Some((c, p)) ==> 1 <= c.col <= 18278 && c.row >= 1 && i + 2 <= p <= v@.len(),
{
    proof {
        crate::laws::law_cell_at_readable(v@, i as int);
    }
    let ghost s = v@;
    assert(s.len() == v.len());
    let mut pos = i;
    let col_absolute = char_is(v, pos, '$');
    if col_absolute {
        pos = pos + 1;
    }
    let letters_start = pos;
    pos = skip_alpha(v, pos);
    if pos == letters_start || pos - letters_start > 3 {
        return None;
    }
    proof {
        lemma_alpha_end(s, letters_start as int);
    }
    let letters_end = pos;
    let row_absolute = char_is(v, pos, '$');
    if row_absolute {
        pos = pos + 1;
    }
    let digits_start = pos;
    pos = skip_digits(v, pos);
    proof {
        lemma_digit_end(s, digits_start as int);
    }
    if pos == digits_start {
        return None;
    }
    // A match inside a longer identifier, such as the `A1` in
    // `MyRangeA1Name`, is no reference.
    if pos < v.len() && is_word_char(v[pos]) {
        return None;
    }
    let row = match digits_to_row(v, digits_start, pos) {
        Some(n) => n,
        None => {
            return None;
        },
    };
    if row == 0 {
        return None;
    }
    proof {
        lemma_letters_col_bound(s.subrange(letters_start as int, letters_end as int));
    }
    let col = letters_to_col(v, letters_start, letters_end);
    Some((Cell { col, row, col_absolute, row_absolute }, pos))
}

/// Tries to read `Name!` (an unquoted sheet name) at `v[i]`.
fn try_parse_unquoted_sheet(v: &Vec<char>, i: usize) -> (r: Option<(String, usize)>)
    ensures
        match r {
            Some((n, p)) => unquoted_sheet_at(v@, i as int) == Some((n@, p as int)),
            None => unquoted_sheet_at(v@, i as int) is None,
        },
{
    if !(i < v.len() && (is_ascii_alpha(v[i]) || v[i] == '_')) {
        return None;
    }
    let pos = skip_word(v, i);
    proof {
        lemma_word_end(v@, i as int);
    }
    if char_is(v, pos, '!') {
        Some((string_of(v, i, pos), pos + 1))
    } else {
        None
    }
}

/// Tries to read `'Quoted Name'!` at `v[i]`, where `v[i]` is `'`.
fn try_parse_quoted_sheet(v: &Vec<char>, i: usize) -> (r: Option<(String, usize)>)
    requires
        i < v.len(),
        v@[i as int] == '\'',
    ensures
        match r {
            Some((n, p)) => quoted_sheet_at(v@, i as int) == Some((n@, p as int)),
            None => quoted_sheet_at(v@, i as int) is None,
        },
{
    let ghost s = v@;
    let mut pos = i + 1;
    let mut name = String::new();
    loop
        invariant_except_break
            i + 1 <= pos <= s.len(),
            v@ == s,
            quoted_body(s, i + 1 as int) == match quoted_body(s, pos as int) {
                Some((n, e)) => Some((name@ + n, e)),
                None => None,
            },
        ensures
            pos <= s.len(),
            quoted_body(s, i + 1 as int) == Some((name@, pos as int)),
        decreases s.len() - pos,
    {
        if pos >= v.len() {
            return None;
        }
        let c = v[pos];
        if c == '\'' {
            if char_is(v, pos + 1, '\'') {
                let ghost before = name@;
                push_char(&mut name, '\'');
                proof {
                    match quoted_body(s, pos + 2) {
                        Some((n, e)) => {
                            assert(before + (seq!['\''] + n) =~= name@ + n);
                        },
                        None => {},
                    }
                }
                pos = pos + 2;
            } else {
                pos = pos + 1;
                assert(name@ + Seq::<char>::empty() =~= name@);
                break ;
            }
        } else {
            let ghost before = name@;
            push_char(&mut name, c);
            proof {
                match quoted_body(s, pos + 1) {
                    Some((n, e)) => {
                        assert(before + (seq![c] + n) =~= name@ + n);
                    },
                    None => {},
                }
            }
            pos = pos + 1;
        }
    }
    if char_is(v, pos, '!') {
        Some((name, pos + 1))
    } else {
        None
    }
}

/// Tries to read a bare identifier at `v[i]`: a letter or `_`, then
/// letters, digits, `_` or `.`. Only the word boundary is found here; the
/// caller decides what the word is.
fn try_parse_name(v: &Vec<char>, i: usize) -> (r: Option<(String, usize)>)
    ensures
        match r {
            Some((n, p)) => name_at(v@, i as int) == Some((n@, p as int)),
            None => name_at(v@, i as int) is None,
        },
{
    if !(i < v.len() && (is_ascii_alpha(v[i]) || v[i] == '_')) {
        return None;
    }
    let pos = skip_word(v, i);
    proof {
        lemma_word_end(v@, i as int);
    }
    Some((string_of(v, i, pos), pos))
}

/// Reads a balanced `[...]` specifier at `v[i]` (where `v[i]` is `[`),
/// following nested brackets: the text inside the outer brackets and the
/// position just past them, or `None` where they never balance.
fn try_parse_bracket_specifier(v: &Vec<char>, i: usize) -> (r: Option<(String, usize)>)
    requires
        i < v.len(),
        v@[i as int] == '[',
    ensures
        match r {
            Some((n, p)) => bracket_at(v@, i as int) == Some((n@, p as int)),
            None => bracket_at(v@, i as int) is None,
        },
{
    let ghost s = v@;
    let inner_start = i + 1;
    let mut depth: usize = 0;
    let mut pos = i;
    loop
        invariant
            i < s.len(),
            i <= pos <= s.len(),
            inner_start == i + 1,
            v@ == s,
            s[i as int] == '[',
            (pos == i && depth == 0) || (pos > i && depth >= 1),
            depth <= pos - i,
            bracket_close(s, i as int, 0) == bracket_close(s, pos as int, depth as nat),
        decreases s.len() - pos,
    {
        if pos >= v.len() {
            return None;
        }
        let c = v[pos];
        if c == '[' {
            depth = depth + 1;
            pos = pos + 1;
        } else if c == ']' {
            depth = depth - 1;
            pos = pos + 1;
            if depth == 0 {
                proof {
                    lemma_bracket_close_bounds(s, i as int, 0);
                }
                return Some((string_of(v, inner_start, pos - 1), pos));
            }
        } else {
            pos = pos + 1;
        }
    }
}

/// The position just past the string literal that opens at `v[i]`.
fn skip_string_literal(v: &Vec<char>, i: usize) -> (e: usize)
    requires
        i < usize::MAX,
    ensures
        e == string_end(v@, i + 1 as int),
{
    let mut pos = i + 1;
    loop
        invariant
            i + 1 <= pos,
            pos > i + 1 ==> pos <= v.len(),
            string_end(v@, i + 1 as int) == string_end(v@, pos as int),
        decreases v.len() - pos,
    {
        if pos >= v.len() {
            return pos;
        }
        if v[pos] == '"' {
            if char_is(v, pos + 1, '"') {
                pos = pos + 2;
            } else {
                return pos + 1;
            }
        } else {
            pos = pos + 1;
        }
    }
}

/// Whether `c` is `u` in either case, for an upper-case letter `u`.
fn upper_is(c: char, u: char) -> (b: bool)
    requires
        'A' <= u <= 'Z',
    ensures
        b == (upper(c) == u),
{
    c == u || (c as u32) == (u as u32) + 32
}

/// Whether the word `v[from..to]` is `TRUE` or `FALSE` in any case.
fn is_boolean_literal(v: &Vec<char>, from: usize, to: usize) -> (b: bool)
    requires
        from <= to <= v.len(),
    ensures
        b == is_boolean_name(v@.subrange(from as int, to as int)),
{
    let ghost w = v@.subrange(from as int, to as int);
    let ghost u = w.map_values(|c: char| upper(c));
    if to - from == 4 {
        let b = upper_is(v[from], 'T') && upper_is(v[from + 1], 'R') && upper_is(v[from + 2], 'U')
            && upper_is(v[from + 3], 'E');
        assert(u.len() == 4);
        assert(u[0] == upper(v@[from as int]));
        assert(u[1] == upper(v@[from + 1]));
        assert(u[2] == upper(v@[from + 2]));
        assert(u[3] == upper(v@[from + 3]));
        if b {
            assert(u =~= seq!['T', 'R', 'U', 'E']);
        } else {
            assert(!(u =~= seq!['T', 'R', 'U', 'E']));
        }
        b
    } else if to - from == 5 {
        let b = upper_is(v[from], 'F') && upper_is(v[from + 1], 'A') && upper_is(v[from + 2], 'L')
            && upper_is(v[from + 3], 'S') && upper_is(v[from + 4], 'E');
        assert(u.len() == 5);
        assert(u[0] == upper(v@[from as int]));
        assert(u[1] == upper(v@[from + 1]));
        assert(u[2] == upper(v@[from + 2]));
        assert(u[3] == upper(v@[from + 3]));
        assert(u[4] == upper(v@[from + 4]));
        if b {
            assert(u =~= seq!['F', 'A', 'L', 'S', 'E']);
        } else {
            assert(!(u =~= seq!['F', 'A', 'L', 'S', 'E']));
        }
        b
    } else {
        false
    }
}

/// The model of an optional reference.
pub open spec fn opt_ref_view(r: Option<Reference>) -> Option<ReferenceView> {
    match r {
        Some(x) => Some(x@),
        None => None,
    }
}

/// One step of the scan at `v[i]`: the reference found there, if any, and
/// where scanning resumes.
fn next_token(v: &Vec<char>, i: usize) -> (r: (Option<Reference>, usize))
    requires
        i < v.len(),
    ensures
        (opt_ref_view(r.0), r.1 as int) == step(v@, i as int),
        i < r.1 <= v.len(),
{
    let ghost s = v@;
    proof {
        law_step_advances(s, i as int);
    }
    let c = v[i];
    if c == '"' {
        return (None, skip_string_literal(v, i));
    }
    let mut sheet: Option<String> = None;
    let mut cell_start = i;
    if c == '\'' {
        match try_parse_quoted_sheet(v, i) {
            Some((name, next)) => {
                sheet = Some(name);
                cell_start = next;
            },
            None => {
                return (None, i + 1);
            },
        }
    } else if is_ascii_alpha(c) || c == '_' {
        match try_parse_unquoted_sheet(v, i) {
            Some((name, next)) => {
                sheet = Some(name);
                cell_start = next;
            },
            None => {},
        }
    }
    proof {
        lemma_quoted_body_bounds(s, i + 1);
        lemma_word_end(s, i as int);
    }
    let ghost sv: Option<Seq<char>> = crate::reference::opt_view(sheet);
    assert(step(s, i as int) == token_at(s, i as int, sv, cell_start as int));
    assert(cell_start <= v.len());
    if let Some((start, pos0)) = try_parse_cell(v, cell_start) {
        let mut pos = pos0;
        let mut end: Option<Cell> = None;
        proof {
            lemma_cell_at_bounds(s, cell_start as int);
        }
        if char_is(v, pos, ':') {
            if let Some((end_cell, next)) = try_parse_cell(v, pos + 1) {
                end = Some(end_cell);
                pos = next;
            }
        }
        return (Some(Reference::Cell(CellRange { sheet, start, end })), pos);
    }
    if let Some((name, next)) = try_parse_name(v, cell_start) {
        proof {
            lemma_word_end(s, cell_start as int);
        }
        // A name right before `[` is a structured table reference.
        if char_is(v, next, '[') {
            if let Some((specifier, after)) = try_parse_bracket_specifier(v, next) {
                return (Some(Reference::Table(TableRef { table: name, specifier })), after);
            }
        }
        // A name right before `(` is a function call, and TRUE/FALSE are
        // boolean literals; either way the whole word is consumed.
        let is_function_call = char_is(v, next, '(');
        let is_boolean = is_boolean_literal(v, cell_start, next);
        if !is_function_call && !is_boolean {
            return (Some(Reference::Named(NamedRange { sheet, name })), next);
        }
        return (None, next);
    }
    if sheet.is_some() {
        // The sheet name was not followed by a reference: resume right
        // after the `!`.
        return (None, cell_start);
    }
    (None, i + 1)
}

/// Every cell, range, table and defined-name reference in `formula`, in
/// the order they appear. Text inside string literals is skipped; function
/// names and `TRUE`/`FALSE` are not names. No input is rejected: anything
/// that is no reference is passed over.
pub fn extract(formula: &str) -> (refs: Vec<Reference>)
    ensures
        views(refs@) == references_of(formula@),
        refs@.len() <= formula@.len(),
        forall|k: int| 0 <= k < refs@.len() ==> well_formed_ref(#[trigger] refs@[k]@),
{
    proof {
        crate::laws::law_references_well_formed(formula@);
    }
    let chars = chars_of(formula);
    let ghost s = chars@;
    let mut refs: Vec<Reference> = Vec::new();
    let mut i: usize = 0;
    while i < chars.len()
        invariant
            chars@ == s,
            i <= s.len(),
            views(refs@) + scan(s, i as int) == scan(s, 0),
        decreases s.len() - i,
    {
        let (r, next) = next_token(&chars, i);
        let ghost before = refs@;
        match r {
            Some(x) => {
                refs.push(x);
                assert(views(refs@) =~= views(before).push(x@));
                assert(views(before) + (seq![x@] + scan(s, next as int)) =~= views(refs@) + scan(
                    s,
                    next as int,
                ));
            },
            None => {
                assert(refs@ == before);
            },
        }
        i = next;
    }
    assert(views(refs@) + scan(s, i as int) =~= views(refs@));
    assert forall|k: int| 0 <= k < refs@.len() implies well_formed_ref(#[trigger] refs@[k]@) by {
        assert(views(refs@)[k] == refs@[k]@);
    }
    refs
}

} // verus!
