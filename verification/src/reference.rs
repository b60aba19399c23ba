use vstd::prelude::*;

use crate::text::{
    ascii_alpha, chars_of, decimal, letter_char, letter_value, push_char,
    push_decimal, word_char, is_word_char,
};

verus! {

// ---------------------------------------------------------------------------
// Types
// ---------------------------------------------------------------------------

/// One cell in A1 notation. `col` and `row` count from 1 (`A` is column 1).
#[derive(Debug, Clone, Copy, PartialEq, Eq, Structural)]
pub struct Cell {
    pub col: u32,
    pub row: u32,
    pub col_absolute: bool,
    pub row_absolute: bool,
}

/// A single cell or a rectangular range, optionally qualified by a sheet.
#[derive(Debug, Clone, PartialEq)]
pub struct CellRange {
    pub sheet: Option<String>,
    pub start: Cell,
    pub end: Option<Cell>,
}

/// A defined name (workbook- or sheet-scoped) used in place of a cell
/// reference, e.g. `TaxRate` in `=A1*TaxRate`.
#[derive(Debug, Clone, PartialEq)]
pub struct NamedRange {
    pub sheet: Option<String>,
    pub name: String,
}

/// A structured reference into a table, e.g. `Table1[Column1]`; `specifier`
/// is the text inside the outer brackets, verbatim.
#[derive(Debug, Clone, PartialEq)]
pub struct TableRef {
    pub table: String,
    pub specifier: String,
}

/// Any reference that a formula can depend on.
#[derive(Debug, Clone, PartialEq)]
pub enum Reference {
    Cell(CellRange),
    Named(NamedRange),
    Table(TableRef),
}

// ---------------------------------------------------------------------------
// Mathematical models
// ---------------------------------------------------------------------------

/// The model of a `CellRange`: its strings as character sequences.
pub struct CellRangeView {
    pub sheet: Option<Seq<char>>,
    pub start: Cell,
    pub end: Option<Cell>,
}

/// The model of a `NamedRange`.
pub struct NamedRangeView {
    pub sheet: Option<Seq<char>>,
    pub name: Seq<char>,
}

/// The model of a `TableRef`.
pub struct TableRefView {
    pub table: Seq<char>,
    pub specifier: Seq<char>,
}

/// The model of a `Reference`.
pub enum ReferenceView {
    Cell(CellRangeView),
    Named(NamedRangeView),
    Table(TableRefView),
}

/// The model of an optional string.
pub open spec fn opt_view(o: Option<String>) -> Option<Seq<char>> {
    match o {
        Some(s) => Some(s@),
        None => None,
    }
}

impl View for CellRange {
    type V = CellRangeView;

    open spec fn view(&self) -> CellRangeView {
        CellRangeView { sheet: opt_view(self.sheet), start: self.start, end: self.end }
    }
}

impl View for NamedRange {
    type V = NamedRangeView;

    open spec fn view(&self) -> NamedRangeView {
        NamedRangeView { sheet: opt_view(self.sheet), name: self.name@ }
    }
}

impl View for TableRef {
    type V = TableRefView;

    open spec fn view(&self) -> TableRefView {
        TableRefView { table: self.table@, specifier: self.specifier@ }
    }
}

impl View for Reference {
    type V = ReferenceView;

    open spec fn view(&self) -> ReferenceView {
        match self {
            Reference::Cell(c) => ReferenceView::Cell(c@),
            Reference::Named(n) => ReferenceView::Named(n@),
            Reference::Table(t) => ReferenceView::Table(t@),
        }
    }
}

// ---------------------------------------------------------------------------
// A1 notation, as specifications
// ---------------------------------------------------------------------------

/// The column letters of column `n`: bijective base 26, so 1 is `A`, 26 is
/// `Z`, 27 is `AA`; column 0 has no letters.
pub open spec fn col_letters(n: nat) -> Seq<char>
    decreases n,
{
    if n == 0 {
        seq![]
    } else {
        col_letters(((n - 1) / 26) as nat).push(letter_char(((n - 1) % 26) as nat))
    }
}

/// The column number that a run of letters names (either case).
pub open spec fn letters_col(s: Seq<char>) -> nat
    decreases s.len(),
{
    if s.len() == 0 {
        0
    } else {
        letters_col(s.drop_last()) * 26 + letter_value(s.last())
    }
}

/// `s` with each `'` doubled.
pub open spec fn doubled_quotes(s: Seq<char>) -> Seq<char>
    decreases s.len(),
{
    if s.len() == 0 {
        seq![]
    } else if s.last() == '\'' {
        doubled_quotes(s.drop_last()) + seq!['\'', '\'']
    } else {
        doubled_quotes(s.drop_last()).push(s.last())
    }
}

/// Whether every character of `s` is a word character.
pub open spec fn all_word_chars(s: Seq<char>) -> bool {
    forall|k: int| 0 <= k < s.len() ==> #[trigger] word_char(s[k])
}

/// A sheet name as written in a reference: bare when it holds only word
/// characters, otherwise in single quotes with inner quotes doubled.
pub open spec fn quoted_sheet(name: Seq<char>) -> Seq<char> {
    if all_word_chars(name) {
        name
    } else {
        seq!['\''] + doubled_quotes(name) + seq!['\'']
    }
}

/// `Sheet!` before a reference, or nothing.
pub open spec fn sheet_prefix(sheet: Option<Seq<char>>) -> Seq<char> {
    match sheet {
        Some(s) => quoted_sheet(s).push('!'),
        None => seq![],
    }
}

/// A cell in A1 notation, such as `$B$12`.
pub open spec fn cell_a1(c: Cell) -> Seq<char> {
    (if c.col_absolute {
        seq!['$']
    } else {
        seq![]
    }) + col_letters(c.col as nat) + (if c.row_absolute {
        seq!['$']
    } else {
        seq![]
    }) + decimal(c.row as nat)
}

/// A cell range in A1 notation, such as `Sheet1!A1:B10`.
pub open spec fn range_a1(r: CellRangeView) -> Seq<char> {
    sheet_prefix(r.sheet) + cell_a1(r.start) + match r.end {
        Some(e) => seq![':'] + cell_a1(e),
        None => seq![],
    }
}

/// A cell range in A1 notation without its sheet, such as `A1:B10`.
pub open spec fn range_local_a1(r: CellRangeView) -> Seq<char> {
    cell_a1(r.start) + match r.end {
        Some(e) => seq![':'] + cell_a1(e),
        None => seq![],
    }
}

/// A defined name, with its sheet if it has one.
pub open spec fn named_a1(n: NamedRangeView) -> Seq<char> {
    sheet_prefix(n.sheet) + n.name
}

/// A table reference, such as `Table1[Sales]`.
pub open spec fn table_a1(t: TableRefView) -> Seq<char> {
    t.table + seq!['['] + t.specifier + seq![']']
}

/// Any reference in A1 notation.
pub open spec fn reference_a1(r: ReferenceView) -> Seq<char> {
    match r {
        ReferenceView::Cell(c) => range_a1(c),
        ReferenceView::Named(n) => named_a1(n),
        ReferenceView::Table(t) => table_a1(t),
    }
}

/// The number of cells from `a` to `b` inclusive, in either order.
pub open spec fn extent(a: u32, b: u32) -> nat {
    if a >= b {
        (a - b + 1) as nat
    } else {
        (b - a + 1) as nat
    }
}

/// The number of cells a cell range covers.
pub open spec fn range_cell_count(r: CellRangeView) -> nat {
    match r.end {
        None => 1,
        Some(e) => extent(r.start.col, e.col) * extent(r.start.row, e.row),
    }
}

/// The number of cells a reference covers, where it can be known: named
/// ranges and tables resolve to cells this library cannot see.
pub open spec fn reference_cell_count(r: ReferenceView) -> Option<nat> {
    match r {
        ReferenceView::Cell(c) => Some(range_cell_count(c)),
        _ => None,
    }
}

/// The sheet a reference names, if any; tables carry none.
pub open spec fn reference_sheet(r: ReferenceView) -> Option<Seq<char>> {
    match r {
        ReferenceView::Cell(c) => c.sheet,
        ReferenceView::Named(n) => n.sheet,
        ReferenceView::Table(_) => None,
    }
}

// ---------------------------------------------------------------------------
// Executable functions
// ---------------------------------------------------------------------------

/// The column letters of column `n` (`1` gives `A`, `28` gives `AB`).
pub fn col_to_letters(n: u32) -> (s: String)
    ensures
        s@ == col_letters(n as nat),
{
    let mut letters: Vec<char> = Vec::new();
    let mut m: u32 = n;
    while m > 0
        invariant
            col_letters(n as nat) == col_letters(m as nat) + letters@.reverse(),
        decreases m,
    {
        let rem = (m - 1) % 26;
        let b: u8 = 65u8 + rem as u8;
        let c: char = b as char;
        let ghost old_letters = letters@;
        letters.push(c);
        assert(c == letter_char(rem as nat));
        assert(letters@.reverse() =~= seq![c] + old_letters.reverse());
        assert(col_letters(m as nat) == col_letters(((m - 1) / 26) as nat).push(c));
        assert(col_letters(m as nat) + old_letters.reverse() =~= col_letters(
            ((m - 1) / 26) as nat,
        ) + (seq![c] + old_letters.reverse()));
        m = (m - 1) / 26;
    }
    let mut s = String::new();
    let mut k = letters.len();
    while k > 0
        invariant
            k <= letters@.len(),
            s@ == letters@.reverse().subrange(0, letters@.len() - k),
        decreases k,
    {
        k = k - 1;
        push_char(&mut s, letters[k]);
        assert(letters@.reverse().subrange(0, letters@.len() - k) =~= letters@.reverse().subrange(
            0,
            letters@.len() - k - 1,
        ).push(letters@[k as int]));
    }
    assert(letters@.reverse().subrange(0, letters@.len() as int) =~= letters@.reverse());
    assert(col_letters(0) =~= Seq::<char>::empty());
    assert(col_letters(n as nat) =~= letters@.reverse());
    s
}

/// The column number named by the letters `v[from..to]`, in either case.
pub(crate) fn letters_to_col(v: &Vec<char>, from: usize, to: usize) -> (n: u32)
    requires
        from <= to <= v@.len(),
        forall|k: int| from <= k < to ==> #[trigger] ascii_alpha(v@[k]),
        letters_col(v@.subrange(from as int, to as int)) <= u32::MAX,
    ensures
        n == letters_col(v@.subrange(from as int, to as int)),
{
    let ghost w = v@.subrange(from as int, to as int);
    let mut n: u32 = 0;
    let mut k = from;
    while k < to
        invariant
            from <= k <= to <= v@.len(),
            w == v@.subrange(from as int, to as int),
            forall|j: int| from <= j < to ==> #[trigger] ascii_alpha(v@[j]),
            letters_col(w) <= u32::MAX,
            n == letters_col(v@.subrange(from as int, k as int)),
        decreases to - k,
    {
        let c = v[k];
        assert(ascii_alpha(v@[k as int]));
        let d: u32 = if 'a' <= c && c <= 'z' {
            (c as u32) - ('a' as u32) + 1
        } else {
            (c as u32) - ('A' as u32) + 1
        };
        assert(d == letter_value(c));
        let ghost prev = v@.subrange(from as int, k as int);
        assert(v@.subrange(from as int, k + 1).drop_last() =~= prev);
        proof {
            lemma_letters_col_prefix(w, k + 1 - from);
            assert(w.take(k + 1 - from) =~= v@.subrange(from as int, k + 1));
        }
        n = n * 26 + d;
        k = k + 1;
    }
    n
}

/// A prefix of a run of letters names no later column than the whole run.
proof fn lemma_letters_col_prefix(w: Seq<char>, k: int)
    requires
        0 <= k <= w.len(),
    ensures
        letters_col(w.take(k)) <= letters_col(w),
    decreases w.len() - k,
{
    if k < w.len() {
        lemma_letters_col_prefix(w, k + 1);
        assert(w.take(k + 1).drop_last() =~= w.take(k));
    } else {
        assert(w.take(k) =~= w);
    }
}

/// One to three letters name a column from 1 (`A`) to 18278 (`ZZZ`).
pub proof fn lemma_letters_col_bound(w: Seq<char>)
    requires
        1 <= w.len() <= 3,
        forall|k: int| 0 <= k < w.len() ==> #[trigger] ascii_alpha(w[k]),
    ensures
        1 <= letters_col(w) <= 18278,
{
    let p = w.drop_last();
    assert(ascii_alpha(w[w.len() - 1]));
    assert forall|k: int| 0 <= k < p.len() implies #[trigger] ascii_alpha(p[k]) by {
        assert(p[k] == w[k]);
    }
    lemma_letters_col_upper(p);
}

proof fn lemma_letters_col_upper(w: Seq<char>)
    requires
        w.len() <= 2,
        forall|k: int| 0 <= k < w.len() ==> #[trigger] ascii_alpha(w[k]),
    ensures
        letters_col(w) <= if w.len() == 0 {
            0nat
        } else if w.len() == 1 {
            26nat
        } else {
            702nat
        },
    decreases w.len(),
{
    if w.len() > 0 {
        let p = w.drop_last();
        assert(ascii_alpha(w[w.len() - 1]));
        assert forall|k: int| 0 <= k < p.len() implies #[trigger] ascii_alpha(p[k]) by {
            assert(p[k] == w[k]);
        }
        lemma_letters_col_upper(p);
    }
}

/// Whether `v` holds only word characters.
fn all_word(v: &Vec<char>) -> (b: bool)
    ensures
        b == all_word_chars(v@),
{
    let mut k: usize = 0;
    while k < v.len()
        invariant
            k <= v@.len(),
            forall|j: int| 0 <= j < k ==> #[trigger] word_char(v@[j]),
        decreases v@.len() - k,
    {
        if !is_word_char(v[k]) {
            return false;
        }
        k = k + 1;
    }
    true
}

/// The sheet name as it is written in a reference: bare when it holds only
/// letters, digits, `_` and `.`, otherwise in single quotes with each inner
/// quote doubled.
fn quote_sheet_name(name: &str) -> (out: String)
    ensures
        out@ == quoted_sheet(name@),
{
    let v = chars_of(name);
    if all_word(&v) {
        return String::from_str(name);
    }
    let mut out = String::new();
    push_char(&mut out, '\'');
    let mut k: usize = 0;
    while k < v.len()
        invariant
            v@ == name@,
            k <= v@.len(),
            out@ == seq!['\''] + doubled_quotes(v@.subrange(0, k as int)),
        decreases v@.len() - k,
    {
        let c = v[k];
        if c == '\'' {
            push_char(&mut out, '\'');
        }
        push_char(&mut out, c);
        k = k + 1;
        assert(v@.subrange(0, k as int).drop_last() =~= v@.subrange(0, k - 1));
        assert(out@ =~= seq!['\''] + doubled_quotes(v@.subrange(0, k as int)));
    }
    push_char(&mut out, '\'');
    assert(v@.subrange(0, v@.len() as int) =~= v@);
    assert(out@ =~= quoted_sheet(name@));
    out
}

/// Appends a cell in A1 notation.
pub(crate) fn push_cell(out: &mut String, c: &Cell)
    ensures
        final(out)@ == old(out)@ + cell_a1(*c),
{
    let ghost start = out@;
    if c.col_absolute {
        push_char(out, '$');
    }
    let letters = col_to_letters(c.col);
    out.append(letters.as_str());
    if c.row_absolute {
        push_char(out, '$');
    }
    push_decimal(out, c.row as u64);
    assert(out@ =~= start + cell_a1(*c));
}

/// Appends `Sheet!` for a reference that names a sheet.
fn push_sheet_prefix(out: &mut String, sheet: &Option<String>)
    ensures
        final(out)@ == old(out)@ + sheet_prefix(opt_view(*sheet)),
{
    let ghost start = out@;
    match sheet {
        Some(s) => {
            let quoted = quote_sheet_name(s.as_str());
            out.append(quoted.as_str());
            push_char(out, '!');
        },
        None => {},
    }
    assert(out@ =~= start + sheet_prefix(opt_view(*sheet)));
}

/// The number of cells from `a` to `b` inclusive.
fn extent_between(a: u32, b: u32) -> (n: u64)
    ensures
        n == extent(a, b),
{
    if a >= b {
        (a - b) as u64 + 1
    } else {
        (b - a) as u64 + 1
    }
}

impl Cell {
    /// This cell in A1 notation, with its `$` markers.
    pub fn to_a1(&self) -> (s: String)
        ensures
            s@ == cell_a1(*self),
    {
        let mut s = String::new();
        push_cell(&mut s, self);
        assert(s@ =~= cell_a1(*self));
        s
    }
}

impl CellRange {
    /// This range in A1 notation, with its sheet (quoted where needed).
    pub fn to_a1(&self) -> (s: String)
        ensures
            s@ == range_a1(self@),
    {
        let mut s = String::new();
        push_sheet_prefix(&mut s, &self.sheet);
        push_cell(&mut s, &self.start);
        match &self.end {
            Some(e) => {
                push_char(&mut s, ':');
                push_cell(&mut s, e);
            },
            None => {},
        }
        assert(s@ =~= range_a1(self@));
        s
    }

    /// The number of cells the range covers: the product of its column and
    /// row extents, or 1 for a single cell.
    pub fn cell_count(&self) -> (n: u64)
        requires
            range_cell_count(self@) <= u64::MAX,
        ensures
            n == range_cell_count(self@),
    {
        match &self.end {
            None => 1,
            Some(end) => {
                let cols = extent_between(self.start.col, end.col);
                let rows = extent_between(self.start.row, end.row);
                cols * rows
            },
        }
    }
}

impl NamedRange {
    /// The name, prefixed by its sheet if it has one.
    pub fn to_a1(&self) -> (s: String)
        ensures
            s@ == named_a1(self@),
    {
        let mut s = String::new();
        push_sheet_prefix(&mut s, &self.sheet);
        s.append(self.name.as_str());
        assert(s@ =~= named_a1(self@));
        s
    }
}

impl TableRef {
    /// The table name followed by its specifier in brackets.
    pub fn to_a1(&self) -> (s: String)
        ensures
            s@ == table_a1(self@),
    {
        let mut s = String::new();
        s.append(self.table.as_str());
        push_char(&mut s, '[');
        s.append(self.specifier.as_str());
        push_char(&mut s, ']');
        assert(s@ =~= table_a1(self@));
        s
    }
}

impl Reference {
    /// The reference in A1 notation.
    pub fn to_a1(&self) -> (s: String)
        ensures
            s@ == reference_a1(self@),
    {
        match self {
            Reference::Cell(c) => c.to_a1(),
            Reference::Named(n) => n.to_a1(),
            Reference::Table(t) => t.to_a1(),
        }
    }

    /// The sheet the reference names, if any.
    pub fn sheet(&self) -> (s: Option<&str>)
        ensures
            match s {
                Some(x) => reference_sheet(self@) == Some(x@),
                None => reference_sheet(self@).is_none(),
            },
    {
        match self {
            Reference::Cell(c) => match &c.sheet {
                Some(x) => Some(x.as_str()),
                None => None,
            },
            Reference::Named(n) => match &n.sheet {
                Some(x) => Some(x.as_str()),
                None => None,
            },
            Reference::Table(_) => None,
        }
    }

    /// The number of cells a cell reference covers; `None` for named ranges
    /// and tables, whose extent is not known.
    pub fn cell_count(&self) -> (n: Option<u64>)
        requires
            match reference_cell_count(self@) {
                Some(k) => k <= u64::MAX,
                None => true,
            },
        ensures
            match n {
                Some(k) => reference_cell_count(self@) == Some(k as nat),
                None => reference_cell_count(self@).is_none(),
            },
    {
        match self {
            Reference::Cell(c) => Some(c.cell_count()),
            Reference::Named(_) | Reference::Table(_) => None,
        }
    }
}

} // verus!
