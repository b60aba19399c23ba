use vstd::prelude::*;

use crate::reference::{
    all_word_chars, cell_a1, col_letters, doubled_quotes, letters_col, named_a1, range_a1,
    reference_sheet, sheet_prefix, Cell, CellRangeView, NamedRangeView, ReferenceView,
};
use crate::report::{members, sheet_keys};
use crate::scan::{
    alpha_end, cell_at, digit_end, has_char, is_boolean_name, name_at, quoted_body,
    references_of, scan, sheet_at, step, string_end, token_at, word_end,
};
use crate::text::{
    ascii_alpha, ascii_digit, decimal, digit_char, digit_value, digits_value, letter_char,
    letter_value, name_start_char, upper, word_char,
};

verus! {

// ---------------------------------------------------------------------------
// Column letters and decimal numbers
// ---------------------------------------------------------------------------

/// Reading the letters of a column gives the column back.
pub proof fn law_col_letters_roundtrip(n: nat)
    ensures
        letters_col(col_letters(n)) == n,
    decreases n,
{
    if n > 0 {
        let q = ((n - 1) / 26) as nat;
        let r = ((n - 1) % 26) as nat;
        law_col_letters_roundtrip(q);
        let l = col_letters(n);
        assert(l.drop_last() =~= col_letters(q));
        assert(l.last() == letter_char(r));
        assert(letter_value(letter_char(r)) == r + 1);
    }
}

/// Writing out the column that a run of letters names gives the letters
/// back, in upper case.
pub proof fn law_letters_col_roundtrip(w: Seq<char>)
    requires
        forall|k: int| 0 <= k < w.len() ==> #[trigger] ascii_alpha(w[k]),
    ensures
        col_letters(letters_col(w)) == w.map_values(|c: char| upper(c)),
    decreases w.len(),
{
    if w.len() == 0 {
        assert(w.map_values(|c: char| upper(c)) =~= Seq::<char>::empty());
    } else {
        let p = w.drop_last();
        let c = w.last();
        assert(ascii_alpha(w[w.len() - 1]));
        assert forall|k: int| 0 <= k < p.len() implies #[trigger] ascii_alpha(p[k]) by {
            assert(p[k] == w[k]);
        }
        law_letters_col_roundtrip(p);
        let n = letters_col(w);
        let v = letter_value(c);
        assert(1 <= v <= 26);
        assert(n == letters_col(p) * 26 + v);
        assert((n - 1) / 26 == letters_col(p));
        assert((n - 1) % 26 == v - 1);
        assert(letter_char((v - 1) as nat) == upper(c));
        assert(w.map_values(|c: char| upper(c)) =~= p.map_values(|c: char| upper(c)).push(
            upper(c),
        ));
    }
}

/// The letters of a column are upper-case letters.
proof fn lemma_col_letters_alpha(n: nat)
    ensures
        forall|k: int|
            0 <= k < col_letters(n).len() ==> 'A' <= #[trigger] col_letters(n)[k] <= 'Z',
    decreases n,
{
    if n > 0 {
        let q = ((n - 1) / 26) as nat;
        lemma_col_letters_alpha(q);
        assert forall|k: int| 0 <= k < col_letters(n).len() implies 'A' <= #[trigger] col_letters(
            n,
        )[k] <= 'Z' by {
            if k < col_letters(q).len() {
                assert(col_letters(n)[k] == col_letters(q)[k]);
            }
        }
    }
}

/// Columns 1 to 18278 (`A` to `ZZZ`) take one to three letters.
proof fn lemma_col_letters_len(n: nat)
    ensures
        n >= 1 ==> col_letters(n).len() >= 1,
        n <= 26 ==> col_letters(n).len() <= 1,
        n <= 702 ==> col_letters(n).len() <= 2,
        n <= 18278 ==> col_letters(n).len() <= 3,
    decreases n,
{
    if n > 0 {
        lemma_col_letters_len(((n - 1) / 26) as nat);
    }
}

/// Reading the decimal digits of a number gives the number back.
pub proof fn law_decimal_roundtrip(n: nat)
    ensures
        digits_value(decimal(n)) == n,
    decreases n,
{
    if n < 10 {
        assert(decimal(n).drop_last() =~= Seq::<char>::empty());
        assert(decimal(n).last() == digit_char(n));
        assert(digit_value(digit_char(n)) == n);
        assert(digits_value(Seq::<char>::empty()) == 0);
    } else {
        law_decimal_roundtrip(n / 10);
        assert(decimal(n).drop_last() =~= decimal(n / 10));
        assert(decimal(n).last() == digit_char(n % 10));
        assert(digit_value(digit_char(n % 10)) == n % 10);
    }
}

/// The decimal form of a number is a non-empty run of digits.
proof fn lemma_decimal_digits(n: nat)
    ensures
        decimal(n).len() >= 1,
        forall|k: int| 0 <= k < decimal(n).len() ==> #[trigger] ascii_digit(decimal(n)[k]),
    decreases n,
{
    if n >= 10 {
        lemma_decimal_digits(n / 10);
        assert forall|k: int| 0 <= k < decimal(n).len() implies #[trigger] ascii_digit(
            decimal(n)[k],
        ) by {
            if k < decimal(n / 10).len() {
                assert(decimal(n)[k] == decimal(n / 10)[k]);
            }
        }
    }
}

// ---------------------------------------------------------------------------
// Runs of characters
// ---------------------------------------------------------------------------

proof fn lemma_alpha_end_at(s: Seq<char>, k: int, m: int)
    requires
        0 <= k,
        0 <= m,
        k + m <= s.len(),
        forall|j: int| k <= j < k + m ==> #[trigger] ascii_alpha(s[j]),
        k + m == s.len() || !ascii_alpha(s[k + m]),
    ensures
        alpha_end(s, k) == k + m,
    decreases m,
{
    if m > 0 {
        assert(ascii_alpha(s[k]));
        lemma_alpha_end_at(s, k + 1, m - 1);
    }
}

proof fn lemma_digit_end_at(s: Seq<char>, k: int, m: int)
    requires
        0 <= k,
        0 <= m,
        k + m <= s.len(),
        forall|j: int| k <= j < k + m ==> #[trigger] ascii_digit(s[j]),
        k + m == s.len() || !ascii_digit(s[k + m]),
    ensures
        digit_end(s, k) == k + m,
    decreases m,
{
    if m > 0 {
        assert(ascii_digit(s[k]));
        lemma_digit_end_at(s, k + 1, m - 1);
    }
}

proof fn lemma_word_end_at(s: Seq<char>, k: int, m: int)
    requires
        0 <= k,
        0 <= m,
        k + m <= s.len(),
        forall|j: int| k <= j < k + m ==> #[trigger] word_char(s[j]),
        k + m == s.len() || !word_char(s[k + m]),
    ensures
        word_end(s, k) == k + m,
    decreases m,
{
    if m > 0 {
        assert(word_char(s[k]));
        lemma_word_end_at(s, k + 1, m - 1);
    }
}


// ---------------------------------------------------------------------------
// Reading back what A1 notation writes
// ---------------------------------------------------------------------------

/// A cell that A1 notation can write and the scanner read back: a column
/// from `A` to `ZZZ` and a row from 1.
pub open spec fn readable_cell(c: Cell) -> bool {
    1 <= c.col <= 18278 && c.row >= 1
}

/// A sheet name that reads back as written: one that is quoted, or a bare
/// name that starts with a letter or `_`.
pub open spec fn readable_sheet(name: Seq<char>) -> bool {
    !all_word_chars(name) || (name.len() > 0 && name_start_char(name[0]))
}

/// A cell range whose A1 notation reads back as the same range.
pub open spec fn readable_range(r: CellRangeView) -> bool {
    &&& readable_cell(r.start)
    &&& (r.end matches Some(e) ==> readable_cell(e))
    &&& (r.sheet matches Some(name) ==> readable_sheet(name))
}

proof fn lemma_at_offset(s: Seq<char>, k: int, x: Seq<char>)
    requires
        0 <= k,
        k + x.len() <= s.len(),
        s.subrange(k, k + x.len()) == x,
    ensures
        forall|j: int| 0 <= j < x.len() ==> #[trigger] s[k + j] == x[j],
{
    assert forall|j: int| 0 <= j < x.len() implies #[trigger] s[k + j] == x[j] by {
        assert(s.subrange(k, k + x.len())[j] == s[k + j]);
    }
}

/// The scanner reads a cell written in A1 notation back as the same cell,
/// wherever it stands, when no word character follows it.
proof fn lemma_cell_at_a1(s: Seq<char>, k: int, c: Cell)
    requires
        readable_cell(c),
        0 <= k,
        k + cell_a1(c).len() <= s.len(),
        s.subrange(k, k + cell_a1(c).len()) == cell_a1(c),
        k + cell_a1(c).len() == s.len() || !word_char(s[k + cell_a1(c).len()]),
    ensures
        cell_at(s, k) == Some((c, k + cell_a1(c).len())),
{
    let a: Seq<char> = if c.col_absolute {
        seq!['$']
    } else {
        seq![]
    };
    let l = col_letters(c.col as nat);
    let b: Seq<char> = if c.row_absolute {
        seq!['$']
    } else {
        seq![]
    };
    let d = decimal(c.row as nat);
    let x = cell_a1(c);
    assert(x == a + l + b + d);
    lemma_col_letters_alpha(c.col as nat);
    lemma_col_letters_len(c.col as nat);
    lemma_decimal_digits(c.row as nat);
    law_col_letters_roundtrip(c.col as nat);
    law_decimal_roundtrip(c.row as nat);
    lemma_at_offset(s, k, x);
    let ls = k + a.len();
    let le = ls + l.len();
    let ds = le + b.len();
    let de = ds + d.len();
    assert(de == k + x.len());
    // The column marker.
    assert(s[k] == x[0]);
    if !c.col_absolute {
        assert(x[0] == l[0]);
    }
    assert(has_char(s, k, '$') == c.col_absolute);
    // The letters.
    assert forall|j: int| ls <= j < le implies #[trigger] ascii_alpha(s[j]) by {
        assert(s[k + (j - k)] == x[j - k]);
        assert(x[j - k] == l[j - ls]);
        assert('A' <= l[j - ls] <= 'Z');
    }
    assert(s[le] == x[le - k]);
    if c.row_absolute {
        assert(x[le - k] == '$');
    } else {
        assert(x[le - k] == d[0]);
        assert(ascii_digit(d[0]));
    }
    lemma_alpha_end_at(s, ls, l.len() as int);
    assert(has_char(s, le, '$') == c.row_absolute);
    assert(s.subrange(ls, le) =~= l) by {
        assert forall|j: int| 0 <= j < l.len() implies #[trigger] s.subrange(ls, le)[j] == l[j] by {
            assert(s[k + (ls - k + j)] == x[ls - k + j]);
        }
    }
    // The digits.
    assert forall|j: int| ds <= j < de implies #[trigger] ascii_digit(s[j]) by {
        assert(s[k + (j - k)] == x[j - k]);
        assert(x[j - k] == d[j - ds]);
        assert(ascii_digit(d[j - ds]));
    }
    lemma_digit_end_at(s, ds, d.len() as int);
    assert(s.subrange(ds, de) =~= d) by {
        assert forall|j: int| 0 <= j < d.len() implies #[trigger] s.subrange(ds, de)[j] == d[j] by {
            assert(s[k + (ds - k + j)] == x[ds - k + j]);
        }
    }
}

/// `''` for a quote, otherwise the character itself.
spec fn quote_doubled(c: char) -> Seq<char> {
    if c == '\'' {
        seq!['\'', '\'']
    } else {
        seq![c]
    }
}

proof fn lemma_doubled_quotes_front(c: char, t: Seq<char>)
    ensures
        doubled_quotes(seq![c] + t) == quote_doubled(c) + doubled_quotes(t),
    decreases t.len(),
{
    let n = seq![c] + t;
    if t.len() == 0 {
        assert(n.drop_last() =~= Seq::<char>::empty());
        assert(n.last() == c);
        assert(doubled_quotes(t) =~= Seq::<char>::empty());
        assert(doubled_quotes(Seq::<char>::empty()) =~= Seq::<char>::empty());
        assert(doubled_quotes(n) =~= quote_doubled(c) + doubled_quotes(t));
    } else {
        lemma_doubled_quotes_front(c, t.drop_last());
        assert(n.drop_last() =~= seq![c] + t.drop_last());
        assert(n.last() == t.last());
        assert(doubled_quotes(n) =~= quote_doubled(c) + doubled_quotes(t));
    }
}

/// The scanner reads the inside of a quoted sheet name back as the name.
proof fn lemma_quoted_body_doubled(s: Seq<char>, k: int, n: Seq<char>)
    requires
        0 <= k,
        k + doubled_quotes(n).len() + 1 <= s.len(),
        s.subrange(k, k + doubled_quotes(n).len() + 1) == doubled_quotes(n) + seq!['\''],
        !has_char(s, k + doubled_quotes(n).len() + 1, '\''),
    ensures
        quoted_body(s, k) == Some((n, k + doubled_quotes(n).len() + 1)),
    decreases n.len(),
{
    let x = doubled_quotes(n) + seq!['\''];
    lemma_at_offset(s, k, x);
    if n.len() == 0 {
        assert(doubled_quotes(n) =~= Seq::<char>::empty());
        assert(s[k + 0] == x[0]);
    } else {
        let c = n[0];
        let t = n.drop_first();
        assert(n =~= seq![c] + t);
        lemma_doubled_quotes_front(c, t);
        let q = quote_doubled(c);
        let dt = doubled_quotes(t);
        assert(x =~= q + (dt + seq!['\'']));
        assert(s.subrange(k + q.len(), k + q.len() + dt.len() + 1) =~= dt + seq!['\'']) by {
            assert forall|j: int| 0 <= j < dt.len() + 1 implies #[trigger] s.subrange(
                k + q.len(),
                k + q.len() + dt.len() + 1,
            )[j] == (dt + seq!['\''])[j] by {
                assert(s[k + (q.len() + j)] == x[q.len() + j]);
            }
        }
        lemma_quoted_body_doubled(s, k + q.len(), t);
        assert(s[k + 0] == x[0]);
        if c == '\'' {
            assert(s[k + 1] == x[1]);
            assert(seq!['\''] + t =~= n);
        } else {
            assert(seq![s[k]] + t =~= n);
        }
    }
}

/// Where the run of word characters that starts a written cell ends: it
/// never ends at a `!`, so a cell is not mistaken for a sheet name.
proof fn lemma_cell_not_sheet(s: Seq<char>, c: Cell)
    requires
        readable_cell(c),
        !c.col_absolute,
        cell_a1(c).len() <= s.len(),
        s.subrange(0, cell_a1(c).len() as int) == cell_a1(c),
        cell_a1(c).len() == s.len() || s[cell_a1(c).len() as int] == ':',
    ensures
        !has_char(s, word_end(s, 0), '!'),
{
    let l = col_letters(c.col as nat);
    let d = decimal(c.row as nat);
    let x = cell_a1(c);
    lemma_col_letters_alpha(c.col as nat);
    lemma_col_letters_len(c.col as nat);
    lemma_decimal_digits(c.row as nat);
    lemma_at_offset(s, 0, x);
    if c.row_absolute {
        assert(x == l + seq!['$'] + d);
        assert forall|j: int| 0 <= j < l.len() implies #[trigger] word_char(s[j]) by {
            assert(s[0 + j] == x[j]);
            assert('A' <= l[j] <= 'Z');
        }
        assert(s[0 + l.len() as int] == x[l.len() as int]);
        lemma_word_end_at(s, 0, l.len() as int);
    } else {
        assert(x == l + d);
        assert forall|j: int| 0 <= j < x.len() implies #[trigger] word_char(s[j]) by {
            assert(s[0 + j] == x[j]);
            if j < l.len() {
                assert('A' <= l[j] <= 'Z');
            } else {
                assert(ascii_digit(d[j - l.len()]));
            }
        }
        lemma_word_end_at(s, 0, x.len() as int);
    }
}

/// What follows the sheet qualifier of a written range reads back as the
/// range.
proof fn lemma_token_range(s: Seq<char>, r: CellRangeView)
    requires
        readable_range(r),
        s == range_a1(r),
    ensures
        token_at(s, 0, r.sheet, sheet_prefix(r.sheet).len() as int) == (
            Some(ReferenceView::Cell(r)),
            s.len() as int,
        ),
{
    let p = sheet_prefix(r.sheet);
    let c1 = cell_a1(r.start);
    let tail: Seq<char> = match r.end {
        Some(e) => seq![':'] + cell_a1(e),
        None => seq![],
    };
    assert(s == p + c1 + tail);
    let k = p.len() as int;
    let pos = k + c1.len();
    assert(s.subrange(k, pos) =~= c1);
    match r.end {
        Some(e) => {
            assert(s[pos] == ':');
            lemma_cell_at_a1(s, k, r.start);
            assert(s.subrange(pos + 1, s.len() as int) =~= cell_a1(e));
            lemma_cell_at_a1(s, pos + 1, e);
        },
        None => {
            lemma_cell_at_a1(s, k, r.start);
        },
    }
}

/// A sheet qualifier written before a reference (`Name!` or
/// `'Quoted ''Name'''!`) reads back as the sheet name, ending where the
/// qualifier ends, whatever follows it.
pub proof fn law_sheet_prefix_roundtrip(name: Seq<char>, rest: Seq<char>)
    requires
        readable_sheet(name),
    ensures
        sheet_at(sheet_prefix(Some(name)) + rest, 0) == Some(
            (name, sheet_prefix(Some(name)).len() as int),
        ),
{
    let p = sheet_prefix(Some(name));
    let s = p + rest;
    if all_word_chars(name) {
        assert(p =~= name.push('!'));
        assert forall|j: int| 0 <= j < name.len() implies #[trigger] word_char(s[j]) by {
            assert(s[j] == name[j]);
        }
        assert(s[name.len() as int] == '!');
        lemma_word_end_at(s, 0, name.len() as int);
        assert(s.subrange(0, name.len() as int) =~= name);
        assert(s[0] == name[0]);
    } else {
        let d = doubled_quotes(name);
        assert(p =~= seq!['\''] + d + seq!['\''] + seq!['!']);
        assert(s.subrange(1, 1 + d.len() as int + 1) =~= d + seq!['\'']);
        assert(s[1 + d.len() as int + 1] == '!');
        lemma_quoted_body_doubled(s, 1, name);
        assert(s[0] == '\'');
    }
}

/// A written range without a sheet does not start with a sheet qualifier.
proof fn lemma_range_no_sheet(r: CellRangeView)
    requires
        readable_range(r),
        r.sheet is None,
    ensures
        step(range_a1(r), 0) == token_at(range_a1(r), 0, None, 0),
{
    let s = range_a1(r);
    let c1 = cell_a1(r.start);
    let tail: Seq<char> = match r.end {
        Some(e) => seq![':'] + cell_a1(e),
        None => seq![],
    };
    assert(s =~= c1 + tail);
    lemma_col_letters_len(r.start.col as nat);
    lemma_col_letters_alpha(r.start.col as nat);
    assert(s[0] == c1[0]);
    if r.start.col_absolute {
        assert(c1[0] == '$');
    } else {
        assert(c1[0] == col_letters(r.start.col as nat)[0]);
        assert(s.subrange(0, c1.len() as int) =~= c1);
        if c1.len() < s.len() {
            assert(s[c1.len() as int] == ':');
        }
        lemma_cell_not_sheet(s, r.start);
    }
    assert(sheet_at(s, 0) is None);
}

/// Scanning the A1 notation of a cell range finds exactly that range, for
/// any range whose cells are in `A1`..`ZZZ` and whose sheet name, if any,
/// is quoted or starts with a letter or `_`.
pub proof fn law_range_roundtrip(r: CellRangeView)
    requires
        readable_range(r),
    ensures
        references_of(range_a1(r)) == seq![ReferenceView::Cell(r)],
{
    let s = range_a1(r);
    let p = sheet_prefix(r.sheet);
    lemma_token_range(s, r);
    match r.sheet {
        None => {
            lemma_range_no_sheet(r);
        },
        Some(name) => {
            let rest = s.subrange(p.len() as int, s.len() as int);
            assert(s =~= p + rest);
            law_sheet_prefix_roundtrip(name, rest);
            assert(step(s, 0) == token_at(s, 0, Some(name), p.len() as int));
        },
    }
    assert(scan(s, s.len() as int) =~= Seq::<ReferenceView>::empty());
    assert(scan(s, 0) =~= seq![ReferenceView::Cell(r)]);
}

// ---------------------------------------------------------------------------
// Grouping by sheet
// ---------------------------------------------------------------------------

/// The positions of a sheet's group are references of that sheet, in
/// increasing order.
pub proof fn law_members_of_sheet(refs: Seq<ReferenceView>, key: Option<Seq<char>>)
    ensures
        forall|j: int|
            0 <= j < members(refs, key).len() ==> 0 <= #[trigger] members(refs, key)[j]
                < refs.len() && reference_sheet(refs[members(refs, key)[j]]) == key,
        forall|a: int, b: int|
            0 <= a < b < members(refs, key).len() ==> #[trigger] members(refs, key)[a]
                < #[trigger] members(refs, key)[b],
        forall|i: int|
            0 <= i < refs.len() && reference_sheet(refs[i]) == key ==> #[trigger] members(
                refs,
                key,
            ).contains(i),
    decreases refs.len(),
{
    if refs.len() > 0 {
        let p = refs.drop_last();
        law_members_of_sheet(p, key);
        let m = members(p, key);
        assert(refs.last() == refs[refs.len() - 1]);
        assert(members(refs, key) == if reference_sheet(refs.last()) == key {
            m.push(refs.len() - 1)
        } else {
            m
        });
        assert forall|i: int|
            0 <= i < refs.len() && reference_sheet(refs[i]) == key implies #[trigger] members(
            refs,
            key,
        ).contains(i) by {
            if i < p.len() {
                assert(refs[i] == p[i]);
                assert(reference_sheet(p[i]) == key);
                assert(m.contains(i));
                let j = choose|j: int| 0 <= j < m.len() && m[j] == i;
                assert(members(refs, key)[j] == i);
            } else {
                assert(members(refs, key)[m.len() as int] == i);
            }
        }
        assert forall|j: int| 0 <= j < members(refs, key).len() implies 0 <= #[trigger] members(
            refs,
            key,
        )[j] < refs.len() && reference_sheet(refs[members(refs, key)[j]]) == key by {
            if j < m.len() {
                assert(members(refs, key)[j] == m[j]);
                assert(refs[m[j]] == p[m[j]]);
            }
        }
    }
}

/// Grouping by sheet names each sheet once, in order of first appearance,
/// and every reference belongs to the group of its own sheet.
pub proof fn law_sheet_keys(refs: Seq<ReferenceView>)
    ensures
        forall|a: int, b: int|
            0 <= a < b < sheet_keys(refs).len() ==> #[trigger] sheet_keys(refs)[a]
                != #[trigger] sheet_keys(refs)[b],
        forall|i: int|
            0 <= i < refs.len() ==> #[trigger] sheet_keys(refs).contains(reference_sheet(refs[i])),
        forall|g: int|
            0 <= g < sheet_keys(refs).len() ==> #[trigger] members(refs, sheet_keys(refs)[g]).len()
                > 0,
    decreases refs.len(),
{
    if refs.len() > 0 {
        let p = refs.drop_last();
        let x = reference_sheet(refs.last());
        law_sheet_keys(p);
        let k = sheet_keys(p);
        assert forall|i: int| 0 <= i < refs.len() implies #[trigger] sheet_keys(refs).contains(
            reference_sheet(refs[i]),
        ) by {
            if i < p.len() {
                assert(refs[i] == p[i]);
                assert(k.contains(reference_sheet(p[i])));
                let j = choose|j: int| 0 <= j < k.len() && k[j] == reference_sheet(p[i]);
                assert(sheet_keys(refs)[j] == k[j]);
            } else if k.contains(x) {
            } else {
                assert(sheet_keys(refs)[k.len() as int] == x);
            }
        }
        assert forall|g: int| 0 <= g < sheet_keys(refs).len() implies #[trigger] members(
            refs,
            sheet_keys(refs)[g],
        ).len() > 0 by {
            if g < k.len() {
                assert(sheet_keys(refs)[g] == k[g]);
                assert(members(p, k[g]).len() > 0);
            } else {
                assert(sheet_keys(refs)[g] == x);
            }
        }
    }
}

// ---------------------------------------------------------------------------
// String literals
// ---------------------------------------------------------------------------

proof fn lemma_string_end_at(s: Seq<char>, a: int, b: int)
    requires
        0 <= a <= b < s.len(),
        forall|j: int| a <= j < b ==> #[trigger] s[j] != '"',
        s[b] == '"',
        !has_char(s, b + 1, '"'),
    ensures
        string_end(s, a) == b + 1,
    decreases b - a,
{
    if a < b {
        lemma_string_end_at(s, a + 1, b);
    }
}

/// A string literal yields no reference: scanning from its opening quote
/// is scanning from just past its closing quote, whatever the literal
/// holds (here: a literal without inner quotes).
pub proof fn law_string_literal_skipped(s: Seq<char>, k: int, body: Seq<char>)
    requires
        0 <= k,
        k + body.len() + 2 <= s.len(),
        s.subrange(k, k + body.len() + 2) == seq!['"'] + body + seq!['"'],
        forall|j: int| 0 <= j < body.len() ==> #[trigger] body[j] != '"',
        !has_char(s, k + body.len() + 2, '"'),
    ensures
        scan(s, k) == scan(s, k + body.len() + 2),
{
    let x = seq!['"'] + body + seq!['"'];
    lemma_at_offset(s, k, x);
    assert(s[k + 0] == x[0]);
    let b = k + body.len() + 1;
    assert(s[k + (body.len() + 1)] == x[body.len() as int + 1]);
    assert forall|j: int| k + 1 <= j < b implies #[trigger] s[j] != '"' by {
        assert(s[k + (j - k)] == x[j - k]);
        assert(x[j - k] == body[j - k - 1]);
    }
    lemma_string_end_at(s, k + 1, b);
    assert(step(s, k) == (None::<ReferenceView>, k + body.len() + 2));
}

// ---------------------------------------------------------------------------
// Defined names
// ---------------------------------------------------------------------------

proof fn lemma_alpha_end_shift(p: Seq<char>, t: Seq<char>, j: int)
    requires
        0 <= j <= t.len(),
    ensures
        alpha_end(p + t, p.len() + j) == p.len() + alpha_end(t, j),
    decreases t.len() - j,
{
    let s = p + t;
    if j < t.len() {
        assert(s[p.len() + j] == t[j]);
        lemma_alpha_end_shift(p, t, j + 1);
    }
}

proof fn lemma_digit_end_shift(p: Seq<char>, t: Seq<char>, j: int)
    requires
        0 <= j <= t.len(),
    ensures
        digit_end(p + t, p.len() + j) == p.len() + digit_end(t, j),
    decreases t.len() - j,
{
    let s = p + t;
    if j < t.len() {
        assert(s[p.len() + j] == t[j]);
        lemma_digit_end_shift(p, t, j + 1);
    }
}

proof fn lemma_has_char_shift(p: Seq<char>, t: Seq<char>, j: int, c: char)
    requires
        0 <= j,
    ensures
        has_char(p + t, p.len() + j, c) == has_char(t, j, c),
{
    if j < t.len() {
        assert((p + t)[p.len() + j] == t[j]);
    }
}

/// Whether a cell reference starts at `p.len()` in `p + t` depends on `t`
/// alone.
proof fn lemma_cell_at_shift(p: Seq<char>, t: Seq<char>)
    ensures
        cell_at(p + t, p.len() as int) == match cell_at(t, 0) {
            Some((c, e)) => Some((c, p.len() + e)),
            None => None,
        },
{
    let s = p + t;
    let o = p.len() as int;
    lemma_has_char_shift(p, t, 0, '$');
    let ls: int = if has_char(t, 0, '$') {
        1
    } else {
        0
    };
    crate::scan::lemma_alpha_end(t, ls);
    lemma_alpha_end_shift(p, t, ls);
    let le = alpha_end(t, ls);
    lemma_has_char_shift(p, t, le, '$');
    let ds = if has_char(t, le, '$') {
        le + 1
    } else {
        le
    };
    if ds <= t.len() {
        crate::scan::lemma_digit_end(t, ds);
        lemma_digit_end_shift(p, t, ds);
        let de = digit_end(t, ds);
        assert(s.subrange(o + ds, o + de) =~= t.subrange(ds, de));
        assert(s.subrange(o + ls, o + le) =~= t.subrange(ls, le));
        if de < t.len() {
            assert(s[o + de] == t[de]);
        }
    } else {
        assert(le == t.len());
        assert(!has_char(t, le, '$'));
    }
}

/// A name that reads back as a defined name: it starts with a letter or
/// `_`, holds only word characters, is not a cell reference, and is not
/// `TRUE` or `FALSE`.
pub open spec fn readable_name(name: Seq<char>) -> bool {
    &&& name.len() > 0
    &&& name_start_char(name[0])
    &&& all_word_chars(name)
    &&& cell_at(name, 0) is None
    &&& !is_boolean_name(name)
}

/// Scanning the text of a defined name (with its sheet, if any) finds
/// exactly that name.
pub proof fn law_named_roundtrip(n: NamedRangeView)
    requires
        readable_name(n.name),
        n.sheet matches Some(sh) ==> readable_sheet(sh),
    ensures
        references_of(named_a1(n)) == seq![ReferenceView::Named(n)],
{
    let p = sheet_prefix(n.sheet);
    let s = named_a1(n);
    assert(s == p + n.name);
    let o = p.len() as int;
    lemma_cell_at_shift(p, n.name);
    assert forall|j: int| o <= j < s.len() implies #[trigger] word_char(s[j]) by {
        assert(s[j] == n.name[j - o]);
    }
    lemma_word_end_at(s, o, n.name.len() as int);
    assert(s.subrange(o, s.len() as int) =~= n.name);
    assert(s[o] == n.name[0]);
    assert(name_at(s, o) == Some((n.name, s.len() as int)));
    assert(token_at(s, 0, n.sheet, o) == (
        Some(ReferenceView::Named(n)),
        s.len() as int,
    ));
    match n.sheet {
        None => {
            assert(p =~= Seq::<char>::empty());
            assert(crate::scan::unquoted_sheet_at(s, 0) is None);
            assert(sheet_at(s, 0) is None);
            assert(step(s, 0) == token_at(s, 0, None, 0));
        },
        Some(name) => {
            law_sheet_prefix_roundtrip(name, n.name);
            assert(step(s, 0) == token_at(s, 0, Some(name), p.len() as int));
        },
    }
    assert(scan(s, s.len() as int) =~= Seq::<ReferenceView>::empty());
    assert(scan(s, 0) =~= seq![ReferenceView::Named(n)]);
}


// ---------------------------------------------------------------------------
// What the scanner can return
// ---------------------------------------------------------------------------

/// An identifier: a letter or `_`, then letters, digits, `_` and `.`.
pub open spec fn is_identifier(w: Seq<char>) -> bool {
    w.len() > 0 && name_start_char(w[0]) && all_word_chars(w)
}

/// How many more `[` than `]` there are in `t`.
pub open spec fn bracket_depth(t: Seq<char>) -> int
    decreases t.len(),
{
    if t.len() == 0 {
        0
    } else {
        bracket_depth(t.drop_last()) + if t.last() == '[' {
            1int
        } else if t.last() == ']' {
            -1int
        } else {
            0int
        }
    }
}

/// Brackets that balance: no prefix closes more than it opens, and the
/// whole closes all it opens.
pub open spec fn balanced(t: Seq<char>) -> bool {
    bracket_depth(t) == 0 && forall|k: int| 0 <= k <= t.len() ==> bracket_depth(#[trigger] t.take(k)) >= 0
}

/// A reference as the scanner can find it: cells in `A1`..`ZZZ` with rows
/// from 1; names that are identifiers other than `TRUE`/`FALSE`; tables
/// named by an identifier, with a balanced specifier.
pub open spec fn well_formed_ref(r: ReferenceView) -> bool {
    match r {
        ReferenceView::Cell(c) => readable_cell(c.start) && (c.end matches Some(e) ==> readable_cell(e)),
        ReferenceView::Named(n) => is_identifier(n.name) && !is_boolean_name(n.name),
        ReferenceView::Table(t) => is_identifier(t.table) && balanced(t.specifier),
    }
}

/// A cell reference read at `i` has a column in `A`..`ZZZ`, a row from 1,
/// and takes at least two characters.
pub proof fn law_cell_at_readable(s: Seq<char>, i: int)
    requires
        0 <= i,
    ensures
        cell_at(s, i) matches Some((c, p)) ==> readable_cell(c) && i + 2 <= p <= s.len(),
{
    if let Some((c, p)) = cell_at(s, i) {
        let ls = if has_char(s, i, '$') {
            i + 1
        } else {
            i
        };
        crate::scan::lemma_alpha_end(s, ls);
        let le = alpha_end(s, ls);
        crate::reference::lemma_letters_col_bound(s.subrange(ls, le));
        let ds = if has_char(s, le, '$') {
            le + 1
        } else {
            le
        };
        crate::scan::lemma_digit_end(s, ds);
    }
}

/// The cells of a range the scanner can find number at most
/// 18278 × `u32::MAX`, which fits in `u64`.
pub proof fn law_readable_count_fits(r: CellRangeView)
    requires
        readable_cell(r.start),
        r.end matches Some(e) ==> readable_cell(e),
    ensures
        crate::reference::range_cell_count(r) <= u64::MAX,
{
    if let Some(e) = r.end {
        let a = crate::reference::extent(r.start.col, e.col);
        let b = crate::reference::extent(r.start.row, e.row);
        assert(a <= 18278);
        assert(b <= 4294967295);
        assert(a * b <= 18278 * 4294967295) by (nonlinear_arith)
            requires
                a <= 18278,
                b <= 4294967295,
        ;
    }
}

proof fn lemma_name_at_identifier(s: Seq<char>, i: int)
    requires
        0 <= i,
    ensures
        name_at(s, i) matches Some((n, e)) ==> is_identifier(n) && i < e <= s.len(),
{
    if let Some((n, e)) = name_at(s, i) {
        crate::scan::lemma_word_end(s, i);
        crate::scan::lemma_word_end(s, i + 1);
        assert forall|k: int| 0 <= k < n.len() implies #[trigger] word_char(n[k]) by {
            assert(n[k] == s[i + k]);
        }
        assert(n[0] == s[i]);
    }
}

proof fn lemma_bracket_balanced(s: Seq<char>, i: int, pos: int, d: nat)
    requires
        0 <= i,
        i + 1 <= pos,
        d >= 1,
        bracket_depth(s.subrange(i + 1, pos)) == d - 1,
        forall|k: int|
            0 <= k <= pos - (i + 1) ==> bracket_depth(#[trigger] s.subrange(i + 1, pos).take(k))
                >= 0,
        crate::scan::bracket_close(s, pos, d) is Some,
    ensures
        balanced(s.subrange(i + 1, crate::scan::bracket_close(s, pos, d)->0 - 1)),
    decreases s.len() - pos,
{
    let t = s.subrange(i + 1, pos);
    let t2 = s.subrange(i + 1, pos + 1);
    assert(pos < s.len());
    assert(t2.drop_last() =~= t);
    assert(t2.last() == s[pos]);
    assert forall|k: int| 0 <= k <= t.len() implies #[trigger] t2.take(k) == t.take(k) by {
        assert(t2.take(k) =~= t.take(k));
    }
    assert(t2.take(t2.len() as int) =~= t2);
    if s[pos] == '[' {
        assert forall|k: int| 0 <= k <= pos + 1 - (i + 1) implies bracket_depth(
            #[trigger] t2.take(k),
        ) >= 0 by {
            if k <= t.len() {
                assert(t2.take(k) == t.take(k));
            }
        }
        lemma_bracket_balanced(s, i, pos + 1, d + 1);
    } else if s[pos] == ']' {
        if d <= 1 {
            assert(t.take(t.len() as int) =~= t);
        } else {
            assert forall|k: int| 0 <= k <= pos + 1 - (i + 1) implies bracket_depth(
                #[trigger] t2.take(k),
            ) >= 0 by {
                if k <= t.len() {
                    assert(t2.take(k) == t.take(k));
                }
            }
            lemma_bracket_balanced(s, i, pos + 1, (d - 1) as nat);
        }
    } else {
        assert forall|k: int| 0 <= k <= pos + 1 - (i + 1) implies bracket_depth(
            #[trigger] t2.take(k),
        ) >= 0 by {
            if k <= t.len() {
                assert(t2.take(k) == t.take(k));
            }
        }
        lemma_bracket_balanced(s, i, pos + 1, d);
    }
}

/// A table specifier read at `i` balances its brackets.
pub proof fn law_bracket_at_balanced(s: Seq<char>, i: int)
    requires
        0 <= i < s.len(),
        s[i] == '[',
    ensures
        crate::scan::bracket_at(s, i) matches Some((spec, e)) ==> balanced(spec),
{
    if let Some((spec, e)) = crate::scan::bracket_at(s, i) {
        let t = s.subrange(i + 1, i + 1);
        assert(t =~= Seq::<char>::empty());
        assert forall|k: int| 0 <= k <= 0 implies bracket_depth(#[trigger] t.take(k)) >= 0 by {
            assert(t.take(k) =~= Seq::<char>::empty());
        }
        lemma_bracket_balanced(s, i, i + 1, 1);
    }
}

proof fn lemma_token_well_formed(s: Seq<char>, i: int, sheet: Option<Seq<char>>, cs: int)
    requires
        0 <= cs,
    ensures
        token_at(s, i, sheet, cs).0 matches Some(x) ==> well_formed_ref(x),
{
    law_cell_at_readable(s, cs);
    if let Some((start, pos)) = cell_at(s, cs) {
        law_cell_at_readable(s, pos + 1);
    } else {
        lemma_name_at_identifier(s, cs);
        if let Some((name, next)) = name_at(s, cs) {
            if has_char(s, next, '[') {
                law_bracket_at_balanced(s, next);
            }
        }
    }
}

proof fn lemma_step_well_formed(s: Seq<char>, i: int)
    requires
        0 <= i < s.len(),
    ensures
        step(s, i).0 matches Some(x) ==> well_formed_ref(x),
{
    if s[i] != '"' {
        crate::scan::law_step_advances(s, i);
        match sheet_at(s, i) {
            Some((name, cs)) => {
                crate::scan::lemma_quoted_body_bounds(s, i + 1);
                lemma_token_well_formed(s, i, Some(name), cs);
            },
            None => {
                lemma_token_well_formed(s, i, None, i);
            },
        }
    }
}

proof fn lemma_scan_well_formed(s: Seq<char>, i: int)
    requires
        0 <= i <= s.len(),
    ensures
        scan(s, i).len() <= s.len() - i,
        forall|k: int| 0 <= k < scan(s, i).len() ==> well_formed_ref(#[trigger] scan(s, i)[k]),
    decreases s.len() - i,
{
    if i < s.len() {
        crate::scan::law_step_advances(s, i);
        lemma_step_well_formed(s, i);
        let (r, next) = step(s, i);
        lemma_scan_well_formed(s, next);
        match r {
            Some(x) => {
                assert forall|k: int| 0 <= k < scan(s, i).len() implies well_formed_ref(
                    #[trigger] scan(s, i)[k],
                ) by {
                    if k > 0 {
                        assert(scan(s, i)[k] == scan(s, next)[k - 1]);
                    }
                }
            },
            None => {},
        }
    }
}

/// Every reference found in a formula is well formed: its cells are in
/// `A1`..`ZZZ` with rows from 1 (so its cell count fits in `u64`), its
/// names are identifiers other than `TRUE`/`FALSE`, its table specifiers
/// balance their brackets; and there are no more references than
/// characters.
pub proof fn law_references_well_formed(formula: Seq<char>)
    ensures
        references_of(formula).len() <= formula.len(),
        forall|k: int|
            0 <= k < references_of(formula).len() ==> well_formed_ref(
                #[trigger] references_of(formula)[k],
            ),
        forall|k: int|
            0 <= k < references_of(formula).len() ==> match #[trigger] references_of(formula)[k] {
                ReferenceView::Cell(c) => crate::reference::range_cell_count(c) <= u64::MAX,
                _ => true,
            },
{
    lemma_scan_well_formed(formula, 0);
    assert forall|k: int| 0 <= k < references_of(formula).len() implies match #[trigger] references_of(
        formula,
    )[k] {
        ReferenceView::Cell(c) => crate::reference::range_cell_count(c) <= u64::MAX,
        _ => true,
    } by {
        assert(well_formed_ref(references_of(formula)[k]));
        if let ReferenceView::Cell(c) = references_of(formula)[k] {
            law_readable_count_fits(c);
        }
    }
}

// ---------------------------------------------------------------------------
// Cells and bare words inside formulas
// ---------------------------------------------------------------------------

/// A cell written in A1 notation reads back as the same cell, taking the
/// whole text.
pub proof fn law_cell_roundtrip(c: Cell)
    requires
        readable_cell(c),
    ensures
        cell_at(cell_a1(c), 0) == Some((c, cell_a1(c).len() as int)),
{
    let x = cell_a1(c);
    assert(x.subrange(0, x.len() as int) =~= x);
    lemma_cell_at_a1(x, 0, c);
}

proof fn lemma_alpha_end_extend(p: Seq<char>, q: Seq<char>, j: int)
    requires
        0 <= j <= p.len(),
        q.len() > 0 ==> !ascii_alpha(q[0]),
    ensures
        alpha_end(p + q, j) == alpha_end(p, j),
    decreases p.len() - j,
{
    if j < p.len() {
        assert((p + q)[j] == p[j]);
        lemma_alpha_end_extend(p, q, j + 1);
    } else if q.len() > 0 {
        assert((p + q)[j] == q[0]);
    }
}

proof fn lemma_digit_end_extend(p: Seq<char>, q: Seq<char>, j: int)
    requires
        0 <= j <= p.len(),
        q.len() > 0 ==> !ascii_digit(q[0]),
    ensures
        digit_end(p + q, j) == digit_end(p, j),
    decreases p.len() - j,
{
    if j < p.len() {
        assert((p + q)[j] == p[j]);
        lemma_digit_end_extend(p, q, j + 1);
    } else if q.len() > 0 {
        assert((p + q)[j] == q[0]);
    }
}

proof fn lemma_word_end_extend(p: Seq<char>, q: Seq<char>, j: int)
    requires
        0 <= j <= p.len(),
        q.len() > 0 ==> !word_char(q[0]),
    ensures
        word_end(p + q, j) == word_end(p, j),
    decreases p.len() - j,
{
    if j < p.len() {
        assert((p + q)[j] == p[j]);
        lemma_word_end_extend(p, q, j + 1);
    } else if q.len() > 0 {
        assert((p + q)[j] == q[0]);
    }
}

proof fn lemma_has_char_extend(p: Seq<char>, q: Seq<char>, j: int, c: char)
    requires
        0 <= j <= p.len(),
        q.len() > 0 ==> q[0] != c,
    ensures
        has_char(p + q, j, c) == has_char(p, j, c),
{
    if j < p.len() {
        assert((p + q)[j] == p[j]);
    } else if q.len() > 0 {
        assert((p + q)[j] == q[0]);
    }
}

/// What follows a cell-like text decides nothing, as long as it does not
/// start with a word character or `$`.
proof fn lemma_cell_at_extend(p: Seq<char>, q: Seq<char>, k: int)
    requires
        0 <= k <= p.len(),
        q.len() > 0 ==> !word_char(q[0]) && q[0] != '$',
    ensures
        cell_at(p + q, k) == cell_at(p, k),
{
    let s = p + q;
    lemma_has_char_extend(p, q, k, '$');
    let ls = if has_char(p, k, '$') {
        k + 1
    } else {
        k
    };
    lemma_alpha_end_extend(p, q, ls);
    crate::scan::lemma_alpha_end(p, ls);
    let le = alpha_end(p, ls);
    lemma_has_char_extend(p, q, le, '$');
    let ds = if has_char(p, le, '$') {
        le + 1
    } else {
        le
    };
    lemma_digit_end_extend(p, q, ds);
    crate::scan::lemma_digit_end(p, ds);
    let de = digit_end(p, ds);
    assert(s.subrange(ls, le) =~= p.subrange(ls, le));
    assert(s.subrange(ds, de) =~= p.subrange(ds, de));
    if de < p.len() {
        assert(s[de] == p[de]);
    } else if q.len() > 0 {
        assert(s[de] == q[0]);
    }
}

/// A character that starts nothing (no quote, `$`, letter or `_`) is
/// passed over on its own.
proof fn lemma_step_skip(s: Seq<char>, i: int)
    requires
        0 <= i < s.len(),
        s[i] != '"' && s[i] != '\'' && s[i] != '$' && s[i] != '_' && !ascii_alpha(s[i]),
    ensures
        step(s, i) == (None::<ReferenceView>, i + 1),
{
    assert(alpha_end(s, i) == i);
}

/// A bare word is a defined name when `*` follows it, and a function name,
/// which is no reference, when `(` follows it: `=w*2` holds the name `w`,
/// and `=w(B1)` holds only `B1`.
pub proof fn law_bare_word(w: Seq<char>)
    requires
        readable_name(w),
    ensures
        references_of(seq!['='] + w + seq!['*', '2']) == seq![
            ReferenceView::Named(NamedRangeView { sheet: None, name: w }),
        ],
        references_of(seq!['='] + w + seq!['(', 'B', '1', ')']) == seq![
            ReferenceView::Cell(
                CellRangeView {
                    sheet: None,
                    start: Cell { col: 2, row: 1, col_absolute: false, row_absolute: false },
                    end: None,
                },
            ),
        ],
{
    let n = w.len() as int;
    let eq = seq!['='];
    // The word itself, whatever follows it.
    assert forall|q: Seq<char>|
        q.len() > 0 && !word_char(q[0]) && q[0] != '$' && q[0] != '!' implies #[trigger] step(
        eq + w + q,
        1,
    ) == token_at(eq + w + q, 1, None, 1) && cell_at(eq + w + q, 1) is None && name_at(
        eq + w + q,
        1,
    ) == Some((w, 1 + n)) by {
        let s = eq + w + q;
        assert(s =~= eq + (w + q));
        lemma_cell_at_shift(eq, w + q);
        lemma_cell_at_extend(w, q, 0);
        assert forall|j: int| 1 <= j < 1 + n implies #[trigger] word_char(s[j]) by {
            assert(s[j] == w[j - 1]);
        }
        assert(s[1 + n] == q[0]);
        lemma_word_end_at(s, 1, n);
        assert(s.subrange(1, 1 + n) =~= w);
        assert(s[1] == w[0]);
    }
    // `=w*2`
    let q1 = seq!['*', '2'];
    let s1 = eq + w + q1;
    assert(q1[0] == '*');
    assert(step(s1, 1) == token_at(s1, 1, None, 1));
    assert(s1[1 + n] == '*');
    assert(s1[2 + n] == '2');
    assert(s1[0] == '=');
    lemma_step_skip(s1, 0);
    lemma_step_skip(s1, 1 + n);
    lemma_step_skip(s1, 2 + n);
    assert(scan(s1, 3 + n) =~= Seq::<ReferenceView>::empty());
    assert(scan(s1, 2 + n) =~= Seq::<ReferenceView>::empty());
    assert(scan(s1, 1 + n) =~= Seq::<ReferenceView>::empty());
    assert(cell_at(s1, 1) is None);
    assert(name_at(s1, 1) == Some((w, 1 + n)));
    assert(!has_char(s1, 1 + n, '['));
    assert(!has_char(s1, 1 + n, '('));
    assert(token_at(s1, 1, None, 1) == (
        Some(ReferenceView::Named(NamedRangeView { sheet: None, name: w })),
        1 + n,
    ));
    assert(scan(s1, 1) =~= seq![ReferenceView::Named(NamedRangeView { sheet: None, name: w })]);
    assert(scan(s1, 0) == scan(s1, 1));
    assert(scan(s1, 0) =~= seq![ReferenceView::Named(NamedRangeView { sheet: None, name: w })]);
    // `=w(B1)`
    let q2 = seq!['(', 'B', '1', ')'];
    let s2 = eq + w + q2;
    assert(q2[0] == '(');
    assert(step(s2, 1) == token_at(s2, 1, None, 1));
    assert(s2[0] == '=');
    assert(s2[1 + n] == '(');
    assert(s2[2 + n] == 'B');
    assert(s2[3 + n] == '1');
    assert(s2[4 + n] == ')');
    assert(step(s2, 1) == (None::<ReferenceView>, 1 + n));
    lemma_step_skip(s2, 0);
    lemma_step_skip(s2, 1 + n);
    lemma_step_skip(s2, 4 + n);
    let b1 = Cell { col: 2, row: 1, col_absolute: false, row_absolute: false };
    assert(col_letters(0) =~= Seq::<char>::empty());
    assert(col_letters(2) =~= seq!['B']);
    assert(decimal(1) =~= seq!['1']);
    assert(cell_a1(b1) =~= seq!['B', '1']);
    assert(s2.subrange(2 + n, 4 + n) =~= seq!['B', '1']);
    lemma_cell_at_a1(s2, 2 + n, b1);
    // `B1` is no sheet qualifier: the word ends at `)`.
    lemma_word_end_at(s2, 2 + n, 2);
    assert(sheet_at(s2, 2 + n) is None);
    assert(step(s2, 2 + n) == token_at(s2, 2 + n, None, 2 + n));
    assert(!has_char(s2, 4 + n, ':'));
    assert(token_at(s2, 2 + n, None, 2 + n) == (
        Some(ReferenceView::Cell(CellRangeView { sheet: None, start: b1, end: None })),
        4 + n,
    ));
    assert(scan(s2, 5 + n) =~= Seq::<ReferenceView>::empty());
    assert(scan(s2, 4 + n) =~= Seq::<ReferenceView>::empty());
    assert(scan(s2, 2 + n) =~= seq![
        ReferenceView::Cell(CellRangeView { sheet: None, start: b1, end: None }),
    ]);
    assert(scan(s2, 1 + n) == scan(s2, 2 + n));
    assert(scan(s2, 1) == scan(s2, 1 + n));
    assert(scan(s2, 0) == scan(s2, 1));
    assert(scan(s2, 0) =~= seq![
        ReferenceView::Cell(CellRangeView { sheet: None, start: b1, end: None }),
    ]);
}

// ---------------------------------------------------------------------------
// Appending a string literal
// ---------------------------------------------------------------------------

/// What may follow a formula without changing how it scans: text that
/// starts with `,` and holds no quote or bracket.
pub open spec fn inert_tail(q: Seq<char>) -> bool {
    &&& q.len() > 0
    &&& q[0] == ','
    &&& forall|j: int| 0 <= j < q.len() ==> #[trigger] q[j] != '\'' && q[j] != '[' && q[j] != ']'
}

proof fn lemma_quoted_body_extend(p: Seq<char>, q: Seq<char>, pos: int)
    requires
        0 <= pos,
        forall|j: int| 0 <= j < q.len() ==> #[trigger] q[j] != '\'',
    ensures
        quoted_body(p + q, pos) == quoted_body(p, pos),
    decreases (p + q).len() - pos,
{
    let s = p + q;
    if pos < s.len() {
        if pos >= p.len() {
            assert(s[pos] == q[pos - p.len()]);
            lemma_quoted_body_extend(p, q, pos + 1);
        } else {
            assert(s[pos] == p[pos]);
            if p[pos] == '\'' {
                if pos + 1 < p.len() {
                    assert(s[pos + 1] == p[pos + 1]);
                    lemma_quoted_body_extend(p, q, pos + 2);
                } else if q.len() > 0 {
                    assert(s[pos + 1] == q[0]);
                }
            } else {
                lemma_quoted_body_extend(p, q, pos + 1);
            }
        }
    }
}

proof fn lemma_bracket_close_extend(p: Seq<char>, q: Seq<char>, pos: int, d: nat)
    requires
        0 <= pos,
        forall|j: int| 0 <= j < q.len() ==> #[trigger] q[j] != '[' && q[j] != ']',
    ensures
        crate::scan::bracket_close(p + q, pos, d) == crate::scan::bracket_close(p, pos, d),
    decreases (p + q).len() - pos,
{
    let s = p + q;
    if pos < s.len() {
        if pos >= p.len() {
            assert(s[pos] == q[pos - p.len()]);
            lemma_bracket_close_extend(p, q, pos + 1, d);
        } else {
            assert(s[pos] == p[pos]);
            lemma_bracket_close_extend(p, q, pos + 1, d + 1);
            lemma_bracket_close_extend(p, q, pos + 1, d);
            if d > 1 {
                lemma_bracket_close_extend(p, q, pos + 1, (d - 1) as nat);
            }
        }
    }
}

proof fn lemma_name_at_extend(p: Seq<char>, q: Seq<char>, k: int)
    requires
        0 <= k <= p.len(),
        q.len() > 0 ==> !word_char(q[0]),
    ensures
        name_at(p + q, k) == name_at(p, k),
{
    let s = p + q;
    if k < p.len() {
        assert(s[k] == p[k]);
        lemma_word_end_extend(p, q, k);
        crate::scan::lemma_word_end(p, k);
        assert(s.subrange(k, word_end(p, k)) =~= p.subrange(k, word_end(p, k)));
    } else if q.len() > 0 {
        assert(s[k] == q[0]);
    }
}

proof fn lemma_token_extend(p: Seq<char>, q: Seq<char>, i: int, sheet: Option<Seq<char>>, cs: int)
    requires
        0 <= cs <= p.len(),
        inert_tail(q),
    ensures
        token_at(p + q, i, sheet, cs) == token_at(p, i, sheet, cs),
{
    let s = p + q;
    assert(q[0] == ',');
    lemma_cell_at_extend(p, q, cs);
    law_cell_at_readable(p, cs);
    if let Some((start, pos)) = cell_at(p, cs) {
        lemma_has_char_extend(p, q, pos, ':');
        if has_char(p, pos, ':') {
            lemma_cell_at_extend(p, q, pos + 1);
        }
    } else {
        lemma_name_at_extend(p, q, cs);
        lemma_name_at_identifier(p, cs);
        if let Some((name, next)) = name_at(p, cs) {
            lemma_has_char_extend(p, q, next, '[');
            lemma_has_char_extend(p, q, next, '(');
            if has_char(p, next, '[') {
                assert forall|j: int| 0 <= j < q.len() implies #[trigger] q[j] != '[' && q[j]
                    != ']' by {
                    assert(q[j] != '\'' && q[j] != '[' && q[j] != ']');
                }
                lemma_bracket_close_extend(p, q, next, 0);
                crate::scan::lemma_bracket_close_bounds(p, next + 1, 1);
                assert(p[next] == '[');
                assert(crate::scan::bracket_close(p, next, 0) == crate::scan::bracket_close(
                    p,
                    next + 1,
                    1,
                ));
                if let Some(after) = crate::scan::bracket_close(p, next, 0) {
                    assert(s.subrange(next + 1, after - 1) =~= p.subrange(next + 1, after - 1));
                }
            }
        }
    }
}

/// Scanning inside `p` looks no further than `p` when an inert tail
/// follows it and `p` holds no `"`.
proof fn lemma_step_extend(p: Seq<char>, q: Seq<char>, i: int)
    requires
        0 <= i < p.len(),
        inert_tail(q),
        forall|j: int| 0 <= j < p.len() ==> #[trigger] p[j] != '"',
    ensures
        step(p + q, i) == step(p, i),
{
    let s = p + q;
    assert(s[i] == p[i]);
    assert(p[i] != '"');
    assert(q[0] == ',');
    assert forall|j: int| 0 <= j < q.len() implies #[trigger] q[j] != '\'' by {
        assert(q[j] != '\'' && q[j] != '[' && q[j] != ']');
    }
    lemma_quoted_body_extend(p, q, i + 1);
    crate::scan::lemma_quoted_body_bounds(p, i + 1);
    if let Some((n, e)) = quoted_body(p, i + 1) {
        lemma_has_char_extend(p, q, e, '!');
    }
    lemma_word_end_extend(p, q, i);
    crate::scan::lemma_word_end(p, i);
    lemma_has_char_extend(p, q, word_end(p, i), '!');
    assert(s.subrange(i, word_end(p, i)) =~= p.subrange(i, word_end(p, i)));
    assert(sheet_at(s, i) == sheet_at(p, i));
    match sheet_at(p, i) {
        Some((name, cs)) => {
            lemma_token_extend(p, q, i, Some(name), cs);
        },
        None => {
            lemma_token_extend(p, q, i, None, i);
        },
    }
}

proof fn lemma_scan_extend(p: Seq<char>, q: Seq<char>, i: int)
    requires
        0 <= i <= p.len(),
        inert_tail(q),
        forall|j: int| 0 <= j < p.len() ==> #[trigger] p[j] != '"',
        scan(p + q, p.len() as int) == Seq::<ReferenceView>::empty(),
    ensures
        scan(p + q, i) == scan(p, i),
    decreases p.len() - i,
{
    if i < p.len() {
        lemma_step_extend(p, q, i);
        crate::scan::law_step_advances(p, i);
        let next = step(p, i).1;
        lemma_scan_extend(p, q, next);
    }
}

/// A string literal appended after a comma adds no reference: for a
/// formula `p` without `"`, and a literal whose text holds no quote,
/// apostrophe or bracket, `p,"text"` holds the references of `p`, even
/// where the text looks like `A1:B2` or `Sheet1!A1`.
pub proof fn law_appended_literal(p: Seq<char>, text: Seq<char>)
    requires
        forall|j: int| 0 <= j < p.len() ==> #[trigger] p[j] != '"',
        forall|j: int|
            0 <= j < text.len() ==> #[trigger] text[j] != '"' && text[j] != '\'' && text[j] != '['
                && text[j] != ']',
    ensures
        references_of(p + seq![',', '"'] + text + seq!['"']) == references_of(p),
{
    let q = seq![',', '"'] + text + seq!['"'];
    let s = p + q;
    assert(p + seq![',', '"'] + text + seq!['"'] =~= s);
    assert forall|j: int| 0 <= j < q.len() implies #[trigger] q[j] != '\'' && q[j] != '['
        && q[j] != ']' by {
        if 2 <= j < 2 + text.len() {
            assert(q[j] == text[j - 2]);
        }
    }
    assert(inert_tail(q));
    let o = p.len() as int;
    assert(s[o] == ',');
    lemma_step_skip(s, o);
    assert(s[o + 1] == '"');
    let b = o + 2 + text.len();
    assert(s[b] == '"');
    assert forall|j: int| o + 2 <= j < b implies #[trigger] s[j] != '"' by {
        assert(s[j] == text[j - o - 2]);
    }
    lemma_string_end_at(s, o + 2, b);
    assert(step(s, o + 1) == (None::<ReferenceView>, s.len() as int));
    assert(scan(s, s.len() as int) =~= Seq::<ReferenceView>::empty());
    assert(scan(s, o + 1) =~= Seq::<ReferenceView>::empty());
    assert(scan(s, o) =~= Seq::<ReferenceView>::empty());
    lemma_scan_extend(p, q, 0);
}

// ---------------------------------------------------------------------------
// JSON escaping
// ---------------------------------------------------------------------------

/// The value of a hexadecimal digit character.
pub open spec fn hex_value(c: char) -> int {
    if '0' <= c && c <= '9' {
        c as int - '0' as int
    } else if 'a' <= c && c <= 'f' {
        c as int - 'a' as int + 10
    } else if 'A' <= c && c <= 'F' {
        c as int - 'A' as int + 10
    } else {
        -1
    }
}

/// The text that the inside of a JSON string stands for, reading the
/// escapes `\"`, `\\`, `\n`, `\r`, `\t` and `\uXXXX` (below `0xD800`);
/// `None` where it is malformed.
pub open spec fn json_unescaped(t: Seq<char>) -> Option<Seq<char>>
    decreases t.len(),
{
    if t.len() == 0 {
        Some(seq![])
    } else if t[0] == '\\' {
        if t.len() >= 2 && (t[1] == '"' || t[1] == '\\' || t[1] == 'n' || t[1] == 'r' || t[1]
            == 't') {
            let c = if t[1] == 'n' {
                '\n'
            } else if t[1] == 'r' {
                '\r'
            } else if t[1] == 't' {
                '\t'
            } else {
                t[1]
            };
            match json_unescaped(t.skip(2)) {
                Some(r) => Some(seq![c] + r),
                None => None,
            }
        } else if t.len() >= 6 && t[1] == 'u' && hex_value(t[2]) >= 0 && hex_value(t[3]) >= 0
            && hex_value(t[4]) >= 0 && hex_value(t[5]) >= 0 {
            let v = hex_value(t[2]) * 4096 + hex_value(t[3]) * 256 + hex_value(t[4]) * 16
                + hex_value(t[5]);
            if v < 0xD800 {
                match json_unescaped(t.skip(6)) {
                    Some(r) => Some(seq![v as char] + r),
                    None => None,
                }
            } else {
                None
            }
        } else {
            None
        }
    } else if t[0] == '"' {
        None
    } else {
        match json_unescaped(t.drop_first()) {
            Some(r) => Some(seq![t[0]] + r),
            None => None,
        }
    }
}

proof fn lemma_json_escaped_front(c: char, t: Seq<char>)
    ensures
        crate::report::json_escaped(seq![c] + t) == crate::report::json_escape_char(c)
            + crate::report::json_escaped(t),
    decreases t.len(),
{
    let n = seq![c] + t;
    if t.len() == 0 {
        assert(n.drop_last() =~= Seq::<char>::empty());
        assert(n.last() == c);
        assert(t =~= Seq::<char>::empty());
        assert(crate::report::json_escaped(Seq::<char>::empty()) =~= Seq::<char>::empty());
        assert(crate::report::json_escaped(n) =~= crate::report::json_escape_char(c)
            + crate::report::json_escaped(t));
    } else {
        lemma_json_escaped_front(c, t.drop_last());
        assert(n.drop_last() =~= seq![c] + t.drop_last());
        assert(n.last() == t.last());
        assert(crate::report::json_escaped(n) =~= crate::report::json_escape_char(c)
            + crate::report::json_escaped(t));
    }
}

proof fn lemma_unescape_char(c: char, rest: Seq<char>)
    ensures
        json_unescaped(crate::report::json_escape_char(c) + rest) == match json_unescaped(rest) {
            Some(r) => Some(seq![c] + r),
            None => None,
        },
{
    let e = crate::report::json_escape_char(c);
    let t = e + rest;
    if c == '"' || c == '\\' || c == '\n' || c == '\r' || c == '\t' {
        assert(t[0] == '\\');
        assert(t.skip(2) =~= rest);
    } else if (c as int) < 0x20 {
        let n = c as nat;
        let hi = crate::report::hex_digit(n / 16);
        let lo = crate::report::hex_digit(n % 16);
        assert(t[0] == '\\');
        assert(t[1] == 'u');
        assert(t[2] == '0');
        assert(t[3] == '0');
        assert(t[4] == hi);
        assert(t[5] == lo);
        assert(hex_value(hi) == n / 16);
        assert(hex_value(lo) == n % 16);
        assert(t.skip(6) =~= rest);
        assert((n as int) as char == c);
    } else {
        assert(t[0] == c);
        assert(t.drop_first() =~= rest);
    }
}

/// Reading back what `escape_json` writes gives the text that was
/// escaped.
pub proof fn law_json_escape_roundtrip(s: Seq<char>)
    ensures
        json_unescaped(crate::report::json_escaped(s)) == Some(s),
    decreases s.len(),
{
    if s.len() == 0 {
        assert(crate::report::json_escaped(s) =~= Seq::<char>::empty());
    } else {
        let t = s.drop_first();
        assert(s =~= seq![s[0]] + t);
        lemma_json_escaped_front(s[0], t);
        law_json_escape_roundtrip(t);
        lemma_unescape_char(s[0], crate::report::json_escaped(t));
    }
}

// ---------------------------------------------------------------------------
// Table references
// ---------------------------------------------------------------------------

/// At a word that is not a cell, the scan reads the word as a name and
/// looks at what follows it.
proof fn lemma_word_step(w: Seq<char>, q: Seq<char>)
    requires
        is_identifier(w),
        cell_at(w, 0) is None,
        q.len() > 0,
        !word_char(q[0]),
        q[0] != '$',
        q[0] != '!',
    ensures
        step(seq!['='] + w + q, 1) == token_at(seq!['='] + w + q, 1, None, 1),
        cell_at(seq!['='] + w + q, 1) is None,
        name_at(seq!['='] + w + q, 1) == Some((w, 1 + w.len() as int)),
{
    let eq = seq!['='];
    let n = w.len() as int;
    let s = eq + w + q;
    assert(s =~= eq + (w + q));
    lemma_cell_at_shift(eq, w + q);
    lemma_cell_at_extend(w, q, 0);
    assert forall|j: int| 1 <= j < 1 + n implies #[trigger] word_char(s[j]) by {
        assert(s[j] == w[j - 1]);
    }
    assert(s[1 + n] == q[0]);
    lemma_word_end_at(s, 1, n);
    assert(s.subrange(1, 1 + n) =~= w);
    assert(s[1] == w[0]);
}

/// Walking a balanced text `x` that stands at `k + 1`, right after a
/// `[` at `k`, the bracket that closes the first one is the `]` right
/// after `x`.
proof fn lemma_bracket_walk(s: Seq<char>, k: int, x: Seq<char>, j: int)
    requires
        0 <= k,
        0 <= j <= x.len(),
        k + 2 + x.len() <= s.len(),
        s.subrange(k + 1, k + 1 + x.len()) == x,
        s[k + 1 + x.len()] == ']',
        balanced(x),
    ensures
        crate::scan::bracket_close(s, k + 1 + j, (1 + bracket_depth(x.take(j))) as nat) == Some(
            k + 2 + x.len(),
        ),
    decreases x.len() - j,
{
    assert(bracket_depth(x.take(j)) >= 0);
    if j == x.len() {
        assert(x.take(j) =~= x);
    } else {
        let c = x[j];
        assert(s[k + 1 + j] == s.subrange(k + 1, k + 1 + x.len())[j]);
        assert(x.take(j + 1).drop_last() =~= x.take(j));
        assert(x.take(j + 1).last() == c);
        assert(bracket_depth(x.take(j + 1)) >= 0);
        lemma_bracket_walk(s, k, x, j + 1);
    }
}

/// A word that is not a cell reference, followed by a bracketed specifier
/// whose brackets balance, is one table reference: the word names the
/// table and the specifier is the text between the outer brackets,
/// verbatim, whatever it holds besides brackets (spaces, `#`, `@`, commas).
pub proof fn law_table_reference(t: Seq<char>, x: Seq<char>)
    requires
        is_identifier(t),
        cell_at(t, 0) is None,
        balanced(x),
    ensures
        references_of(seq!['='] + t + seq!['['] + x + seq![']']) == seq![
            ReferenceView::Table(crate::reference::TableRefView { table: t, specifier: x }),
        ],
{
    let n = t.len() as int;
    let q = seq!['['] + x + seq![']'];
    let s = seq!['='] + t + q;
    assert(seq!['='] + t + seq!['['] + x + seq![']'] =~= s);
    assert(q[0] == '[');
    lemma_word_step(t, q);
    let k = 1 + n;
    assert(s[k] == '[');
    assert(s.subrange(k + 1, k + 1 + x.len()) =~= x);
    assert(s[k + 1 + x.len()] == ']');
    assert(x.take(0) =~= Seq::<char>::empty());
    lemma_bracket_walk(s, k, x, 0);
    assert(crate::scan::bracket_close(s, k, 0) == crate::scan::bracket_close(s, k + 1, 1));
    assert(s.subrange(k + 1, s.len() - 1) =~= x);
    assert(crate::scan::bracket_at(s, k) == Some((x, s.len() as int)));
    assert(token_at(s, 1, None, 1) == (
        Some(ReferenceView::Table(crate::reference::TableRefView { table: t, specifier: x })),
        s.len() as int,
    ));
    assert(s[0] == '=');
    lemma_step_skip(s, 0);
    assert(scan(s, s.len() as int) =~= Seq::<ReferenceView>::empty());
    assert(scan(s, 1) =~= seq![
        ReferenceView::Table(crate::reference::TableRefView { table: t, specifier: x }),
    ]);
    assert(scan(s, 0) == scan(s, 1));
}

/// The groups come in the order in which their sheets first appear: the
/// first reference of an earlier group comes before the first reference
/// of a later one; and a group's first reference is the first reference
/// with that sheet.
pub proof fn law_groups_in_order(refs: Seq<ReferenceView>)
    ensures
        forall|g1: int, g2: int|
            0 <= g1 < g2 < sheet_keys(refs).len() ==> #[trigger] members(refs, sheet_keys(refs)[g1])[0]
                < #[trigger] members(refs, sheet_keys(refs)[g2])[0],
        forall|g: int, i: int|
            #![trigger members(refs, sheet_keys(refs)[g]), reference_sheet(refs[i])]
            0 <= g < sheet_keys(refs).len() && 0 <= i < refs.len() && reference_sheet(refs[i])
                == sheet_keys(refs)[g] ==> members(refs, sheet_keys(refs)[g])[0] <= i,
    decreases refs.len(),
{
    law_sheet_keys(refs);
    assert forall|g: int, i: int|
        #![trigger members(refs, sheet_keys(refs)[g]), reference_sheet(refs[i])]
        0 <= g < sheet_keys(refs).len() && 0 <= i < refs.len() && reference_sheet(refs[i])
            == sheet_keys(refs)[g] implies members(refs, sheet_keys(refs)[g])[0] <= i by {
        let key = sheet_keys(refs)[g];
        law_members_of_sheet(refs, key);
        let m = members(refs, key);
        assert(m.contains(i));
        let t = choose|t: int| 0 <= t < m.len() && m[t] == i;
        if t > 0 {
            assert(m[0] < m[t]);
        }
    }
    if refs.len() > 0 {
        let p = refs.drop_last();
        let x = reference_sheet(refs.last());
        let n = refs.len() - 1;
        law_groups_in_order(p);
        law_sheet_keys(p);
        let kp = sheet_keys(p);
        let k = sheet_keys(refs);
        assert(refs.last() == refs[n]);
        assert forall|key: Option<Seq<char>>| #[trigger] members(p, key).len() > 0 implies members(
            refs,
            key,
        )[0] == members(p, key)[0] by {
            assert(members(refs, key) == if reference_sheet(refs.last()) == key {
                members(p, key).push(n)
            } else {
                members(p, key)
            });
        }
        assert forall|g1: int, g2: int|
            0 <= g1 < g2 < k.len() implies #[trigger] members(refs, k[g1])[0] < #[trigger] members(
            refs,
            k[g2],
        )[0] by {
            assert(k[g1] == kp[g1]);
            assert(members(p, kp[g1]).len() > 0);
            law_members_of_sheet(p, kp[g1]);
            if g2 < kp.len() {
                assert(k[g2] == kp[g2]);
                assert(members(p, kp[g2]).len() > 0);
            } else {
                assert(k[g2] == x);
                assert(!kp.contains(x));
                law_members_of_sheet(p, x);
                if members(p, x).len() > 0 {
                    let i = members(p, x)[0];
                    assert(reference_sheet(p[i]) == x);
                    assert(kp.contains(reference_sheet(p[i])));
                }
                assert(members(refs, x) == members(p, x).push(n));
                assert(members(refs, x)[0] == n);
                assert(members(p, kp[g1])[0] < p.len());
            }
        }
    }
}

} // verus!
