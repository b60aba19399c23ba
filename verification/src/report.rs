use vstd::prelude::*;

use crate::reference::{
    col_letters, col_to_letters, push_cell, range_cell_count, range_local_a1, reference_a1,
    reference_cell_count, reference_sheet, table_a1, Cell, Reference, ReferenceView,
};
use crate::scan::views;
use crate::text::{char_utf8_len, chars_of, decimal, push_char, push_decimal, utf8_size};

verus! {

// ---------------------------------------------------------------------------
// JSON string escaping
// ---------------------------------------------------------------------------

/// The lower-case hexadecimal digit of `d < 16`.
pub open spec fn hex_digit(d: nat) -> char {
    if d < 10 {
        ('0' as int + d) as char
    } else {
        ('a' as int + d - 10) as char
    }
}

/// The escape of one character inside a JSON string.
pub open spec fn json_escape_char(c: char) -> Seq<char> {
    if c == '"' {
        seq!['\\', '"']
    } else if c == '\\' {
        seq!['\\', '\\']
    } else if c == '\n' {
        seq!['\\', 'n']
    } else if c == '\r' {
        seq!['\\', 'r']
    } else if c == '\t' {
        seq!['\\', 't']
    } else if (c as int) < 0x20 {
        seq!['\\', 'u', '0', '0', hex_digit((c as nat) / 16), hex_digit((c as nat) % 16)]
    } else {
        seq![c]
    }
}

/// `s` escaped for the inside of a JSON string.
pub open spec fn json_escaped(s: Seq<char>) -> Seq<char>
    decreases s.len(),
{
    if s.len() == 0 {
        seq![]
    } else {
        json_escaped(s.drop_last()) + json_escape_char(s.last())
    }
}

fn hex_char(d: u32) -> (c: char)
    requires
        d < 16,
    ensures
        c == hex_digit(d as nat),
{
    if d < 10 {
        (48u8 + d as u8) as char
    } else {
        (97u8 + (d - 10) as u8) as char
    }
}

/// Appends the JSON escape of `c`.
fn push_json_char(out: &mut String, c: char)
    ensures
        final(out)@ == old(out)@ + json_escape_char(c),
{
    let ghost start = out@;
    if c == '"' {
        push_char(out, '\\');
        push_char(out, '"');
    } else if c == '\\' {
        push_char(out, '\\');
        push_char(out, '\\');
    } else if c == '\n' {
        push_char(out, '\\');
        push_char(out, 'n');
    } else if c == '\r' {
        push_char(out, '\\');
        push_char(out, 'r');
    } else if c == '\t' {
        push_char(out, '\\');
        push_char(out, 't');
    } else if (c as u32) < 0x20 {
        let n = c as u32;
        push_char(out, '\\');
        push_char(out, 'u');
        push_char(out, '0');
        push_char(out, '0');
        push_char(out, hex_char(n / 16));
        push_char(out, hex_char(n % 16));
    } else {
        push_char(out, c);
    }
    assert(out@ =~= start + json_escape_char(c));
}

/// Appends `s` escaped for the inside of a JSON string.
pub(crate) fn push_json_escaped(out: &mut String, s: &str)
    ensures
        final(out)@ == old(out)@ + json_escaped(s@),
{
    let v = chars_of(s);
    let ghost start = out@;
    let mut k: usize = 0;
    while k < v.len()
        invariant
            k <= v@.len(),
            v@ == s@,
            out@ == start + json_escaped(v@.subrange(0, k as int)),
        decreases v@.len() - k,
    {
        push_json_char(out, v[k]);
        k = k + 1;
        assert(v@.subrange(0, k as int).drop_last() =~= v@.subrange(0, k - 1));
        assert(out@ =~= start + json_escaped(v@.subrange(0, k as int)));
    }
    assert(v@.subrange(0, v@.len() as int) =~= v@);
}

/// `s` escaped for the inside of a JSON string: quotes, backslashes and
/// control characters are escaped, everything else is kept.
pub fn escape_json(s: &str) -> (out: String)
    ensures
        out@ == json_escaped(s@),
{
    let mut out = String::new();
    push_json_escaped(&mut out, s);
    assert(out@ =~= json_escaped(s@));
    out
}

// ---------------------------------------------------------------------------
// The human summary
// ---------------------------------------------------------------------------

/// `1 cell`, `20 cells`.
pub open spec fn cells_label(k: nat) -> Seq<char> {
    decimal(k) + if k == 1 {
        " cell"@
    } else {
        " cells"@
    }
}

/// What the summary says of one reference: its cell count, or its kind
/// where the count is not known.
pub open spec fn detail(r: ReferenceView) -> Seq<char> {
    match reference_cell_count(r) {
        Some(k) => cells_label(k),
        None => match r {
            ReferenceView::Table(_) => "table reference"@,
            _ => "named range"@,
        },
    }
}

/// The cells of the references whose count is known, added up.
pub open spec fn total_cells(refs: Seq<ReferenceView>) -> nat
    decreases refs.len(),
{
    if refs.len() == 0 {
        0
    } else {
        total_cells(refs.drop_last()) + match reference_cell_count(refs.last()) {
            Some(k) => k,
            None => 0,
        }
    }
}

/// The number of references whose cell count is not known.
pub open spec fn uncounted(refs: Seq<ReferenceView>) -> nat
    decreases refs.len(),
{
    if refs.len() == 0 {
        0
    } else {
        uncounted(refs.drop_last()) + if reference_cell_count(refs.last()) is None {
            1nat
        } else {
            0nat
        }
    }
}

/// The closing line of the summary.
pub open spec fn summary(ref_count: nat, total: nat, not_counted: nat) -> Seq<char> {
    decimal(ref_count) + if ref_count == 1 {
        " reference, "@
    } else {
        " references, "@
    } + decimal(total) + " cells total"@ + if not_counted > 0 {
        " ("@ + decimal(not_counted) + " not counted: named ranges/tables)"@
    } else {
        seq![]
    }
}

/// What the summary says of one reference: `20 cells`, `1 cell`,
/// `named range` or `table reference`.
fn detail_text(r: &Reference) -> (s: String)
    requires
        match reference_cell_count(r@) {
            Some(k) => k <= u64::MAX,
            None => true,
        },
    ensures
        s@ == detail(r@),
{
    match r.cell_count() {
        Some(cells) => {
            let mut s = String::new();
            push_decimal(&mut s, cells);
            if cells == 1 {
                s.append(" cell");
            } else {
                s.append(" cells");
            }
            assert(s@ =~= detail(r@));
            s
        },
        None => match r {
            Reference::Table(_) => String::from_str("table reference"),
            _ => String::from_str("named range"),
        },
    }
}

/// Describes one reference's cell count, adding it into the running totals:
/// its cells into `total_cells` where the count is known, one into
/// `uncounted_count` where it is not.
pub fn describe_ref(r: &Reference, total_cells: &mut u64, uncounted_count: &mut u64) -> (s: String)
    requires
        match reference_cell_count(r@) {
            Some(k) => *old(total_cells) + k <= u64::MAX,
            None => *old(uncounted_count) < u64::MAX,
        },
    ensures
        s@ == detail(r@),
        match reference_cell_count(r@) {
            Some(k) => *final(total_cells) == *old(total_cells) + k && *final(uncounted_count)
                == *old(uncounted_count),
            None => *final(total_cells) == *old(total_cells) && *final(uncounted_count)
                == *old(uncounted_count) + 1,
        },
{
    let s = detail_text(r);
    match r.cell_count() {
        Some(cells) => {
            *total_cells = *total_cells + cells;
        },
        None => {
            *uncounted_count = *uncounted_count + 1;
        },
    }
    s
}

/// The closing line of the summary: how many references, how many cells,
/// and how many references could not be counted.
pub fn summary_line(ref_count: usize, total_cells: u64, uncounted_count: u64) -> (s: String)
    ensures
        s@ == summary(ref_count as nat, total_cells as nat, uncounted_count as nat),
{
    let mut s = String::new();
    push_decimal(&mut s, ref_count as u64);
    if ref_count == 1 {
        s.append(" reference, ");
    } else {
        s.append(" references, ");
    }
    push_decimal(&mut s, total_cells);
    s.append(" cells total");
    if uncounted_count > 0 {
        s.append(" (");
        push_decimal(&mut s, uncounted_count);
        s.append(" not counted: named ranges/tables)");
    }
    assert(s@ =~= summary(ref_count as nat, total_cells as nat, uncounted_count as nat));
    s
}

/// `s` followed by spaces up to `w` characters.
pub open spec fn padded(s: Seq<char>, w: nat) -> Seq<char> {
    if s.len() >= w {
        s
    } else {
        s + Seq::new((w - s.len()) as nat, |_i: int| ' ')
    }
}

/// A reference as the flat summary and the JSON report show it: without
/// its sheet, which they show apart.
pub open spec fn local_a1(r: ReferenceView) -> Seq<char> {
    match r {
        ReferenceView::Cell(c) => range_local_a1(c),
        ReferenceView::Named(n) => n.name,
        ReferenceView::Table(t) => table_a1(t),
    }
}

/// A reference as shown: with its sheet where `qualified`.
pub open spec fn shown_a1(r: ReferenceView, qualified: bool) -> Seq<char> {
    if qualified {
        reference_a1(r)
    } else {
        local_a1(r)
    }
}

/// The widest shown text among `refs`, in bytes of UTF-8 (capped at
/// `usize::MAX`).
pub open spec fn a1_width(refs: Seq<ReferenceView>, qualified: bool) -> nat
    decreases refs.len(),
{
    if refs.len() == 0 {
        0
    } else {
        let w = a1_width(refs.drop_last(), qualified);
        let x = capped_size(shown_a1(refs.last(), qualified));
        if x > w {
            x
        } else {
            w
        }
    }
}

/// `s` preceded by spaces up to `w` characters.
pub open spec fn right_aligned(s: Seq<char>, w: nat) -> Seq<char> {
    if s.len() >= w {
        s
    } else {
        Seq::new((w - s.len()) as nat, |_i: int| ' ') + s
    }
}

/// What the flat summary says of one reference: its cell count right-aligned
/// to four places, or its kind where the count is not known.
pub open spec fn aligned_detail(r: ReferenceView) -> Seq<char> {
    match reference_cell_count(r) {
        Some(k) => right_aligned(decimal(k), 4) + if k == 1 {
            " cell"@
        } else {
            " cells"@
        },
        None => detail(r),
    }
}

/// ` (sheet: Name)` for a reference that names a sheet.
pub open spec fn sheet_note(r: ReferenceView) -> Seq<char> {
    match reference_sheet(r) {
        Some(s) => " (sheet: "@ + s + ")"@,
        None => seq![],
    }
}

/// One line of the flat summary.
pub open spec fn human_line(r: ReferenceView, w: nat) -> Seq<char> {
    padded(local_a1(r), w) + "  "@ + aligned_detail(r) + sheet_note(r) + "\n"@
}

/// The lines of the flat summary for `refs`.
pub open spec fn human_lines(refs: Seq<ReferenceView>, w: nat) -> Seq<char>
    decreases refs.len(),
{
    if refs.len() == 0 {
        seq![]
    } else {
        human_lines(refs.drop_last(), w) + human_line(refs.last(), w)
    }
}

/// The flat summary: one line per reference, a blank line, then the
/// closing line; or a note that there is nothing.
pub open spec fn human_report(refs: Seq<ReferenceView>) -> Seq<char> {
    if refs.len() == 0 {
        "no references found\n"@
    } else {
        human_lines(refs, a1_width(refs, false)) + "\n"@ + summary(
            refs.len(),
            total_cells(refs),
            uncounted(refs),
        ) + "\n"@
    }
}

proof fn lemma_total_cells_prefix(refs: Seq<ReferenceView>, k: int)
    requires
        0 <= k <= refs.len(),
    ensures
        total_cells(refs.take(k)) <= total_cells(refs),
        uncounted(refs.take(k)) <= k,
    decreases refs.len() - k,
{
    if k < refs.len() {
        lemma_total_cells_prefix(refs, k + 1);
        assert(refs.take(k + 1).drop_last() =~= refs.take(k));
    } else {
        assert(refs.take(k) =~= refs);
    }
    lemma_uncounted_len(refs.take(k));
}

proof fn lemma_uncounted_len(refs: Seq<ReferenceView>)
    ensures
        uncounted(refs) <= refs.len(),
    decreases refs.len(),
{
    if refs.len() > 0 {
        lemma_uncounted_len(refs.drop_last());
    }
}

/// The number of bytes of the UTF-8 encoding of `s`, capped at
/// `usize::MAX`.
pub open spec fn capped_size(s: Seq<char>) -> nat {
    if utf8_size(s) <= usize::MAX {
        utf8_size(s)
    } else {
        usize::MAX as nat
    }
}

/// The number of bytes of the UTF-8 encoding of `s` (a size that a string
/// in memory never exceeds, `usize::MAX`, where it would).
fn utf8_size_of(s: &str) -> (n: usize)
    ensures
        n == capped_size(s@),
{
    let v = chars_of(s);
    let mut n: usize = 0;
    let mut k: usize = 0;
    while k < v.len()
        invariant
            v@ == s@,
            k <= v@.len(),
            n == capped_size(v@.subrange(0, k as int)),
        decreases v@.len() - k,
    {
        assert(v@.subrange(0, k + 1).drop_last() =~= v@.subrange(0, k as int));
        assert(v@.subrange(0, k + 1).last() == v@[k as int]);
        let c = char_utf8_len(v[k]);
        if n > usize::MAX - c {
            n = usize::MAX;
        } else {
            n = n + c;
        }
        k = k + 1;
    }
    assert(v@.subrange(0, v@.len() as int) =~= v@);
    n
}

/// Appends `s` and then spaces up to `w` characters.
fn push_padded(out: &mut String, s: &str, w: usize)
    ensures
        final(out)@ == old(out)@ + padded(s@, w as nat),
{
    let ghost start = out@;
    out.append(s);
    let n = chars_of(s).len();
    if n < w {
        let mut k: usize = 0;
        while k < w - n
            invariant
                n == s@.len(),
                n < w,
                k <= w - n,
                out@ == start + s@ + Seq::new(k as nat, |_i: int| ' '),
            decreases w - n - k,
        {
            push_char(out, ' ');
            k = k + 1;
            assert(out@ =~= start + s@ + Seq::new(k as nat, |_i: int| ' '));
        }
    }
    assert(out@ =~= start + padded(s@, w as nat));
}

/// A reference as shown: with its sheet where `qualified`.
fn shown_text(r: &Reference, qualified: bool) -> (s: String)
    ensures
        s@ == shown_a1(r@, qualified),
{
    if qualified {
        return r.to_a1();
    }
    match r {
        Reference::Cell(c) => {
            let mut s = String::new();
            push_cell(&mut s, &c.start);
            match &c.end {
                Some(e) => {
                    push_char(&mut s, ':');
                    push_cell(&mut s, e);
                },
                None => {},
            }
            assert(s@ =~= shown_a1(r@, qualified));
            s
        },
        Reference::Named(n) => String::from_str(n.name.as_str()),
        Reference::Table(t) => t.to_a1(),
    }
}

/// The widest shown text among `refs`, in bytes.
fn a1_width_of(refs: &Vec<Reference>, qualified: bool) -> (w: usize)
    ensures
        w == a1_width(views(refs@), qualified),
{
    let ghost vs = views(refs@);
    let mut w: usize = 0;
    let mut k: usize = 0;
    while k < refs.len()
        invariant
            vs == views(refs@),
            k <= refs.len(),
            w == a1_width(vs.take(k as int), qualified),
        decreases refs.len() - k,
    {
        let a1 = shown_text(&refs[k], qualified);
        assert(vs[k as int] == refs@[k as int]@);
        let x = utf8_size_of(a1.as_str());
        assert(vs.take(k + 1).drop_last() =~= vs.take(k as int));
        if x > w {
            w = x;
        }
        k = k + 1;
    }
    assert(vs.take(refs.len() as int) =~= vs);
    w
}

/// Appends one line of the flat summary for `r`: its A1 text padded to
/// `w`, its count right-aligned to four places (or its kind) and the sheet
/// it names, adding its count into the totals.
fn push_human_line(
    out: &mut String,
    r: &Reference,
    w: usize,
    total: &mut u64,
    not_counted: &mut u64,
)
    requires
        match reference_cell_count(r@) {
            Some(k) => *old(total) + k <= u64::MAX,
            None => *old(not_counted) < u64::MAX,
        },
    ensures
        final(out)@ == old(out)@ + human_line(r@, w as nat),
        match reference_cell_count(r@) {
            Some(k) => *final(total) == *old(total) + k && *final(not_counted) == *old(
                not_counted,
            ),
            None => *final(total) == *old(total) && *final(not_counted) == *old(not_counted) + 1,
        },
{
    let ghost start = out@;
    let a1 = shown_text(r, false);
    push_padded(out, a1.as_str(), w);
    out.append("  ");
    let d = describe_ref(r, total, not_counted);
    let ghost before_detail = out@;
    match r.cell_count() {
        Some(k) => {
            let mut digits = String::new();
            push_decimal(&mut digits, k);
            let n = chars_of(digits.as_str()).len();
            let mut j: usize = n;
            while j < 4
                invariant
                    n <= j <= 4 || (n > 4 && j == n),
                    out@ == before_detail + Seq::new((j - n) as nat, |_i: int| ' '),
                decreases 4 - j,
            {
                push_char(out, ' ');
                j = j + 1;
                assert(out@ =~= before_detail + Seq::new((j - n) as nat, |_i: int| ' '));
            }
            assert(digits@ =~= decimal(k as nat));
            if n < 4 {
                assert(out@ =~= before_detail + Seq::new((4 - n) as nat, |_i: int| ' '));
            } else {
                assert(out@ =~= before_detail);
            }
        },
        None => {},
    }
    out.append(d.as_str());
    assert(out@ =~= before_detail + aligned_detail(r@));
    match r.sheet() {
        Some(s) => {
            out.append(" (sheet: ");
            out.append(s);
            out.append(")");
        },
        None => {},
    }
    out.append("\n");
    assert(out@ =~= start + human_line(r@, w as nat));
}

/// The flat human-readable summary of `refs`: each reference with its cell
/// count (and sheet), then the totals.
pub fn render_human(refs: &Vec<Reference>) -> (out: String)
    requires
        total_cells(views(refs@)) <= u64::MAX,
    ensures
        out@ == human_report(views(refs@)),
{
    let ghost vs = views(refs@);
    if refs.len() == 0 {
        return String::from_str("no references found\n");
    }
    let w = a1_width_of(refs, false);
    let mut out = String::new();
    let mut total: u64 = 0;
    let mut not_counted: u64 = 0;
    let mut k: usize = 0;
    while k < refs.len()
        invariant
            vs == views(refs@),
            total_cells(vs) <= u64::MAX,
            k <= refs.len(),
            w == a1_width(vs, false),
            out@ == human_lines(vs.take(k as int), w as nat),
            total == total_cells(vs.take(k as int)),
            not_counted == uncounted(vs.take(k as int)),
        decreases refs.len() - k,
    {
        proof {
            lemma_total_cells_prefix(vs, k + 1);
            assert(vs.take(k + 1).drop_last() =~= vs.take(k as int));
            assert(vs.take(k + 1).last() == refs@[k as int]@);
        }
        push_human_line(&mut out, &refs[k], w, &mut total, &mut not_counted);
        k = k + 1;
    }
    assert(vs.take(refs.len() as int) =~= vs);
    out.append("\n");
    let line = summary_line(refs.len(), total, not_counted);
    out.append(line.as_str());
    out.append("\n");
    out
}

// ---------------------------------------------------------------------------
// The summary grouped by sheet
// ---------------------------------------------------------------------------

/// The sheets named by `refs` (`None` for references without one), each
/// once, in the order they first appear.
pub open spec fn sheet_keys(refs: Seq<ReferenceView>) -> Seq<Option<Seq<char>>>
    decreases refs.len(),
{
    if refs.len() == 0 {
        seq![]
    } else {
        let keys = sheet_keys(refs.drop_last());
        let x = reference_sheet(refs.last());
        if keys.contains(x) {
            keys
        } else {
            keys.push(x)
        }
    }
}

/// The positions of the references of `refs` whose sheet is `key`, in
/// order.
pub open spec fn members(refs: Seq<ReferenceView>, key: Option<Seq<char>>) -> Seq<int>
    decreases refs.len(),
{
    if refs.len() == 0 {
        seq![]
    } else {
        let m = members(refs.drop_last(), key);
        if reference_sheet(refs.last()) == key {
            m.push(refs.len() - 1)
        } else {
            m
        }
    }
}

/// The references of one sheet, by their positions in the list.
pub struct SheetGroup {
    pub sheet: Option<String>,
    pub members: Vec<usize>,
}

/// The positions held by a group, as integers.
pub open spec fn member_positions(g: SheetGroup) -> Seq<int> {
    g.members@.map_values(|i: usize| i as int)
}

/// The model of an optional string slice.
pub open spec fn opt_str_view(o: Option<&str>) -> Option<Seq<char>> {
    match o {
        Some(s) => Some(s@),
        None => None,
    }
}

/// The models of a list of optional sheet names.
pub open spec fn keys_view(keys: Seq<Option<String>>) -> Seq<Option<Seq<char>>> {
    keys.map_values(|k: Option<String>| crate::reference::opt_view(k))
}

/// Where `x` stands among `keys`, if it does.
fn find_key(keys: &Vec<Option<String>>, x: Option<&str>) -> (r: Option<usize>)
    ensures
        match r {
            Some(j) => j < keys@.len() && keys_view(keys@)[j as int] == opt_str_view(x),
            None => !keys_view(keys@).contains(opt_str_view(x)),
        },
{
    let mut j: usize = 0;
    while j < keys.len()
        invariant
            j <= keys@.len(),
            forall|i: int| 0 <= i < j ==> keys_view(keys@)[i] != opt_str_view(x),
        decreases keys@.len() - j,
    {
        let same = match (&keys[j], x) {
            (Some(a), Some(b)) => crate::text::chars_eq(a.as_str(), b),
            (None, None) => true,
            _ => false,
        };
        if same {
            return Some(j);
        }
        j = j + 1;
    }
    proof {
        if keys_view(keys@).contains(opt_str_view(x)) {
            let i = choose|i: int| 0 <= i < keys_view(keys@).len() && keys_view(keys@)[i] == opt_str_view(x);
            assert(keys_view(keys@)[i] != opt_str_view(x));
        }
    }
    None
}

/// A copy of an optional sheet name.
fn copy_sheet(x: Option<&str>) -> (r: Option<String>)
    ensures
        crate::reference::opt_view(r) == opt_str_view(x),
{
    match x {
        Some(s) => Some(String::from_str(s)),
        None => None,
    }
}

/// The references of `refs` grouped by the sheet they name: groups in
/// order of first appearance, references in their original order within a
/// group.
pub fn group_by_sheet(refs: &Vec<Reference>) -> (groups: Vec<SheetGroup>)
    ensures
        groups@.len() == sheet_keys(views(refs@)).len(),
        forall|g: int|
            0 <= g < groups@.len() ==> crate::reference::opt_view(#[trigger] groups@[g].sheet)
                == sheet_keys(views(refs@))[g] && member_positions(groups@[g]) == members(
                views(refs@),
                sheet_keys(views(refs@))[g],
            ),
{
    let ghost vs = views(refs@);
    let mut keys: Vec<Option<String>> = Vec::new();
    let mut k: usize = 0;
    while k < refs.len()
        invariant
            vs == views(refs@),
            k <= refs.len(),
            keys_view(keys@) == sheet_keys(vs.take(k as int)),
        decreases refs.len() - k,
    {
        let x = refs[k].sheet();
        assert(opt_str_view(x) == reference_sheet(vs[k as int]));
        assert(vs.take(k + 1).drop_last() =~= vs.take(k as int));
        assert(vs.take(k + 1).last() == vs[k as int]);
        match find_key(&keys, x) {
            Some(_) => {},
            None => {
                let ghost before = keys@;
                keys.push(copy_sheet(x));
                assert(keys_view(keys@) =~= keys_view(before).push(opt_str_view(x)));
            },
        }
        k = k + 1;
    }
    assert(vs.take(refs.len() as int) =~= vs);
    let mut groups: Vec<SheetGroup> = Vec::new();
    let mut g: usize = 0;
    while g < keys.len()
        invariant
            vs == views(refs@),
            keys_view(keys@) == sheet_keys(vs),
            g <= keys@.len(),
            groups@.len() == g,
            forall|h: int|
                0 <= h < g ==> crate::reference::opt_view(#[trigger] groups@[h].sheet)
                    == sheet_keys(vs)[h] && member_positions(groups@[h]) == members(
                    vs,
                    sheet_keys(vs)[h],
                ),
        decreases keys@.len() - g,
    {
        let key: Option<&str> = match &keys[g] {
            Some(s) => Some(s.as_str()),
            None => None,
        };
        let ghost kv = opt_str_view(key);
        assert(kv == keys_view(keys@)[g as int]);
        let mut list: Vec<usize> = Vec::new();
        let mut i: usize = 0;
        while i < refs.len()
            invariant
                vs == views(refs@),
                i <= refs.len(),
                opt_str_view(key) == kv,
                list@.map_values(|j: usize| j as int) == members(vs.take(i as int), kv),
            decreases refs.len() - i,
        {
            let x = refs[i].sheet();
            let same = match (x, key) {
                (Some(a), Some(b)) => crate::text::chars_eq(a, b),
                (None, None) => true,
                _ => false,
            };
            assert(vs.take(i + 1).drop_last() =~= vs.take(i as int));
            assert(vs.take(i + 1).last() == vs[i as int]);
            assert(opt_str_view(x) == reference_sheet(vs[i as int]));
            let ghost before = list@;
            if same {
                list.push(i);
                assert(list@.map_values(|j: usize| j as int) =~= before.map_values(
                    |j: usize| j as int,
                ).push(i as int));
            }
            i = i + 1;
        }
        assert(vs.take(refs.len() as int) =~= vs);
        let sheet = copy_sheet(key);
        groups.push(SheetGroup { sheet, members: list });
        g = g + 1;
    }
    groups
}

/// One line of a sheet's group: indented, with the full A1 text.
pub open spec fn group_line(r: ReferenceView, w: nat) -> Seq<char> {
    "  "@ + padded(reference_a1(r), w) + "  "@ + detail(r) + "\n"@
}

/// The lines for the references at positions `idxs` of `refs`.
pub open spec fn member_lines(refs: Seq<ReferenceView>, idxs: Seq<int>, w: nat) -> Seq<char>
    decreases idxs.len(),
{
    if idxs.len() == 0 {
        seq![]
    } else {
        member_lines(refs, idxs.drop_last(), w) + group_line(refs[idxs.last()], w)
    }
}

/// The heading of a sheet's group.
pub open spec fn sheet_heading(key: Option<Seq<char>>) -> Seq<char> {
    match key {
        Some(s) => s,
        None => "(no sheet)"@,
    }
}

/// The groups for the sheets `keys`, separated by blank lines.
pub open spec fn group_blocks(refs: Seq<ReferenceView>, keys: Seq<Option<Seq<char>>>, w: nat) -> Seq<
    char,
>
    decreases keys.len(),
{
    if keys.len() == 0 {
        seq![]
    } else {
        group_blocks(refs, keys.drop_last(), w) + (if keys.len() > 1 {
            "\n"@
        } else {
            seq![]
        }) + sheet_heading(keys.last()) + ":\n"@ + member_lines(refs, members(refs, keys.last()), w)
    }
}

/// The summary grouped by sheet: a heading per sheet, in order of first
/// appearance, with its references in their original order; then the
/// totals.
pub open spec fn by_sheet_report(refs: Seq<ReferenceView>) -> Seq<char> {
    if refs.len() == 0 {
        "no references found\n"@
    } else {
        group_blocks(refs, sheet_keys(refs), a1_width(refs, true)) + "\n"@ + summary(
            refs.len(),
            total_cells(refs),
            uncounted(refs),
        ) + "\n"@
    }
}

proof fn lemma_count_within_total(refs: Seq<ReferenceView>, i: int)
    requires
        0 <= i < refs.len(),
    ensures
        match reference_cell_count(refs[i]) {
            Some(k) => k <= total_cells(refs),
            None => true,
        },
{
    lemma_total_cells_prefix(refs, i + 1);
    assert(refs.take(i + 1).drop_last() =~= refs.take(i));
    assert(refs.take(i + 1).last() == refs[i]);
}

/// The total cells and the number of uncounted references of `refs`.
fn tally(refs: &Vec<Reference>) -> (r: (u64, u64))
    requires
        total_cells(views(refs@)) <= u64::MAX,
    ensures
        r.0 == total_cells(views(refs@)),
        r.1 == uncounted(views(refs@)),
{
    let ghost vs = views(refs@);
    let mut total: u64 = 0;
    let mut not_counted: u64 = 0;
    let mut k: usize = 0;
    while k < refs.len()
        invariant
            vs == views(refs@),
            total_cells(vs) <= u64::MAX,
            k <= refs.len(),
            total == total_cells(vs.take(k as int)),
            not_counted == uncounted(vs.take(k as int)),
        decreases refs.len() - k,
    {
        proof {
            lemma_total_cells_prefix(vs, k + 1);
            assert(vs.take(k + 1).drop_last() =~= vs.take(k as int));
            assert(vs.take(k + 1).last() == refs@[k as int]@);
        }
        match refs[k].cell_count() {
            Some(cells) => {
                total = total + cells;
            },
            None => {
                not_counted = not_counted + 1;
            },
        }
        k = k + 1;
    }
    assert(vs.take(refs.len() as int) =~= vs);
    (total, not_counted)
}

/// The summary of `refs` grouped under a heading per sheet (`(no sheet)`
/// for references without one), groups in order of first appearance and
/// references in their original order within a group; then the totals.
pub fn render_human_by_sheet(refs: &Vec<Reference>) -> (out: String)
    requires
        total_cells(views(refs@)) <= u64::MAX,
    ensures
        out@ == by_sheet_report(views(refs@)),
{
    let ghost vs = views(refs@);
    if refs.len() == 0 {
        return String::from_str("no references found\n");
    }
    let w = a1_width_of(refs, true);
    let groups = group_by_sheet(refs);
    let ghost keys = sheet_keys(vs);
    let mut out = String::new();
    let mut g: usize = 0;
    while g < groups.len()
        invariant
            vs == views(refs@),
            total_cells(vs) <= u64::MAX,
            keys == sheet_keys(vs),
            w == a1_width(vs, true),
            groups@.len() == keys.len(),
            forall|h: int|
                0 <= h < groups@.len() ==> crate::reference::opt_view(#[trigger] groups@[h].sheet)
                    == keys[h] && member_positions(groups@[h]) == members(vs, keys[h]),
            g <= groups@.len(),
            out@ == group_blocks(vs, keys.take(g as int), w as nat),
        decreases groups@.len() - g,
    {
        let ghost start = out@;
        let ghost key = keys[g as int];
        assert(keys.take(g + 1).drop_last() =~= keys.take(g as int));
        assert(keys.take(g + 1).last() == key);
        if g > 0 {
            out.append("\n");
        }
        let group = &groups[g];
        match &group.sheet {
            Some(s) => out.append(s.as_str()),
            None => out.append("(no sheet)"),
        }
        out.append(":\n");
        let ghost head = out@;
        assert(head == start + (if g + 1 > 1 {
            "\n"@
        } else {
            seq![]
        }) + sheet_heading(key) + ":\n"@);
        let ghost ms = members(vs, key);
        proof {
            crate::laws::law_members_of_sheet(vs, key);
        }
        let mut j: usize = 0;
        while j < group.members.len()
            invariant
                vs == views(refs@),
                total_cells(vs) <= u64::MAX,
                w == a1_width(vs, true),
                member_positions(*group) == ms,
                ms == members(vs, key),
                forall|t: int| 0 <= t < ms.len() ==> 0 <= #[trigger] ms[t] < vs.len(),
                j <= group.members@.len(),
                out@ == head + member_lines(vs, ms.take(j as int), w as nat),
            decreases group.members@.len() - j,
        {
            let i = group.members[j];
            assert(ms[j as int] == i as int);
            assert(0 <= ms[j as int] < vs.len());
            proof {
                lemma_count_within_total(vs, i as int);
                assert(ms.take(j + 1).drop_last() =~= ms.take(j as int));
                assert(ms.take(j + 1).last() == i as int);
                assert(vs[i as int] == refs@[i as int]@);
            }
            let ghost before = out@;
            out.append("  ");
            let a1 = refs[i].to_a1();
            push_padded(&mut out, a1.as_str(), w);
            out.append("  ");
            let d = detail_text(&refs[i]);
            out.append(d.as_str());
            out.append("\n");
            assert(out@ =~= before + group_line(vs[i as int], w as nat));
            j = j + 1;
        }
        assert(ms.take(group.members@.len() as int) =~= ms);
        assert(out@ =~= group_blocks(vs, keys.take(g + 1), w as nat));
        g = g + 1;
    }
    assert(keys.take(groups@.len() as int) =~= keys);
    let (total, not_counted) = tally(refs);
    out.append("\n");
    let line = summary_line(refs.len(), total, not_counted);
    out.append(line.as_str());
    out.append("\n");
    out
}

// ---------------------------------------------------------------------------
// The JSON report
// ---------------------------------------------------------------------------

/// A JSON string holding `s`.
pub open spec fn json_str(s: Seq<char>) -> Seq<char> {
    "\""@ + json_escaped(s) + "\""@
}

/// A cell as a JSON object of its column letters and row.
pub open spec fn json_cell(c: Cell) -> Seq<char> {
    "{ \"col\": \""@ + col_letters(c.col as nat) + "\", \"row\": "@ + decimal(c.row as nat)
        + " }"@
}

/// The sheet of a reference in JSON: a string, or `null`.
pub open spec fn json_sheet(o: Option<Seq<char>>) -> Seq<char> {
    match o {
        Some(s) => json_str(s),
        None => "null"@,
    }
}

/// The fields that depend on the kind of reference.
pub open spec fn json_kind_fields(r: ReferenceView) -> Seq<char> {
    match r {
        ReferenceView::Cell(c) => "      \"kind\": \"cell\",\n"@ + "      \"start\": "@ + json_cell(
            c.start,
        ) + ",\n"@ + "      \"end\": "@ + match c.end {
            Some(e) => json_cell(e),
            None => "null"@,
        } + ",\n"@ + "      \"is_range\": "@ + (if c.end is Some {
            "true"@
        } else {
            "false"@
        }) + ",\n"@ + "      \"cell_count\": "@ + decimal(range_cell_count(c)) + "\n"@,
        ReferenceView::Named(n) => "      \"kind\": \"named\",\n"@ + "      \"name\": "@ + json_str(
            n.name,
        ) + "\n"@,
        ReferenceView::Table(t) => "      \"kind\": \"table\",\n"@ + "      \"table\": "@
            + json_str(t.table) + ",\n"@ + "      \"specifier\": "@ + json_str(t.specifier)
            + "\n"@,
    }
}

/// One reference as a JSON object; all but the last are followed by a
/// comma.
pub open spec fn json_entry(r: ReferenceView, last: bool) -> Seq<char> {
    "    {\n"@ + "      \"reference\": "@ + json_str(local_a1(r)) + ",\n"@
        + "      \"sheet\": "@ + json_sheet(reference_sheet(r)) + ",\n"@ + json_kind_fields(r)
        + "    }"@ + (if last {
        seq![]
    } else {
        ","@
    }) + "\n"@
}

/// The objects for `refs`, the first `refs.len()` of `n` references.
pub open spec fn json_entries(refs: Seq<ReferenceView>, n: nat) -> Seq<char>
    decreases refs.len(),
{
    if refs.len() == 0 {
        seq![]
    } else {
        json_entries(refs.drop_last(), n) + json_entry(refs.last(), refs.len() == n)
    }
}

/// The JSON report of a formula and its references.
pub open spec fn json_report(formula: Seq<char>, refs: Seq<ReferenceView>) -> Seq<char> {
    "{\n"@ + "  \"formula\": "@ + json_str(formula) + ",\n"@ + "  \"references\": [\n"@
        + json_entries(refs, refs.len()) + "  ]\n"@ + "}\n"@
}

/// Whether the cell count of every cell reference fits in `u64`.
pub open spec fn counts_fit(refs: Seq<ReferenceView>) -> bool {
    forall|k: int|
        0 <= k < refs.len() ==> match reference_cell_count(#[trigger] refs[k]) {
            Some(c) => c <= u64::MAX,
            None => true,
        }
}

fn push_json_str(out: &mut String, s: &str)
    ensures
        final(out)@ == old(out)@ + json_str(s@),
{
    let ghost start = out@;
    out.append("\"");
    push_json_escaped(out, s);
    out.append("\"");
    assert(out@ =~= start + json_str(s@));
}

fn push_json_cell(out: &mut String, c: &Cell)
    ensures
        final(out)@ == old(out)@ + json_cell(*c),
{
    let ghost start = out@;
    out.append("{ \"col\": \"");
    let letters = col_to_letters(c.col);
    out.append(letters.as_str());
    out.append("\", \"row\": ");
    push_decimal(out, c.row as u64);
    out.append(" }");
    assert(out@ =~= start + json_cell(*c));
}

fn push_json_kind_fields(out: &mut String, r: &Reference)
    requires
        match reference_cell_count(r@) {
            Some(c) => c <= u64::MAX,
            None => true,
        },
    ensures
        final(out)@ == old(out)@ + json_kind_fields(r@),
{
    let ghost start = out@;
    match r {
        Reference::Cell(c) => {
            out.append("      \"kind\": \"cell\",\n");
            out.append("      \"start\": ");
            push_json_cell(out, &c.start);
            out.append(",\n");
            out.append("      \"end\": ");
            match &c.end {
                Some(e) => push_json_cell(out, e),
                None => out.append("null"),
            }
            out.append(",\n");
            out.append("      \"is_range\": ");
            if c.end.is_some() {
                out.append("true");
            } else {
                out.append("false");
            }
            out.append(",\n");
            out.append("      \"cell_count\": ");
            push_decimal(out, c.cell_count());
            out.append("\n");
        },
        Reference::Named(n) => {
            out.append("      \"kind\": \"named\",\n");
            out.append("      \"name\": ");
            push_json_str(out, n.name.as_str());
            out.append("\n");
        },
        Reference::Table(t) => {
            out.append("      \"kind\": \"table\",\n");
            out.append("      \"table\": ");
            push_json_str(out, t.table.as_str());
            out.append(",\n");
            out.append("      \"specifier\": ");
            push_json_str(out, t.specifier.as_str());
            out.append("\n");
        },
    }
    assert(out@ =~= start + json_kind_fields(r@));
}

fn push_json_entry(out: &mut String, r: &Reference, last: bool)
    requires
        match reference_cell_count(r@) {
            Some(c) => c <= u64::MAX,
            None => true,
        },
    ensures
        final(out)@ == old(out)@ + json_entry(r@, last),
{
    let ghost start = out@;
    out.append("    {\n");
    out.append("      \"reference\": ");
    let a1 = shown_text(r, false);
    push_json_str(out, a1.as_str());
    out.append(",\n");
    let ghost mid = out@;
    assert(mid =~= start + "    {\n"@ + "      \"reference\": "@ + json_str(local_a1(r@)) + ",\n"@);
    out.append("      \"sheet\": ");
    match r.sheet() {
        Some(s) => push_json_str(out, s),
        None => out.append("null"),
    }
    out.append(",\n");
    let ghost mid2 = out@;
    assert(mid2 =~= mid + "      \"sheet\": "@ + json_sheet(reference_sheet(r@)) + ",\n"@);
    push_json_kind_fields(out, r);
    out.append("    }");
    if !last {
        out.append(",");
    }
    out.append("\n");
    assert(out@ =~= mid2 + json_kind_fields(r@) + "    }"@ + (if last {
        seq![]
    } else {
        ","@
    }) + "\n"@);
    assert(out@ =~= start + json_entry(r@, last));
}

/// The JSON report of `formula` and its references: the formula, then one
/// object per reference with its A1 text, sheet and kind, and for cell
/// references the start and end cells, whether it is a range, and its cell
/// count.
pub fn render_json(formula: &str, refs: &Vec<Reference>) -> (out: String)
    requires
        counts_fit(views(refs@)),
    ensures
        out@ == json_report(formula@, views(refs@)),
{
    let ghost vs = views(refs@);
    let mut out = String::new();
    out.append("{\n");
    out.append("  \"formula\": ");
    push_json_str(&mut out, formula);
    out.append(",\n");
    out.append("  \"references\": [\n");
    let ghost head = out@;
    let mut k: usize = 0;
    while k < refs.len()
        invariant
            vs == views(refs@),
            counts_fit(vs),
            k <= refs.len(),
            out@ == head + json_entries(vs.take(k as int), refs@.len() as nat),
        decreases refs.len() - k,
    {
        proof {
            assert(vs.take(k + 1).drop_last() =~= vs.take(k as int));
            assert(vs.take(k + 1).last() == refs@[k as int]@);
            assert(vs[k as int] == refs@[k as int]@);
        }
        push_json_entry(&mut out, &refs[k], k + 1 == refs.len());
        k = k + 1;
    }
    assert(vs.take(refs.len() as int) =~= vs);
    out.append("  ]\n");
    out.append("}\n");
    assert(out@ =~= json_report(formula@, vs));
    out
}

} // verus!
