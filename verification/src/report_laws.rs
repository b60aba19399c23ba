use vstd::prelude::*;

use crate::reference::{reference_a1, CellRangeView, ReferenceView};
use crate::report::{
    aligned_detail, by_sheet_report, detail, group_blocks, group_line, human_line, human_lines,
    human_report, json_entries, json_entry, json_kind_fields, json_report, json_sheet, json_str,
    local_a1, member_lines, members, padded, right_aligned, sheet_keys, sheet_note, total_cells,
    uncounted,
};
use crate::text::decimal;

verus! {

// ---------------------------------------------------------------------------
// Words about texts
// ---------------------------------------------------------------------------

/// `t` is the end of `s`.
pub open spec fn ends_with(s: Seq<char>, t: Seq<char>) -> bool {
    t.len() <= s.len() && s.subrange(s.len() - t.len(), s.len() as int) == t
}

/// `t` is the start of `s`.
pub open spec fn starts_with(s: Seq<char>, t: Seq<char>) -> bool {
    t.len() <= s.len() && s.subrange(0, t.len() as int) == t
}

/// `t` stands in `s` from position `o` on.
pub open spec fn occurs_at(s: Seq<char>, t: Seq<char>, o: int) -> bool {
    0 <= o && o + t.len() <= s.len() && s.subrange(o, o + t.len()) == t
}

/// The number of cells from column (or row) `a` to `b`, inclusive.
pub open spec fn span(a: u32, b: u32) -> int {
    if a >= b {
        a - b + 1
    } else {
        b - a + 1
    }
}

/// The number of cells of a range: one for a single cell, otherwise the
/// width times the height of the rectangle between its corners.
pub open spec fn cells_in(c: CellRangeView) -> nat {
    match c.end {
        None => 1,
        Some(e) => (span(c.start.col, e.col) * span(c.start.row, e.row)) as nat,
    }
}

/// How the summaries describe a reference: `N cell`/`N cells` for a cell
/// reference, `named range` for a defined name, `table reference` for a
/// table.
pub open spec fn description(r: ReferenceView) -> Seq<char> {
    match r {
        ReferenceView::Cell(c) => decimal(cells_in(c)) + if cells_in(c) == 1 {
            " cell"@
        } else {
            " cells"@
        },
        ReferenceView::Named(_) => "named range"@,
        ReferenceView::Table(_) => "table reference"@,
    }
}

/// The sheet a reference is qualified by: that of a cell reference or a
/// defined name; tables have none.
pub open spec fn qualifier(r: ReferenceView) -> Option<Seq<char>> {
    match r {
        ReferenceView::Cell(c) => c.sheet,
        ReferenceView::Named(n) => n.sheet,
        ReferenceView::Table(_) => None,
    }
}

/// ` (sheet: Name)` for a qualified reference, nothing otherwise.
pub open spec fn sheet_words(r: ReferenceView) -> Seq<char> {
    match qualifier(r) {
        Some(s) => " (sheet: "@ + s + ")"@,
        None => seq![],
    }
}

proof fn lemma_ends_with_concat(a: Seq<char>, t: Seq<char>)
    ensures
        ends_with(a + t, t),
{
    assert((a + t).subrange(a.len() as int, (a + t).len() as int) =~= t);
}

proof fn lemma_cells_in(c: CellRangeView)
    ensures
        crate::reference::range_cell_count(c) == cells_in(c),
{
}

// ---------------------------------------------------------------------------
// Descriptions
// ---------------------------------------------------------------------------

/// `describe_ref` (and every summary line) describes a cell reference by
/// its number of cells, the product of its width and height, and names and
/// tables by their kind.
pub proof fn law_detail(r: ReferenceView)
    ensures
        detail(r) == description(r),
{
    match r {
        ReferenceView::Cell(c) => lemma_cells_in(c),
        _ => {},
    }
}

/// A line of the flat summary starts with the reference (without its
/// sheet) and ends with its description, then its sheet, if it has one,
/// for defined names as for cells.
pub proof fn law_human_line(r: ReferenceView, w: nat)
    ensures
        starts_with(human_line(r, w), local_a1(r)),
        ends_with(human_line(r, w), description(r) + sheet_words(r) + "\n"@),
{
    law_detail(r);
    let a = padded(local_a1(r), w);
    let l = human_line(r, w);
    assert(l == a + "  "@ + aligned_detail(r) + sheet_note(r) + "\n"@);
    assert(sheet_note(r) == sheet_words(r));
    assert(l.subrange(0, local_a1(r).len() as int) =~= local_a1(r));
    match crate::reference::reference_cell_count(r) {
        Some(k) => {
            let sp = if decimal(k).len() >= 4 {
                Seq::<char>::empty()
            } else {
                Seq::new((4 - decimal(k).len()) as nat, |_i: int| ' ')
            };
            assert(right_aligned(decimal(k), 4) =~= sp + decimal(k));
            assert(l =~= (a + "  "@ + sp) + (description(r) + sheet_words(r) + "\n"@));
            lemma_ends_with_concat(a + "  "@ + sp, description(r) + sheet_words(r) + "\n"@);
        },
        None => {
            assert(l =~= (a + "  "@) + (description(r) + sheet_words(r) + "\n"@));
            lemma_ends_with_concat(a + "  "@, description(r) + sheet_words(r) + "\n"@);
        },
    }
}

/// A line of the summary grouped by sheet starts with two spaces and the
/// reference, and ends with its description.
pub proof fn law_group_line(r: ReferenceView, w: nat)
    ensures
        starts_with(group_line(r, w), "  "@ + reference_a1(r)),
        ends_with(group_line(r, w), description(r) + "\n"@),
{
    law_detail(r);
    let l = group_line(r, w);
    let a = "  "@ + padded(reference_a1(r), w) + "  "@;
    assert(l =~= a + (description(r) + "\n"@));
    lemma_ends_with_concat(a, description(r) + "\n"@);
    assert(l.subrange(0, ("  "@ + reference_a1(r)).len() as int) =~= "  "@ + reference_a1(r));
}

/// The last field of a JSON object: the cell count (width times height)
/// of a cell reference, the name of a defined name, the specifier of a
/// table.
pub open spec fn json_last_field(r: ReferenceView) -> Seq<char> {
    match r {
        ReferenceView::Cell(c) => "      \"cell_count\": "@ + decimal(cells_in(c)) + "\n"@,
        ReferenceView::Named(n) => "      \"name\": "@ + json_str(n.name) + "\n"@,
        ReferenceView::Table(t) => "      \"specifier\": "@ + json_str(t.specifier) + "\n"@,
    }
}

/// The JSON object for a reference starts with its text (without its
/// sheet) and ends with its last field: for a cell reference, its number
/// of cells.
pub proof fn law_json_entry(r: ReferenceView, last: bool)
    ensures
        starts_with(json_entry(r, last), "    {\n"@ + "      \"reference\": "@ + json_str(local_a1(r))),
        ends_with(
            json_entry(r, last),
            json_last_field(r) + "    }"@ + (if last {
                seq![]
            } else {
                ","@
            }) + "\n"@,
        ),
{
    let e = json_entry(r, last);
    let head = "    {\n"@ + "      \"reference\": "@ + json_str(local_a1(r));
    assert(e.subrange(0, head.len() as int) =~= head);
    let tail = json_last_field(r) + "    }"@ + (if last {
        seq![]
    } else {
        ","@
    }) + "\n"@;
    match r {
        ReferenceView::Cell(c) => {
            lemma_cells_in(c);
        },
        _ => {},
    }
    let k = crate::report::json_kind_fields(r);
    let pre = k.subrange(0, k.len() - json_last_field(r).len());
    assert(k =~= pre + json_last_field(r));
    let front = "    {\n"@ + "      \"reference\": "@ + json_str(local_a1(r)) + ",\n"@
        + "      \"sheet\": "@ + crate::report::json_sheet(crate::reference::reference_sheet(r))
        + ",\n"@ + pre;
    assert(e =~= front + tail);
    lemma_ends_with_concat(front, tail);
}

// ---------------------------------------------------------------------------
// Every reference has its line
// ---------------------------------------------------------------------------

proof fn lemma_human_lines_prefix(refs: Seq<ReferenceView>, w: nat, j: int)
    requires
        0 <= j <= refs.len(),
    ensures
        starts_with(human_lines(refs, w), human_lines(refs.take(j), w)),
    decreases refs.len() - j,
{
    if j == refs.len() {
        assert(refs.take(j) =~= refs);
        assert(human_lines(refs, w).subrange(0, human_lines(refs, w).len() as int) =~= human_lines(refs, w));
    } else {
        lemma_human_lines_prefix(refs, w, j + 1);
        let a = human_lines(refs.take(j), w);
        let b = human_lines(refs.take(j + 1), w);
        assert(refs.take(j + 1).drop_last() =~= refs.take(j));
        assert(b == a + human_line(refs[j], w));
        assert(b.subrange(0, a.len() as int) =~= a);
        let full = human_lines(refs, w);
        assert(full.subrange(0, a.len() as int) =~= full.subrange(0, b.len() as int).subrange(
            0,
            a.len() as int,
        ));
    }
}

/// The flat summary holds the line of every reference, in order: the line
/// of `refs[k]` stands where the lines of the references before it end.
#[verifier::rlimit(30)]
pub proof fn law_human_report_lines(refs: Seq<ReferenceView>, k: int)
    requires
        0 <= k < refs.len(),
    ensures
        occurs_at(
            human_report(refs),
            human_line(refs[k], crate::report::a1_width(refs, false)),
            human_lines(refs.take(k), crate::report::a1_width(refs, false)).len() as int,
        ),
{
    let w = crate::report::a1_width(refs, false);
    lemma_human_lines_prefix(refs, w, k + 1);
    let a = human_lines(refs.take(k), w);
    let l = human_line(refs[k], w);
    assert(refs.take(k + 1).drop_last() =~= refs.take(k));
    assert(human_lines(refs.take(k + 1), w) == a + l);
    let full = human_lines(refs, w);
    let report = human_report(refs);
    assert(report == full + ("\n"@ + crate::report::summary(
        refs.len(),
        crate::report::total_cells(refs),
        crate::report::uncounted(refs),
    ) + "\n"@));
    assert(report.subrange(a.len() as int, a.len() + l.len() as int) =~= full.subrange(
        0,
        (a + l).len() as int,
    ).subrange(a.len() as int, a.len() + l.len() as int));
    assert((a + l).subrange(a.len() as int, a.len() + l.len() as int) =~= l);
}

proof fn lemma_json_entries_prefix(refs: Seq<ReferenceView>, n: nat, j: int)
    requires
        0 <= j <= refs.len(),
    ensures
        starts_with(json_entries(refs, n), json_entries(refs.take(j), n)),
    decreases refs.len() - j,
{
    if j == refs.len() {
        assert(refs.take(j) =~= refs);
        assert(json_entries(refs, n).subrange(0, json_entries(refs, n).len() as int) =~= json_entries(refs, n));
    } else {
        lemma_json_entries_prefix(refs, n, j + 1);
        let a = json_entries(refs.take(j), n);
        let b = json_entries(refs.take(j + 1), n);
        assert(refs.take(j + 1).drop_last() =~= refs.take(j));
        assert(b == a + json_entry(refs[j], j + 1 == n));
        assert(b.subrange(0, a.len() as int) =~= a);
        let full = json_entries(refs, n);
        assert(full.subrange(0, a.len() as int) =~= full.subrange(0, b.len() as int).subrange(
            0,
            a.len() as int,
        ));
    }
}

/// The start of the JSON report: the formula, and the opening of the list
/// of references.
pub open spec fn json_head(formula: Seq<char>) -> Seq<char> {
    "{\n"@ + "  \"formula\": "@ + json_str(formula) + ",\n"@ + "  \"references\": [\n"@
}

/// The JSON report holds the object of every reference, in order, the
/// last one without a trailing comma.
pub proof fn law_json_report_entries(formula: Seq<char>, refs: Seq<ReferenceView>, k: int)
    requires
        0 <= k < refs.len(),
    ensures
        occurs_at(
            json_report(formula, refs),
            json_entry(refs[k], k + 1 == refs.len()),
            (json_head(formula).len() + json_entries(refs.take(k), refs.len()).len()) as int,
        ),
{
    let n = refs.len();
    lemma_json_entries_prefix(refs, n, k + 1);
    let a = json_entries(refs.take(k), n);
    let e = json_entry(refs[k], k + 1 == refs.len());
    assert(refs.take(k + 1).drop_last() =~= refs.take(k));
    assert(json_entries(refs.take(k + 1), n) == a + e);
    let full = json_entries(refs, n);
    let head = json_head(formula);
    let report = json_report(formula, refs);
    assert(report =~= head + full + ("  ]\n"@ + "}\n"@));
    let o: int = (head.len() + a.len()) as int;
    assert(report.subrange(o, o + e.len() as int) =~= full.subrange(0, (a + e).len() as int).subrange(
        a.len() as int,
        a.len() + e.len() as int,
    ));
    assert((a + e).subrange(a.len() as int, a.len() + e.len() as int) =~= e);
    assert(occurs_at(report, e, o));
}

proof fn lemma_occurs_trans(s: Seq<char>, t: Seq<char>, u: Seq<char>, o: int, p: int)
    requires
        occurs_at(s, t, o),
        occurs_at(t, u, p),
    ensures
        occurs_at(s, u, o + p),
{
    assert(s.subrange(o + p, o + p + u.len()) =~= s.subrange(o, o + t.len()).subrange(
        p,
        p + u.len(),
    ));
}

proof fn lemma_member_lines_prefix(refs: Seq<ReferenceView>, idxs: Seq<int>, w: nat, j: int)
    requires
        0 <= j <= idxs.len(),
    ensures
        starts_with(member_lines(refs, idxs, w), member_lines(refs, idxs.take(j), w)),
    decreases idxs.len() - j,
{
    let full = member_lines(refs, idxs, w);
    if j == idxs.len() {
        assert(idxs.take(j) =~= idxs);
        assert(full.subrange(0, full.len() as int) =~= full);
    } else {
        lemma_member_lines_prefix(refs, idxs, w, j + 1);
        let a = member_lines(refs, idxs.take(j), w);
        let b = member_lines(refs, idxs.take(j + 1), w);
        assert(idxs.take(j + 1).drop_last() =~= idxs.take(j));
        assert(b == a + group_line(refs[idxs[j]], w));
        assert(b.subrange(0, a.len() as int) =~= a);
        assert(full.subrange(0, a.len() as int) =~= full.subrange(0, b.len() as int).subrange(
            0,
            a.len() as int,
        ));
    }
}

proof fn lemma_group_blocks_prefix(
    refs: Seq<ReferenceView>,
    keys: Seq<Option<Seq<char>>>,
    w: nat,
    j: int,
)
    requires
        0 <= j <= keys.len(),
    ensures
        starts_with(group_blocks(refs, keys, w), group_blocks(refs, keys.take(j), w)),
    decreases keys.len() - j,
{
    let full = group_blocks(refs, keys, w);
    if j == keys.len() {
        assert(keys.take(j) =~= keys);
        assert(full.subrange(0, full.len() as int) =~= full);
    } else {
        lemma_group_blocks_prefix(refs, keys, w, j + 1);
        let a = group_blocks(refs, keys.take(j), w);
        let b = group_blocks(refs, keys.take(j + 1), w);
        assert(keys.take(j + 1).drop_last() =~= keys.take(j));
        let rest = (if j + 1 > 1 {
            "\n"@
        } else {
            seq![]
        }) + crate::report::sheet_heading(keys[j]) + ":\n"@ + member_lines(
            refs,
            members(refs, keys[j]),
            w,
        );
        assert(b =~= a + rest);
        assert(b.subrange(0, a.len() as int) =~= a);
        assert(full.subrange(0, a.len() as int) =~= full.subrange(0, b.len() as int).subrange(
            0,
            a.len() as int,
        ));
    }
}

/// The summary grouped by sheet holds the line of every reference: each
/// reference is listed, with its description, under its sheet's group.
pub proof fn law_by_sheet_report_lines(refs: Seq<ReferenceView>, i: int)
    requires
        0 <= i < refs.len(),
    ensures
        exists|o: int|
            occurs_at(
                by_sheet_report(refs),
                #[trigger] group_line(refs[i], crate::report::a1_width(refs, true)),
                o,
            ),
{
    let w = crate::report::a1_width(refs, true);
    let keys = sheet_keys(refs);
    let key = crate::reference::reference_sheet(refs[i]);
    crate::laws::law_sheet_keys(refs);
    crate::laws::law_members_of_sheet(refs, key);
    assert(keys.contains(key));
    let g = choose|g: int| 0 <= g < keys.len() && keys[g] == key;
    let ms = members(refs, key);
    assert(ms.contains(i));
    let t = choose|t: int| 0 <= t < ms.len() && ms[t] == i;
    // The line within its group's lines.
    lemma_member_lines_prefix(refs, ms, w, t + 1);
    let ml = member_lines(refs, ms, w);
    let a = member_lines(refs, ms.take(t), w);
    let line = group_line(refs[i], w);
    assert(ms.take(t + 1).drop_last() =~= ms.take(t));
    assert(ms.take(t + 1).last() == i);
    assert(member_lines(refs, ms.take(t + 1), w) == a + line);
    assert(ml.subrange(a.len() as int, a.len() + line.len() as int) =~= ml.subrange(
        0,
        (a + line).len() as int,
    ).subrange(a.len() as int, a.len() + line.len() as int));
    assert((a + line).subrange(a.len() as int, a.len() + line.len() as int) =~= line);
    assert(occurs_at(ml, line, a.len() as int));
    // The group's lines within the blocks up to the group.
    let b = group_blocks(refs, keys.take(g + 1), w);
    assert(keys.take(g + 1).drop_last() =~= keys.take(g));
    assert(keys.take(g + 1).last() == key);
    let front = group_blocks(refs, keys.take(g), w) + (if g + 1 > 1 {
        "\n"@
    } else {
        seq![]
    }) + crate::report::sheet_heading(key) + ":\n"@;
    assert(b =~= front + ml);
    assert(b.subrange(front.len() as int, b.len() as int) =~= ml);
    assert(occurs_at(b, ml, front.len() as int));
    // The blocks up to the group within all blocks, within the report.
    lemma_group_blocks_prefix(refs, keys, w, g + 1);
    let all = group_blocks(refs, keys, w);
    assert(occurs_at(all, b, 0));
    let report = by_sheet_report(refs);
    assert(report == all + ("\n"@ + crate::report::summary(
        refs.len(),
        crate::report::total_cells(refs),
        crate::report::uncounted(refs),
    ) + "\n"@));
    assert(report.subrange(0, all.len() as int) =~= all);
    assert(occurs_at(report, all, 0));
    lemma_occurs_trans(b, ml, line, front.len() as int, a.len() as int);
    lemma_occurs_trans(all, b, line, 0, (front.len() + a.len()) as int);
    lemma_occurs_trans(report, all, line, 0, (front.len() + a.len()) as int);
}

/// The words that head a sheet's group: the sheet's name, or `(no sheet)`
/// for the references that name none.
pub open spec fn heading_words(key: Option<Seq<char>>) -> Seq<char> {
    match key {
        Some(s) => s,
        None => "(no sheet)"@,
    }
}

/// In the summary grouped by sheet, each sheet's group is its heading,
/// `Name:` on a line of its own, followed right away by the lines of the
/// references with that sheet, in their order in `refs`.
pub proof fn law_by_sheet_group(refs: Seq<ReferenceView>, g: int)
    requires
        0 <= g < sheet_keys(refs).len(),
    ensures
        exists|o: int|
            occurs_at(
                by_sheet_report(refs),
                #[trigger] (heading_words(sheet_keys(refs)[g]) + ":\n"@ + member_lines(
                    refs,
                    members(refs, sheet_keys(refs)[g]),
                    crate::report::a1_width(refs, true),
                )),
                o,
            ),
{
    let w = crate::report::a1_width(refs, true);
    let keys = sheet_keys(refs);
    let key = keys[g];
    let ml = member_lines(refs, members(refs, key), w);
    let hd = heading_words(key) + ":\n"@;
    assert(crate::report::sheet_heading(key) == heading_words(key));
    if refs.len() == 0 {
        assert(keys.len() == 0);
    }
    let b = group_blocks(refs, keys.take(g + 1), w);
    assert(keys.take(g + 1).drop_last() =~= keys.take(g));
    assert(keys.take(g + 1).last() == key);
    let sep = group_blocks(refs, keys.take(g), w) + (if g + 1 > 1 {
        "\n"@
    } else {
        seq![]
    });
    assert(b =~= sep + (hd + ml));
    assert(b.subrange(sep.len() as int, b.len() as int) =~= hd + ml);
    assert(occurs_at(b, hd + ml, sep.len() as int));
    lemma_group_blocks_prefix(refs, keys, w, g + 1);
    let all = group_blocks(refs, keys, w);
    assert(occurs_at(all, b, 0));
    let report = by_sheet_report(refs);
    assert(report == all + ("\n"@ + crate::report::summary(
        refs.len(),
        crate::report::total_cells(refs),
        crate::report::uncounted(refs),
    ) + "\n"@));
    assert(report.subrange(0, all.len() as int) =~= all);
    assert(occurs_at(report, all, 0));
    lemma_occurs_trans(all, b, hd + ml, 0, sep.len() as int);
    lemma_occurs_trans(report, all, hd + ml, 0, sep.len() as int);
}

/// A cell as JSON: its column letters and its row.
pub open spec fn cell_object(c: crate::reference::Cell) -> Seq<char> {
    "{ \"col\": \""@ + crate::reference::col_letters(c.col as nat) + "\", \"row\": "@ + decimal(
        c.row as nat,
    ) + " }"@
}

/// A JSON string, or `null` where there is none.
pub open spec fn string_or_null(o: Option<Seq<char>>) -> Seq<char> {
    match o {
        Some(s) => json_str(s),
        None => "null"@,
    }
}

/// The fields of the JSON object for a reference, as (key, value) pairs in
/// the order they are written: its text, its sheet, its kind, then for a
/// cell reference its corners, whether it is a range and its number of
/// cells; for a defined name its name; for a table its table and
/// specifier.
pub open spec fn json_fields(r: ReferenceView) -> Seq<(Seq<char>, Seq<char>)> {
    let common = seq![
        ("reference"@, json_str(local_a1(r))),
        ("sheet"@, string_or_null(qualifier(r))),
    ];
    match r {
        ReferenceView::Cell(c) => common + seq![
            ("kind"@, "\"cell\""@),
            ("start"@, cell_object(c.start)),
            (
                "end"@,
                match c.end {
                    Some(e) => cell_object(e),
                    None => "null"@,
                },
            ),
            ("is_range"@, if c.end is Some { "true"@ } else { "false"@ }),
            ("cell_count"@, decimal(cells_in(c))),
        ],
        ReferenceView::Named(n) => common + seq![
            ("kind"@, "\"named\""@),
            ("name"@, json_str(n.name)),
        ],
        ReferenceView::Table(t) => common + seq![
            ("kind"@, "\"table\""@),
            ("table"@, json_str(t.table)),
            ("specifier"@, json_str(t.specifier)),
        ],
    }
}

/// The lines of a JSON object's fields: `"key": value`, indented, each
/// but the last followed by a comma.
pub open spec fn field_lines(f: Seq<(Seq<char>, Seq<char>)>) -> Seq<char>
    decreases f.len(),
{
    if f.len() == 0 {
        seq![]
    } else {
        "      \""@ + f[0].0 + "\": "@ + f[0].1 + (if f.len() == 1 {
            "\n"@
        } else {
            ",\n"@
        }) + field_lines(f.drop_first())
    }
}

proof fn lemma_field_lines_cons(p: (Seq<char>, Seq<char>), rest: Seq<(Seq<char>, Seq<char>)>)
    ensures
        field_lines(seq![p] + rest) == "      \""@ + p.0 + "\": "@ + p.1 + (if rest.len() == 0 {
            "\n"@
        } else {
            ",\n"@
        }) + field_lines(rest),
{
    assert((seq![p] + rest).drop_first() =~= rest);
    assert((seq![p] + rest)[0] == p);
}

proof fn lemma_field_heads()
    ensures
        "      \"reference\": "@ == "      \""@ + "reference"@ + "\": "@,
        "      \"sheet\": "@ == "      \""@ + "sheet"@ + "\": "@,
        "      \"start\": "@ == "      \""@ + "start"@ + "\": "@,
        "      \"end\": "@ == "      \""@ + "end"@ + "\": "@,
        "      \"is_range\": "@ == "      \""@ + "is_range"@ + "\": "@,
        "      \"cell_count\": "@ == "      \""@ + "cell_count"@ + "\": "@,
        "      \"name\": "@ == "      \""@ + "name"@ + "\": "@,
        "      \"table\": "@ == "      \""@ + "table"@ + "\": "@,
        "      \"specifier\": "@ == "      \""@ + "specifier"@ + "\": "@,
        "      \"kind\": \"cell\",\n"@ == "      \""@ + "kind"@ + "\": "@ + "\"cell\""@ + ",\n"@,
        "      \"kind\": \"named\",\n"@ == "      \""@ + "kind"@ + "\": "@ + "\"named\""@ + ",\n"@,
        "      \"kind\": \"table\",\n"@ == "      \""@ + "kind"@ + "\": "@ + "\"table\""@ + ",\n"@,
{
    reveal_strlit("      \"");
    reveal_strlit("      \"cell_count\": ");
    reveal_strlit("      \"end\": ");
    reveal_strlit("      \"is_range\": ");
    reveal_strlit("      \"kind\": \"cell\",\n");
    reveal_strlit("      \"kind\": \"named\",\n");
    reveal_strlit("      \"kind\": \"table\",\n");
    reveal_strlit("      \"name\": ");
    reveal_strlit("      \"reference\": ");
    reveal_strlit("      \"sheet\": ");
    reveal_strlit("      \"specifier\": ");
    reveal_strlit("      \"start\": ");
    reveal_strlit("      \"table\": ");
    reveal_strlit("\": ");
    reveal_strlit("\"cell\"");
    reveal_strlit("\"named\"");
    reveal_strlit("\"table\"");
    reveal_strlit(",\n");
    reveal_strlit("cell_count");
    reveal_strlit("end");
    reveal_strlit("is_range");
    reveal_strlit("kind");
    reveal_strlit("name");
    reveal_strlit("reference");
    reveal_strlit("sheet");
    reveal_strlit("specifier");
    reveal_strlit("start");
    reveal_strlit("table");
    assert("      \"reference\": "@ =~= "      \""@ + "reference"@ + "\": "@);
    assert("      \"sheet\": "@ =~= "      \""@ + "sheet"@ + "\": "@);
    assert("      \"start\": "@ =~= "      \""@ + "start"@ + "\": "@);
    assert("      \"end\": "@ =~= "      \""@ + "end"@ + "\": "@);
    assert("      \"is_range\": "@ =~= "      \""@ + "is_range"@ + "\": "@);
    assert("      \"cell_count\": "@ =~= "      \""@ + "cell_count"@ + "\": "@);
    assert("      \"name\": "@ =~= "      \""@ + "name"@ + "\": "@);
    assert("      \"table\": "@ =~= "      \""@ + "table"@ + "\": "@);
    assert("      \"specifier\": "@ =~= "      \""@ + "specifier"@ + "\": "@);
    assert("      \"kind\": \"cell\",\n"@ =~= "      \""@ + "kind"@ + "\": "@ + "\"cell\""@ + ",\n"@);
    assert("      \"kind\": \"named\",\n"@ =~= "      \""@ + "kind"@ + "\": "@ + "\"named\""@ + ",\n"@);
    assert("      \"kind\": \"table\",\n"@ =~= "      \""@ + "kind"@ + "\": "@ + "\"table\""@ + ",\n"@);
}

#[verifier::rlimit(100)]
proof fn lemma_json_object_cell(r: ReferenceView)
    requires
        r is Cell,
    ensures
        json_kind_fields(r) == field_lines(json_fields(r).subrange(2, 7)),
        field_lines(json_fields(r)) == "      \"reference\": "@ + json_str(local_a1(r)) + ",\n"@
            + ("      \"sheet\": "@ + json_sheet(crate::reference::reference_sheet(r)) + ",\n"@
            + field_lines(json_fields(r).subrange(2, 7))),
{
    let f = json_fields(r);
    lemma_field_heads();
    let c = r->Cell_0;
    lemma_cells_in(c);
    let p0 = ("reference"@, json_str(local_a1(r)));
    let p1 = ("sheet"@, string_or_null(qualifier(r)));
    let p2 = ("kind"@, "\"cell\""@);
    let p3 = ("start"@, cell_object(c.start));
    let p4 = (
        "end"@,
        match c.end {
            Some(e) => cell_object(e),
            None => "null"@,
        },
    );
    let p5 = ("is_range"@, if c.end is Some { "true"@ } else { "false"@ });
    let p6 = ("cell_count"@, decimal(cells_in(c)));
    let t7 = Seq::<(Seq<char>, Seq<char>)>::empty();
    let t6 = seq![p6] + t7;
    lemma_field_lines_cons(p6, t7);
    let t5 = seq![p5] + t6;
    lemma_field_lines_cons(p5, t6);
    let t4 = seq![p4] + t5;
    lemma_field_lines_cons(p4, t5);
    let t3 = seq![p3] + t4;
    lemma_field_lines_cons(p3, t4);
    let t2 = seq![p2] + t3;
    lemma_field_lines_cons(p2, t3);
    let t1 = seq![p1] + t2;
    lemma_field_lines_cons(p1, t2);
    let t0 = seq![p0] + t1;
    lemma_field_lines_cons(p0, t1);
    assert(field_lines(t7) == Seq::<char>::empty());
    assert(f =~= t0);
    assert(f.subrange(2, 7) =~= t2);
    let v4 = match c.end {
        Some(e) => cell_object(e),
        None => "null"@,
    };
    let v5 = if c.end is Some { "true"@ } else { "false"@ };
    let l6 = "      \"cell_count\": "@ + decimal(cells_in(c)) + "\n"@;
    let l5 = "      \"is_range\": "@ + v5 + ",\n"@;
    let l4 = "      \"end\": "@ + v4 + ",\n"@;
    let l3 = "      \"start\": "@ + cell_object(c.start) + ",\n"@;
    assert(field_lines(t6) =~= l6);
    assert(field_lines(t5) =~= l5 + l6);
    assert(field_lines(t4) =~= l4 + (l5 + l6));
    assert(field_lines(t3) =~= l3 + (l4 + (l5 + l6)));
    assert(field_lines(t2) =~= "      \"kind\": \"cell\",\n"@ + (l3 + (l4 + (l5 + l6))));
    assert(cell_object(c.start) == crate::report::json_cell(c.start));
    assert(v4 == match c.end {
        Some(e) => crate::report::json_cell(e),
        None => "null"@,
    });
    assert(json_kind_fields(r) =~= field_lines(t2));
    assert(field_lines(t0) =~= "      \"reference\": "@ + json_str(local_a1(r)) + ",\n"@
            + ("      \"sheet\": "@ + json_sheet(crate::reference::reference_sheet(r)) + ",\n"@
            + field_lines(t2)));
}

proof fn lemma_json_object_named(r: ReferenceView)
    requires
        r is Named,
    ensures
        json_kind_fields(r) == field_lines(json_fields(r).subrange(2, 4)),
        field_lines(json_fields(r)) == "      \"reference\": "@ + json_str(local_a1(r)) + ",\n"@
            + ("      \"sheet\": "@ + json_sheet(crate::reference::reference_sheet(r)) + ",\n"@
            + field_lines(json_fields(r).subrange(2, 4))),
{
    let f = json_fields(r);
    lemma_field_heads();
    let n = r->Named_0;
    let p0 = ("reference"@, json_str(local_a1(r)));
    let p1 = ("sheet"@, string_or_null(qualifier(r)));
    let p2 = ("kind"@, "\"named\""@);
    let p3 = ("name"@, json_str(n.name));
    let t4 = Seq::<(Seq<char>, Seq<char>)>::empty();
    let t3 = seq![p3] + t4;
    lemma_field_lines_cons(p3, t4);
    let t2 = seq![p2] + t3;
    lemma_field_lines_cons(p2, t3);
    let t1 = seq![p1] + t2;
    lemma_field_lines_cons(p1, t2);
    let t0 = seq![p0] + t1;
    lemma_field_lines_cons(p0, t1);
    assert(field_lines(t4) == Seq::<char>::empty());
    assert(f =~= t0);
    assert(f.subrange(2, 4) =~= t2);
    assert(json_kind_fields(r) =~= field_lines(t2));
    assert(field_lines(t0) =~= "      \"reference\": "@ + json_str(local_a1(r)) + ",\n"@
            + ("      \"sheet\": "@ + json_sheet(crate::reference::reference_sheet(r)) + ",\n"@
            + field_lines(t2)));
}

proof fn lemma_json_object_table(r: ReferenceView)
    requires
        r is Table,
    ensures
        json_kind_fields(r) == field_lines(json_fields(r).subrange(2, 5)),
        field_lines(json_fields(r)) == "      \"reference\": "@ + json_str(local_a1(r)) + ",\n"@
            + ("      \"sheet\": "@ + json_sheet(crate::reference::reference_sheet(r)) + ",\n"@
            + field_lines(json_fields(r).subrange(2, 5))),
{
    let f = json_fields(r);
    lemma_field_heads();
    let t = r->Table_0;
    let p0 = ("reference"@, json_str(local_a1(r)));
    let p1 = ("sheet"@, string_or_null(qualifier(r)));
    let p2 = ("kind"@, "\"table\""@);
    let p3 = ("table"@, json_str(t.table));
    let p4 = ("specifier"@, json_str(t.specifier));
    let t5 = Seq::<(Seq<char>, Seq<char>)>::empty();
    let t4 = seq![p4] + t5;
    lemma_field_lines_cons(p4, t5);
    let t3 = seq![p3] + t4;
    lemma_field_lines_cons(p3, t4);
    let t2 = seq![p2] + t3;
    lemma_field_lines_cons(p2, t3);
    let t1 = seq![p1] + t2;
    lemma_field_lines_cons(p1, t2);
    let t0 = seq![p0] + t1;
    lemma_field_lines_cons(p0, t1);
    assert(field_lines(t5) == Seq::<char>::empty());
    assert(f =~= t0);
    assert(f.subrange(2, 5) =~= t2);
    assert(json_kind_fields(r) =~= field_lines(t2));
    assert(field_lines(t0) =~= "      \"reference\": "@ + json_str(local_a1(r)) + ",\n"@
            + ("      \"sheet\": "@ + json_sheet(crate::reference::reference_sheet(r)) + ",\n"@
            + field_lines(t2)));
}

/// The JSON object for a reference is exactly its fields, in order, each
/// on a line of its own, between braces; all objects but the last are
/// followed by a comma.
pub proof fn law_json_object(r: ReferenceView, last: bool)
    ensures
        json_entry(r, last) == "    {\n"@ + field_lines(json_fields(r)) + "    }"@ + (if last {
            seq![]
        } else {
            ","@
        }) + "\n"@,
{
    let n: int = match r {
        ReferenceView::Cell(_) => {
            lemma_json_object_cell(r);
            7
        },
        ReferenceView::Named(_) => {
            lemma_json_object_named(r);
            4
        },
        ReferenceView::Table(_) => {
            lemma_json_object_table(r);
            5
        },
    };
    let k = json_kind_fields(r);
    let o = "    {\n"@;
    let a = "      \"reference\": "@ + json_str(local_a1(r)) + ",\n"@;
    let b = "      \"sheet\": "@ + json_sheet(crate::reference::reference_sheet(r)) + ",\n"@;
    assert(field_lines(json_fields(r)) == a + (b + k));
    let x1 = "    {\n"@ + "      \"reference\": "@ + json_str(local_a1(r)) + ",\n"@;
    assert(x1 =~= o + a);
    let x2 = x1 + "      \"sheet\": "@ + json_sheet(crate::reference::reference_sheet(r)) + ",\n"@;
    assert(x2 =~= o + a + b);
    let x3 = x2 + k;
    assert(x3 =~= o + (a + (b + k)));
    assert(json_entry(r, last) == x3 + "    }"@ + (if last {
        seq![]
    } else {
        ","@
    }) + "\n"@);
}

// ---------------------------------------------------------------------------
// Totals
// ---------------------------------------------------------------------------

/// The cells that one reference adds to the total: its number of cells for
/// a cell reference, none for a name or a table.
pub open spec fn cells_added(r: ReferenceView) -> nat {
    match r {
        ReferenceView::Cell(c) => cells_in(c),
        _ => 0,
    }
}

/// The total of cells adds up over the references, each cell reference
/// adding its number of cells; the references left out of the total are
/// the names and tables.
pub proof fn law_totals_add(a: Seq<ReferenceView>, b: Seq<ReferenceView>)
    ensures
        total_cells(a + b) == total_cells(a) + total_cells(b),
        uncounted(a + b) == uncounted(a) + uncounted(b),
        total_cells(Seq::<ReferenceView>::empty()) == 0,
        uncounted(Seq::<ReferenceView>::empty()) == 0,
    decreases b.len(),
{
    if b.len() > 0 {
        law_totals_add(a, b.drop_last());
        assert((a + b).drop_last() =~= a + b.drop_last());
        assert((a + b).last() == b.last());
    } else {
        assert(a + b =~= a);
    }
}

/// One reference on its own: a cell reference counts its cells, a name or
/// a table counts as one reference not counted.
pub proof fn law_totals_one(r: ReferenceView)
    ensures
        total_cells(seq![r]) == cells_added(r),
        uncounted(seq![r]) == if r is Cell {
            0nat
        } else {
            1nat
        },
{
    assert(seq![r].drop_last() =~= Seq::<ReferenceView>::empty());
    assert(seq![r].last() == r);
    assert(total_cells(seq![r].drop_last()) == 0);
    assert(uncounted(seq![r].drop_last()) == 0);
    if let ReferenceView::Cell(c) = r {
        lemma_cells_in(c);
    }
}

/// The closing line of both summaries: the number of references, the
/// total of cells, and how many were not counted, where any were.
pub open spec fn totals_line(refs: Seq<ReferenceView>) -> Seq<char> {
    decimal(refs.len()) + (if refs.len() == 1 {
        " reference, "@
    } else {
        " references, "@
    }) + decimal(total_cells(refs)) + " cells total"@ + (if uncounted(refs) > 0 {
        " ("@ + decimal(uncounted(refs)) + " not counted: named ranges/tables)"@
    } else {
        seq![]
    }) + "\n"@
}

/// Both summaries of a formula with references end with a blank line and
/// the totals; without references, both are `no references found`.
pub proof fn law_summary_totals(refs: Seq<ReferenceView>)
    ensures
        refs.len() > 0 ==> ends_with(human_report(refs), "\n"@ + totals_line(refs)),
        refs.len() > 0 ==> ends_with(by_sheet_report(refs), "\n"@ + totals_line(refs)),
        refs.len() == 0 ==> human_report(refs) == "no references found\n"@,
        refs.len() == 0 ==> by_sheet_report(refs) == "no references found\n"@,
{
    if refs.len() > 0 {
        let t = "\n"@ + totals_line(refs);
        let s = crate::report::summary(refs.len(), total_cells(refs), uncounted(refs));
        assert(t =~= "\n"@ + s + "\n"@);
        let h = human_lines(refs, crate::report::a1_width(refs, false));
        assert(human_report(refs) =~= h + t);
        lemma_ends_with_concat(h, t);
        let g = group_blocks(refs, sheet_keys(refs), crate::report::a1_width(refs, true));
        assert(by_sheet_report(refs) =~= g + t);
        lemma_ends_with_concat(g, t);
    }
}

/// The JSON report opens with the formula and the list of references and
/// closes the list and the object; without references the list is empty.
pub proof fn law_json_report_frame(formula: Seq<char>, refs: Seq<ReferenceView>)
    ensures
        starts_with(json_report(formula, refs), json_head(formula)),
        ends_with(json_report(formula, refs), "  ]\n"@ + "}\n"@),
        refs.len() == 0 ==> json_report(formula, refs) == json_head(formula) + "  ]\n"@ + "}\n"@,
{
    let head = json_head(formula);
    let body = json_entries(refs, refs.len());
    let tail = "  ]\n"@ + "}\n"@;
    assert(json_report(formula, refs) =~= head + body + tail);
    assert((head + body + tail).subrange(0, head.len() as int) =~= head);
    lemma_ends_with_concat(head + body, tail);
    if refs.len() == 0 {
        assert(body =~= Seq::<char>::empty());
        assert(head + body =~= head);
    }
}

// ---------------------------------------------------------------------------
// Columns of the flat summary
// ---------------------------------------------------------------------------

/// `n` spaces.
pub open spec fn spaces(n: int) -> Seq<char> {
    Seq::new(n as nat, |_i: int| ' ')
}

proof fn lemma_utf8_size_at_least_len(s: Seq<char>)
    ensures
        crate::text::utf8_size(s) >= s.len(),
    decreases s.len(),
{
    if s.len() > 0 {
        lemma_utf8_size_at_least_len(s.drop_last());
    }
}

/// The width of the reference column is at least the size of every
/// reference's text.
proof fn lemma_width_covers(refs: Seq<ReferenceView>, qualified: bool, i: int)
    requires
        0 <= i < refs.len(),
    ensures
        crate::report::a1_width(refs, qualified) >= crate::report::capped_size(
            crate::report::shown_a1(refs[i], qualified),
        ),
    decreases refs.len(),
{
    if i < refs.len() - 1 {
        lemma_width_covers(refs.drop_last(), qualified, i);
        assert(refs.drop_last()[i] == refs[i]);
    }
}

/// A line of the flat summary in columns: the reference padded with spaces
/// to the column's width and two more; then, for a cell reference, its
/// number of cells right-aligned to four places.
pub proof fn law_human_line_columns(r: ReferenceView, w: nat)
    requires
        local_a1(r).len() <= w,
    ensures
        human_line(r, w).subrange(0, w + 2int) == local_a1(r) + spaces(w + 2 - local_a1(r).len()),
        r matches ReferenceView::Cell(c) ==> decimal(cells_in(c)).len() <= 4 ==> human_line(
            r,
            w,
        ).subrange(w + 2int, w + 6int) == spaces(4 - decimal(cells_in(c)).len()) + decimal(cells_in(c)),
{
    let a = local_a1(r);
    let l = human_line(r, w);
    let pa = padded(a, w);
    reveal_strlit("  ");
    assert(pa =~= a + spaces(w - a.len()));
    assert(pa.len() == w);
    let rest = aligned_detail(r) + sheet_note(r) + "\n"@;
    assert(l =~= pa + "  "@ + rest);
    assert(l.subrange(0, w + 2int) =~= a + spaces(w + 2 - a.len()));
    if let ReferenceView::Cell(c) = r {
        lemma_cells_in(c);
        let d = decimal(cells_in(c));
        if d.len() <= 4 {
            let word = if cells_in(c) == 1 {
                " cell"@
            } else {
                " cells"@
            };
            assert(right_aligned(d, 4) =~= spaces(4 - d.len()) + d);
            assert(l =~= (pa + "  "@) + (spaces(4 - d.len()) + d) + (word + sheet_note(r) + "\n"@));
            assert(l.subrange(w + 2int, w + 6int) =~= spaces(4 - d.len()) + d);
        }
    }
}

/// Every line of the flat summary has its reference column as wide as the
/// widest reference (each reference's text fitting in memory), so that the
/// counts of the cell references line up.
pub proof fn law_human_report_columns(refs: Seq<ReferenceView>, i: int)
    requires
        0 <= i < refs.len(),
        crate::text::utf8_size(local_a1(refs[i])) <= usize::MAX,
    ensures
        local_a1(refs[i]).len() <= crate::report::a1_width(refs, false),
        human_line(refs[i], crate::report::a1_width(refs, false)).subrange(
            0,
            crate::report::a1_width(refs, false) + 2int,
        ) == local_a1(refs[i]) + spaces(crate::report::a1_width(refs, false) + 2 - local_a1(refs[i]).len()),
        refs[i] matches ReferenceView::Cell(c) ==> decimal(cells_in(c)).len() <= 4 ==> human_line(
            refs[i],
            crate::report::a1_width(refs, false),
        ).subrange(crate::report::a1_width(refs, false) + 2int, crate::report::a1_width(refs, false) + 6int)
            == spaces(4 - decimal(cells_in(c)).len()) + decimal(cells_in(c)),
{
    lemma_width_covers(refs, false, i);
    lemma_utf8_size_at_least_len(local_a1(refs[i]));
    law_human_line_columns(refs[i], crate::report::a1_width(refs, false));
}

/// A line of the summary grouped by sheet in columns: two spaces, the
/// reference with its sheet padded to the column's width, two spaces, then
/// its description.
pub proof fn law_group_line_columns(r: ReferenceView, w: nat)
    requires
        reference_a1(r).len() <= w,
    ensures
        group_line(r, w) == "  "@ + reference_a1(r) + spaces(w + 2 - reference_a1(r).len()) + description(r) + "\n"@,
{
    law_detail(r);
    reveal_strlit("  ");
    let a = reference_a1(r);
    assert(padded(a, w) =~= a + spaces(w - a.len()));
    assert(padded(a, w) + "  "@ =~= a + spaces(w + 2 - a.len()));
    assert(group_line(r, w) =~= "  "@ + a + spaces(w + 2 - a.len()) + description(r) + "\n"@);
}

/// Every line of the summary grouped by sheet has its reference column as
/// wide as the widest reference with its sheet (each fitting in memory).
pub proof fn law_by_sheet_columns(refs: Seq<ReferenceView>, i: int)
    requires
        0 <= i < refs.len(),
        crate::text::utf8_size(reference_a1(refs[i])) <= usize::MAX,
    ensures
        reference_a1(refs[i]).len() <= crate::report::a1_width(refs, true),
{
    lemma_width_covers(refs, true, i);
    lemma_utf8_size_at_least_len(reference_a1(refs[i]));
}

} // verus!
