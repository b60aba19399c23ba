use formula_refs::cli::{parse_args, Command};
use formula_refs::report::{
    describe_ref, escape_json, group_by_sheet, render_human, render_human_by_sheet, render_json,
    summary_line,
};
use formula_refs::{col_to_letters, extract, Cell, CellRange, NamedRange, Reference, TableRef};

fn args(list: &[&str]) -> Vec<String> {
    list.iter().map(|s| s.to_string()).collect()
}

#[test]
fn human_summary_of_readme_formula() {
    let refs = extract("=SUM(A1:A10)+Sheet2!B1");
    assert_eq!(
        render_human(&refs),
        "A1:A10    10 cells\nB1         1 cell (sheet: Sheet2)\n\n2 references, 11 cells total\n"
    );
}

#[test]
fn human_summary_counts_names_and_tables_apart() {
    let refs = extract("=TaxRate+Table1[Sales]+A1");
    assert_eq!(
        render_human(&refs),
        "TaxRate        named range\nTable1[Sales]  table reference\nA1                1 cell\n\n\
         3 references, 1 cells total (2 not counted: named ranges/tables)\n"
    );
}

#[test]
fn human_summary_aligns_wide_counts() {
    let refs = extract("=A1:B5000+C1");
    assert_eq!(
        render_human(&refs),
        "A1:B5000  10000 cells\nC1           1 cell\n\n2 references, 10001 cells total\n"
    );
}

#[test]
fn human_summary_of_nothing() {
    let refs = extract("=1+2");
    assert_eq!(render_human(&refs), "no references found\n");
    assert_eq!(render_human_by_sheet(&refs), "no references found\n");
}

#[test]
fn by_sheet_summary_groups_in_order_of_first_appearance() {
    let refs = extract("=Sheet2!B1+A1+Sheet2!C1:C4+'Q 1'!D5");
    assert_eq!(
        render_human_by_sheet(&refs),
        "Sheet2:\n  Sheet2!B1     1 cell\n  Sheet2!C1:C4  4 cells\n\n(no sheet):\n  A1            1 cell\n\n\
         Q 1:\n  'Q 1'!D5      1 cell\n\n4 references, 7 cells total\n"
    );
}

#[test]
fn groups_keep_original_order() {
    let refs = extract("=A1+Sheet2!B1+C1+Sheet2!D1");
    let groups = group_by_sheet(&refs);
    assert_eq!(groups.len(), 2);
    assert_eq!(groups[0].sheet, None);
    assert_eq!(groups[0].members, vec![0, 2]);
    assert_eq!(groups[1].sheet, Some("Sheet2".to_string()));
    assert_eq!(groups[1].members, vec![1, 3]);
}

#[test]
fn json_report_of_readme_formula() {
    let formula = "=SUM(A1:A10)+Sheet2!B1";
    let refs = extract(formula);
    let expected = r#"{
  "formula": "=SUM(A1:A10)+Sheet2!B1",
  "references": [
    {
      "reference": "A1:A10",
      "sheet": null,
      "kind": "cell",
      "start": { "col": "A", "row": 1 },
      "end": { "col": "A", "row": 10 },
      "is_range": true,
      "cell_count": 10
    },
    {
      "reference": "B1",
      "sheet": "Sheet2",
      "kind": "cell",
      "start": { "col": "B", "row": 1 },
      "end": null,
      "is_range": false,
      "cell_count": 1
    }
  ]
}
"#;
    assert_eq!(render_json(formula, &refs), expected);
}

#[test]
fn json_report_of_names_and_tables() {
    let formula = "=TaxRate+T[x]";
    let refs = extract(formula);
    let expected = r#"{
  "formula": "=TaxRate+T[x]",
  "references": [
    {
      "reference": "TaxRate",
      "sheet": null,
      "kind": "named",
      "name": "TaxRate"
    },
    {
      "reference": "T[x]",
      "sheet": null,
      "kind": "table",
      "table": "T",
      "specifier": "x"
    }
  ]
}
"#;
    assert_eq!(render_json(formula, &refs), expected);
}

#[test]
fn json_escapes() {
    assert_eq!(escape_json("a\"b\\c\nd\re\tf"), "a\\\"b\\\\c\\nd\\re\\tf");
    assert_eq!(escape_json("\u{1}x\u{1f}"), "\\u0001x\\u001f");
    assert_eq!(escape_json("plain é"), "plain é");
}

#[test]
fn describe_ref_tallies() {
    let refs = extract("=A1:B2+TaxRate+T[x]+C3");
    let mut total = 5u64;
    let mut uncounted = 0u64;
    assert_eq!(describe_ref(&refs[0], &mut total, &mut uncounted), "4 cells");
    assert_eq!((total, uncounted), (9, 0));
    assert_eq!(describe_ref(&refs[1], &mut total, &mut uncounted), "named range");
    assert_eq!(describe_ref(&refs[2], &mut total, &mut uncounted), "table reference");
    assert_eq!((total, uncounted), (9, 2));
    assert_eq!(describe_ref(&refs[3], &mut total, &mut uncounted), "1 cell");
    assert_eq!((total, uncounted), (10, 2));
}

#[test]
fn summary_lines() {
    assert_eq!(summary_line(1, 1, 0), "1 reference, 1 cells total");
    assert_eq!(
        summary_line(3, 0, 3),
        "3 references, 0 cells total (3 not counted: named ranges/tables)"
    );
}

#[test]
fn command_line_options() {
    match parse_args(&args(&["--json", "=A1"])) {
        Ok(Command::Run(a)) => {
            assert_eq!(a.formula, Some("=A1".to_string()));
            assert!(a.json);
            assert!(!a.by_sheet);
        }
        _ => panic!("expected a run"),
    }
    match parse_args(&args(&["-"])) {
        Ok(Command::Run(a)) => assert_eq!(a.formula, Some("-".to_string())),
        _ => panic!("expected a run"),
    }
    match parse_args(&args(&[])) {
        Ok(Command::Run(a)) => {
            assert_eq!(a.formula, None);
            assert!(!a.json && !a.by_sheet);
        }
        _ => panic!("expected a run"),
    }
    assert!(matches!(parse_args(&args(&["=A1", "--help", "--bogus"])), Ok(Command::Help)));
    assert!(matches!(parse_args(&args(&["-h"])), Ok(Command::Help)));
}

#[test]
fn command_line_errors() {
    assert_eq!(parse_args(&args(&["--bogus", "-h"])).err(), Some("unrecognized flag: --bogus".to_string()));
    assert_eq!(
        parse_args(&args(&["=A1", "=B2"])).err(),
        Some("only one formula argument is allowed".to_string())
    );
    assert_eq!(
        parse_args(&args(&["--by-sheet", "--json"])).err(),
        Some("--by-sheet has no effect with --json".to_string())
    );
}

#[test]
fn column_letters() {
    assert_eq!(col_to_letters(1), "A");
    assert_eq!(col_to_letters(26), "Z");
    assert_eq!(col_to_letters(27), "AA");
    assert_eq!(col_to_letters(28), "AB");
    assert_eq!(col_to_letters(702), "ZZ");
    assert_eq!(col_to_letters(703), "AAA");
    assert_eq!(col_to_letters(18278), "ZZZ");
    assert_eq!(col_to_letters(0), "");
    assert_eq!(col_to_letters(u32::MAX), "MWLQKWU");
}

#[test]
fn column_letters_read_back() {
    for col in [1u32, 26, 27, 52, 703, 18278] {
        let text = format!("={}7", col_to_letters(col));
        match &extract(&text)[0] {
            Reference::Cell(c) => assert_eq!(c.start.col, col),
            other => panic!("expected a cell reference, got {other:?}"),
        }
    }
}

#[test]
fn cell_counts_in_either_order() {
    let a = CellRange {
        sheet: None,
        start: Cell { col: 3, row: 10, col_absolute: false, row_absolute: false },
        end: Some(Cell { col: 1, row: 1, col_absolute: false, row_absolute: false }),
    };
    assert_eq!(a.cell_count(), 30);
    let whole = CellRange {
        sheet: None,
        start: Cell { col: 0, row: 0, col_absolute: false, row_absolute: false },
        end: Some(Cell { col: u32::MAX, row: 1, col_absolute: false, row_absolute: false }),
    };
    assert_eq!(whole.cell_count(), 1u64 << 33);
    assert_eq!(Reference::Cell(a).cell_count(), Some(30));
}

#[test]
fn sheet_names_are_quoted_when_needed() {
    let plain = NamedRange { sheet: Some("Data.2024_x".to_string()), name: "Rate".to_string() };
    assert_eq!(plain.to_a1(), "Data.2024_x!Rate");
    let spaced = NamedRange { sheet: Some("Bob's Sheet".to_string()), name: "Rate".to_string() };
    assert_eq!(spaced.to_a1(), "'Bob''s Sheet'!Rate");
    let t = TableRef { table: "T".to_string(), specifier: "[#All]".to_string() };
    assert_eq!(t.to_a1(), "T[[#All]]");
    let c = Cell { col: 28, row: 4096, col_absolute: true, row_absolute: false };
    assert_eq!(c.to_a1(), "$AB4096");
}

#[test]
fn ranges_read_back_as_written() {
    let ranges = vec![
        CellRange {
            sheet: Some("Bob's Q1 Sheet".to_string()),
            start: Cell { col: 2, row: 2, col_absolute: true, row_absolute: true },
            end: Some(Cell { col: 703, row: 4294967295, col_absolute: false, row_absolute: true }),
        },
        CellRange {
            sheet: Some("_data".to_string()),
            start: Cell { col: 18278, row: 1, col_absolute: false, row_absolute: false },
            end: None,
        },
        CellRange {
            sheet: None,
            start: Cell { col: 1, row: 10, col_absolute: false, row_absolute: false },
            end: Some(Cell { col: 26, row: 1, col_absolute: true, row_absolute: false }),
        },
    ];
    for r in ranges {
        let text = r.to_a1();
        assert_eq!(extract(&text), vec![Reference::Cell(r)]);
    }
}

#[test]
fn names_read_back_as_written() {
    let names = vec![
        NamedRange { sheet: None, name: "TaxRate".to_string() },
        NamedRange { sheet: Some("Q 1".to_string()), name: "_rate.2".to_string() },
        NamedRange { sheet: Some("Sheet1".to_string()), name: "A1B".to_string() },
    ];
    for n in names {
        let text = n.to_a1();
        assert_eq!(extract(&text), vec![Reference::Named(n)]);
    }
}

#[test]
fn string_literals_yield_nothing() {
    let a1: Vec<String> = extract("=\"Sheet1!A1 TaxRate\"&B2&\"say \"\"C3\"\"\"")
        .iter()
        .map(|r| r.to_a1())
        .collect();
    assert_eq!(a1, vec!["B2"]);
}
