use formula_refs::report::escape_json;
use formula_refs::{extract, Cell, CellRange, NamedRange, Reference};

#[test]
fn bare_word_is_a_name_unless_called() {
    for w in ["TaxRate", "_x.1", "AB12C", "A0", "ABCD1"] {
        let named = extract(&format!("={w}*2"));
        assert_eq!(
            named,
            vec![Reference::Named(NamedRange { sheet: None, name: w.to_string() })]
        );
        let called = extract(&format!("={w}(B1)"));
        assert_eq!(
            called,
            vec![Reference::Cell(CellRange {
                sheet: None,
                start: Cell { col: 2, row: 1, col_absolute: false, row_absolute: false },
                end: None,
            })]
        );
    }
}

#[test]
fn appended_literal_adds_nothing() {
    for p in ["=A1+B2", "=SUM(Sheet1!A1:B3)", "='open", "=Table1[x", "=A1:", "=Sheet1!"] {
        let with_literal = format!("{p},\"Sheet1!A1 C3:D4 TaxRate\"");
        assert_eq!(extract(&with_literal), extract(p));
    }
}

#[test]
fn found_references_are_well_formed() {
    let formula = "=ZZZ1+AAAA1+a4294967295+B4294967296+TRUE+Q_1.x+T[[a]]+$c$3:d$9";
    let refs = extract(formula);
    assert!(refs.len() <= formula.chars().count());
    for r in &refs {
        match r {
            Reference::Cell(c) => {
                assert!(1 <= c.start.col && c.start.col <= 18278 && c.start.row >= 1);
                if let Some(e) = &c.end {
                    assert!(1 <= e.col && e.col <= 18278 && e.row >= 1);
                }
                assert!(r.cell_count().is_some());
            }
            Reference::Named(n) => {
                assert!(!n.name.eq_ignore_ascii_case("TRUE") && !n.name.eq_ignore_ascii_case("FALSE"));
            }
            Reference::Table(t) => assert_eq!(t.specifier, "[a]"),
        }
    }
    let a1: Vec<String> = refs.iter().map(|r| r.to_a1()).collect();
    assert_eq!(a1, vec!["ZZZ1", "AAAA1", "A4294967295", "B4294967296", "Q_1.x", "T[[a]]", "$C$3:D$9"]);
}

#[test]
fn escaped_json_reads_back() {
    let text = "say \"hi\"\\\n\r\t\u{7}é";
    let escaped = escape_json(text);
    assert_eq!(escaped, "say \\\"hi\\\"\\\\\\n\\r\\t\\u0007é");
}
