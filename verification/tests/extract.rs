use formula_refs::{extract, Reference};

fn a1_list(formula: &str) -> Vec<String> {
    extract(formula).iter().map(|r| r.to_a1()).collect()
}

#[test]
fn single_cell() {
    let refs = extract("=A1+1");
    assert_eq!(refs.len(), 1);
    assert_eq!(refs[0].to_a1(), "A1");
}

#[test]
fn range() {
    let refs = extract("=SUM(A1:B10)");
    assert_eq!(refs.len(), 1);
    assert_eq!(refs[0].to_a1(), "A1:B10");
    assert_eq!(refs[0].cell_count(), Some(20));
}

#[test]
fn absolute_markers() {
    let refs = extract("=$A$1");
    match &refs[0] {
        Reference::Cell(c) => {
            assert_eq!(c.start.col_absolute, true);
            assert_eq!(c.start.row_absolute, true);
        }
        other => panic!("expected a cell reference, got {other:?}"),
    }
}

#[test]
fn quoted_sheet_name() {
    let refs = extract("='Budget 2024'!C3");
    assert_eq!(refs.len(), 1);
    assert_eq!(refs[0].sheet(), Some("Budget 2024"));
    assert_eq!(refs[0].to_a1(), "'Budget 2024'!C3");
}

#[test]
fn unquoted_sheet_name() {
    let refs = extract("=Sheet1!A1:A5");
    assert_eq!(refs.len(), 1);
    assert_eq!(refs[0].sheet(), Some("Sheet1"));
    assert_eq!(refs[0].to_a1(), "Sheet1!A1:A5");
}

#[test]
fn named_range() {
    let refs = extract("=TaxRate*2");
    assert_eq!(refs.len(), 1);
    assert_eq!(refs[0].to_a1(), "TaxRate");
    assert_eq!(refs[0].cell_count(), None);
    assert!(matches!(&refs[0], Reference::Named(_)));
}

#[test]
fn sheet_qualified_named_range() {
    let refs = extract("=Sheet1!TaxRate");
    assert_eq!(refs.len(), 1);
    assert_eq!(refs[0].sheet(), Some("Sheet1"));
    assert_eq!(refs[0].to_a1(), "Sheet1!TaxRate");
}

#[test]
fn function_calls_are_not_named_ranges() {
    let refs = extract("=ROUND(SUM(A1:A10), 2)");
    let a1: Vec<String> = refs.iter().map(|r| r.to_a1()).collect();
    assert_eq!(a1, vec!["A1:A10"]);
}

#[test]
fn boolean_literals_are_not_named_ranges() {
    let refs = extract("=IF(TRUE,A1,B1)");
    let a1: Vec<String> = refs.iter().map(|r| r.to_a1()).collect();
    assert_eq!(a1, vec!["A1", "B1"]);
}

#[test]
fn named_range_mixed_with_cells() {
    let refs = extract("=A1+TaxRate-Sheet2!Discount");
    let a1: Vec<String> = refs.iter().map(|r| r.to_a1()).collect();
    assert_eq!(a1, vec!["A1", "TaxRate", "Sheet2!Discount"]);
}

#[test]
fn ignores_string_literals() {
    let refs = extract("=CONCAT(\"A1:B2\", C3)");
    assert_eq!(refs.len(), 1);
    assert_eq!(refs[0].to_a1(), "C3");
}

#[test]
fn ignores_function_names() {
    let refs = extract("=ROUND(A1, 2)");
    assert_eq!(refs.len(), 1);
    assert_eq!(refs[0].to_a1(), "A1");
}

#[test]
fn simple_table_column_reference() {
    let refs = extract("=SUM(Table1[Sales])");
    assert_eq!(refs.len(), 1);
    assert_eq!(refs[0].to_a1(), "Table1[Sales]");
    assert_eq!(refs[0].cell_count(), None);
    assert_eq!(refs[0].sheet(), None);
    match &refs[0] {
        Reference::Table(t) => {
            assert_eq!(t.table, "Table1");
            assert_eq!(t.specifier, "Sales");
        }
        other => panic!("expected a table reference, got {other:?}"),
    }
}

#[test]
fn table_reference_with_nested_brackets() {
    let refs = extract("=Table1[[#Headers],[Column1]]");
    assert_eq!(refs.len(), 1);
    assert_eq!(refs[0].to_a1(), "Table1[[#Headers],[Column1]]");
}

#[test]
fn table_reference_this_row() {
    let refs = extract("=Table1[@Sales]*Table1[@Price]");
    let a1: Vec<String> = refs.iter().map(|r| r.to_a1()).collect();
    assert_eq!(a1, vec!["Table1[@Sales]", "Table1[@Price]"]);
}

#[test]
fn table_reference_mixed_with_cells() {
    let refs = extract("=A1+Table1[Sales]-B2");
    let a1: Vec<String> = refs.iter().map(|r| r.to_a1()).collect();
    assert_eq!(a1, vec!["A1", "Table1[Sales]", "B2"]);
}

#[test]
fn unbalanced_table_brackets_do_not_hang() {
    let refs = extract("=Table1[Sales");
    let a1: Vec<String> = refs.iter().map(|r| r.to_a1()).collect();
    assert_eq!(a1, vec!["Table1", "Sales"]);
}

#[test]
fn multiple_refs() {
    let refs = extract("=A1+B2*SUM(C1:C10)");
    let a1: Vec<String> = refs.iter().map(|r| r.to_a1()).collect();
    assert_eq!(a1, vec!["A1", "B2", "C1:C10"]);
}

#[test]
fn empty_formula() {
    assert_eq!(extract(""), vec![]);
}

#[test]
fn unterminated_string_literal_does_not_hang() {
    let refs = extract("=CONCAT(\"unterminated, A1:B2");
    assert!(refs.is_empty());
}

#[test]
fn unterminated_quoted_sheet_name_falls_back_to_words() {
    let refs = extract("='Budget 2024 A1");
    let a1: Vec<String> = refs.iter().map(|r| r.to_a1()).collect();
    assert_eq!(a1, vec!["Budget", "A1"]);
}

#[test]
fn lone_dollar_sign_is_not_a_reference() {
    let refs = extract("=$+A1");
    let a1: Vec<String> = refs.iter().map(|r| r.to_a1()).collect();
    assert_eq!(a1, vec!["A1"]);
}

#[test]
fn sheet_bang_with_no_reference_after_it() {
    let refs = extract("=Sheet1!");
    assert!(refs.is_empty());
}

#[test]
fn deeply_nested_unbalanced_brackets_terminate() {
    let input = format!("=Table1{}", "[".repeat(500));
    let refs = extract(&input);
    let a1: Vec<String> = refs.iter().map(|r| r.to_a1()).collect();
    assert_eq!(a1, vec!["Table1"]);
}

#[test]
fn zero_row_falls_back_to_named_reference() {
    let refs = extract("=A0");
    assert_eq!(refs.len(), 1);
    assert!(matches!(&refs[0], Reference::Named(_)));
    assert_eq!(refs[0].to_a1(), "A0");
}

#[test]
fn row_number_beyond_u32_does_not_panic() {
    let refs = extract("=A99999999999999999999");
    assert_eq!(refs.len(), 1);
    assert!(matches!(&refs[0], Reference::Named(_)));
}

// A small xorshift64 generator, so the random input is the same on every run.
struct Xorshift64(u64);

impl Xorshift64 {
    fn next_u64(&mut self) -> u64 {
        let mut x = self.0;
        x ^= x << 13;
        x ^= x >> 7;
        x ^= x << 17;
        self.0 = x;
        x
    }

    fn next_index(&mut self, bound: usize) -> usize {
        (self.next_u64() % bound as u64) as usize
    }
}

const ALPHABET: &[char] = &[
    'A', 'B', 'Z', 'a', 'z', '1', '9', '0', '$', '!', '\'', '"', '[', ']', ':', '.', '_', '@',
    '#', '(', ')', ',', '+', '-', '*', ' ', '\\',
];

fn random_string(rng: &mut Xorshift64, len: usize) -> String {
    (0..len).map(|_| ALPHABET[rng.next_index(ALPHABET.len())]).collect()
}

#[test]
fn does_not_panic_on_random_malformed_input() {
    let mut rng = Xorshift64(0x9e3779b97f4a7c15);
    for _ in 0..5000 {
        let len = rng.next_index(40);
        let input = random_string(&mut rng, len);
        let refs = extract(&input);
        for r in &refs {
            let _ = r.to_a1();
            let _ = r.sheet();
            let _ = r.cell_count();
        }
    }
}

#[test]
fn lower_case_cells_and_booleans() {
    assert_eq!(a1_list("=a1+false+True+b$2"), vec!["A1", "B$2"]);
}
