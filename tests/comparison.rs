use std::cmp::Ordering;

use gas_compare::align::{align_reports, key_of, method_key};
use gas_compare::cells::{
    absolute_cell_exec, cell_text_exec, delta_cell_exec, render_row, round_nearest_exec,
    trend_exec, Trend,
};
use gas_compare::entry::{Entry, Info, MethodIdentifier, RawDeployment, RawMethod};
use gas_compare::table::{render_report, table_body, table_cells, table_header};
use gas_compare::text::{compare_text, push_decimal, push_int};

fn deployment(name: &str, gas: &[isize]) -> RawDeployment {
    RawDeployment {
        name: name.to_string(),
        gas_data: gas.to_vec(),
    }
}

fn method(contract: &str, name: &str, gas: &[isize]) -> RawMethod {
    RawMethod {
        key: format!("{}_{}", contract, name),
        method: MethodIdentifier {
            contract: contract.to_string(),
            method: name.to_string(),
        },
        signature: format!("{}()", name),
        gas_data: gas.to_vec(),
        number_of_calls: gas.len(),
    }
}

fn info(deployments: Vec<RawDeployment>, methods: Vec<RawMethod>) -> Info {
    Info {
        methods,
        deployments,
    }
}

fn names(n: usize) -> Vec<String> {
    (0..n).map(|i| format!("run{}.json", i)).collect()
}

const RED: &str = "\x1b[91m";
const GREEN: &str = "\x1b[92m";
const PLAIN: &str = "\x1b[0m";
const RESET: &str = "\x1b[0m";

#[test]
fn average_truncates() {
    let e = Entry::Deployment(deployment("Token", &[10, 11]));
    assert_eq!(e.avg_gas(), 10);
}

#[test]
fn average_truncates_toward_zero_for_negatives() {
    let e = Entry::Deployment(deployment("Token", &[-10, -11]));
    assert_eq!(e.avg_gas(), -10);
}

#[test]
fn average_of_method_samples() {
    let e = Entry::Method(method("Token", "transfer", &[100, 200, 301]));
    assert_eq!(e.avg_gas(), 200);
}

#[test]
fn average_of_extreme_samples_does_not_overflow() {
    let e = Entry::Deployment(deployment("Big", &[isize::MAX, isize::MAX, isize::MAX]));
    assert_eq!(e.avg_gas(), isize::MAX);
    let e = Entry::Deployment(deployment("Small", &[isize::MIN, isize::MIN]));
    assert_eq!(e.avg_gas(), isize::MIN);
}

#[test]
fn has_gas_data_reports_emptiness() {
    assert!(!Entry::Deployment(deployment("Token", &[])).has_gas_data());
    assert!(Entry::Method(method("Token", "mint", &[1])).has_gas_data());
}

#[test]
fn gas_data_gives_the_samples() {
    let e = Entry::Method(method("Token", "mint", &[4, 5]));
    assert_eq!(e.gas_data(), &vec![4, 5]);
}

#[test]
fn regression_is_red() {
    assert_eq!(
        delta_cell_exec(111, 100),
        format!("{}+11 (+11.0%){}", RED, RESET)
    );
    assert_eq!(trend_exec(111, 100), Trend::Regression);
}

#[test]
fn improvement_is_green() {
    assert_eq!(
        delta_cell_exec(90, 100),
        format!("{}-10 (-10.0%){}", GREEN, RESET)
    );
    assert_eq!(trend_exec(90, 100), Trend::Improvement);
}

#[test]
fn change_within_margin_is_neutral() {
    assert_eq!(trend_exec(2001, 2000), Trend::Neutral);
    assert_eq!(
        delta_cell_exec(2001, 2000),
        format!("{}+1 ( +0.1%){}", PLAIN, RESET)
    );
    assert_eq!(trend_exec(1999, 2000), Trend::Neutral);
    assert_eq!(trend_exec(1002, 1000), Trend::Regression);
    assert_eq!(trend_exec(1001, 1000), Trend::Neutral);
}

#[test]
fn zero_baseline_is_infinite_or_undefined() {
    assert_eq!(delta_cell_exec(5, 0), format!("{}+5 ( +inf%){}", RED, RESET));
    assert_eq!(delta_cell_exec(-5, 0), format!("{}-5 ( -inf%){}", GREEN, RESET));
    assert_eq!(delta_cell_exec(0, 0), format!("{}+0 (  NaN%){}", PLAIN, RESET));
}

#[test]
fn absolute_cell_shows_share_of_block_limit() {
    assert_eq!(absolute_cell_exec(200), "200 ( 0.0%)");
    assert_eq!(absolute_cell_exec(15_000_000), "15000000 (50.0%)");
    assert_eq!(absolute_cell_exec(3_000_000), "3000000 (10.0%)");
    assert_eq!(absolute_cell_exec(30_000_000), "30000000 (100.0%)");
    assert_eq!(absolute_cell_exec(45_000), "45000 ( 0.2%)");
    assert_eq!(absolute_cell_exec(-45_000), "-45000 (-0.2%)");
}

#[test]
fn rounding_is_to_nearest() {
    assert_eq!(round_nearest_exec(14, 10), 1);
    assert_eq!(round_nearest_exec(15, 10), 2);
    assert_eq!(round_nearest_exec(25, 10), 3);
    assert_eq!(round_nearest_exec(0, 7), 0);
}

#[test]
fn decimal_rendering() {
    let mut s = String::new();
    push_decimal(&mut s, 0);
    push_decimal(&mut s, 1234567890);
    assert_eq!(s, "01234567890");
    let mut s = String::new();
    push_int(&mut s, -42, true);
    push_int(&mut s, 42, true);
    push_int(&mut s, 7, false);
    assert_eq!(s, "-42+427");
}

#[test]
fn text_order_is_lexicographic() {
    assert_eq!(compare_text("abc", "abd"), Ordering::Less);
    assert_eq!(compare_text("ab", "abc"), Ordering::Less);
    assert_eq!(compare_text("b", "abc"), Ordering::Greater);
    assert_eq!(compare_text("same", "same"), Ordering::Equal);
}

#[test]
fn two_files_end_to_end() {
    let a = info(vec![deployment("Token", &[200, 200])], vec![]);
    let b = info(vec![deployment("Token", &[220, 220])], vec![]);
    let (header, body) = table_cells(
        vec!["a.json".to_string(), "b.json".to_string()],
        vec![a, b],
    );
    assert_eq!(header, vec!["Deployments", "a.json", "b.json"]);
    assert_eq!(
        body,
        vec![vec![
            "Token".to_string(),
            "200 ( 0.0%)".to_string(),
            format!("{}+20 (+10.0%){}", RED, RESET),
        ]]
    );
}

#[test]
fn empty_samples_never_shown() {
    let a = info(
        vec![deployment("Empty", &[]), deployment("Full", &[5])],
        vec![method("Token", "idle", &[])],
    );
    let b = info(vec![deployment("Empty", &[])], vec![method("Token", "idle", &[])]);
    let body = table_body(vec![a, b]);
    assert_eq!(body.len(), 1);
    assert_eq!(body[0][0], "Full");
    assert_eq!(body[0][2], "");
}

#[test]
fn empty_samples_leave_their_column_blank() {
    let a = info(vec![deployment("Token", &[100])], vec![]);
    let b = info(vec![deployment("Token", &[])], vec![]);
    let c = info(vec![deployment("Token", &[110])], vec![]);
    let body = table_body(vec![a, b, c]);
    assert_eq!(body.len(), 1);
    assert_eq!(body[0][2], "");
    assert_eq!(body[0][3], format!("{}+10 (+10.0%){}", RED, RESET));
}

#[test]
fn every_row_has_one_cell_per_file() {
    let a = info(vec![deployment("A", &[1])], vec![method("C", "m", &[3])]);
    let b = info(vec![deployment("B", &[2])], vec![]);
    let c = info(vec![], vec![method("C", "n", &[4])]);
    let (header, body) = table_cells(names(3), vec![a, b, c]);
    assert_eq!(header.len(), 4);
    assert_eq!(body.len(), 4);
    for row in &body {
        assert_eq!(row.len(), 4);
    }
}

#[test]
fn missing_baseline_renders_absolute() {
    let a = info(vec![deployment("Other", &[1])], vec![]);
    let b = info(vec![deployment("Token", &[200])], vec![]);
    let c = info(vec![deployment("Token", &[220])], vec![]);
    let body = table_body(vec![a, b, c]);
    let row = body.iter().find(|r| r[0] == "Token").unwrap();
    assert_eq!(
        row,
        &vec![
            "Token".to_string(),
            "".to_string(),
            "200 ( 0.0%)".to_string(),
            "220 ( 0.0%)".to_string(),
        ]
    );
}

#[test]
fn same_file_twice_shows_no_change() {
    let make = || {
        info(
            vec![deployment("Token", &[1000, 1200])],
            vec![method("Token", "transfer", &[50, 51])],
        )
    };
    let body = table_body(vec![make(), make()]);
    assert_eq!(body.len(), 2);
    for row in &body {
        assert_eq!(row[2], format!("{}+0 ( +0.0%){}", PLAIN, RESET));
    }
}

#[test]
fn method_key_is_stable() {
    let m = method("Token", "transfer", &[1]);
    assert_eq!(method_key(&m), "\x1b[90mToken.\x1b[0mtransfer");
    let other = method("Token", "transfer", &[2, 3]);
    assert_eq!(method_key(&m), method_key(&other));
    assert_eq!(key_of(&Entry::Method(m)), "\x1b[90mToken.\x1b[0mtransfer");
    assert_eq!(key_of(&Entry::Deployment(deployment("Token", &[1]))), "Token");
}

#[test]
fn same_method_in_two_files_shares_a_row() {
    let a = info(vec![], vec![method("Token", "transfer", &[100])]);
    let b = info(vec![], vec![method("Token", "transfer", &[90])]);
    let body = table_body(vec![a, b]);
    assert_eq!(body.len(), 1);
    assert_eq!(body[0][0], "\x1b[90mToken.\x1b[0mtransfer");
    assert_eq!(body[0][1], "100 ( 0.0%)");
    assert_eq!(body[0][2], format!("{}-10 (-10.0%){}", GREEN, RESET));
}

#[test]
fn rows_are_sorted_by_key_text() {
    let a = info(
        vec![deployment("Zeta", &[1]), deployment("Alpha", &[2])],
        vec![method("Token", "mint", &[3]), method("Bank", "deposit", &[4])],
    );
    let body = table_body(vec![a]);
    let keys: Vec<&str> = body.iter().map(|r| r[0].as_str()).collect();
    assert_eq!(
        keys,
        vec![
            "\x1b[90mBank.\x1b[0mdeposit",
            "\x1b[90mToken.\x1b[0mmint",
            "Alpha",
            "Zeta",
        ]
    );
}

#[test]
fn later_entry_of_one_report_wins() {
    let a = info(vec![deployment("Token", &[1]), deployment("Token", &[9])], vec![]);
    let rows = align_reports(vec![a]);
    assert_eq!(rows.len(), 1);
    match &rows[0].columns[0] {
        Some(Entry::Deployment(d)) => assert_eq!(d.gas_data, vec![9]),
        _ => panic!("expected a deployment"),
    }
}

#[test]
fn alignment_places_each_report_in_its_column() {
    let a = info(vec![deployment("A", &[1])], vec![]);
    let b = info(vec![deployment("B", &[2])], vec![]);
    let rows = align_reports(vec![a, b]);
    assert_eq!(rows.len(), 2);
    for row in &rows {
        assert_eq!(row.columns.len(), 2);
        if row.key == "A" {
            assert!(row.columns[0].is_some() && row.columns[1].is_none());
        } else {
            assert_eq!(row.key, "B");
            assert!(row.columns[0].is_none() && row.columns[1].is_some());
        }
    }
    let cells = render_row(&rows[0]);
    assert_eq!(cells.len(), 3);
    assert_eq!(cell_text_exec(&rows[0].columns, 0), cells[1]);
}

#[test]
fn header_names_the_files() {
    assert_eq!(
        table_header(vec!["x.json".to_string()]),
        vec!["Deployments".to_string(), "x.json".to_string()]
    );
}

#[test]
fn rendered_table_has_borders_and_cells() {
    let a = info(vec![deployment("Token", &[200])], vec![]);
    let b = info(vec![deployment("Token", &[220])], vec![]);
    let text = render_report(vec!["a.json".to_string(), "b.json".to_string()], vec![a, b]);
    assert!(text.starts_with('╭'));
    assert!(text.contains("Deployments"));
    assert!(text.contains("a.json"));
    assert!(text.contains("Token"));
    assert!(text.contains("+20 (+10.0%)"));
}

#[test]
fn entries_order_methods_first() {
    let d1 = Entry::Deployment(deployment("A", &[1]));
    let d2 = Entry::Deployment(deployment("B", &[1]));
    let m1 = Entry::Method(method("Z", "a", &[1]));
    let m2 = Entry::Method(method("A", "b", &[1]));
    assert_eq!(d1.partial_cmp(&d2), Some(Ordering::Less));
    assert_eq!(d1.partial_cmp(&m1), Some(Ordering::Greater));
    assert_eq!(m1.partial_cmp(&d1), Some(Ordering::Less));
    assert_eq!(m1.partial_cmp(&m2), Some(Ordering::Less));
    assert!(d1 == Entry::Deployment(deployment("A", &[5, 6])));
    assert!(d1 != m1);
}

#[test]
fn identifiers_order_by_contract_then_method() {
    let id = |c: &str, m: &str| MethodIdentifier {
        contract: c.to_string(),
        method: m.to_string(),
    };
    assert_eq!(id("A", "z").partial_cmp(&id("B", "a")), Some(Ordering::Less));
    assert_eq!(id("A", "b").partial_cmp(&id("A", "a")), Some(Ordering::Greater));
    assert!(id("A", "b") == id("A", "b"));
    assert_eq!(id("A", "z").cmp(&id("B", "a")), Ordering::Less);
    assert_eq!(id("A", "b").cmp(&id("A", "a")), Ordering::Greater);
}
