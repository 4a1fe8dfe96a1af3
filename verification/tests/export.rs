use commit_miner::export::cell;

#[test]
fn spreadsheet() {
    assert_eq!(cell("=1+1"), "\"'=1+1\"");
    assert_eq!(cell("a,\"b\""), "\"a,\"\"b\"\"\"");
}

#[test]
fn formula_guard_after_leading_whitespace_and_controls() {
    assert_eq!(cell("  +SUM(A1)"), "\"'  +SUM(A1)\"");
    assert_eq!(cell("\tx"), "\"'\tx\"");
    assert_eq!(cell("\rx"), "\"'\rx\"");
    assert_eq!(cell("@cmd"), "\"'@cmd\"");
    assert_eq!(cell("a-b"), "\"a-b\"");
    assert_eq!(cell(""), "\"\"");
}

#[test]
fn output_formats() {
    assert_eq!(commit_miner::export::format("CSV").unwrap(), "csv");
    assert_eq!(commit_miner::export::format("Html").unwrap(), "html");
    assert_eq!(commit_miner::export::format("pdf").unwrap_err(), "Choose an output format: csv or html");
}
