use tsmetrics::metrics::function::FunctionMetrics;
use tsmetrics::output::{complexity_level, csv_field, csv_header, csv_row, summary_line, ComplexityLevel};

#[test]
fn plain_field_is_unchanged() {
    assert_eq!(csv_field("src/app.ts"), "src/app.ts");
    assert_eq!(csv_field(""), "");
}

#[test]
fn field_with_comma_is_quoted() {
    assert_eq!(csv_field("a,b"), "\"a,b\"");
}

#[test]
fn quotes_are_doubled_inside_quoted_field() {
    assert_eq!(csv_field("say \"hi\""), "\"say \"\"hi\"\"\"");
}

#[test]
fn line_breaks_force_quoting() {
    assert_eq!(csv_field("a\nb"), "\"a\nb\"");
    assert_eq!(csv_field("a\rb"), "\"a\rb\"");
}

#[test]
fn csv_row_lists_the_function_columns() {
    let f = FunctionMetrics {
        name: "odd,name".to_string(),
        file: "src/x.ts".to_string(),
        line: 12,
        loc: 30,
        sloc: 25,
        cyclomatic_complexity: 7,
        max_nesting: 3,
        param_count: 2,
        ..FunctionMetrics::default()
    };
    assert_eq!(csv_row(&f), "src/x.ts,\"odd,name\",12,30,25,7,3,2");
    assert_eq!(csv_header(), "file,function,line,loc,sloc,complexity,nesting,params");
}

#[test]
fn complexity_bands() {
    assert_eq!(complexity_level(0), ComplexityLevel::Low);
    assert_eq!(complexity_level(4), ComplexityLevel::Low);
    assert_eq!(complexity_level(5), ComplexityLevel::Medium);
    assert_eq!(complexity_level(9), ComplexityLevel::Medium);
    assert_eq!(complexity_level(10), ComplexityLevel::High);
}

#[test]
fn summary_line_text() {
    assert_eq!(summary_line(3, 12, 450), "\nAnalyzed 3 file(s) — 12 function(s) — 450 LOC total\n");
}
