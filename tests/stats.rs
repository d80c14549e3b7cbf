use eda_stats::columns::{columns_from_records, parse_csv_to_columns, ParseError};
use eda_stats::eda::{calculate_vector_stats, present_values, summarize_columns};
use eda_stats::number::{bits_are_nan, key_of};
use eda_stats::order::sort_values;
use eda_stats::summary::{get_quantile, order_stats, Quantile};

fn b(x: f64) -> u64 {
    x.to_bits()
}

fn bits_of(xs: &[f64]) -> Vec<u64> {
    xs.iter().map(|x| x.to_bits()).collect()
}

fn cell(s: &str) -> Option<String> {
    Some(s.to_string())
}

#[test]
fn parse_reads_header_and_columns() {
    let (names, cols) = parse_csv_to_columns("a,b\n1,2\n3,abc\n").unwrap();
    assert_eq!(names, vec!["a".to_string(), "b".to_string()]);
    assert_eq!(cols, vec![vec![cell("1"), cell("3")], vec![cell("2"), cell("abc")]]);
}

#[test]
fn parse_pads_short_records_and_ignores_extra_fields() {
    let (names, cols) = parse_csv_to_columns("x,y,z\n1,2\n4,5,6,7\n").unwrap();
    assert_eq!(names.len(), 3);
    assert_eq!(cols.len(), 3);
    assert_eq!(cols[0], vec![cell("1"), cell("4")]);
    assert_eq!(cols[1], vec![cell("2"), cell("5")]);
    assert_eq!(cols[2], vec![None, cell("6")]);
}

#[test]
fn parse_header_only_gives_empty_columns() {
    let (names, cols) = parse_csv_to_columns("a,b\n").unwrap();
    assert_eq!(names.len(), 2);
    assert_eq!(cols, vec![Vec::<Option<String>>::new(), Vec::new()]);
}

#[test]
fn parse_empty_text_is_an_error() {
    assert!(matches!(parse_csv_to_columns(""), Err(ParseError::NoHeader)));
}

#[test]
fn columns_from_records_aligns_by_record() {
    let records = vec![
        vec!["1".to_string()],
        vec!["2".to_string(), "3".to_string()],
    ];
    let cols = columns_from_records(2, &records);
    assert_eq!(cols, vec![vec![cell("1"), cell("2")], vec![None, cell("3")]]);
}

#[test]
fn nan_detection_and_keys() {
    assert!(bits_are_nan(b(f64::NAN)));
    assert!(!bits_are_nan(b(f64::INFINITY)));
    assert!(!bits_are_nan(b(1.5)));
    assert!(key_of(b(-2.0)) < key_of(b(-1.0)));
    assert!(key_of(b(-0.0)) < key_of(b(0.0)));
    assert!(key_of(b(1.0)) < key_of(b(2.0)));
    assert!(key_of(b(f64::NEG_INFINITY)) < key_of(b(-1e300)));
}

#[test]
fn sort_orders_numerically() {
    let sorted = sort_values(&bits_of(&[3.0, -1.0, f64::INFINITY, 0.0, -2.5, 10.0]));
    assert_eq!(sorted, bits_of(&[-2.5, -1.0, 0.0, 3.0, 10.0, f64::INFINITY]));
}

#[test]
fn present_values_skip_absent_and_nan() {
    let cells = vec![Some(b(1.0)), None, Some(b(f64::NAN)), Some(b(2.0))];
    assert_eq!(present_values(&cells), bits_of(&[1.0, 2.0]));
}

#[test]
fn one_to_five_order_stats() {
    let st = order_stats(&bits_of(&[1.0, 2.0, 3.0, 4.0, 5.0]));
    assert_eq!(st.count, 5);
    assert_eq!(st.min, b(1.0));
    assert_eq!(st.max, b(5.0));
    assert_eq!(st.q1, Quantile::Between { lower: b(2.0), upper: b(3.0), quarters: 0 });
    assert_eq!(st.median, Quantile::Between { lower: b(3.0), upper: b(4.0), quarters: 0 });
    assert_eq!(st.q3, Quantile::Between { lower: b(4.0), upper: b(5.0), quarters: 0 });
    assert!(st.std_defined);
}

#[test]
fn unsorted_input_gives_same_order_stats() {
    let a = order_stats(&bits_of(&[5.0, 1.0, 4.0, 2.0, 3.0]));
    let c = order_stats(&bits_of(&[1.0, 2.0, 3.0, 4.0, 5.0]));
    assert_eq!(a, c);
    assert_eq!(a, order_stats(&bits_of(&[5.0, 1.0, 4.0, 2.0, 3.0])));
}

#[test]
fn even_count_interpolates() {
    let st = order_stats(&bits_of(&[4.0, 1.0, 3.0, 2.0]));
    assert_eq!(st.q1, Quantile::Between { lower: b(1.0), upper: b(2.0), quarters: 3 });
    assert_eq!(st.median, Quantile::Between { lower: b(2.0), upper: b(3.0), quarters: 2 });
    assert_eq!(st.q3, Quantile::Between { lower: b(3.0), upper: b(4.0), quarters: 1 });
}

#[test]
fn single_value_column() {
    let st = order_stats(&bits_of(&[7.5]));
    assert_eq!(st.count, 1);
    assert_eq!(st.min, b(7.5));
    assert_eq!(st.max, b(7.5));
    assert_eq!(st.q1, Quantile::At(b(7.5)));
    assert_eq!(st.median, Quantile::At(b(7.5)));
    assert_eq!(st.q3, Quantile::At(b(7.5)));
    assert!(!st.std_defined);
}

#[test]
fn constant_column() {
    let st = order_stats(&bits_of(&[2.0, 2.0, 2.0]));
    assert_eq!(st.min, b(2.0));
    assert_eq!(st.max, b(2.0));
    assert_eq!(st.q1, Quantile::Between { lower: b(2.0), upper: b(2.0), quarters: 2 });
    assert_eq!(st.median, Quantile::Between { lower: b(2.0), upper: b(2.0), quarters: 0 });
    assert_eq!(st.q3, Quantile::Between { lower: b(2.0), upper: b(2.0), quarters: 2 });
    assert!(st.std_defined);
}

#[test]
fn quantile_of_two_values() {
    let sorted = bits_of(&[1.0, 9.0]);
    assert_eq!(get_quantile(&sorted, 1), Quantile::Between { lower: b(1.0), upper: b(9.0), quarters: 1 });
    assert_eq!(get_quantile(&sorted, 3), Quantile::Between { lower: b(1.0), upper: b(9.0), quarters: 3 });
    assert_eq!(get_quantile(&sorted, 4), Quantile::At(b(9.0)));
}

#[test]
fn vector_stats_keeps_name_and_values() {
    let s = calculate_vector_stats(&"col".to_string(), 4, bits_of(&[3.0, 1.0]));
    assert_eq!(s.name, "col");
    assert_eq!(s.index, 4);
    assert_eq!(s.values, bits_of(&[3.0, 1.0]));
    assert_eq!(s.order.min, b(1.0));
    assert_eq!(s.order.max, b(3.0));
}

#[test]
fn summaries_skip_columns_without_numbers() {
    let names = vec!["a".to_string(), "b".to_string(), "c".to_string()];
    let columns = vec![
        vec![Some(b(1.0)), Some(b(2.0))],
        vec![None, None],
        vec![None, Some(b(5.0))],
    ];
    let out = summarize_columns(&names, &columns);
    assert_eq!(out.len(), 2);
    assert_eq!(out[0].index, 0);
    assert_eq!(out[0].name, "a");
    assert_eq!(out[0].order.count, 2);
    assert_eq!(out[1].index, 2);
    assert_eq!(out[1].name, "c");
    assert_eq!(out[1].values, bits_of(&[5.0]));
}

#[test]
fn malformed_cell_only_empties_its_own_cell() {
    let (names, cols) = parse_csv_to_columns("a,b\n1,10\nabc,20\n3,30\n").unwrap();
    let numeric: Vec<Vec<Option<u64>>> = cols
        .iter()
        .map(|c| {
            c.iter()
                .map(|s| s.as_deref().and_then(|t| t.parse::<f64>().ok()).map(f64::to_bits))
                .collect()
        })
        .collect();
    let out = summarize_columns(&names, &numeric);
    assert_eq!(out.len(), 2);
    assert_eq!(out[0].values, bits_of(&[1.0, 3.0]));
    assert_eq!(out[1].values, bits_of(&[10.0, 20.0, 30.0]));
    assert_eq!(out[1].order.count, 3);
}
