use dataframe::binning::{categorize, is_less, is_not_a_number};
use dataframe::museum::{
    data_to_predict, feature_layout, museum_type_code, revenue_range, RevenueRange, Row,
};

fn bits(values: &[f64]) -> Vec<u64> {
    values.iter().map(|v| v.to_bits()).collect()
}

fn categorize_doubles(money: f64, fences: &[f64]) -> usize {
    categorize(money.to_bits(), &bits(fences))
}

/// The class by the textbook: sort the fences, then find the first one above.
fn class_by_sorting(money: f64, fences: &[f64]) -> usize {
    let mut sorted = fences.to_vec();
    sorted.sort_by(|a, b| a.partial_cmp(b).unwrap());
    for i in 0..sorted.len() {
        if money < sorted[i] {
            return i;
        }
    }
    if let Some(last) = sorted.last() {
        if money >= *last {
            return sorted.len();
        }
    }
    usize::MAX
}

fn format_range(fences: &[f64], class: usize) -> String {
    match revenue_range(class, fences.len()) {
        RevenueRange::Below(i) => format!("Predicted revenue range: < ${}", fences[i]),
        RevenueRange::Between(i, j) => {
            format!("Predicted revenue range: ${} - ${}", fences[i], fences[j])
        }
        RevenueRange::Above(i) => format!("Predicted revenue range: > ${}", fences[i]),
    }
}

#[test]
fn test_unordered_fences() {
    let fences = vec![100.0, 200.0, 150.0];
    let money = 120.0;

    let a = categorize_doubles(money, &fences);
    let mut sorted = fences.clone();
    sorted.sort_by(|a, b| a.partial_cmp(b).unwrap());
    let b = categorize_doubles(money, &sorted);

    assert_eq!(a, b, "fences should be sorted");
    assert_eq!(a, 1);
}

#[test]
fn test_categorize_revenue() {
    let fences = vec![0.0, 1000.0, 10000.0, 100000.0, 1000000.0, 1000000000.0];

    assert_eq!(categorize_doubles(-10.0, &fences), 0);
    assert_eq!(categorize_doubles(0.0, &fences), 1);
    assert_eq!(categorize_doubles(999.99, &fences), 1);
    assert_eq!(categorize_doubles(1000.0, &fences), 2);
    assert_eq!(categorize_doubles(9999.99, &fences), 2);
    assert_eq!(categorize_doubles(10000.0, &fences), 3);
    assert_eq!(categorize_doubles(99999.99, &fences), 3);
    assert_eq!(categorize_doubles(100000.0, &fences), 4);
    assert_eq!(categorize_doubles(999999.99, &fences), 4);
    assert_eq!(categorize_doubles(1000000.0, &fences), 5);
    assert_eq!(categorize_doubles(999999999.99, &fences), 5);
    assert_eq!(categorize_doubles(1000000000.0, &fences), 6);
}

#[test]
fn test_index_rev() {
    let test_fences = vec![0.0, 10.0, 20.0, 30.0];
    assert_eq!(
        format_range(&test_fences, 0),
        String::from("Predicted revenue range: < $0")
    );
    assert_eq!(
        format_range(&test_fences, 1),
        String::from("Predicted revenue range: $0 - $10")
    );
    assert_eq!(
        format_range(&test_fences, 2),
        String::from("Predicted revenue range: $10 - $20")
    );
    assert_eq!(
        format_range(&test_fences, 3),
        String::from("Predicted revenue range: $20 - $30")
    );
    assert_eq!(
        format_range(&test_fences, 4),
        String::from("Predicted revenue range: > $30")
    );
}

#[test]
fn ranges_are_told_by_the_positions_of_their_fences() {
    assert_eq!(revenue_range(0, 1), RevenueRange::Below(0));
    assert_eq!(revenue_range(1, 1), RevenueRange::Above(0));
    assert_eq!(revenue_range(0, 6), RevenueRange::Below(0));
    assert_eq!(revenue_range(1, 6), RevenueRange::Between(0, 1));
    assert_eq!(revenue_range(5, 6), RevenueRange::Between(4, 5));
    assert_eq!(revenue_range(6, 6), RevenueRange::Above(5));
}

#[test]
fn without_fences_there_is_no_class() {
    assert_eq!(categorize_doubles(1.0, &[]), usize::MAX);
    assert_eq!(class_by_sorting(1.0, &[]), usize::MAX);
}

#[test]
fn a_nan_has_no_class_and_bounds_none() {
    assert_eq!(categorize_doubles(f64::NAN, &[1.0, 2.0]), usize::MAX);
    assert_eq!(class_by_sorting(f64::NAN, &[1.0, 2.0]), usize::MAX);
    assert_eq!(categorize_doubles(-f64::NAN, &[1.0]), usize::MAX);
    assert_eq!(categorize_doubles(1.0, &[f64::NAN]), usize::MAX);
    assert_eq!(class_by_sorting(1.0, &[f64::NAN]), usize::MAX);
    assert_eq!(categorize_doubles(1.0, &[0.0, f64::NAN, 2.0]), usize::MAX);
    assert_eq!(categorize_doubles(1.0, &[f64::NAN, 0.0]), usize::MAX);
}

#[test]
fn the_two_zeros_are_one_fence() {
    assert_eq!(categorize_doubles(0.0, &[-0.0]), 1);
    assert_eq!(categorize_doubles(-0.0, &[0.0]), 1);
    assert_eq!(categorize_doubles(-0.0, &[0.0, 1.0]), 1);
    assert_eq!(categorize_doubles(-f64::MIN_POSITIVE, &[-0.0, 0.0]), 0);
}

fn samples() -> Vec<f64> {
    vec![
        f64::NEG_INFINITY,
        f64::MIN,
        -1.0e300,
        -1000000.5,
        -2.0,
        -1.0000000000000002,
        -1.0,
        -0.5,
        -f64::MIN_POSITIVE,
        -5e-324,
        -0.0,
        0.0,
        5e-324,
        f64::MIN_POSITIVE,
        0.5,
        1.0,
        1.0000000000000002,
        2.0,
        999.99,
        1000.0,
        1.0e300,
        f64::MAX,
        f64::INFINITY,
        f64::NAN,
        -f64::NAN,
        f64::from_bits(0x7ff0_0000_0000_0001),
        f64::from_bits(0xfff0_0000_0000_0001),
        f64::from_bits(0x7fff_ffff_ffff_ffff),
        f64::from_bits(0xffff_ffff_ffff_ffff),
    ]
}

#[test]
fn doubles_compare_by_their_bits_as_by_their_values() {
    for a in samples() {
        assert_eq!(is_not_a_number(a.to_bits()), a.is_nan(), "{:?}", a);
        for b in samples() {
            assert_eq!(is_less(a.to_bits(), b.to_bits()), a < b, "{:?} < {:?}", a, b);
        }
    }
}

#[test]
fn classes_are_what_sorting_the_fences_gives() {
    let values: Vec<f64> = samples().into_iter().filter(|v| !v.is_nan()).collect();
    for money in samples() {
        for a in &values {
            assert_eq!(
                categorize_doubles(money, &[*a]),
                class_by_sorting(money, &[*a])
            );
            for b in &values {
                assert_eq!(
                    categorize_doubles(money, &[*a, *b]),
                    class_by_sorting(money, &[*a, *b])
                );
                for c in [-1.0, 0.0, 2.0, 1000.0, f64::INFINITY] {
                    assert_eq!(
                        categorize_doubles(money, &[*a, c, *b]),
                        class_by_sorting(money, &[*a, c, *b])
                    );
                }
            }
        }
    }
}

#[test]
fn museum_types_have_codes() {
    assert_eq!(museum_type_code("HISTORIC PRESERVATION"), 1);
    assert_eq!(museum_type_code("GENERAL MUSEUM"), 2);
    assert_eq!(museum_type_code("ART MUSEUM"), 3);
    assert_eq!(museum_type_code("HISTORY MUSEUM"), 4);
    assert_eq!(
        museum_type_code("ARBORETUM, BOTANICAL GARDEN, OR NATURE CENTER"),
        5
    );
    assert_eq!(museum_type_code("SCIENCE & TECHNOLOGY MUSEUM OR PLANETARIUM"), 0);
    assert_eq!(museum_type_code("art museum"), 0);
    assert_eq!(museum_type_code(""), 0);
}

#[test]
fn rows_hold_codes_and_revenue() {
    let row = Row::new("ART MUSEUM".to_string(), 1, 2, 6, 1234.5f64.to_bits());
    assert_eq!(row.museum_type, 3);
    assert_eq!(row.locale, 1);
    assert_eq!(row.state_code, 2);
    assert_eq!(row.region_code, 6);
    assert_eq!(f64::from_bits(row.revenue), 1234.5);
    let other = Row::new("ZOO".to_string(), -1, 0, 127, 0);
    assert_eq!(other.museum_type, 0);
    assert_eq!(other.region_code, 127);
}

#[test]
fn features_are_laid_out_row_by_row() {
    let rows = vec![
        Row::new("GENERAL MUSEUM".to_string(), 4, 1, 3, 0),
        Row::new("HISTORY MUSEUM".to_string(), 1, 2, 6, 0),
        Row::new("ZOO".to_string(), 7, 8, 9, 0),
    ];
    assert_eq!(feature_layout(&rows), vec![2, 4, 1, 3, 4, 1, 2, 6, 0, 7, 8, 9]);
    assert_eq!(feature_layout(&Vec::new()), Vec::<i8>::new());
}

#[test]
fn a_museum_to_classify_is_one_feature_row() {
    assert_eq!(
        data_to_predict("HISTORIC PRESERVATION".to_string(), 1, 2, 6),
        [1, 1, 2, 6]
    );
    assert_eq!(
        data_to_predict("SCIENCE & TECHNOLOGY MUSEUM OR PLANETARIUM".to_string(), 1, 1, 3),
        [0, 1, 1, 3]
    );
}

#[test]
fn only_complete_records_become_rows() {
    let row = Row::from_record(
        Some("GENERAL MUSEUM".to_string()),
        Some(4),
        Some(1),
        Some(3),
        Some(2.5f64.to_bits()),
    );
    assert_eq!(
        row,
        Some(Row::new("GENERAL MUSEUM".to_string(), 4, 1, 3, 2.5f64.to_bits()))
    );
    assert_eq!(row.unwrap().museum_type, 2);
    let name = || Some("GENERAL MUSEUM".to_string());
    assert_eq!(Row::from_record(None, Some(4), Some(1), Some(3), Some(0)), None);
    assert_eq!(Row::from_record(name(), None, Some(1), Some(3), Some(0)), None);
    assert_eq!(Row::from_record(name(), Some(4), None, Some(3), Some(0)), None);
    assert_eq!(Row::from_record(name(), Some(4), Some(1), None, Some(0)), None);
    assert_eq!(Row::from_record(name(), Some(4), Some(1), Some(3), None), None);
}
