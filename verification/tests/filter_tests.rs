use imagevault::models::{BatchRandomRequest, DimensionFilter, ImageFilters, SizeFilter};

fn q(pairs: &[(&str, &str)]) -> Vec<(String, String)> {
    pairs.iter().map(|(k, v)| (k.to_string(), v.to_string())).collect()
}

#[test]
fn from_query_parses_tags() {
    let f = ImageFilters::from_query(&q(&[("tags", "cat, cute dog ,x")]));
    assert_eq!(
        f.tags,
        Some(vec!["cat".to_string(), "cute dog".to_string(), "x".to_string()])
    );
    let f = ImageFilters::from_query(&q(&[]));
    assert!(f.tags.is_none());
}

#[test]
fn from_query_parses_dimensions() {
    let f = ImageFilters::from_query(&q(&[("width", "100"), ("height_min", "10"), ("height_max", "20")]));
    assert_eq!(f.width, Some(DimensionFilter::Exact(100)));
    assert_eq!(f.height, Some(DimensionFilter::Range(10, 20)));
    assert_eq!(f.size, None);
}

#[test]
fn from_query_exact_wins_over_range() {
    let f = ImageFilters::from_query(&q(&[
        ("width", "100"),
        ("width_min", "1"),
        ("width_max", "2"),
        ("size", "5000"),
        ("size_min", "1"),
        ("size_max", "2"),
    ]));
    assert_eq!(f.width, Some(DimensionFilter::Exact(100)));
    assert_eq!(f.size, Some(SizeFilter::Exact(5000)));
}

#[test]
fn from_query_rejects_bad_numbers_and_reversed_ranges() {
    let f = ImageFilters::from_query(&q(&[("width", "wide")]));
    assert_eq!(f.width, None);
    let f = ImageFilters::from_query(&q(&[("width_min", "20"), ("width_max", "10")]));
    assert_eq!(f.width, None);
    let f = ImageFilters::from_query(&q(&[("width_min", "20")]));
    assert_eq!(f.width, None);
    let f = ImageFilters::from_query(&q(&[("size", "99999999999999999999999")]));
    assert_eq!(f.size, None);
}

#[test]
fn to_filters_exact_wins() {
    let req = BatchRandomRequest {
        count: 1,
        tags: vec!["cat".to_string()],
        width: Some(100),
        width_min: Some(1),
        width_max: Some(2),
        height: None,
        height_min: Some(5),
        height_max: Some(6),
        size: None,
        size_min: None,
        size_max: None,
    };
    let f = req.to_filters();
    assert_eq!(f.tags, Some(vec!["cat".to_string()]));
    assert_eq!(f.width, Some(DimensionFilter::Exact(100)));
    assert_eq!(f.height, Some(DimensionFilter::Range(5, 6)));
    assert_eq!(f.size, None);
}

#[test]
fn parse_helpers_need_both_bounds() {
    assert_eq!(BatchRandomRequest::parse_dimension(None, Some(3), None), None);
    assert_eq!(
        BatchRandomRequest::parse_dimension(None, Some(3), Some(9)),
        Some(DimensionFilter::Range(3, 9))
    );
    assert_eq!(BatchRandomRequest::parse_size(None, Some(9), Some(3)), None);
    assert_eq!(
        BatchRandomRequest::parse_size(Some(7), Some(9), Some(3)),
        Some(SizeFilter::Exact(7))
    );
}
