use flinn_engdahl::{region, region_number, Angle, Dataset, RegionError};

/// The angle of `x` degrees in the library's terms.
fn angle(x: f64) -> Angle {
    Angle::new(!(x >= 0.0), x.abs().trunc() as u64, x.abs().fract() != 0.0)
}

/// A dataset whose tier `t` has two segments: region `2t + 1` below 100
/// degrees of longitude and region `2t + 2` from 100 on.
fn two_band_dataset() -> Dataset {
    let mut tier_index = Vec::new();
    let mut segments = Vec::new();
    for t in 0..364usize {
        tier_index.push((2 * t + 1, 2));
        segments.push((0, 2 * t + 1));
        segments.push((100, 2 * t + 2));
    }
    let names = (1..=728).map(|n| format!("REGION {}", n)).collect();
    Dataset::new(tier_index, segments, names).unwrap()
}

fn number(data: &Dataset, lat: f64, lon: f64) -> Result<usize, RegionError> {
    region_number(data, angle(lat), angle(lon))
}

#[test]
fn latitude_out_of_range() {
    let data = two_band_dataset();
    assert_eq!(number(&data, -91., 0.), Err(RegionError::BadLatitude));
    assert_eq!(number(&data, 91., 0.), Err(RegionError::BadLatitude));
    assert_eq!(number(&data, 90.000001, 0.), Err(RegionError::BadLatitude));
    assert_eq!(number(&data, 91., 400.), Err(RegionError::BadLatitude));
    assert!(number(&data, 90., 0.).is_ok());
    assert!(number(&data, -90., 0.).is_ok());
}

#[test]
fn longitude_out_of_range() {
    let data = two_band_dataset();
    assert_eq!(number(&data, 0., 361.), Err(RegionError::BadLongitude));
    assert_eq!(number(&data, 0., -361.), Err(RegionError::BadLongitude));
    assert_eq!(number(&data, 0., 360.5), Err(RegionError::BadLongitude));
    assert!(number(&data, 0., 360.).is_ok());
    assert!(number(&data, 0., -360.).is_ok());
}

#[test]
fn quadrants_and_bands() {
    let data = two_band_dataset();
    // North and east: tier 0 plus the latitude degree.
    assert_eq!(number(&data, 0., 0.), Ok(1));
    assert_eq!(number(&data, 0., 150.), Ok(2));
    assert_eq!(number(&data, 90., 0.), Ok(181));
    // North and west: tier 91.
    assert_eq!(number(&data, 0.5, -10.), Ok(183));
    // South and east: tier 182.
    assert_eq!(number(&data, -1.5, 99.9), Ok(367));
    // South and west: tier 273.
    assert_eq!(number(&data, -0.5, -100.), Ok(548));
    assert_eq!(number(&data, -90., -90.), Ok(727));
}

#[test]
fn full_turn_equivalence() {
    let data = two_band_dataset();
    assert_eq!(number(&data, 0., 0.), number(&data, 0., 360.));
    assert_eq!(number(&data, 0., 0.), number(&data, 0., -360.));
    assert_eq!(number(&data, 0., 179.9), number(&data, 0., -180.1));
    assert_eq!(number(&data, 0., 180.1), number(&data, 0., -179.9));
    assert_ne!(number(&data, 0., 180.0), number(&data, 0., -180.0));
}

#[test]
fn region_names() {
    let data = two_band_dataset();
    assert_eq!(region(&data, angle(0.), angle(150.)).unwrap(), "REGION 2");
    assert_eq!(region(&data, angle(-90.), angle(-90.)).unwrap(), "REGION 727");
    assert_eq!(region(&data, angle(95.), angle(0.)), Err(RegionError::BadLatitude));
    assert_eq!(region(&data, angle(0.), angle(-365.)), Err(RegionError::BadLongitude));
}

#[test]
fn scan_takes_segment_before_first_threshold_above() {
    let mut tier_index = vec![(1, 1); 364];
    tier_index[0] = (2, 4);
    let segments = vec![(0, 9), (0, 1), (10, 2), (20, 3), (30, 4)];
    let names = (1..=9).map(|n| n.to_string()).collect();
    let data = Dataset::new(tier_index, segments, names).unwrap();
    assert_eq!(number(&data, 0., 5.), Ok(1));
    assert_eq!(number(&data, 0., 10.), Ok(2));
    assert_eq!(number(&data, 0., 29.99), Ok(3));
    assert_eq!(number(&data, 0., 170.), Ok(4));
    // A first threshold above the longitude keeps the first segment.
    let mut tier_index = vec![(1, 1); 364];
    tier_index[0] = (2, 2);
    let data = Dataset::new(tier_index, vec![(0, 1), (5, 2), (9, 3)], vec!["A".to_string(), "B".to_string(), "C".to_string()]).unwrap();
    assert_eq!(number(&data, 0., 1.), Ok(2));
}

#[test]
fn unfit_tables_are_refused() {
    let names: Vec<String> = vec!["A".to_string()];
    assert!(Dataset::new(vec![(1, 1); 363], vec![(0, 1)], names.clone()).is_none());
    assert!(Dataset::new(vec![(1, 1); 364], vec![(0, 2)], names.clone()).is_none());
    assert!(Dataset::new(vec![(1, 2); 364], vec![(0, 1)], names.clone()).is_none());
    assert!(Dataset::new(vec![(0, 1); 364], vec![(0, 1)], names.clone()).is_none());
    assert!(Dataset::new(vec![(1, 1); 364], vec![(0, 1)], names.clone()).is_some());
    // Thresholds must rise within a tier, not across tiers.
    let mut tier_index = vec![(1, 1); 364];
    tier_index[5] = (2, 2);
    assert!(Dataset::new(tier_index.clone(), vec![(0, 1), (5, 1), (5, 1)], names.clone()).is_none());
    assert!(Dataset::new(tier_index.clone(), vec![(0, 1), (5, 1), (4, 1)], names.clone()).is_none());
    assert!(Dataset::new(tier_index, vec![(9, 1), (5, 1), (6, 1)], names).is_some());
}
