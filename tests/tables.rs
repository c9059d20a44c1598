use flinn_engdahl::{
    lat_lon_index, lat_lon_index_write, latitude_tiers_read, llindx, parse_numbers, quadids,
    reformat_lat_lon_index, reformat_latitude_tiers, reformat_names, split_lines,
    TIER_SEGMENT_COUNTS,
};

/// The shipped counts as the whitespace-separated text they are read from.
fn counts_text() -> Vec<u8> {
    let mut text = String::new();
    for (i, c) in TIER_SEGMENT_COUNTS.iter().enumerate() {
        text += &format!("{}{}", c, if i % 10 == 9 { "\n" } else { " " });
    }
    text.into_bytes()
}

#[test]
fn check_llindx() {
    let index = &lat_lon_index(&TIER_SEGMENT_COUNTS);
    assert_eq!(index.len(), 364);
    assert_eq!(index[0], (1, 24));
}

#[test]
fn reformat_files() {
    let text = reformat_lat_lon_index(&counts_text()).unwrap();
    let text = String::from_utf8(text).unwrap();
    assert!(text.starts_with("const LLINDX: [(usize,usize); 364] = [\n (1, 24),\n (25, 26),\n"));
    assert!(text.ends_with(" (5957, 1),\n (5958, 1),\n];\n"));
    assert_eq!(text.lines().count(), 366);
}

#[test]
fn quadrant_bases() {
    assert_eq!(quadids(), [274, 183, 92, 1]);
}

#[test]
fn shipped_tiers_partition_the_segment_table() {
    let index = lat_lon_index(&TIER_SEGMENT_COUNTS);
    assert_eq!(index[0].0, 1);
    for t in 0..index.len() - 1 {
        assert_eq!(index[t + 1].0, index[t].0 + index[t].1);
        assert!(index[t].1 >= 1);
    }
    let last = index[363];
    assert_eq!(last.0 + last.1 - 1, 5958);
    assert_eq!(llindx(&counts_text()).unwrap(), index);
}

#[test]
fn index_of_few_tiers() {
    assert_eq!(lat_lon_index(&[3, 1, 2]), vec![(1, 3), (4, 1), (5, 2)]);
    assert_eq!(lat_lon_index(&[]), vec![]);
    assert_eq!(llindx(b" 3\n1\t2 "), Some(vec![(1, 3), (4, 1), (5, 2)]));
    assert_eq!(llindx(b"3 x"), None);
    assert_eq!(llindx(format!("{} 1", usize::MAX - 1).as_bytes()), None);
    assert_eq!(llindx(format!("{}", usize::MAX - 1).as_bytes()), Some(vec![(1, usize::MAX - 1)]));
}

#[test]
fn index_source_of_few_tiers() {
    let text = String::from_utf8(reformat_lat_lon_index(b"12 7").unwrap()).unwrap();
    assert_eq!(text, "const LLINDX: [(usize,usize); 2] = [\n (1, 12),\n (13, 7),\n];\n");
    let text = String::from_utf8(reformat_lat_lon_index(b"").unwrap()).unwrap();
    assert_eq!(text, "const LLINDX: [(usize,usize); 0] = [\n];\n");
    assert_eq!(reformat_lat_lon_index(b"12 -7"), None);
    let text = String::from_utf8(lat_lon_index_write(&[(1, 100), (101, 9)])).unwrap();
    assert_eq!(text, "const LLINDX: [(usize,usize); 2] = [\n (1, 100),\n (101, 9),\n];\n");
}

#[test]
fn numbers_are_parsed() {
    assert_eq!(parse_numbers(b"  0 561\n\t10 4207 \r\n"), Some(vec![0, 561, 10, 4207]));
    assert_eq!(parse_numbers(b""), Some(vec![]));
    assert_eq!(parse_numbers(b"1.5"), None);
    assert_eq!(parse_numbers(format!("{}", usize::MAX).as_bytes()), Some(vec![usize::MAX]));
    assert_eq!(parse_numbers(format!("{}0", usize::MAX).as_bytes()), None);

}

#[test]
fn segment_sections_are_paired() {
    let sections = vec![b"0 561 10 4\n20".to_vec(), b"0 7 90 8".to_vec()];
    assert_eq!(latitude_tiers_read(&sections), Some(vec![(0, 561), (10, 4), (0, 7), (90, 8)]));
    let text = String::from_utf8(reformat_latitude_tiers(&sections).unwrap()).unwrap();
    assert_eq!(
        text,
        "const LAT_TIERS: [(usize,usize); 4] = [\n (0, 561),\n (10, 4),\n (0, 7),\n (90, 8),\n];"
    );
    assert_eq!(latitude_tiers_read(&[b"0 1".to_vec(), b"a b".to_vec()]), None);
    assert_eq!(reformat_latitude_tiers(&[b"0 1".to_vec(), b"a b".to_vec()]), None);
}

#[test]
fn names_are_split_and_written() {
    assert_eq!(
        split_lines(b"ANTARCTICA\r\nSOUTHERN NEW ENGLAND\n\nX"),
        vec![b"ANTARCTICA".to_vec(), b"SOUTHERN NEW ENGLAND".to_vec(), vec![], b"X".to_vec()]
    );
    assert_eq!(split_lines(b"A\n"), vec![b"A".to_vec()]);
    assert!(split_lines(b"").is_empty());
    let text = String::from_utf8(reformat_names(b"CENTRAL ALASKA\nSOUTHERN ALASKA\n")).unwrap();
    assert_eq!(text, "const NAMES: [&str; 2] = [\n \"CENTRAL ALASKA\",\n \"SOUTHERN ALASKA\",\n];");
}
