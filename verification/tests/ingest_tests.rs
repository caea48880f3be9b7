use railbreaker::ingest::{
    has_drf_ending, is_directory_name, is_drf_name, is_single_file, track_entry,
};

#[test]
fn an_archive_holds_one_file() {
    assert!(is_single_file(1));
    assert!(!is_single_file(0));
    assert!(!is_single_file(2));
    assert!(!is_single_file(usize::MAX));
}

#[test]
fn data_files_end_with_drf_in_any_case() {
    assert!(is_drf_name("AQU0630.DRF"));
    assert!(is_drf_name("aqu0630.drf"));
    assert!(is_drf_name("x.Drf"));
    assert!(is_drf_name(".drf"));
    assert!(!is_drf_name("aqu0630.drf.txt"));
    assert!(!is_drf_name("aqu0630drf"));
    assert!(!is_drf_name("drf"));
    assert!(!is_drf_name(""));
    assert!(!is_drf_name("aqu0630.dr"));
}

#[test]
fn the_ending_is_read_as_given() {
    let lower: Vec<char> = "a.drf".chars().collect();
    let upper: Vec<char> = "a.DRF".chars().collect();
    assert!(has_drf_ending(&lower));
    assert!(!has_drf_ending(&upper));
}

#[test]
fn directories_end_with_a_slash() {
    assert!(is_directory_name("cards/"));
    assert!(is_directory_name("/"));
    assert!(!is_directory_name("cards/aqu.drf"));
    assert!(!is_directory_name(""));
}

#[test]
fn track_list_lines() {
    assert_eq!(track_entry("AQU,Aqueduct"), Some(("AQU".to_string(), "Aqueduct".to_string())));
    assert_eq!(
        track_entry("SA,Santa Anita, California"),
        Some(("SA".to_string(), "Santa Anita, California".to_string()))
    );
    assert_eq!(track_entry(",x"), Some((String::new(), "x".to_string())));
    assert_eq!(track_entry("x,"), Some(("x".to_string(), String::new())));
    assert_eq!(track_entry(","), Some((String::new(), String::new())));
    assert_eq!(track_entry("no comma"), None);
    assert_eq!(track_entry(""), None);
}

#[test]
fn track_list_lines_agree_with_std() {
    for line in ["AQU,Aqueduct", "a,b,c", ",", "", "abc", ",,", "a,", "\u{e9},\u{e8}"] {
        let mut cols = line.splitn(2, ',');
        let want = match (cols.next(), cols.next()) {
            (Some(k), Some(v)) => Some((k.to_string(), v.to_string())),
            _ => None,
        };
        assert_eq!(track_entry(line), want);
    }
}
