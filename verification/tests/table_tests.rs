use railbreaker::table::{
    fields_of, find_race, group_lines, lines, parse_i32, parse_u32, read_table, split, strip,
    TableError,
};

fn chars(s: &str) -> Vec<char> {
    s.chars().collect()
}

fn texts(rows: Vec<Vec<char>>) -> Vec<String> {
    rows.into_iter().map(|r| r.into_iter().collect()).collect()
}

const SAMPLES: [&str; 16] = [
    "",
    "a",
    "a,b",
    "a,,b",
    ",",
    ",a,",
    "\n",
    "a\n",
    "a\nb",
    "a\r\nb\r\n",
    "a\rb\n",
    "a\r",
    "\r\n\r\n",
    "a\r\r\n",
    "\n\na",
    " \"x\" , y ,\"\"z\"\n1,2,3\n",
];

#[test]
fn split_agrees_with_std() {
    for s in SAMPLES {
        let want: Vec<String> = s.split(',').map(|p| p.to_string()).collect();
        assert_eq!(texts(split(&chars(s), ',')), want, "{:?}", s);
    }
}

#[test]
fn lines_agree_with_std() {
    for s in SAMPLES {
        let want: Vec<String> = s.lines().map(|p| p.to_string()).collect();
        assert_eq!(texts(lines(&chars(s))), want, "{:?}", s);
    }
}

#[test]
fn strip_agrees_with_std() {
    for s in ["", "\"", "\"\"", "\"a\"", "a\"", "\"a", "\"\"a\"b\"\"\"", "a", " \"a\""] {
        let got: String = strip(&chars(s), '"').into_iter().collect();
        assert_eq!(got, s.trim_matches('"'), "{:?}", s);
    }
}

#[test]
fn fields_are_trimmed_and_unquoted() {
    assert_eq!(texts(fields_of(&chars(" \"AQU\" ,20240630, 3 ,\"\""))), vec!["AQU", "20240630", "3", ""]);
    assert_eq!(texts(fields_of(&chars(""))), vec![""]);
    assert_eq!(texts(fields_of(&chars("\" a \""))), vec![" a "]);
    assert_eq!(texts(fields_of(&chars("a\"b"))), vec!["a\"b"]);
    for s in SAMPLES {
        let want: Vec<String> =
            s.split(',').map(|f| f.trim().trim_matches('"').to_string()).collect();
        assert_eq!(texts(fields_of(&chars(s))), want, "{:?}", s);
    }
}

#[test]
fn table_of_even_rows() {
    let rows = read_table("\"AQU\",1,\"6\"\r\n\"AQU\",1,\"7\"\r\n\"AQU\",2,\"1\"\r\n").unwrap();
    assert_eq!(rows, vec![vec!["AQU", "1", "6"], vec!["AQU", "1", "7"], vec!["AQU", "2", "1"]]);
    assert_eq!(read_table("x"), Ok(vec![vec!["x".to_string()]]));
    assert_eq!(read_table("\n"), Ok(vec![vec![String::new()]]));
}

#[test]
fn table_without_a_line() {
    assert_eq!(read_table(""), Err(TableError::Empty));
}

#[test]
fn table_with_an_odd_row() {
    assert_eq!(read_table("a,b\nc\nd,e\nf"), Err(TableError::Inconsistent { line: 2 }));
    assert_eq!(read_table("a,b\nc,d\n\n"), Err(TableError::Inconsistent { line: 3 }));
    assert_eq!(read_table("a\nb,c"), Err(TableError::Inconsistent { line: 2 }));
}

#[test]
fn counts_agree_with_std() {
    for s in [
        "", "0", "7", "007", "+7", "-7", "-0", "+", "-", "++1", "4294967295", "4294967296",
        "04294967295", "99999999999999999999999999", "1320", "12a", "a12", " 12", "12 ", "1.0",
        "1e3", "\u{661}", "+4294967295", "+4294967296",
    ] {
        assert_eq!(parse_u32(s), s.parse::<u32>().ok(), "{:?}", s);
    }
}

#[test]
fn signed_numbers_agree_with_std() {
    for s in [
        "", "0", "7", "+7", "-7", "-0", "+0", "+", "-", "--1", "-+1", "+-1", "2147483647",
        "2147483648", "-2147483648", "-2147483649", "-99999999999999999999", "1320", "-12a",
        " -1", "-1 ", "-00000000000000000000001",
    ] {
        assert_eq!(parse_i32(s), s.parse::<i32>().ok(), "{:?}", s);
    }
}

#[test]
fn a_race_is_found_by_its_number() {
    let numbers = vec![Some(1), Some(2), None, Some(2), None];
    assert_eq!(find_race(&numbers, Some(1)), Some(0));
    assert_eq!(find_race(&numbers, Some(2)), Some(1));
    assert_eq!(find_race(&numbers, None), Some(2));
    assert_eq!(find_race(&numbers, Some(3)), None);
    assert_eq!(find_race(&Vec::new(), None), None);
}

#[test]
fn lines_are_grouped_by_race_in_the_order_of_first_appearance() {
    let numbers = vec![Some(1), Some(1), Some(2), Some(1), None, Some(3), None, Some(2)];
    assert_eq!(group_lines(&numbers), vec![vec![0, 1, 3], vec![2, 7], vec![4, 6], vec![5]]);
    assert_eq!(group_lines(&vec![Some(7)]), vec![vec![0]]);
    assert_eq!(group_lines(&vec![None, None]), vec![vec![0, 1]]);
    assert_eq!(group_lines(&vec![Some(2), Some(1)]), vec![vec![0], vec![1]]);
    assert_eq!(group_lines(&Vec::new()), Vec::<Vec<usize>>::new());
}

#[test]
fn every_line_is_in_one_group() {
    let numbers: Vec<Option<u32>> =
        (0..60u32).map(|i| if i % 11 == 0 { None } else { Some(i * 7 % 5) }).collect();
    let groups = group_lines(&numbers);
    let mut seen: Vec<usize> = groups.iter().flatten().copied().collect();
    seen.sort();
    assert_eq!(seen, (0..60).collect::<Vec<usize>>());
    for group in &groups {
        for at in group {
            assert_eq!(numbers[*at], numbers[group[0]]);
        }
        assert!(group.windows(2).all(|w| w[0] < w[1]));
    }
    assert!(groups.windows(2).all(|w| w[0][0] < w[1][0]));
}

#[test]
fn table_errors_in_words() {
    assert_eq!(TableError::Empty.message(), "Racecard file is empty");
    assert_eq!(
        TableError::Inconsistent { line: 2 }.message(),
        "Inconsistent number of columns at line 2"
    );
    assert_eq!(
        TableError::Inconsistent { line: 1435 }.message(),
        "Inconsistent number of columns at line 1435"
    );
    assert_eq!(
        read_table("a,b\nc").unwrap_err().message(),
        "Inconsistent number of columns at line 2"
    );
}
