use navmesh::fnav::{first_line_fields, polygon_line_fields, split_bytes};

fn texts(v: &[(Vec<u8>, Vec<u8>)]) -> Vec<(String, String)> {
    v.iter()
        .map(|(a, b)| (String::from_utf8(a.clone()).unwrap(), String::from_utf8(b.clone()).unwrap()))
        .collect()
}

fn pair(a: &str, b: &str) -> (String, String) {
    (a.to_string(), b.to_string())
}

#[test]
fn split_bytes_like_str_split() {
    for (s, sep) in [("1;2-3;4", '-'), ("", '-'), ("-", '-'), ("a--b-", '-'), ("x;y;z", ';')] {
        let got: Vec<String> =
            split_bytes(s.as_bytes(), sep as u8).into_iter().map(|v| String::from_utf8(v).unwrap()).collect();
        let want: Vec<String> = s.split(sep).map(|x| x.to_string()).collect();
        assert_eq!(got, want);
    }
}

#[test]
fn first_line_fields_takes_first_two_coordinates() {
    let f = first_line_fields(b"1.5;2-3;4;9-0;0");
    assert_eq!(texts(&f), vec![pair("1.5", "2"), pair("3", "4"), pair("0", "0")]);
}

#[test]
fn first_line_fields_single_point() {
    let f = first_line_fields(b"7;8");
    assert_eq!(texts(&f), vec![pair("7", "8")]);
    let g = first_line_fields(b";");
    assert_eq!(texts(&g), vec![pair("", "")]);
}

#[test]
fn polygon_line_fields_skips_malformed_points() {
    let f = polygon_line_fields(b"10;20-bad-1;2;3-30;40-");
    assert_eq!(texts(&f), vec![pair("10", "20"), pair("30", "40")]);
}

#[test]
fn polygon_line_fields_of_empty_line() {
    assert!(polygon_line_fields(b"").is_empty());
}
