use gjtv::workspace::{next_empty_workspace, parse_workspace_ids, resolve_workspace,
    DEFAULT_WORKSPACE};

fn report(lines: &[&str]) -> Vec<u8> {
    let mut out = String::new();
    for l in lines {
        out.push_str(l);
        out.push('\n');
    }
    out.into_bytes()
}

#[test]
fn occupied_one_two_four_gives_three() {
    let occupied = vec![1, 2, 4];
    assert_eq!(next_empty_workspace(&occupied), 3);
}

#[test]
fn no_occupied_gives_one() {
    let occupied: Vec<i32> = vec![];
    assert_eq!(next_empty_workspace(&occupied), 1);
}

#[test]
fn failed_query_gives_default() {
    assert_eq!(resolve_workspace(None), 1);
    assert_eq!(DEFAULT_WORKSPACE, 1);
}

#[test]
fn duplicates_and_negatives_are_handled() {
    let occupied = vec![-99, 1, 1, 2, 2, 3];
    assert_eq!(next_empty_workspace(&occupied), 4);
}

#[test]
fn parses_ids_out_of_workspace_report() {
    let bytes = report(&[
        "{",
        "    \"id\": 1,",
        "    \"name\": \"1\",",
        "    \"monitor\": \"DP-1\",",
        "}, {",
        "    \"id\": 2,",
        "    \"name\": \"2\",",
        "}, {",
        "    \"id\": 4,",
        "}",
    ]);
    assert_eq!(parse_workspace_ids(&bytes), vec![1, 2, 4]);
    assert_eq!(resolve_workspace(Some(&bytes)), 3);
}

#[test]
fn parses_negative_and_quoted_ids() {
    let bytes = report(&["  \"id\": -98,", "  \"id\": \"7\",", "  \"id\": +5,"]);
    assert_eq!(parse_workspace_ids(&bytes), vec![-98, 7, 5]);
}

#[test]
fn skips_unreadable_id_lines() {
    let bytes = report(&[
        "  \"id\": ,",
        "  \"id\": abc,",
        "  \"id\": 12x,",
        "  \"id\": 99999999999999999999,",
        "  \"id\": 6,",
        "  \"id\"  6,",
        "no marker at all",
    ]);
    assert_eq!(parse_workspace_ids(&bytes), vec![6]);
}

#[test]
fn id_segment_stops_at_second_colon() {
    // Only what stands between the first and the second colon is read.
    let bytes = report(&["  \"id\": 3: 9,"]);
    assert_eq!(parse_workspace_ids(&bytes), vec![3]);
}

#[test]
fn empty_report_has_no_ids() {
    let bytes: Vec<u8> = Vec::new();
    assert_eq!(parse_workspace_ids(&bytes), Vec::<i32>::new());
    assert_eq!(resolve_workspace(Some(&bytes)), 1);
}

#[test]
fn i32_boundary_ids_parse() {
    let bytes = report(&["\"id\": 2147483647,", "\"id\": -2147483648,", "\"id\": 2147483648,"]);
    assert_eq!(parse_workspace_ids(&bytes), vec![2147483647, -2147483648]);
}
