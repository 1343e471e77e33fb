use dirmirror::entry::Entry;
use dirmirror::numeral::parse_u32;
use dirmirror::numeral::parse_u64;
use dirmirror::numeral::u32_to_string;
use dirmirror::numeral::u64_to_string;
use dirmirror::parse::measure_indent;
use dirmirror::parse::parse_line;
use dirmirror::parse::LineIssue;
use dirmirror::serialize::serialize_tree;

#[test]
fn numerals_render_canonically() {
    assert_eq!(u64_to_string(0), "0");
    assert_eq!(u64_to_string(7), "7");
    assert_eq!(u64_to_string(1234), "1234");
    assert_eq!(u64_to_string(u64::MAX), "18446744073709551615");
    assert_eq!(u32_to_string(644), "644");
    assert_eq!(u32_to_string(u32::MAX), "4294967295");
}

#[test]
fn numerals_parse_back() {
    assert_eq!(parse_u32("644"), Some(644));
    assert_eq!(parse_u32("0"), Some(0));
    assert_eq!(parse_u32("0755"), Some(755));
    assert_eq!(parse_u32("4294967295"), Some(u32::MAX));
    assert_eq!(parse_u32("4294967296"), None);
    assert_eq!(parse_u32(""), None);
    assert_eq!(parse_u32("12a"), None);
    assert_eq!(parse_u32("-1"), None);
    assert_eq!(parse_u32("+1"), None);
    assert_eq!(parse_u64("18446744073709551615"), Some(u64::MAX));
    assert_eq!(parse_u64("18446744073709551616"), None);
    assert_eq!(parse_u64("10"), Some(10));
}

#[test]
fn numeral_round_trip() {
    for n in [0u64, 1, 9, 10, 99, 100, 4096, u64::MAX] {
        assert_eq!(parse_u64(&u64_to_string(n)), Some(n));
    }
}

#[test]
fn indent_is_leading_tabs() {
    assert_eq!(measure_indent("DIR\ta\t755"), 0);
    assert_eq!(measure_indent("\tFIL\ta.txt\t644\t10"), 1);
    assert_eq!(measure_indent("\t\t\tx"), 3);
    assert_eq!(measure_indent(""), 0);
    assert_eq!(measure_indent("\t\t"), 2);
}

#[test]
fn parse_dir_line() {
    let r = parse_line("DIR\tsub\t755", 0);
    assert_eq!(r, Ok(Entry::Dir("sub".to_string(), 755, vec![])));
}

#[test]
fn parse_file_line() {
    let r = parse_line("\tFIL\ta.txt\t644\t10", 1);
    assert_eq!(r, Ok(Entry::File("a.txt".to_string(), 644, 10)));
}

#[test]
fn parse_ignores_extra_fields() {
    let r = parse_line("DIR\tsub\t755\textra", 0);
    assert_eq!(r, Ok(Entry::Dir("sub".to_string(), 755, vec![])));
}

#[test]
fn parse_missing_fields_is_fatal() {
    assert_eq!(parse_line("DIR", 0), Err(LineIssue::MissingField));
    assert_eq!(parse_line("DIR\tname", 0), Err(LineIssue::MissingField));
    assert_eq!(parse_line("FIL\tname\t644", 0), Err(LineIssue::MissingField));
    assert!(LineIssue::MissingField.is_fatal());
}

#[test]
fn parse_bad_numbers_is_fatal() {
    assert_eq!(parse_line("DIR\tname\tabc", 0), Err(LineIssue::BadNumber));
    assert_eq!(parse_line("FIL\tname\t644\t1x", 0), Err(LineIssue::BadNumber));
    assert_eq!(parse_line("FIL\tname\t4294967296\t1", 0), Err(LineIssue::BadNumber));
    assert!(LineIssue::BadNumber.is_fatal());
}

#[test]
fn parse_unknown_and_unrecognized_tags_are_skips() {
    assert_eq!(parse_line("UKN\twhatever", 0), Err(LineIssue::UnknownTag));
    assert_eq!(parse_line("UNK\tdesc", 0), Err(LineIssue::UnrecognizedTag));
    assert_eq!(parse_line("XYZ\ta\t1", 0), Err(LineIssue::UnrecognizedTag));
    assert_eq!(parse_line("", 0), Err(LineIssue::UnrecognizedTag));
    assert!(!LineIssue::UnknownTag.is_fatal());
    assert!(!LineIssue::UnrecognizedTag.is_fatal());
}

#[test]
fn parse_ukn_without_fields_is_still_unknown_tag() {
    assert_eq!(parse_line("UKN", 0), Err(LineIssue::UnknownTag));
}

#[test]
fn parse_mode_zero_and_largest_size() {
    assert_eq!(
        parse_line("DIR\t/abs/root\t0", 0),
        Ok(Entry::Dir("/abs/root".to_string(), 0, vec![]))
    );
    assert_eq!(
        parse_line("FIL\tbig\t1\t18446744073709551615", 0),
        Ok(Entry::File("big".to_string(), 1, u64::MAX))
    );
}

#[test]
fn serialize_scenario_tree() {
    let root = Entry::Dir(
        "/abs/root".to_string(),
        0,
        vec![
            Entry::File("a.txt".to_string(), 644, 10),
            Entry::Dir("sub".to_string(), 755, vec![]),
        ],
    );
    let lines = serialize_tree(&root);
    assert_eq!(
        lines,
        vec![
            "DIR\t/abs/root\t0".to_string(),
            "\tFIL\ta.txt\t644\t10".to_string(),
            "\tDIR\tsub\t755".to_string(),
        ]
    );
}

#[test]
fn serialize_nested_and_unknown() {
    let root = Entry::Dir(
        "r".to_string(),
        0,
        vec![Entry::Dir(
            "d1".to_string(),
            700,
            vec![
                Entry::Unknown("Symlink?: link".to_string()),
                Entry::File("f".to_string(), 600, 0),
            ],
        )],
    );
    let lines = serialize_tree(&root);
    assert_eq!(
        lines,
        vec![
            "DIR\tr\t0".to_string(),
            "\tDIR\td1\t700".to_string(),
            "\t\tUNK\tSymlink?: link".to_string(),
            "\t\tFIL\tf\t600\t0".to_string(),
        ]
    );
}

#[test]
fn serialized_lines_parse_back() {
    let root = Entry::Dir(
        "/abs/root".to_string(),
        0,
        vec![
            Entry::File("a.txt".to_string(), 644, 10),
            Entry::Dir("sub".to_string(), 755, vec![]),
        ],
    );
    let lines = serialize_tree(&root);
    let i1 = measure_indent(&lines[1]);
    assert_eq!(i1, 1);
    assert_eq!(
        parse_line(&lines[1], i1),
        Ok(Entry::File("a.txt".to_string(), 644, 10))
    );
    let i2 = measure_indent(&lines[2]);
    assert_eq!(i2, 1);
    assert_eq!(
        parse_line(&lines[2], i2),
        Ok(Entry::Dir("sub".to_string(), 755, vec![]))
    );
}
