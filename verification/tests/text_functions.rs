use cellrune::limits::CalculationLimitKind;
use cellrune::text_functions::{
    comparison_form, cp1252_character, find_position, find_text_boundary, normalize_grouped_number, proper,
    replacement_output_bytes, substitute_text, text_matches, trim_excel,
};
use cellrune::value::ErrorKind;

#[test]
fn case_insensitive_boundaries_keep_original_utf8_offsets() {
    assert_eq!(text_matches("Ä-one-ä", "ä", true), vec![(0, 2), (7, 9)]);
}

#[test]
fn char_uses_the_deterministic_windows_1252_mapping() {
    assert_eq!(cp1252_character(65), Some('A'));
    assert_eq!(cp1252_character(128), Some('€'));
    assert_eq!(cp1252_character(129), None);
}

#[test]
fn case_sensitive_matches_do_not_overlap() {
    assert_eq!(text_matches("aaaa", "aa", false), vec![(0, 2), (2, 4)]);
    assert_eq!(text_matches("Ä-one-ä", "ä", false), vec![(7, 9)]);
}

#[test]
fn text_boundaries_count_instances_from_either_end() {
    assert_eq!(find_text_boundary("a-b-c", "-", 1, false, false), Some((1, 2)));
    assert_eq!(find_text_boundary("a-b-c", "-", -1, false, false), Some((3, 4)));
    assert_eq!(find_text_boundary("a-b-c", "-", 3, false, false), None);
    assert_eq!(find_text_boundary("a-b-c", "-", 3, false, true), Some((5, 5)));
    assert_eq!(find_text_boundary("a-b-c", "-", -3, false, true), Some((0, 0)));
    assert_eq!(find_text_boundary("abc", "", 1, false, false), Some((0, 0)));
    assert_eq!(find_text_boundary("abc", "", -1, false, false), Some((3, 3)));
    assert_eq!(find_text_boundary("abc", "-", 0, false, false), None);
}

#[test]
fn grouped_numbers_lose_their_separators_only_when_grouped_by_threes() {
    assert_eq!(normalize_grouped_number("1,234,567.89e3").as_deref(), Some("1234567.89e3"));
    assert_eq!(normalize_grouped_number("-12,345").as_deref(), Some("-12345"));
    assert_eq!(normalize_grouped_number("12345").as_deref(), Some("12345"));
    assert_eq!(normalize_grouped_number("1,23"), None);
    assert_eq!(normalize_grouped_number("1234,567"), None);
    assert_eq!(normalize_grouped_number("1,234."), None);
    assert_eq!(normalize_grouped_number("1.2,3"), None);
    assert_eq!(normalize_grouped_number(",123"), None);
}

#[test]
fn replacement_sizes_refuse_overflow() {
    assert_eq!(replacement_output_bytes(10, 2, 5, 3), Some(19));
    assert_eq!(replacement_output_bytes(3, 2, 0, 2), None);
    assert_eq!(replacement_output_bytes(usize::MAX, 1, 2, 1), None);
    assert_eq!(replacement_output_bytes(4, usize::MAX, 0, 2), None);
}

#[test]
fn comparison_forms_map_every_folded_character_to_its_origin() {
    assert_eq!(comparison_form("Ab", true), (vec!['A', 'b'], vec![0, 1]));
    assert_eq!(comparison_form("İa", false), (vec!['i', '\u{307}', 'a'], vec![0, 0, 1]));
}

#[test]
fn proper_capitalizes_each_word() {
    assert_eq!(proper("hello wORLD 3rd-pLACE"), "Hello World 3rd-Place");
    assert_eq!(proper("ßx"), "SSx");
}

#[test]
fn trim_collapses_spaces_only() {
    assert_eq!(trim_excel("  a   b \tc  "), "a b \tc");
    assert_eq!(trim_excel("   "), "");
}

#[test]
fn text_matches_empty_delimiter_matches_every_boundary() {
    assert_eq!(text_matches("aÄ", "", false), vec![(0, 0), (1, 1), (3, 3)]);
    assert_eq!(text_matches("", "", false), vec![(0, 0)]);
}

#[test]
fn trim_excel_is_idempotent_and_leaves_no_space_runs() {
    let once = trim_excel("  a  b \t c  ");
    assert_eq!(once, "a b \t c");
    assert_eq!(trim_excel(&once), once);
    assert!(!once.contains("  "));
}

#[test]
fn find_reports_one_based_character_positions_from_the_start() {
    assert_eq!(find_position("Hello world", "o", 0, true), Some(5));
    assert_eq!(find_position("Hello world", "o", 5, true), Some(8));
    assert_eq!(find_position("Hello world", "O", 0, true), None);
    assert_eq!(find_position("Hello world", "", 3, true), Some(4));
    assert_eq!(find_position("abc", "", 3, true), Some(4));
    assert_eq!(find_position("abc", "a", 4, true), None);
}

#[test]
fn search_ignores_case_and_counts_characters_of_the_original_text() {
    assert_eq!(find_position("Hello World", "world", 0, false), Some(7));
    assert_eq!(find_position("\u{130}x", "x", 0, false), Some(2));
    assert_eq!(find_position("\u{c4}pfel \u{e4}pfel", "\u{c4}PFEL", 1, false), Some(7));
}

#[test]
fn substitute_replaces_every_or_one_occurrence() {
    let accept = |_: usize| -> Result<(), ErrorKind> { Ok(()) };
    assert_eq!(substitute_text("aaaa", "aa", "b", None, &accept), Ok("bb".to_owned()));
    assert_eq!(substitute_text("one two one", "one", "1", Some(2), &accept), Ok("one two 1".to_owned()));
    assert_eq!(substitute_text("one two one", "one", "1", Some(3), &accept), Ok("one two one".to_owned()));
    assert_eq!(substitute_text("text", "", "x", None, &accept), Ok("text".to_owned()));
    assert_eq!(substitute_text("h\u{e9}h\u{e9}", "\u{e9}", "e", None, &accept), Ok("hehe".to_owned()));
}

#[test]
fn substitute_checks_the_output_length_before_it_answers() {
    let limit = |bytes: usize| -> Result<(), ErrorKind> {
        if bytes > 5 { Err(ErrorKind::ResourceLimit(CalculationLimitKind::TextBytes)) } else { Ok(()) }
    };
    assert_eq!(substitute_text("abab", "b", "cc", None, &limit), Err(ErrorKind::ResourceLimit(CalculationLimitKind::TextBytes)));
    assert_eq!(substitute_text("abab", "b", "c", None, &limit), Ok("acac".to_owned()));
    assert_eq!(substitute_text("abab", "b", "cc", Some(1), &limit), Ok("accab".to_owned()));
}

#[test]
fn substituting_a_text_by_itself_keeps_the_text() {
    let accept = |_: usize| -> Result<(), ErrorKind> { Ok(()) };
    for instance in [None, Some(1), Some(2), Some(5)] {
        assert_eq!(substitute_text("abcabcab", "ab", "ab", instance, &accept), Ok("abcabcab".to_owned()));
    }
}

#[test]
fn an_exact_find_points_at_an_occurrence_after_the_start() {
    let haystack = "xyzabcxabc";
    let chars: Vec<char> = haystack.chars().collect();
    for start in 0..=chars.len() {
        if let Some(position) = find_position(haystack, "abc", start, true) {
            assert!(start < position);
            assert_eq!(&chars[position - 1..position + 2], &['a', 'b', 'c']);
        }
    }
    assert_eq!(find_position(haystack, "abc", 4, true), Some(8));
}
