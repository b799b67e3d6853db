use opy_rs::literal_slots::{is_boolean_slot, slot, Slot};
use opy_rs::manifest::{kind_label, FunctionKind};
use opy_rs::rule_names::{escape_rule_name, filtered_word_split};
use opy_rs::text::{
    big_letter, big_letters, canonical_debug_text, canonical_format_text, case_sensitive,
    compression_alphabet, compression_alphabet_chars, format_number_marker, fullwidth,
    has_literal_text, implicit_player_index, is_cased_color_tag, is_opy_identifier,
    modify_catalog_name_from_str, negated_comparison,
};
use opy_rs::workshop_text::normalize_workshop;

fn normalize_workshop_structural_whitespace(text: &str) -> String {
    let mut normalized = String::with_capacity(text.len());
    let mut quote = None;
    let mut escaped = false;
    for character in text.chars() {
        if let Some(delimiter) = quote {
            normalized.push(character);
            if escaped {
                escaped = false;
            } else if character == '\\' {
                escaped = true;
            } else if character == delimiter {
                quote = None;
            }
        } else if matches!(character, '\"' | '\'') {
            quote = Some(character);
            normalized.push(character);
        } else if !character.is_whitespace() {
            normalized.push(character);
        }
    }
    normalized
}

#[test]
fn settings_whitespace_normalization_preserves_quoted_values() {
    assert_ne!(
        normalize_workshop_structural_whitespace("Description: \"a b\""),
        normalize_workshop_structural_whitespace("Description: \"ab\"")
    );
}

#[test]
fn negated_comparisons_flip_each_operator() {
    assert_eq!(negated_comparison("=="), Some("!="));
    assert_eq!(negated_comparison("!="), Some("=="));
    assert_eq!(negated_comparison("<"), Some(">="));
    assert_eq!(negated_comparison(">"), Some("<="));
    assert_eq!(negated_comparison("<="), Some(">"));
    assert_eq!(negated_comparison(">="), Some("<"));
    assert_eq!(negated_comparison("+"), None);
}

#[test]
fn negating_a_comparison_twice_gives_it_back() {
    for op in ["==", "!=", "<", ">", "<=", ">="] {
        assert_eq!(negated_comparison(negated_comparison(op).unwrap()), Some(op));
    }
}

#[test]
fn modify_operators_name_their_catalog_functions() {
    assert_eq!(modify_catalog_name_from_str("+"), Some("add"));
    assert_eq!(modify_catalog_name_from_str("-"), Some("subtract"));
    assert_eq!(modify_catalog_name_from_str("*"), Some("multiply"));
    assert_eq!(modify_catalog_name_from_str("/"), Some("divide"));
    assert_eq!(modify_catalog_name_from_str("%"), Some("modulo"));
    assert_eq!(modify_catalog_name_from_str("**"), Some("raiseToPower"));
    assert_eq!(modify_catalog_name_from_str("=="), None);
}

#[test]
fn debug_text_swaps_lowercase_letters() {
    assert_eq!(canonical_debug_text("hello X1"), "\u{04bb}\u{1eb9}II\u{03bf} X1");
    assert_eq!(canonical_debug_text(""), "");
}

#[test]
fn case_sensitive_text_uses_lookalikes() {
    assert_eq!(case_sensitive("ab"), "\u{1ea1}\u{1e05}");
    assert_eq!(case_sensitive("nj"), "\u{01cc}");
    assert_eq!(case_sensitive("æ"), "\u{04d5}");
    assert_eq!(case_sensitive("x a y"), "\u{04b3}\u{202f}\u{ff41}\u{202f}\u{1ef5}");
    assert_eq!(case_sensitive("Z9"), "Z9");
}

#[test]
fn fullwidth_maps_ascii_and_currency() {
    assert_eq!(fullwidth("A1 "), "Ａ１\u{2001}");
    assert_eq!(fullwidth("\u{00a5}\u{20a9}"), "\u{ffe5}\u{ffe6}");
    assert_eq!(fullwidth("é"), "é");
    assert_eq!(fullwidth("~"), "～");
}

#[test]
fn big_letters_convert_only_the_first_mapped_character() {
    assert_eq!(big_letter('a'), Some('Α'));
    assert_eq!(big_letter('Z'), Some('Ζ'));
    assert_eq!(big_letter('.'), Some('\u{2024}'));
    assert_eq!(big_letter(' '), Some('\u{2028}'));
    assert_eq!(big_letter('c'), None);
    assert_eq!(big_letters("cat"), "cΑt");
    assert_eq!(big_letters("qrs"), "qrs");
}

#[test]
fn compression_alphabet_lists_its_code_points() {
    let chars = compression_alphabet_chars();
    assert_eq!(chars.len(), 47 + 1 + 7 + 1 + 6 + 1 + 4 + 32 + 1);
    assert_eq!(chars[0], '\u{1}');
    assert_eq!(chars[47], '2');
    assert_eq!(*chars.last().unwrap(), '\u{a1}');
    assert_eq!(compression_alphabet(), chars.iter().collect::<String>());
}

#[test]
fn format_markers_count_up_from_the_base() {
    assert_eq!(format_number_marker(0), "1876650.25");
    assert_eq!(format_number_marker(3), "1876653.25");
}

#[test]
fn implicit_player_slots_follow_default_names() {
    assert_eq!(implicit_player_index("__languageIndex__"), 127);
    assert_eq!(implicit_player_index("A"), 0);
    assert_eq!(implicit_player_index("Z"), 25);
    assert_eq!(implicit_player_index("AA"), 26);
    assert_eq!(implicit_player_index("DX"), 127);
}

#[test]
fn empty_placeholders_are_numbered_in_order() {
    assert_eq!(canonical_format_text("{} and {}"), "{0} and {1}");
    assert_eq!(canonical_format_text("{1} {"), "{1} {");
    assert_eq!(canonical_format_text(""), "");
}

#[test]
fn literal_text_is_text_outside_placeholders() {
    assert!(!has_literal_text("{0}{1}"));
    assert!(has_literal_text("{0} x"));
    assert!(has_literal_text("}"));
    assert!(!has_literal_text(""));
}

#[test]
fn opy_identifiers_start_with_a_letter_or_underscore() {
    assert!(is_opy_identifier("_a1"));
    assert!(is_opy_identifier("Score"));
    assert!(!is_opy_identifier("1a"));
    assert!(!is_opy_identifier(""));
    assert!(!is_opy_identifier("a-b"));
}

#[test]
fn color_tags_end_after_their_bracket() {
    let text: Vec<char> = "x<FG00FF00FF>y</fg>".chars().collect();
    assert_eq!(is_cased_color_tag(&text, 1), Some(13));
    assert_eq!(is_cased_color_tag(&text, 14), Some(19));
    assert_eq!(is_cased_color_tag(&text, 0), None);
    let open: Vec<char> = "<fg".chars().collect();
    assert_eq!(is_cased_color_tag(&open, 0), None);
}

#[test]
fn rule_names_drop_invisible_characters() {
    assert_eq!(escape_rule_name("a\u{200B}b\u{FEFF}"), "ab");
    assert_eq!(escape_rule_name("plain"), "plain");
}

#[test]
fn rule_names_split_admin_and_the_filtered_word() {
    assert_eq!(escape_rule_name("Admin"), "A\u{00AD}dmin");
    assert_eq!(escape_rule_name("trigger"), "tri\u{00AD}gger");
    assert_eq!(escape_rule_name("r i gg e r"), "r i \u{00AD}gg e r");
    assert_eq!(escape_rule_name("triggers"), "triggers");
    assert_eq!(escape_rule_name("adm"), "adm");
}

#[test]
fn filtered_word_split_points_after_the_i() {
    let text: Vec<char> = "rigger".chars().collect();
    assert_eq!(filtered_word_split(&text, 0), Some(2));
    let spaced: Vec<char> = "r i  gger!".chars().collect();
    assert_eq!(filtered_word_split(&spaced, 0), Some(5));
    let longer: Vec<char> = "riggered".chars().collect();
    assert_eq!(filtered_word_split(&longer, 0), None);
    let short: Vec<char> = "rig".chars().collect();
    assert_eq!(filtered_word_split(&short, 0), None);
}

#[test]
fn workshop_text_is_normalized_line_by_line() {
    assert_eq!(normalize_workshop(""), "");
    assert_eq!(normalize_workshop("a \r\nb\t\r\rc"), "a\nb\n\nc\n");
    assert_eq!(normalize_workshop("x\n\n  \n"), "x\n");
    assert_eq!(normalize_workshop(" \n\t"), "");
}

#[test]
fn normalized_workshop_text_has_no_carriage_returns() {
    let out = normalize_workshop("a\r\r\nb \r");
    assert!(!out.contains('\r'));
    assert!(out.ends_with('\n'));
    assert_eq!(normalize_workshop(&out), out);
}

#[test]
fn literal_slots_follow_the_rewrite_table() {
    assert_eq!(slot("startForcingSpawn", 1), Some(Slot::FalseOnly));
    assert_eq!(slot("add", 1), Some(Slot::TrueOnly));
    assert_eq!(slot("subtract", 1), Some(Slot::TrueOnly));
    assert_eq!(slot("subtract", 0), Some(Slot::Boolean));
    assert_eq!(slot("createInWorldText", 1), Some(Slot::ZeroAsNull));
    assert_eq!(slot("createInWorldText", 2), Some(Slot::ZeroVectorAsNull));
    assert_eq!(slot("createInWorldText", 3), Some(Slot::Boolean));
    assert_eq!(slot("customString", 3), Some(Slot::ZeroAsNull));
    assert_eq!(slot("customString", 4), None);
    assert_eq!(slot("wait", 0), Some(Slot::Boolean));
    assert_eq!(slot("unknownFunction", 0), None);
}

#[test]
fn boolean_slots_cover_their_positions() {
    assert!(is_boolean_slot("startForcingThrottle", 6));
    assert!(!is_boolean_slot("startForcingThrottle", 0));
    assert!(is_boolean_slot("vector", 2));
    assert!(!is_boolean_slot("vector", 3));
    assert!(!is_boolean_slot("nothing", 0));
}

#[test]
fn function_kinds_have_labels() {
    assert_eq!(kind_label(FunctionKind::Action), "action");
    assert_eq!(kind_label(FunctionKind::Value), "value");
    assert_eq!(kind_label(FunctionKind::MemberAction), "member action");
    assert_eq!(kind_label(FunctionKind::MemberValue), "member value");
}
