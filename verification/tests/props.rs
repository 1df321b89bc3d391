use regex::Regex;
use rew::eval::Context;
use rew::filter::Filter;
use rew::input::Input;
use rew::parse::ErrorKind;
use rew::pattern::Pattern;
use rew::transfer::{PathDiff, Terminator};
use rew::utils::highlight_columns;

fn plain_context() -> Context {
    Context {
        current_dir: String::from("current_dir"),
        local_counter: 1,
        global_counter: 2,
        regex_captures: Vec::new(),
        expression_quotes: None,
    }
}

#[test]
fn plain_text_round_trips() {
    let pattern = Pattern::parse("plain text, no escapes").unwrap();
    assert_eq!(
        pattern.eval("anything", &plain_context()),
        Ok("plain text, no escapes".to_string())
    );
    assert_eq!(pattern.eval("", &plain_context()), Ok("plain text, no escapes".to_string()));
}

#[test]
fn escaped_braces_render_literally() {
    assert_eq!(
        Pattern::parse("{{").unwrap().eval("x", &plain_context()),
        Ok("{".to_string())
    );
    assert_eq!(
        Pattern::parse("}}").unwrap().eval("x", &plain_context()),
        Ok("}".to_string())
    );
    assert_eq!(
        Pattern::parse("{?|{|}}").unwrap().eval("x", &plain_context()),
        Ok("x".to_string())
    );
}

#[test]
fn deterministic_without_generators() {
    let pattern = Pattern::parse("{f|l}-{e|L}-{n2-3}").unwrap();
    let first = pattern.eval("dir/FILE.EXT", &plain_context());
    let second = pattern.eval("dir/FILE.EXT", &plain_context());
    assert_eq!(first, second);
}

#[test]
fn uuid_expression_has_v4_shape() {
    let pattern = Pattern::parse("{u}").unwrap();
    let value = pattern.eval("x", &plain_context()).unwrap();
    let shape =
        Regex::new("^[0-9a-f]{8}-[0-9a-f]{4}-4[0-9a-f]{3}-[89ab][0-9a-f]{3}-[0-9a-f]{12}$")
            .unwrap();
    assert!(shape.is_match(&value), "{} is UUID v4", value);
}

#[test]
fn filename_lowercase_chain() {
    let pattern = Pattern::parse("{f|l}").unwrap();
    assert_eq!(
        pattern.eval("dir/FILE.EXT", &plain_context()),
        Ok("file.ext".to_string())
    );
}

#[test]
fn extension_uppercase_chain() {
    let pattern = Pattern::parse("{e|L}").unwrap();
    assert_eq!(pattern.eval("dir/FILE.EXT", &plain_context()), Ok("EXT".to_string()));
}

#[test]
fn unknown_filter_spans_its_character() {
    let error = Pattern::parse("{X}").unwrap_err();
    assert!(matches!(error.kind, ErrorKind::UnknownFilter(_)));
    assert_eq!((error.start, error.end), (1, 2));
}

#[test]
fn capture_zero_is_refused() {
    let error = Pattern::parse("{0}").unwrap_err();
    assert_eq!(error.kind, ErrorKind::RegexCaptureZero);
    assert_eq!((error.start, error.end), (1, 2));
}

#[test]
fn zero_range_index_is_refused() {
    let error = Pattern::parse("{n0}").unwrap_err();
    assert_eq!(error.kind, ErrorKind::RangeInvalid);
}

#[test]
fn unmatched_expression_end() {
    let error = Pattern::parse("}x").unwrap_err();
    assert_eq!(error.kind, ErrorKind::UnmatchedExprEnd);
    assert_eq!((error.start, error.end), (0, 1));
}

#[test]
fn empty_segment_needs_a_filter() {
    let error = Pattern::parse("{|f}").unwrap_err();
    assert_eq!(error.kind, ErrorKind::ExpectedFilter);
    assert_eq!((error.start, error.end), (1, 1));
}

#[test]
fn empty_pattern_renders_empty() {
    let pattern = Pattern::parse("").unwrap();
    assert_eq!(pattern.eval("anything", &plain_context()), Ok(String::new()));
}

#[test]
fn counters_render_current_values() {
    let mut context = plain_context();
    context.local_counter = 41;
    context.global_counter = 4294967295;
    let pattern = Pattern::parse("{c}_{C}").unwrap();
    assert_eq!(pattern.eval("x", &context), Ok("41_4294967295".to_string()));
}

#[test]
fn capture_expression_renders_group() {
    let mut context = plain_context();
    context.regex_captures = vec!["ab12".to_string(), "12".to_string()];
    let pattern = Pattern::parse("{1}").unwrap();
    assert_eq!(pattern.eval("ab12", &context), Ok("12".to_string()));
    let pattern = Pattern::parse("{7}").unwrap();
    assert_eq!(pattern.eval("ab12", &context), Ok(String::new()));
}

#[test]
fn regex_filters_transform_value() {
    let context = plain_context();
    assert_eq!(
        Pattern::parse("{m[0-9]+}").unwrap().eval("ab12cd34", &context),
        Ok("12".to_string())
    );
    assert_eq!(
        Pattern::parse("{s/[0-9]+/N}").unwrap().eval("ab12cd34", &context),
        Ok("abNcd34".to_string())
    );
    assert_eq!(
        Pattern::parse("{S/[0-9]+/N}").unwrap().eval("ab12cd34", &context),
        Ok("abNcdN".to_string())
    );
}

#[test]
fn regex_replacement_expands_groups() {
    let context = plain_context();
    assert_eq!(
        Pattern::parse("{s/([a-z]+)([0-9]+)/$2$1}").unwrap().eval("ab12", &context),
        Ok("12ab".to_string())
    );
}

#[test]
fn quoting_wraps_expressions_only() {
    let mut context = plain_context();
    context.expression_quotes = Some('"');
    let pattern = Pattern::parse("a {f} b").unwrap();
    assert_eq!(
        pattern.eval("dir/x.txt", &context),
        Ok("a \"x.txt\" b".to_string())
    );
}

#[test]
fn usage_queries_see_through_chains() {
    let pattern = Pattern::parse("x{f|c}y").unwrap();
    assert!(pattern.uses_local_counter());
    assert!(!pattern.uses_global_counter());
    assert!(!pattern.uses_regex_capture());
    let pattern = Pattern::parse("{C}{2}").unwrap();
    assert!(!pattern.uses_local_counter());
    assert!(pattern.uses_global_counter());
    assert!(pattern.uses_regex_capture());
}

#[test]
fn multibyte_positions_are_byte_offsets() {
    // The unknown filter code sits after a two-byte character.
    let error = Pattern::parse("{é}").unwrap_err();
    assert!(matches!(error.kind, ErrorKind::UnknownFilter(_)));
    assert_eq!((error.start, error.end), (1, 3));
}

#[test]
fn highlight_counts_columns_not_bytes() {
    // Underline the "X" after two two-byte characters: byte range 5..6.
    assert_eq!(highlight_columns("éé~X~", 5, 6), (3, 1));
    assert_eq!(highlight_columns("abc", 1, 1), (1, 1));
}

#[test]
fn args_input_yields_values_in_order() {
    let mut input = Input::from_args(vec!["a".to_string(), "b".to_string()]);
    assert_eq!(input.next(), Some("a".to_string()));
    assert_eq!(input.next(), Some("b".to_string()));
    assert_eq!(input.next(), None);
}

#[test]
fn record_trimming_drops_delimiters() {
    assert_eq!(rew::input::trimmed_record_len(&b"abc\n".to_vec(), Some(b'\n')), 3);
    assert_eq!(rew::input::trimmed_record_len(&b"abc\r\n".to_vec(), Some(b'\n')), 3);
    assert_eq!(rew::input::trimmed_record_len(&b"abc".to_vec(), Some(b'\n')), 3);
    assert_eq!(rew::input::trimmed_record_len(&b"ab\x00".to_vec(), Some(0)), 2);
    assert_eq!(rew::input::trimmed_record_len(&b"ab".to_vec(), None), 2);
}

#[test]
fn custom_transfer_terminator() {
    let mut path_diff = PathDiff::new("<a;>b;", Terminator::Char(';'));
    assert_eq!(
        path_diff.read().map_err(|e| e.kind),
        Ok(Some(("a".to_string(), "b".to_string())))
    );
    assert_eq!(path_diff.read().map_err(|e| e.kind), Ok(None));
}

#[test]
fn original_input_reported_on_failure() {
    let pattern = Pattern::parse("{f|A}").unwrap();
    let error = pattern.eval("missing/file", &plain_context()).unwrap_err();
    assert_eq!(error.value, "missing/file".to_string());
    assert_eq!(error.cause, &Filter::CanonicalPath);
    assert_eq!((error.start, error.end), (3, 4));
}

#[test]
fn explanation_pairs_excerpts_with_descriptions() {
    let pattern = Pattern::parse("x{f|n2-3}y{u}").unwrap();
    assert_eq!(
        pattern.explain(),
        vec![
            ("f".to_string(), "File name".to_string()),
            ("n2-3".to_string(), "Substring from 2 to 3".to_string()),
            ("u".to_string(), "UUID".to_string()),
        ]
    );
}

#[test]
fn substring_clamps_out_of_range() {
    let context = plain_context();
    assert_eq!(
        Pattern::parse("{n2-99}").unwrap().eval("abc", &context),
        Ok("bc".to_string())
    );
    assert_eq!(
        Pattern::parse("{n9-}").unwrap().eval("abc", &context),
        Ok(String::new())
    );
    assert_eq!(
        Pattern::parse("{N-99}").unwrap().eval("abc", &context),
        Ok("abc".to_string())
    );
}

#[test]
fn padding_never_truncates() {
    let context = plain_context();
    assert_eq!(
        Pattern::parse("{<00}").unwrap().eval("abcdef", &context),
        Ok("abcdef".to_string())
    );
    assert_eq!(
        Pattern::parse("{>00}").unwrap().eval("abcdef", &context),
        Ok("abcdef".to_string())
    );
}
