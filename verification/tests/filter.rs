use regex::Regex;
use rew::eval::Context;
use rew::filter::Filter;
use rew::parse::{Error, ErrorKind};
use rew::range::Range;
use rew::reader::{Char, Reader};
use rew::regexp::RegexHolder;
use rew::substitution::Substitution;

fn parse(string: &str) -> Result<Filter, Error> {
    Filter::parse(&mut Reader::new(string))
}

fn holder(pattern: &str) -> RegexHolder {
    RegexHolder::new(pattern).unwrap()
}

fn make_eval_context() -> Context {
    let captures = Regex::new("(.*)")
        .unwrap()
        .captures("abc")
        .unwrap()
        .iter()
        .map(|m| m.map_or(String::new(), |v| v.as_str().to_string()))
        .collect();
    Context {
        current_dir: String::from("current_dir"),
        local_counter: 1,
        global_counter: 2,
        regex_captures: captures,
        expression_quotes: None,
    }
}

#[test]
fn parse_absolute_path() {
    assert_eq!(parse("a"), Ok(Filter::AbsolutePath));
}

#[test]
fn parse_canonical_path() {
    assert_eq!(parse("A"), Ok(Filter::CanonicalPath));
}

#[test]
fn parse_parent_path() {
    assert_eq!(parse("d"), Ok(Filter::ParentPath));
}

#[test]
fn parse_file_name() {
    assert_eq!(parse("f"), Ok(Filter::FileName));
}

#[test]
fn parse_base_name() {
    assert_eq!(parse("b"), Ok(Filter::BaseName));
}

#[test]
fn mod_parse_extension() {
    assert_eq!(parse("e"), Ok(Filter::Extension));
}

#[test]
fn mod_parse_extension_with_dot() {
    assert_eq!(parse("E"), Ok(Filter::ExtensionWithDot));
}

#[test]
fn parse_substring() {
    assert_eq!(
        parse("n"),
        Err(Error { kind: ErrorKind::ExpectedRange, start: 1, end: 1 }),
    );
    assert_eq!(parse("n5"), Ok(Filter::Substring(Range::FromTo(4, 5))));
    assert_eq!(parse("n2-10"), Ok(Filter::Substring(Range::FromTo(1, 10))));
    assert_eq!(parse("n2-"), Ok(Filter::Substring(Range::From(1))));
    assert_eq!(parse("n-10"), Ok(Filter::Substring(Range::To(10))));
}

#[test]
fn parse_substring_backward() {
    assert_eq!(
        parse("N"),
        Err(Error { kind: ErrorKind::ExpectedRange, start: 1, end: 1 }),
    );
    assert_eq!(parse("N5"), Ok(Filter::SubstringBackward(Range::FromTo(4, 5))));
    assert_eq!(parse("N2-10"), Ok(Filter::SubstringBackward(Range::FromTo(1, 10))));
    assert_eq!(parse("N2-"), Ok(Filter::SubstringBackward(Range::From(1))));
    assert_eq!(parse("N-10"), Ok(Filter::SubstringBackward(Range::To(10))));
}

#[test]
fn parse_replace_first() {
    assert_eq!(
        parse("r"),
        Err(Error { kind: ErrorKind::ExpectedSubstitution, start: 1, end: 1 }),
    );
    assert_eq!(
        parse("r/ab"),
        Ok(Filter::ReplaceFirst(Substitution {
            target: String::from("ab"),
            replacement: String::from(""),
        })),
    );
    assert_eq!(
        parse("r/ab/cd"),
        Ok(Filter::ReplaceFirst(Substitution {
            target: String::from("ab"),
            replacement: String::from("cd"),
        })),
    );
}

#[test]
fn parse_replace_all() {
    assert_eq!(
        parse("R"),
        Err(Error { kind: ErrorKind::ExpectedSubstitution, start: 1, end: 1 }),
    );
    assert_eq!(
        parse("R/ab"),
        Ok(Filter::ReplaceAll(Substitution {
            target: String::from("ab"),
            replacement: String::from(""),
        })),
    );
    assert_eq!(
        parse("R/ab/cd"),
        Ok(Filter::ReplaceAll(Substitution {
            target: String::from("ab"),
            replacement: String::from("cd"),
        })),
    );
}

#[test]
fn parse_replace_empty() {
    assert_eq!(parse("?abc"), Ok(Filter::ReplaceEmpty(String::from("abc"))));
}

#[test]
fn parse_replace_empty_with_empty() {
    assert_eq!(parse("?"), Ok(Filter::ReplaceEmpty(String::new())));
}

#[test]
fn parse_trim() {
    assert_eq!(parse("t"), Ok(Filter::Trim));
}

#[test]
fn parse_to_lower_case() {
    assert_eq!(parse("l"), Ok(Filter::ToLowercase));
}

#[test]
fn parse_to_upper_case() {
    assert_eq!(parse("L"), Ok(Filter::ToUppercase));
}

#[test]
fn parse_to_ascii() {
    assert_eq!(parse("i"), Ok(Filter::ToAscii));
}

#[test]
fn parse_remove_non_ascii() {
    assert_eq!(parse("I"), Ok(Filter::RemoveNonAscii));
}

#[test]
fn parse_left_pad() {
    assert_eq!(parse("<abc"), Ok(Filter::LeftPad(String::from("abc"))));
}

#[test]
fn parse_left_pad_empty() {
    assert_eq!(parse("<"), Ok(Filter::LeftPad(String::new())));
}

#[test]
fn parse_right_pad() {
    assert_eq!(parse(">abc"), Ok(Filter::RightPad(String::from("abc"))));
}

#[test]
fn parse_right_pad_empty() {
    assert_eq!(parse(">"), Ok(Filter::RightPad(String::new())));
}

#[test]
fn parse_regex_match() {
    assert_eq!(
        parse("m"),
        Err(Error { kind: ErrorKind::ExpectedRegex, start: 1, end: 1 }),
    );
    assert_eq!(parse("m[0-9]+"), Ok(Filter::RegexMatch(holder("[0-9]+"))));
    let error = parse("m[0-9+").unwrap_err();
    assert!(matches!(error.kind, ErrorKind::RegexInvalid(_)));
    assert_eq!((error.start, error.end), (1, 6));
}

#[test]
fn parse_regex_replace_first() {
    assert_eq!(
        parse("s"),
        Err(Error { kind: ErrorKind::ExpectedSubstitution, start: 1, end: 1 }),
    );
    assert_eq!(
        parse("s/[0-9]+"),
        Ok(Filter::RegexReplaceFirst(Substitution {
            target: holder("[0-9]+"),
            replacement: String::from(""),
        })),
    );
    assert_eq!(
        parse("s/[0-9]+/cd"),
        Ok(Filter::RegexReplaceFirst(Substitution {
            target: holder("[0-9]+"),
            replacement: String::from("cd"),
        })),
    );
    let error = parse("s/[0-9+/cd").unwrap_err();
    assert!(matches!(error.kind, ErrorKind::SubstituteRegexInvalid(_)));
    assert_eq!((error.start, error.end), (2, 7));
}

#[test]
fn parse_regex_replace_all() {
    assert_eq!(
        parse("S"),
        Err(Error { kind: ErrorKind::ExpectedSubstitution, start: 1, end: 1 }),
    );
    assert_eq!(
        parse("S/[0-9]+"),
        Ok(Filter::RegexReplaceAll(Substitution {
            target: holder("[0-9]+"),
            replacement: String::from(""),
        })),
    );
    assert_eq!(
        parse("S/[0-9]+/cd"),
        Ok(Filter::RegexReplaceAll(Substitution {
            target: holder("[0-9]+"),
            replacement: String::from("cd"),
        })),
    );
    let error = parse("S/[0-9+/cd").unwrap_err();
    assert!(matches!(error.kind, ErrorKind::SubstituteRegexInvalid(_)));
    assert_eq!((error.start, error.end), (2, 7));
}

#[test]
fn mod_parse_local_counter() {
    assert_eq!(parse("c"), Ok(Filter::LocalCounter));
}

#[test]
fn mod_parse_global_counter() {
    assert_eq!(parse("C"), Ok(Filter::GlobalCounter));
}

#[test]
fn mod_parse_uuid() {
    assert_eq!(parse("u"), Ok(Filter::Uuid));
}

#[test]
fn parse_ignore_chars_after_filter() {
    let mut reader = Reader::new("a_");
    Filter::parse(&mut reader).unwrap();
    assert_eq!(reader.position(), 1);
}

#[test]
fn parse_unknown_filter_error() {
    assert_eq!(
        parse("-_"),
        Err(Error { kind: ErrorKind::UnknownFilter(Char::Raw('-')), start: 0, end: 1 }),
    );
}

#[test]
fn mod_parse_empty_error() {
    assert_eq!(
        parse(""),
        Err(Error { kind: ErrorKind::ExpectedFilter, start: 0, end: 0 }),
    )
}

#[test]
fn eval_absolute_path() {
    assert_eq!(
        Filter::AbsolutePath.eval(String::from("root/parent/file.ext"), &make_eval_context()),
        Ok(String::from("current_dir/root/parent/file.ext"))
    );
}

#[test]
fn eval_file_name() {
    assert_eq!(
        Filter::FileName.eval(String::from("root/parent/file.ext"), &make_eval_context()),
        Ok(String::from("file.ext"))
    );
}

#[test]
fn eval_base_name() {
    assert_eq!(
        Filter::BaseName.eval(String::from("root/parent/file.ext"), &make_eval_context()),
        Ok(String::from("file"))
    );
}

#[test]
fn mod_eval_extension() {
    assert_eq!(
        Filter::Extension.eval(String::from("root/parent/file.ext"), &make_eval_context()),
        Ok(String::from("ext"))
    );
}

#[test]
fn mod_eval_extension_with_dot() {
    assert_eq!(
        Filter::ExtensionWithDot.eval(String::from("root/parent/file.ext"), &make_eval_context()),
        Ok(String::from(".ext"))
    );
}

#[test]
fn eval_substring() {
    assert_eq!(
        Filter::Substring(Range::FromTo(1, 3)).eval(String::from("abcde"), &make_eval_context()),
        Ok(String::from("bc"))
    );
}

#[test]
fn eval_substring_backward() {
    assert_eq!(
        Filter::SubstringBackward(Range::FromTo(1, 3))
            .eval(String::from("abcde"), &make_eval_context()),
        Ok(String::from("cd"))
    );
}

#[test]
fn eval_replace_first() {
    assert_eq!(
        Filter::ReplaceFirst(Substitution {
            target: String::from("ab"),
            replacement: String::from("x"),
        })
        .eval(String::from("abcd_abcd"), &make_eval_context()),
        Ok(String::from("xcd_abcd"))
    );
}

#[test]
fn eval_replace_all() {
    assert_eq!(
        Filter::ReplaceAll(Substitution {
            target: String::from("ab"),
            replacement: String::from("x"),
        })
        .eval(String::from("abcd_abcd"), &make_eval_context()),
        Ok(String::from("xcd_xcd"))
    );
}

#[test]
fn eval_remove_first() {
    assert_eq!(
        Filter::ReplaceFirst(Substitution {
            target: String::from("ab"),
            replacement: String::new(),
        })
        .eval(String::from("abcd_abcd"), &make_eval_context()),
        Ok(String::from("cd_abcd"))
    );
}

#[test]
fn eval_remove_all() {
    assert_eq!(
        Filter::ReplaceAll(Substitution {
            target: String::from("ab"),
            replacement: String::new(),
        })
        .eval(String::from("abcd_abcd"), &make_eval_context()),
        Ok(String::from("cd_cd"))
    );
}

#[test]
fn eval_replace_empty() {
    assert_eq!(
        Filter::ReplaceEmpty(String::from("xyz")).eval(String::new(), &make_eval_context()),
        Ok(String::from("xyz"))
    );
}

#[test]
fn eval_trim() {
    assert_eq!(
        Filter::Trim.eval(String::from(" abcd "), &make_eval_context()),
        Ok(String::from("abcd"))
    );
}

#[test]
fn eval_to_lowercase() {
    assert_eq!(
        Filter::ToLowercase.eval(String::from("ábčdÁBČD"), &make_eval_context()),
        Ok(String::from("ábčdábčd"))
    );
}

#[test]
fn eval_to_uppercase() {
    assert_eq!(
        Filter::ToUppercase.eval(String::from("ábčdÁBČD"), &make_eval_context()),
        Ok(String::from("ÁBČDÁBČD"))
    );
}

#[test]
fn eval_to_ascii() {
    assert_eq!(
        Filter::ToAscii.eval(String::from("ábčdÁBČD"), &make_eval_context()),
        Ok(String::from("abcdABCD"))
    );
}

#[test]
fn eval_remove_non_ascii() {
    assert_eq!(
        Filter::RemoveNonAscii.eval(String::from("ábčdÁBČD"), &make_eval_context()),
        Ok(String::from("bdBD"))
    );
}

#[test]
fn eval_left_pad() {
    assert_eq!(
        Filter::LeftPad(String::from("0123")).eval(String::from("ab"), &make_eval_context()),
        Ok(String::from("01ab"))
    );
}

#[test]
fn eval_right_pad() {
    assert_eq!(
        Filter::RightPad(String::from("0123")).eval(String::from("ab"), &make_eval_context()),
        Ok(String::from("ab23"))
    );
}

#[test]
fn mod_eval_local_counter() {
    assert_eq!(
        Filter::LocalCounter.eval(String::new(), &make_eval_context()),
        Ok(String::from("1"))
    );
}

#[test]
fn mod_eval_global_counter() {
    assert_eq!(
        Filter::GlobalCounter.eval(String::new(), &make_eval_context()),
        Ok(String::from("2"))
    );
}

#[test]
fn mod_eval_uuid() {
    let uuid = Filter::Uuid.eval(String::new(), &make_eval_context()).unwrap();
    let uuid_regex =
        Regex::new("^[0-9a-f]{8}-[0-9a-f]{4}-4[0-9a-f]{3}-[89ab][0-9a-f]{3}-[0-9a-f]{12}$")
            .unwrap();
    assert!(uuid_regex.is_match(&uuid), "{} is UUID v4", uuid);
}

#[test]
fn fmt() {
    assert_eq!(Filter::AbsolutePath.describe(), "Absolute path");
    assert_eq!(Filter::CanonicalPath.describe(), "Canonical path");
    assert_eq!(Filter::ParentPath.describe(), "Parent path");
    assert_eq!(Filter::FileName.describe(), "File name");
    assert_eq!(Filter::BaseName.describe(), "Base name");
    assert_eq!(Filter::Extension.describe(), "Extension");
    assert_eq!(Filter::ExtensionWithDot.describe(), "Extension with dot");
    assert_eq!(
        Filter::Substring(Range::FromTo(1, 3)).describe(),
        "Substring from 2 to 3"
    );
    assert_eq!(
        Filter::SubstringBackward(Range::FromTo(1, 3)).describe(),
        "Substring (backward) from 2 to 3"
    );
    assert_eq!(
        Filter::ReplaceFirst(Substitution {
            target: String::from("a"),
            replacement: String::from("b")
        })
        .describe(),
        "Replace first 'a' by 'b'"
    );
    assert_eq!(
        Filter::ReplaceAll(Substitution {
            target: String::from("a"),
            replacement: String::from("b")
        })
        .describe(),
        "Replace all 'a' by 'b'"
    );
    assert_eq!(Filter::Trim.describe(), "Trim");
    assert_eq!(Filter::ToLowercase.describe(), "To lowercase");
    assert_eq!(Filter::ToUppercase.describe(), "To uppercase");
    assert_eq!(Filter::ToAscii.describe(), "To ASCII");
    assert_eq!(Filter::RemoveNonAscii.describe(), "Remove non-ASCII");
    assert_eq!(
        Filter::LeftPad(String::from("abc")).describe(),
        "Left pad with 'abc'"
    );
    assert_eq!(
        Filter::RightPad(String::from("abc")).describe(),
        "Right pad with 'abc'"
    );
    assert_eq!(
        Filter::ReplaceEmpty(String::from("abc")).describe(),
        "Replace empty with 'abc'"
    );
    assert_eq!(
        Filter::RegexMatch(holder("a+")).describe(),
        "Regular expression 'a+' match"
    );
    assert_eq!(
        Filter::RegexReplaceFirst(Substitution {
            target: holder("a+"),
            replacement: String::from("b")
        })
        .describe(),
        "Replace first regular expression 'a+' by 'b'"
    );
    assert_eq!(
        Filter::RegexReplaceAll(Substitution {
            target: holder("a+"),
            replacement: String::from("b")
        })
        .describe(),
        "Replace all regular expressions 'a+' by 'b'"
    );
}
