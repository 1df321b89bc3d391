use regex::Regex;
use rew::eval::{Context, ErrorKind};
use rew::filter::Filter;
use rew::parse::{Error, ErrorKind as ParseErrorKind};
use rew::pattern::{Item, Parsed, Pattern};
use rew::range::Range;
use rew::substitution::Substitution;

fn make_context() -> Context {
    let captures = Regex::new("(.*)")
        .unwrap()
        .captures("abc")
        .unwrap()
        .iter()
        .map(|m| m.map_or(String::new(), |v| v.as_str().to_string()))
        .collect();
    Context {
        current_dir: String::from("current_dir"),
        local_counter: 1,
        global_counter: 2,
        regex_captures: captures,
        expression_quotes: None,
    }
}

#[test]
fn err() {
    assert_eq!(
        Pattern::parse("{"),
        Err(Error { kind: ParseErrorKind::UnmatchedExprStart, start: 0, end: 1 })
    )
}

#[test]
fn ok() {
    assert_eq!(
        Pattern::parse("_{{{f|l}}}_"),
        Ok(Pattern {
            source: "_{{{f|l}}}_".to_string(),
            items: vec![
                Parsed { value: Item::Constant("_{".to_string()), start: 0, end: 3 },
                Parsed {
                    value: Item::Expression(vec![
                        Parsed { value: Filter::FileName, start: 4, end: 5 },
                        Parsed { value: Filter::ToLowercase, start: 6, end: 7 },
                    ]),
                    start: 3,
                    end: 8,
                },
                Parsed { value: Item::Constant("}_".to_string()), start: 8, end: 11 },
            ],
        })
    )
}

#[test]
fn constant() {
    let pattern = Pattern::from_items(vec![Parsed {
        value: Item::Constant("abc".to_string()),
        start: 0,
        end: 0,
    }]);
    assert_eq!(pattern.eval("", &make_context()), Ok("abc".to_string()));
}

#[test]
fn mod_empty_expression() {
    let pattern = Pattern::from_items(vec![Parsed {
        value: Item::Expression(vec![]),
        start: 0,
        end: 0,
    }]);
    assert_eq!(
        pattern.eval("dir/file.ext", &make_context()),
        Ok("dir/file.ext".to_string())
    );
}

#[test]
fn single_filter_expression() {
    let pattern = Pattern::from_items(vec![Parsed {
        value: Item::Expression(vec![Parsed { value: Filter::FileName, start: 0, end: 0 }]),
        start: 0,
        end: 0,
    }]);
    assert_eq!(
        pattern.eval("dir/file.ext", &make_context()),
        Ok("file.ext".to_string())
    );
}

#[test]
fn multi_filter_expression() {
    let pattern = Pattern::from_items(vec![Parsed {
        value: Item::Expression(vec![
            Parsed { value: Filter::FileName, start: 0, end: 0 },
            Parsed { value: Filter::ToUppercase, start: 0, end: 0 },
        ]),
        start: 0,
        end: 0,
    }]);
    assert_eq!(
        pattern.eval("dir/file.ext", &make_context()),
        Ok("FILE.EXT".to_string())
    );
}

#[test]
fn multi_constant_and_filter_expressions() {
    let pattern = Pattern::from_items(vec![
        Parsed { value: Item::Constant("prefix_".to_string()), start: 0, end: 0 },
        Parsed {
            value: Item::Expression(vec![
                Parsed { value: Filter::BaseName, start: 0, end: 0 },
                Parsed { value: Filter::Substring(Range::FromTo(0, 3)), start: 0, end: 0 },
            ]),
            start: 0,
            end: 0,
        },
        Parsed { value: Item::Constant("_".to_string()), start: 0, end: 0 },
        Parsed {
            value: Item::Expression(vec![Parsed {
                value: Filter::LocalCounter,
                start: 0,
                end: 0,
            }]),
            start: 0,
            end: 0,
        },
        Parsed { value: Item::Constant("_".to_string()), start: 0, end: 0 },
        Parsed {
            value: Item::Expression(vec![Parsed {
                value: Filter::GlobalCounter,
                start: 0,
                end: 0,
            }]),
            start: 0,
            end: 0,
        },
        Parsed { value: Item::Constant(".".to_string()), start: 0, end: 0 },
        Parsed {
            value: Item::Expression(vec![
                Parsed { value: Filter::Extension, start: 0, end: 0 },
                Parsed { value: Filter::ToUppercase, start: 0, end: 0 },
                Parsed {
                    value: Filter::ReplaceAll(Substitution {
                        target: "X".to_string(),
                        replacement: String::new(),
                    }),
                    start: 0,
                    end: 0,
                },
            ]),
            start: 0,
            end: 0,
        },
    ]);

    assert_eq!(
        pattern.eval("dir/file.ext", &make_context()),
        Ok("prefix_fil_1_2.ET".to_string())
    );
}

#[test]
fn quotes() {
    let mut context = make_context();
    context.expression_quotes = Some('\'');

    let pattern = Pattern::from_items(vec![
        Parsed { value: Item::Constant(" ".to_string()), start: 0, end: 0 },
        Parsed { value: Item::Expression(Vec::new()), start: 0, end: 0 },
        Parsed { value: Item::Constant(" ".to_string()), start: 0, end: 0 },
    ]);
    assert_eq!(
        pattern.eval("dir/file.ext", &context),
        Ok(" 'dir/file.ext' ".to_string())
    );
}

#[test]
fn failure() {
    let pattern = Pattern::from_items(vec![Parsed {
        value: Item::Expression(vec![Parsed {
            value: Filter::CanonicalPath,
            start: 1,
            end: 2,
        }]),
        start: 0,
        end: 0,
    }]);
    let error = pattern.eval("dir/file.ext", &make_context()).unwrap_err();
    assert!(matches!(error.kind, ErrorKind::CanonicalizationFailed(_)));
    assert_eq!(error.value, "dir/file.ext".to_string());
    assert_eq!(error.cause, &Filter::CanonicalPath);
    assert_eq!((error.start, error.end), (1, 2));
}
