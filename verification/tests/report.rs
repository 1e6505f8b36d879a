use ariadne::{sources, Color, ColorGenerator, Config, Fmt, Report, ReportKind};
use sculpt::grammar::{ParseError, Token};
use sculpt::report::{is_reportable, report_error, Diagnostic, Label, Part, Tint};
use sculpt::run::{run, Error};
use sculpt::syntax::{Macro, Main, Name, StrLit};

/// Reads the statements of a `main` whose body holds nothing but macro
/// invocations with string literals, and gives each its place in `src`.
fn statements(src: &str) -> Main<'_> {
    let body_end = src.rfind('}').unwrap();
    let mut at = src.find('{').unwrap() + 1;
    let mut statements = Vec::new();
    loop {
        at += src[at..].len() - src[at..].trim_start().len();
        if at >= body_end {
            break;
        }
        let bang = at + src[at..].find('!').unwrap() + 1;
        let name = Name {
            span: at..bang,
            name: &src[at..bang],
        };
        at = bang + 1;
        let mut args = Vec::new();
        loop {
            at += src[at..].len() - src[at..].trim_start().len();
            if src[at..].starts_with(')') {
                at += 1;
                break;
            }
            if src[at..].starts_with(',') {
                at += 1;
                continue;
            }
            let close = at + 1 + src[at + 1..].find('"').unwrap();
            args.push(StrLit {
                span: at..close + 1,
                val: &src[at + 1..close],
            });
            at = close + 1;
        }
        at += 1;
        statements.push(Macro { name, args });
    }
    Main { statements }
}

fn written(parts: &[Part<'_>], colored: bool, a: Color, b: Color) -> String {
    let tinted = |text: String, tint: &Tint| {
        let color = match tint {
            Tint::First => a,
            Tint::Second => b,
        };
        format!("{}", text.fg(colored.then_some(color)))
    };
    parts
        .iter()
        .map(|part| match part {
            Part::Text(text) => text.to_string(),
            Part::Count(n) => n.to_string(),
            Part::Quoted(text, tint) => tinted(format!("\"{}\"", text), tint),
            Part::Tinted(text, tint) => tinted(text.to_string(), tint),
        })
        .collect()
}

/// Draws the description of an error over its source.
fn drawn(source_code: &str, error: &Error<'_>, colored: bool) -> String {
    let file = "file.sculpt".to_string();
    let mut colors = ColorGenerator::new();
    let a = colors.next();
    let b = colors.next();
    let diagnostic = report_error(error);
    let mut builder = Report::build(ReportKind::Error, file.clone(), diagnostic.offset)
        .with_config(Config::default().with_color(colored))
        .with_code(diagnostic.code);
    if let Some(message) = &diagnostic.message {
        builder.set_message(written(message, colored, a, b));
    }
    for label in &diagnostic.labels {
        let mut drawn = ariadne::Label::new((file.clone(), label.span.clone()));
        if let Some(message) = &label.message {
            drawn = drawn.with_message(written(message, colored, a, b));
        }
        builder.add_label(drawn.with_color(match label.tint {
            Tint::First => a,
            Tint::Second => b,
        }));
    }
    let mut error_buf = Vec::new();
    builder
        .finish()
        .write(sources(vec![(file, source_code)]), &mut error_buf)
        .unwrap();
    String::from_utf8(error_buf)
        .unwrap()
        .lines()
        .map(|line| line.trim_end())
        .collect::<Vec<_>>()
        .join("\n")
}

fn reported(source_code: &str) -> String {
    let mut output_buf = Vec::new();
    let error = run(&statements(source_code), &mut output_buf).unwrap_err();
    assert!(output_buf.is_empty());
    drawn(source_code, &error, false)
}

fn text(text: &'static str) -> Option<Vec<Part<'static>>> {
    Some(vec![Part::Text(text)])
}

#[test]
fn invalid_fmt_string_errors_are_reported() {
    let src = "fn main() {\n    println!(\"}\");\n}";
    assert_eq!(
        reported(src),
        "[InvalidToken] Error: encountered unexpected syntax
   ╭─[file.sculpt:2:15]
   │
 2 │     println!(\"}\");
   │               ┬
   │               ╰── unexpected syntax
───╯"
    );
}

#[test]
fn missing_fmt_string_errors_are_reported() {
    let src = "fn main() {\n    print!();\n}";
    assert_eq!(
        reported(src),
        "[MissingFmtStr] Error:
   ╭─[file.sculpt:2:5]
   │
 2 │     print!();
   │     ───┬──
   │        ╰──── requires at least a format string argument
───╯"
    );
}

#[test]
fn extra_fmt_argument_errors_are_reported() {
    let src = "fn main() {\n    print!(\" {} \", \"a\", \"b\", \"c\");\n}";
    assert_eq!(
        reported(src),
        "[ExtraFmtArguments] Error: multiple unused formatting arguments
   ╭─[file.sculpt:2:12]
   │
 2 │     print!(\" {} \", \"a\", \"b\", \"c\");
   │            ───┬──       ─┬─  ─┬─
   │               ╰─────────────────── multiple missing formatting specifiers
   │                          │    │
   │                          ╰──────── argument never used
   │                               │
   │                               ╰─── argument never used
───╯"
    );
}

#[test]
fn missing_fmt_argument_errors_are_reported() {
    let src = "fn main() {\n    print!(\"{} {} {}\", \"a\");\n}";
    assert_eq!(
        reported(src),
        "[NotEnoughFmtArguments] Error: 3 positional arguments in format string, but there is 1 argument
   ╭─[file.sculpt:2:13]
   │
 2 │     print!(\"{} {} {}\", \"a\");
   │             ── ── ──   ───
   │
   │
   │
   │
   │
   │
   │
───╯"
    );
}

#[test]
fn missing_fmt_string_is_described() {
    assert_eq!(
        report_error(&Error::MissingFmtStr(16..22)),
        Diagnostic {
            code: "MissingFmtStr",
            offset: 16,
            message: None,
            labels: vec![Label {
                span: 16..22,
                message: text("requires at least a format string argument"),
                tint: Tint::First,
            }],
        }
    );
}

#[test]
fn one_extra_argument_is_described_in_the_singular() {
    assert_eq!(
        report_error(&Error::ExtraFmtArguments(5..9, vec![11..14])),
        Diagnostic {
            code: "ExtraFmtArguments",
            offset: 5,
            message: text("unused formatting argument"),
            labels: vec![
                Label {
                    span: 11..14,
                    message: text("argument never used"),
                    tint: Tint::First,
                },
                Label {
                    span: 5..9,
                    message: text("multiple missing formatting specifiers"),
                    tint: Tint::Second,
                },
            ],
        }
    );
}

#[test]
fn extra_arguments_are_described_in_the_plural() {
    let error = Error::ExtraFmtArguments(5..9, vec![]);
    let none = report_error(&error);
    assert_eq!(none.message, text("multiple unused formatting arguments"));
    assert_eq!(none.labels.len(), 1);
    let error = Error::ExtraFmtArguments(5..9, vec![11..14, 16..19]);
    let two = report_error(&error);
    assert_eq!(two.message, text("multiple unused formatting arguments"));
    assert_eq!(
        two.labels.iter().map(|l| l.span.clone()).collect::<Vec<_>>(),
        [11..14, 16..19, 5..9]
    );
    assert_eq!(two.offset, 5);
}

#[test]
fn missing_arguments_are_described_with_their_counts() {
    assert_eq!(
        report_error(&Error::NotEnoughFmtArguments(
            vec![24..26, 27..29, 30..32],
            vec![35..38]
        )),
        Diagnostic {
            code: "NotEnoughFmtArguments",
            offset: 24,
            message: Some(vec![
                Part::Count(3),
                Part::Text(" positional arguments in format string, but there "),
                Part::Text("is "),
                Part::Count(1),
                Part::Text(" argument"),
            ]),
            labels: vec![
                Label {
                    span: 24..26,
                    message: None,
                    tint: Tint::First,
                },
                Label {
                    span: 27..29,
                    message: None,
                    tint: Tint::First,
                },
                Label {
                    span: 30..32,
                    message: None,
                    tint: Tint::First,
                },
                Label {
                    span: 35..38,
                    message: None,
                    tint: Tint::Second,
                },
            ],
        }
    );
    let error = Error::NotEnoughFmtArguments(vec![3..5], vec![]);
    let one = report_error(&error);
    assert_eq!(
        written(&one.message.unwrap(), false, Color::Red, Color::Blue),
        "1 positional argument in format string, but there are 0 arguments"
    );
    let error = Error::NotEnoughFmtArguments(vec![3..5, 5..7, 7..9], vec![12..15, 17..20]);
    let many = report_error(&error);
    assert_eq!(
        written(&many.message.unwrap(), false, Color::Red, Color::Blue),
        "3 positional arguments in format string, but there are 2 arguments"
    );
}

#[test]
fn invalid_token_is_described_over_one_byte() {
    assert_eq!(
        report_error(&Error::ParseError(ParseError::InvalidToken { location: 26 })),
        Diagnostic {
            code: "InvalidToken",
            offset: 26,
            message: text("encountered unexpected syntax"),
            labels: vec![Label {
                span: 26..27,
                message: text("unexpected syntax"),
                tint: Tint::First,
            }],
        }
    );
}

#[test]
fn extra_token_is_described_with_its_text() {
    assert_eq!(
        report_error(&Error::ParseError(ParseError::ExtraToken {
            token: (30, Token(2, "fn"), 32)
        })),
        Diagnostic {
            code: "ExtraToken",
            offset: 30,
            message: Some(vec![
                Part::Text("encountered unexpected syntax "),
                Part::Quoted("fn", Tint::First),
            ]),
            labels: vec![Label {
                span: 30..32,
                message: text("unexpected syntax"),
                tint: Tint::First,
            }],
        }
    );
}

#[test]
fn unrecognized_eof_lists_what_was_expected() {
    let error = Error::ParseError(ParseError::UnrecognizedEof {
        location: 11,
        expected: vec!["\"}\"".to_string(), "name".to_string(), "\";\"".to_string()],
    });
    assert_eq!(
        report_error(&error),
        Diagnostic {
            code: "UnrecognizedEof",
            offset: 11,
            message: text("unexpected end of file"),
            labels: vec![Label {
                span: 11..12,
                message: Some(vec![
                    Part::Text("Expected one of: "),
                    Part::Tinted("\"}\"", Tint::Second),
                    Part::Text(", "),
                    Part::Tinted("name", Tint::Second),
                    Part::Text(", "),
                    Part::Tinted("\";\"", Tint::Second),
                ]),
                tint: Tint::Second,
            }],
        }
    );
    let nothing = Error::ParseError(ParseError::UnrecognizedEof {
        location: 0,
        expected: vec![],
    });
    assert_eq!(
        report_error(&nothing).labels[0].message,
        text("Expected one of: ")
    );
}

#[test]
fn unrecognized_token_lists_what_was_expected_if_anything() {
    let error = Error::ParseError(ParseError::UnrecognizedToken {
        token: (3, Token(0, "mian"), 7),
        expected: vec!["\"main\"".to_string()],
    });
    assert_eq!(
        report_error(&error),
        Diagnostic {
            code: "UnrecognizedToken",
            offset: 3,
            message: Some(vec![
                Part::Text("encountered unexpected syntax "),
                Part::Quoted("mian", Tint::First),
            ]),
            labels: vec![
                Label {
                    span: 3..7,
                    message: text("unexpected syntax"),
                    tint: Tint::First,
                },
                Label {
                    span: 3..7,
                    message: Some(vec![
                        Part::Text("Expected one of: "),
                        Part::Tinted("\"main\"", Tint::Second),
                    ]),
                    tint: Tint::Second,
                },
            ],
        }
    );
    let bare = Error::ParseError(ParseError::UnrecognizedToken {
        token: (3, Token(0, "mian"), 7),
        expected: vec![],
    });
    assert_eq!(report_error(&bare).labels.len(), 1);
}

#[test]
fn unrecognized_token_is_drawn_over_its_source() {
    let src = "fn mian() {\n}";
    let error = Error::ParseError(ParseError::UnrecognizedToken {
        token: (3, Token(0, "mian"), 7),
        expected: vec!["\"main\"".to_string()],
    });
    let drawing = drawn(src, &error, false);
    assert!(drawing.starts_with(
        "[UnrecognizedToken] Error: encountered unexpected syntax \"mian\"\n   ╭─[file.sculpt:1:4]"
    ));
    assert!(drawing.contains("unexpected syntax"));
    assert!(drawing.contains("Expected one of: \"main\""));
}

#[test]
fn every_error_of_a_program_is_described() {
    for src in [
        "fn main() { print!(); }",
        "fn main() { print!(\"{\"); }",
        "fn main() { println!(\"a}\", \"b\"); }",
        "fn main() { print!(\"{}\"); }",
        "fn main() { print!(\"\", \"b\"); }",
        "fn main() { println!(\"{}{}\", \"b\"); }",
    ] {
        let mut sink = Vec::new();
        let error = run(&statements(src), &mut sink).unwrap_err();
        let diagnostic = report_error(&error);
        assert!(diagnostic.offset < src.len());
        assert!(!diagnostic.labels.is_empty());
        for label in &diagnostic.labels {
            assert!(label.span.start < label.span.end);
            assert!(label.span.end <= src.len());
        }
    }
}

#[test]
fn is_reportable_leaves_out_what_has_no_report() {
    assert!(is_reportable(&Error::MissingFmtStr(0..6)));
    assert!(is_reportable(&Error::ExtraFmtArguments(0..2, vec![])));
    assert!(is_reportable(&Error::NotEnoughFmtArguments(vec![1..3], vec![])));
    assert!(!is_reportable(&Error::NotEnoughFmtArguments(vec![], vec![])));
    assert!(is_reportable(&Error::ParseError(ParseError::InvalidToken {
        location: usize::MAX - 1
    })));
    assert!(!is_reportable(&Error::ParseError(ParseError::InvalidToken {
        location: usize::MAX
    })));
    assert!(is_reportable(&Error::ParseError(ParseError::UnrecognizedEof {
        location: 0,
        expected: vec![]
    })));
    assert!(!is_reportable(&Error::ParseError(ParseError::UnrecognizedEof {
        location: usize::MAX,
        expected: vec![]
    })));
    assert!(is_reportable(&Error::ParseError(ParseError::ExtraToken {
        token: (usize::MAX, Token(0, ""), usize::MAX)
    })));
    assert!(is_reportable(&Error::ParseError(ParseError::UnrecognizedToken {
        token: (0, Token(0, "x"), 1),
        expected: vec![]
    })));
    assert!(!is_reportable(&Error::ParseError(ParseError::User { error: "custom" })));
}
