use sculpt::grammar::ParseError;
use sculpt::run::{
    build_macro_invocation, build_main, build_print, build_println, is_compilable, macro_kind,
    run, EmitOp, Error, MacroKind,
};
use sculpt::syntax::{Macro, Main, Name, StrLit};

/// Reads the statements of a `main` whose body holds nothing but macro
/// invocations with string literals, and gives each its place in `src`.
fn parse(src: &str) -> Main<'_> {
    let body_end = src.rfind('}').unwrap();
    let mut at = src.find('{').unwrap() + 1;
    let mut statements = Vec::new();
    loop {
        at += src[at..].len() - src[at..].trim_start().len();
        if at >= body_end {
            break;
        }
        let bang = at + src[at..].find('!').unwrap() + 1;
        let name = Name {
            span: at..bang,
            name: &src[at..bang],
        };
        assert!(src[bang..].starts_with('('));
        at = bang + 1;
        let mut args = Vec::new();
        loop {
            at += src[at..].len() - src[at..].trim_start().len();
            if src[at..].starts_with(')') {
                at += 1;
                break;
            }
            if src[at..].starts_with(',') {
                at += 1;
                continue;
            }
            assert!(src[at..].starts_with('"'));
            let close = at + 1 + src[at + 1..].find('"').unwrap();
            args.push(StrLit {
                span: at..close + 1,
                val: &src[at + 1..close],
            });
            at = close + 1;
        }
        assert!(src[at..].starts_with(';'));
        at += 1;
        statements.push(Macro { name, args });
    }
    Main { statements }
}

fn output(src: &str) -> Result<String, Error<'_>> {
    let mut output_buf = Vec::new();
    run(&parse(src), &mut output_buf).map(|_| String::from_utf8(output_buf).unwrap())
}

fn texts<'a>(ops: &[EmitOp<'a>]) -> Vec<&'a str> {
    ops.iter().map(|op| op.text).collect()
}

#[test]
fn empty_main_works() {
    let src = r#"
            fn main() {
            }
        "#;
    assert_eq!(output(src).unwrap(), "");
}

#[test]
fn hello_world_works() {
    let src = r#"
            fn main() {
                print!("Hello");
                print!(" ");
                print!("world!");
                println!();
            }
        "#;
    assert_eq!(output(src).unwrap(), "Hello world!\n");
}

#[test]
fn str_literals_as_format_args_works() {
    let src = r#"
            fn main() {
                println!("Hello {} and {}!", "Alice", "Bob");
            }
        "#;
    assert_eq!(output(src).unwrap(), "Hello Alice and Bob!\n");
}

#[test]
fn invalid_fmt_string_is_an_invalid_token() {
    let src = "fn main() {\n    println!(\"}\");\n}";
    assert_eq!(
        output(src).unwrap_err(),
        Error::ParseError(ParseError::InvalidToken { location: 26 })
    );
    assert_eq!(&src[26..27], "}");
}

#[test]
fn print_without_arguments_misses_its_fmt_string() {
    let src = "fn main() {\n    print!();\n}";
    assert_eq!(output(src).unwrap_err(), Error::MissingFmtStr(16..22));
    assert_eq!(&src[16..22], "print!");
}

#[test]
fn arguments_beyond_the_placeholders_are_extra() {
    let src = "fn main() {\n    print!(\" {} \", \"a\", \"b\", \"c\");\n}";
    assert_eq!(
        output(src).unwrap_err(),
        Error::ExtraFmtArguments(23..29, vec![36..39, 41..44])
    );
    assert_eq!(&src[23..29], "\" {} \"");
    assert_eq!(&src[36..39], "\"b\"");
    assert_eq!(&src[41..44], "\"c\"");
}

#[test]
fn placeholders_beyond_the_arguments_are_not_enough() {
    let src = "fn main() {\n    print!(\"{} {} {}\", \"a\");\n}";
    assert_eq!(
        output(src).unwrap_err(),
        Error::NotEnoughFmtArguments(vec![24..26, 27..29, 30..32], vec![35..38])
    );
    assert_eq!(&src[24..26], "{}");
    assert_eq!(&src[27..29], "{}");
    assert_eq!(&src[30..32], "{}");
    assert_eq!(&src[35..38], "\"a\"");
}

#[test]
fn print_fills_placeholders_by_position() {
    let src = "fn main() { print!(\"Hello {} and {}!\", \"Alice\", \"Bob\"); }";
    let program = parse(src);
    let m = &program.statements[0];
    let ops = build_print(m.name.span.clone(), &m.args).unwrap();
    assert_eq!(texts(&ops), ["Hello ", "Alice", " and ", "Bob", "!"]);
    assert_eq!(texts(&ops).concat(), "Hello Alice and Bob!");
}

#[test]
fn print_of_adjacent_placeholders_keeps_the_order_of_arguments() {
    let src = "fn main() { print!(\"{}{ }{\t}\", \"1\", \"2\", \"3\"); }";
    let program = parse(src);
    let ops = build_macro_invocation(&program.statements[0]).unwrap();
    assert_eq!(texts(&ops), ["1", "2", "3"]);
}

#[test]
fn print_of_empty_fmt_string_emits_nothing() {
    let src = "fn main() { print!(\"\"); }";
    let program = parse(src);
    let ops = build_macro_invocation(&program.statements[0]).unwrap();
    assert_eq!(ops, []);
}

#[test]
fn print_without_arguments_fails_at_the_span_of_its_name() {
    assert_eq!(
        build_print(3..9, &[]).unwrap_err(),
        Error::MissingFmtStr(3..9)
    );
}

#[test]
fn println_without_arguments_is_one_newline() {
    let ops = build_println(3..11, &[]).unwrap();
    assert_eq!(ops, [EmitOp { text: "\n" }]);
    assert_eq!(output("fn main() { println!(); }").unwrap(), "\n");
}

#[test]
fn println_appends_a_newline_to_what_print_gives() {
    let src = "fn main() { println!(\"{} + {}\", \"a\", \"b\"); }";
    let program = parse(src);
    let m = &program.statements[0];
    let printed = build_print(m.name.span.clone(), &m.args).unwrap();
    let lined = build_println(m.name.span.clone(), &m.args).unwrap();
    assert_eq!(texts(&printed), ["a", " + ", "b"]);
    assert_eq!(texts(&lined), ["a", " + ", "b", "\n"]);
}

#[test]
fn println_passes_on_the_errors_of_print() {
    let fmt = StrLit {
        span: 10..16,
        val: "{} {",
    };
    assert_eq!(
        build_println(0..8, &[fmt]).unwrap_err(),
        Error::ParseError(ParseError::InvalidToken { location: 14 })
    );
    let fmt = StrLit {
        span: 10..14,
        val: "{}",
    };
    assert_eq!(
        build_println(0..8, &[fmt]).unwrap_err(),
        Error::NotEnoughFmtArguments(vec![11..13], vec![])
    );
    let fmt = StrLit {
        span: 10..13,
        val: "x",
    };
    let extra = StrLit {
        span: 15..18,
        val: "y",
    };
    assert_eq!(
        build_println(0..8, &[fmt, extra]).unwrap_err(),
        Error::ExtraFmtArguments(10..13, vec![15..18])
    );
}

#[test]
fn one_extra_argument_is_named_alone() {
    let src = "fn main() { print!(\"{}\", \"a\", \"b\"); }";
    assert_eq!(
        output(src).unwrap_err(),
        Error::ExtraFmtArguments(19..23, vec![30..33])
    );
}

#[test]
fn arguments_without_any_placeholder_are_all_extra() {
    let src = "fn main() { print!(\"abc\", \"a\", \"b\"); }";
    assert_eq!(
        output(src).unwrap_err(),
        Error::ExtraFmtArguments(19..24, vec![26..29, 31..34])
    );
}

#[test]
fn scan_error_comes_before_the_count_of_arguments() {
    let src = "fn main() { print!(\"{} }\", \"a\", \"b\", \"c\"); }";
    assert_eq!(
        output(src).unwrap_err(),
        Error::ParseError(ParseError::InvalidToken { location: 23 })
    );
}

#[test]
fn macro_kind_knows_the_two_output_macros() {
    assert_eq!(macro_kind("print!"), Some(MacroKind::Print));
    assert_eq!(macro_kind("println!"), Some(MacroKind::Println));
    assert_eq!(macro_kind("print"), None);
    assert_eq!(macro_kind("println"), None);
    assert_eq!(macro_kind("printl!"), None);
    assert_eq!(macro_kind("Print!"), None);
    assert_eq!(macro_kind("eprint!"), None);
    assert_eq!(macro_kind("print!!"), None);
    assert_eq!(macro_kind(""), None);
}

#[test]
fn program_output_follows_the_order_of_statements() {
    let src = "fn main() { print!(\"Hello\"); println!(); }";
    let ops = build_main(&parse(src)).unwrap();
    assert_eq!(texts(&ops), ["Hello", "\n"]);
    assert_eq!(output(src).unwrap(), "Hello\n");
}

#[test]
fn nothing_is_written_when_a_later_statement_fails() {
    let src = "fn main() { print!(\"Hello\"); println!(\"{}\"); }";
    let mut sink = Vec::new();
    let res = run(&parse(src), &mut sink);
    assert_eq!(
        res.unwrap_err(),
        Error::NotEnoughFmtArguments(vec![39..41], vec![])
    );
    assert!(sink.is_empty());
    assert!(build_main(&parse(src)).is_err());
}

#[test]
fn nothing_is_written_when_the_first_statement_fails() {
    let src = "fn main() { print!(); println!(\"late\"); }";
    let mut sink = Vec::new();
    assert_eq!(
        run(&parse(src), &mut sink).unwrap_err(),
        Error::MissingFmtStr(12..18)
    );
    assert!(sink.is_empty());
}

#[test]
fn the_first_error_in_program_order_is_returned() {
    let src = "fn main() { print!(\"}\"); print!(); }";
    assert_eq!(
        output(src).unwrap_err(),
        Error::ParseError(ParseError::InvalidToken { location: 20 })
    );
}

#[test]
fn run_appends_to_what_the_sink_holds() {
    let mut sink = b"> ".to_vec();
    run(&parse("fn main() { println!(\"{}!\", \"hi\"); }"), &mut sink).unwrap();
    assert_eq!(sink, b"> hi!\n");
    let before = sink.clone();
    assert!(run(&parse("fn main() { print!(\"{\"); }"), &mut sink).is_err());
    assert_eq!(sink, before);
}

#[test]
fn output_holds_the_bytes_of_text_beyond_ascii() {
    let src = "fn main() { println!(\"\u{e9}{}\u{1f600}\", \"\u{df}\"); }";
    assert_eq!(output(src).unwrap(), "\u{e9}\u{df}\u{1f600}\n");
}

#[test]
fn is_compilable_asks_for_a_known_macro_and_offsets_that_can_be_counted() {
    let known = Macro {
        name: Name {
            span: 0..6,
            name: "print!",
        },
        args: vec![],
    };
    assert!(is_compilable(&known));
    let unknown = Macro {
        name: Name {
            span: 0..5,
            name: "dbg!",
        },
        args: vec![],
    };
    assert!(!is_compilable(&unknown));
    let with_fmt = |start: usize, val: &'static str| Macro {
        name: Name {
            span: 0..8,
            name: "println!",
        },
        args: vec![StrLit {
            span: start..start,
            val,
        }],
    };
    assert!(is_compilable(&with_fmt(7, "abc")));
    assert!(is_compilable(&with_fmt(usize::MAX - 1, "")));
    assert!(is_compilable(&with_fmt(usize::MAX - 4, "abc")));
    assert!(!is_compilable(&with_fmt(usize::MAX - 3, "abc")));
    assert!(!is_compilable(&with_fmt(usize::MAX, "")));
}

#[test]
fn offsets_up_to_the_largest_are_counted() {
    let fmt = StrLit {
        span: usize::MAX - 4..usize::MAX,
        val: "a{}",
    };
    assert_eq!(
        build_print(0..6, &[fmt]).unwrap_err(),
        Error::NotEnoughFmtArguments(vec![usize::MAX - 2..usize::MAX], vec![])
    );
}
