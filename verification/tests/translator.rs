use shx_lex::driver::{lex, parse_batch};
use shx_lex::emit::{emit_batch, emit_cmd};
use shx_lex::error::Error;
use shx_lex::parser::{Arg, Cmd, CmdParser, ParseResult, Sink, Source};
use shx_lex::token::{classify, RawToken, Token};

fn ident(s: &str) -> RawToken {
    RawToken::Ident(s.to_string())
}

fn group(s: &str) -> RawToken {
    RawToken::Group(s.to_string())
}

fn lit(s: &str) -> RawToken {
    RawToken::Literal(s.to_string())
}

fn semi() -> RawToken {
    RawToken::Punct(';')
}

#[test]
fn empty_stream_yields_no_commands() {
    let cmds = parse_batch(Vec::new()).unwrap();
    assert!(cmds.is_empty());
}

#[test]
fn single_statement_keeps_argument_order() {
    let cmds = parse_batch(vec![ident("echo"), ident("hello"), ident("world"), semi()]).unwrap();
    assert_eq!(cmds.len(), 1);
    assert_eq!(cmds[0].cmd, "echo");
    assert_eq!(
        cmds[0].args,
        vec![
            Arg::Literal("hello".to_string()),
            Arg::Literal("world".to_string()),
        ]
    );
    assert_eq!(cmds[0].sink, None);
    assert_eq!(cmds[0].source, None);
}

#[test]
fn string_literal_argument_and_expression_sink() {
    let cmds = parse_batch(vec![
        ident("echo"),
        lit("\"hello world\""),
        RawToken::Punct('>'),
        group("&mut out"),
        semi(),
    ])
    .unwrap();
    assert_eq!(cmds.len(), 1);
    assert_eq!(cmds[0].args, vec![Arg::Literal("hello world".to_string())]);
    assert_eq!(cmds[0].sink, Some(Sink::Expr("&mut out".to_string())));
    assert_eq!(cmds[0].source, None);
}

#[test]
fn two_statements_stay_in_order() {
    let cmds = parse_batch(vec![ident("a"), semi(), ident("b"), semi()]).unwrap();
    assert_eq!(cmds.len(), 2);
    assert_eq!(cmds[0].cmd, "a");
    assert_eq!(cmds[1].cmd, "b");
}

#[test]
fn trailing_statement_is_finalized() {
    let cmds = parse_batch(vec![
        ident("cat"),
        RawToken::Punct('<'),
        group("src"),
        RawToken::Punct('>'),
        group("dst"),
    ])
    .unwrap();
    assert_eq!(cmds.len(), 1);
    assert_eq!(cmds[0].cmd, "cat");
    assert_eq!(cmds[0].source, Some(Source::Expr("src".to_string())));
    assert_eq!(cmds[0].sink, Some(Sink::Expr("dst".to_string())));
}

#[test]
fn duplicate_sink_fails_without_commands() {
    let r = parse_batch(vec![
        ident("x"),
        RawToken::Punct('>'),
        group("s"),
        RawToken::Punct('>'),
        group("t"),
    ]);
    assert_eq!(r, Err(Error::DuplicateSink));
}

#[test]
fn duplicate_source_fails_without_commands() {
    let r = parse_batch(vec![
        ident("x"),
        RawToken::Punct('<'),
        group("a"),
        RawToken::Punct('<'),
        group("b"),
    ]);
    assert_eq!(r, Err(Error::DuplicateSource));
}

#[test]
fn redirection_order_is_immaterial() {
    let fwd = parse_batch(vec![
        ident("cat"),
        RawToken::Punct('>'),
        group("dst"),
        RawToken::Punct('<'),
        group("src"),
        semi(),
    ])
    .unwrap();
    let rev = parse_batch(vec![
        ident("cat"),
        RawToken::Punct('<'),
        group("src"),
        RawToken::Punct('>'),
        group("dst"),
        semi(),
    ])
    .unwrap();
    assert_eq!(fwd, rev);
    assert_eq!(fwd[0].sink, Some(Sink::Expr("dst".to_string())));
    assert_eq!(fwd[0].source, Some(Source::Expr("src".to_string())));
}

#[test]
fn statement_must_start_with_a_name() {
    let r = parse_batch(vec![semi()]);
    assert_eq!(r, Err(Error::MissingCommandName(Token::EndOfLine)));
}

#[test]
fn unexpected_token_after_sink_marker() {
    let r = parse_batch(vec![ident("x"), RawToken::Punct('>'), semi()]);
    assert_eq!(r, Err(Error::UnexpectedToken(Token::EndOfLine)));
}

#[test]
fn unsupported_punctuation_is_fatal() {
    let r = parse_batch(vec![ident("x"), RawToken::Punct('|')]);
    assert_eq!(r, Err(Error::UnsupportedPunctuation('|')));
}

#[test]
fn character_literal_is_fatal() {
    let r = parse_batch(vec![ident("x"), lit("'a'")]);
    assert_eq!(r, Err(Error::UnsupportedLiteral("'a'".to_string())));
}

#[test]
fn byte_string_literal_is_fatal() {
    let r = classify(lit("b\"abc\""));
    assert_eq!(r, Err(Error::UnsupportedLiteral("b\"abc\"".to_string())));
}

#[test]
fn classifier_normalizes_literals() {
    assert_eq!(
        classify(lit("42")),
        Ok(Token::Value("42".to_string()))
    );
    assert_eq!(
        classify(lit("3u8")),
        Ok(Token::Value("3".to_string()))
    );
    assert_eq!(
        classify(lit("1.23")),
        Ok(Token::Value("1.23".to_string()))
    );
    assert_eq!(
        classify(lit("true")),
        Ok(Token::Value("true".to_string()))
    );
    assert_eq!(
        classify(lit("false")),
        Ok(Token::Value("false".to_string()))
    );
}

#[test]
fn integer_normalization_handles_bases_and_underscores() {
    assert_eq!(classify(lit("1_000")), Ok(Token::Value("1000".to_string())));
    assert_eq!(classify(lit("0x1A")), Ok(Token::Value("26".to_string())));
    assert_eq!(classify(lit("0o17")), Ok(Token::Value("15".to_string())));
    assert_eq!(classify(lit("0b101")), Ok(Token::Value("5".to_string())));
    assert_eq!(classify(lit("-42")), Ok(Token::Value("-42".to_string())));
    assert_eq!(
        classify(lit("0x1F32usize")),
        Ok(Token::Value("7986".to_string()))
    );
}

#[test]
fn float_normalization_canonicalizes_exponents() {
    assert_eq!(classify(lit("1.23f32")), Ok(Token::Value("1.23".to_string())));
    assert_eq!(classify(lit("1E3")), Ok(Token::Value("1e3".to_string())));
    assert_eq!(
        classify(lit("1_0.5e+1_0")),
        Ok(Token::Value("10.5e10".to_string()))
    );
    assert_eq!(classify(lit("2e-7")), Ok(Token::Value("2e-7".to_string())));
}

#[test]
fn string_normalization_unescapes() {
    assert_eq!(
        classify(lit("\"a\\nb\"")),
        Ok(Token::Value("a\nb".to_string()))
    );
    assert_eq!(
        classify(lit("\"say \\\"hi\\\"\"")),
        Ok(Token::Value("say \"hi\"".to_string()))
    );
}

#[test]
fn normalization_is_idempotent_on_canonical_text() {
    for text in ["42", "1.23", "true", "false", "-7", "26", "1e3", "10.5e10"] {
        let once = match classify(lit(text)) {
            Ok(Token::Value(v)) => v,
            other => panic!("expected a value token, got {other:?}"),
        };
        let twice = match classify(RawToken::Literal(once.clone())) {
            Ok(Token::Value(v)) => v,
            other => panic!("expected a value token, got {other:?}"),
        };
        assert_eq!(once, twice);
    }
}

#[test]
fn oversized_prefixed_integer_is_fatal() {
    let huge = "0x1_0000_0000_0000_0000_0000_0000_0000_0000";
    assert_eq!(
        classify(lit(huge)),
        Err(Error::UnsupportedLiteral(huge.to_string()))
    );
}

#[test]
fn parser_reports_completion_per_statement() {
    let mut p = CmdParser::new();
    assert!(matches!(p.feed(ident("ls")), Ok(ParseResult::KeepGoing)));
    assert!(matches!(p.feed(ident("-al")), Ok(ParseResult::KeepGoing)));
    match p.feed(semi()) {
        Ok(ParseResult::Done(c)) => {
            assert_eq!(c.cmd, "ls");
            assert_eq!(c.args, vec![Arg::Literal("-al".to_string())]);
        }
        other => panic!("expected a finalized command, got {other:?}"),
    }
    assert_eq!(p.finish(), None);
}

#[test]
fn default_parser_accepts_a_statement() {
    let mut p = CmdParser::default();
    assert!(matches!(p.feed(ident("pwd")), Ok(ParseResult::KeepGoing)));
    let c = p.finish().expect("a named trailing command is finalized");
    assert_eq!(c.cmd, "pwd");
    assert!(c.args.is_empty());
}

#[test]
fn emitted_command_builds_and_runs_in_order() {
    let c = Cmd {
        cmd: "echo".to_string(),
        args: vec![
            Arg::Literal("hello".to_string()),
            Arg::Expr("world".to_string()),
        ],
        sink: Some(Sink::Expr("&mut out".to_string())),
        source: None,
    };
    let code = emit_cmd(&c).unwrap();
    assert_eq!(
        code,
        "let mut __cmd = ::shx::CmdBuilder::new_command(\"echo\");\n\
         __cmd.arg({ \"hello\" });\n\
         __cmd.arg({ world });\n\
         __cmd.sink({ &mut out });\n\
         __cmd.build()"
    );
}

#[test]
fn emitted_literal_arguments_are_escaped() {
    let c = Cmd {
        cmd: "echo".to_string(),
        args: vec![Arg::Literal("a\"b\\c\nd".to_string())],
        sink: None,
        source: None,
    };
    let code = emit_cmd(&c).unwrap();
    assert_eq!(
        code,
        "let mut __cmd = ::shx::CmdBuilder::new_command(\"echo\");\n\
         __cmd.arg({ \"a\\\"b\\\\c\\nd\" });\n\
         __cmd.build()"
    );
}

#[test]
fn emitted_literal_reads_back_unchanged() {
    let text = "a\"b\\c\nd";
    let c = Cmd {
        cmd: "echo".to_string(),
        args: vec![Arg::Literal(text.to_string())],
        sink: None,
        source: None,
    };
    let code = emit_cmd(&c).unwrap();
    let open = code.find("({ ").unwrap() + 3;
    let close = code.rfind(" });").unwrap();
    let emitted_literal = &code[open..close];
    assert_eq!(
        classify(RawToken::Literal(emitted_literal.to_string())),
        Ok(Token::Value(text.to_string()))
    );
}

#[test]
fn file_sink_is_rejected_at_emission() {
    let cmds = parse_batch(vec![ident("x"), RawToken::Punct('>'), ident("out.txt"), semi()])
        .unwrap();
    assert_eq!(cmds[0].sink, Some(Sink::File("out.txt".to_string())));
    let r = emit_batch(&cmds);
    assert_eq!(
        r,
        Err(Error::UnimplementedFileRedirection("out.txt".to_string()))
    );
}

#[test]
fn file_source_is_rejected_at_emission() {
    let c = Cmd {
        cmd: "x".to_string(),
        args: Vec::new(),
        sink: None,
        source: Some(Source::File("in.txt".to_string())),
    };
    assert_eq!(
        emit_cmd(&c),
        Err(Error::UnimplementedFileRedirection("in.txt".to_string()))
    );
}

#[test]
fn whole_translation_emits_a_block() {
    let code = lex(vec![ident("echo"), ident("hello"), semi()]).unwrap();
    assert_eq!(
        code,
        "{\nlet mut __commands = Vec::new();\n\
         __commands.push({\n\
         let mut __cmd = ::shx::CmdBuilder::new_command(\"echo\");\n\
         __cmd.arg({ \"hello\" });\n\
         __cmd.build()\n\
         });\n\
         __commands.into_iter()\n}"
    );
}

#[test]
fn empty_translation_emits_an_empty_collection() {
    let code = lex(Vec::new()).unwrap();
    assert_eq!(
        code,
        "{\nlet mut __commands = Vec::new();\n__commands.into_iter()\n}"
    );
}

#[test]
fn fatal_translation_emits_nothing() {
    let r = lex(vec![ident("a"), semi(), ident("x"), lit("'c'"), semi()]);
    assert_eq!(r, Err(Error::UnsupportedLiteral("'c'".to_string())));
}
