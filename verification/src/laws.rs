//! Laws of the translator, stated and proved over the specification
//! functions that the executable functions' contracts use.

use vstd::prelude::*;
use crate::driver::{spec_parse_batch, spec_run};
use crate::emit::{esc_text, spec_escape, spec_quote};
use crate::error::ErrorModel;
use crate::literal::{
    base_of, is_digit, is_digit_or_us, lemma_base_value_nonneg, lemma_scan_base_range,
    lemma_strip_us_all_base, lemma_strip_us_identity, scan_base, scan_num, sign_seq, spec_base_value,
    spec_decimal, spec_exponent, spec_normalize_literal, spec_unescape, strip_us,
};
use crate::parser::{
    init_parser, spec_feed, spec_finish, spec_step, take_model, ArgModel, CmdModel, ParseState,
    ParserModel, SinkModel, SourceModel,
};
use crate::token::{RawTokenModel, TokenModel};

verus! {

/// The raw tokens of a run of bare-word arguments.
pub open spec fn ident_args(args: Seq<Seq<char>>) -> Seq<RawTokenModel> {
    args.map_values(|a: Seq<char>| RawTokenModel::Ident(a))
}

/// The literal arguments a run of bare words parses to.
pub open spec fn lit_args(args: Seq<Seq<char>>) -> Seq<ArgModel> {
    args.map_values(|a: Seq<char>| ArgModel::Literal(a))
}

/// Law: a token stream containing zero statements parses to an empty
/// command list, and nothing is appended for a stream that ends in the
/// initial state with nothing accumulated.
pub proof fn lemma_empty_batch()
    ensures
        spec_parse_batch(Seq::empty()) == Ok::<Seq<CmdModel>, ErrorModel>(Seq::<CmdModel>::empty()),
{
    assert(spec_run(init_parser(), Seq::empty(), Seq::empty()) == Ok::<
        (ParserModel, Seq<CmdModel>),
        ErrorModel,
    >((init_parser(), Seq::empty())));
}

/// Feeding a run of bare words in the argument state appends them, in
/// declaration order, as literal arguments.
pub proof fn lemma_run_idents(
    p: ParserModel,
    args: Seq<Seq<char>>,
    acc: Seq<CmdModel>,
    rest: Seq<RawTokenModel>,
)
    requires
        p.state == ParseState::Args,
    ensures
        spec_run(p, ident_args(args) + rest, acc) == spec_run(
            ParserModel { args: p.args + lit_args(args), ..p },
            rest,
            acc,
        ),
    decreases args.len(),
{
    if args.len() == 0 {
        assert(ident_args(args) + rest =~= rest);
        assert(p.args + lit_args(args) =~= p.args);
        assert(ParserModel { args: p.args + lit_args(args), ..p } =~= p);
    } else {
        let toks = ident_args(args) + rest;
        assert(toks[0] == RawTokenModel::Ident(args[0]));
        let p1 = ParserModel { args: p.args.push(ArgModel::Literal(args[0])), ..p };
        assert(spec_feed(p, toks[0]) == Ok::<(ParserModel, Option<CmdModel>), ErrorModel>(
            (p1, None),
        ));
        assert(toks.skip(1) =~= ident_args(args.skip(1)) + rest);
        lemma_run_idents(p1, args.skip(1), acc, rest);
        assert(p1.args + lit_args(args.skip(1)) =~= p.args + lit_args(args));
        assert(ParserModel { args: p1.args + lit_args(args.skip(1)), ..p1 } =~= ParserModel {
            args: p.args + lit_args(args),
            ..p
        });
    }
}

/// Law: a well-formed single statement `name arg1 arg2 ... ;` parses to
/// exactly one command whose name is the first token's text and whose
/// arguments are the remaining words in declaration order, with no
/// redirections.
pub proof fn lemma_single_statement(name: Seq<char>, args: Seq<Seq<char>>)
    ensures
        spec_parse_batch(
            seq![RawTokenModel::Ident(name)] + ident_args(args) + seq![
                RawTokenModel::Punct(';'),
            ],
        ) == Ok::<Seq<CmdModel>, ErrorModel>(
            seq![
                CmdModel { cmd: name, args: lit_args(args), sink: None, source: None },
            ],
        ),
{
    let toks = seq![RawTokenModel::Ident(name)] + ident_args(args) + seq![
        RawTokenModel::Punct(';'),
    ];
    assert(toks[0] == RawTokenModel::Ident(name));
    let p1 = ParserModel { state: ParseState::Args, cmd: Some(name), ..init_parser() };
    assert(spec_feed(init_parser(), toks[0]) == Ok::<(ParserModel, Option<CmdModel>), ErrorModel>(
        (p1, None),
    ));
    assert(toks.skip(1) =~= ident_args(args) + seq![RawTokenModel::Punct(';')]);
    lemma_run_idents(p1, args, Seq::empty(), seq![RawTokenModel::Punct(';')]);
    let p2 = ParserModel { args: p1.args + lit_args(args), ..p1 };
    let done = seq![RawTokenModel::Punct(';')];
    assert(done[0] == RawTokenModel::Punct(';'));
    let c = take_model(p2);
    assert(spec_feed(p2, done[0]) == Ok::<(ParserModel, Option<CmdModel>), ErrorModel>(
        (init_parser(), Some(c)),
    ));
    assert(done.skip(1) =~= Seq::<RawTokenModel>::empty());
    assert(spec_run(init_parser(), done.skip(1), Seq::<CmdModel>::empty().push(c)) == Ok::<
        (ParserModel, Seq<CmdModel>),
        ErrorModel,
    >((init_parser(), Seq::<CmdModel>::empty().push(c))));
    assert(c =~= CmdModel { cmd: name, args: lit_args(args), sink: None, source: None });
    assert(Seq::<CmdModel>::empty().push(c) =~= seq![c]);
}

/// Law: a trailing statement lacking a terminator at end-of-stream is
/// still finalized and included, provided at least a name was set.
pub proof fn lemma_trailing_statement(name: Seq<char>, args: Seq<Seq<char>>)
    ensures
        spec_parse_batch(seq![RawTokenModel::Ident(name)] + ident_args(args)) == Ok::<
            Seq<CmdModel>,
            ErrorModel,
        >(
            seq![
                CmdModel { cmd: name, args: lit_args(args), sink: None, source: None },
            ],
        ),
{
    let toks = seq![RawTokenModel::Ident(name)] + ident_args(args);
    assert(toks[0] == RawTokenModel::Ident(name));
    let p1 = ParserModel { state: ParseState::Args, cmd: Some(name), ..init_parser() };
    assert(spec_feed(init_parser(), toks[0]) == Ok::<(ParserModel, Option<CmdModel>), ErrorModel>(
        (p1, None),
    ));
    assert(toks.skip(1) =~= ident_args(args) + Seq::<RawTokenModel>::empty());
    lemma_run_idents(p1, args, Seq::empty(), Seq::empty());
    let p2 = ParserModel { args: p1.args + lit_args(args), ..p1 };
    let c = take_model(p2);
    assert(spec_finish(p2) == Some(c));
    assert(c =~= CmdModel { cmd: name, args: lit_args(args), sink: None, source: None });
    assert(Seq::<CmdModel>::empty().push(c) =~= seq![c]);
}

/// Law: with both a sink and a source present, either order of the two
/// redirections finalizes to the same command, both fields populated
/// identically.
pub proof fn lemma_redirection_order(p: ParserModel, sink: Seq<char>, source: Seq<char>)
    requires
        p.state == ParseState::Args,
        p.cmd is Some,
        p.sink is None,
        p.source is None,
    ensures
        ({
            let fwd = seq![
                RawTokenModel::Punct('>'),
                RawTokenModel::Group(sink),
                RawTokenModel::Punct('<'),
                RawTokenModel::Group(source),
                RawTokenModel::Punct(';'),
            ];
            let rev = seq![
                RawTokenModel::Punct('<'),
                RawTokenModel::Group(source),
                RawTokenModel::Punct('>'),
                RawTokenModel::Group(sink),
                RawTokenModel::Punct(';'),
            ];
            let c = CmdModel {
                cmd: p.cmd->0,
                args: p.args,
                sink: Some(SinkModel::Expr(sink)),
                source: Some(SourceModel::Expr(source)),
            };
            &&& spec_run(p, fwd, Seq::empty()) == Ok::<(ParserModel, Seq<CmdModel>), ErrorModel>(
                (init_parser(), seq![c]),
            )
            &&& spec_run(p, rev, Seq::empty()) == Ok::<(ParserModel, Seq<CmdModel>), ErrorModel>(
                (init_parser(), seq![c]),
            )
        }),
{
    let fwd = seq![
        RawTokenModel::Punct('>'),
        RawTokenModel::Group(sink),
        RawTokenModel::Punct('<'),
        RawTokenModel::Group(source),
        RawTokenModel::Punct(';'),
    ];
    let rev = seq![
        RawTokenModel::Punct('<'),
        RawTokenModel::Group(source),
        RawTokenModel::Punct('>'),
        RawTokenModel::Group(sink),
        RawTokenModel::Punct(';'),
    ];
    let c = CmdModel {
        cmd: p.cmd->0,
        args: p.args,
        sink: Some(SinkModel::Expr(sink)),
        source: Some(SourceModel::Expr(source)),
    };
    let acc1 = Seq::<CmdModel>::empty().push(c);
    assert(spec_run(init_parser(), Seq::<RawTokenModel>::empty(), acc1) == Ok::<
        (ParserModel, Seq<CmdModel>),
        ErrorModel,
    >((init_parser(), acc1)));
    // Forward order: sink first, then source, then the terminator.
    let f1 = ParserModel { state: ParseState::SetSink, ..p };
    let f2 = ParserModel { state: ParseState::DoneSetSink, sink: Some(SinkModel::Expr(sink)), ..f1 };
    let f3 = ParserModel { state: ParseState::SetSource, ..f2 };
    let f4 = ParserModel {
        state: ParseState::DoneSetSource,
        source: Some(SourceModel::Expr(source)),
        ..f3
    };
    assert(take_model(f4) =~= c);
    assert(spec_feed(p, RawTokenModel::Punct('>')) == Ok::<
        (ParserModel, Option<CmdModel>),
        ErrorModel,
    >((f1, None)));
    assert(spec_feed(f1, RawTokenModel::Group(sink)) == Ok::<
        (ParserModel, Option<CmdModel>),
        ErrorModel,
    >((f2, None)));
    assert(spec_feed(f2, RawTokenModel::Punct('<')) == Ok::<
        (ParserModel, Option<CmdModel>),
        ErrorModel,
    >((f3, None)));
    assert(spec_feed(f3, RawTokenModel::Group(source)) == Ok::<
        (ParserModel, Option<CmdModel>),
        ErrorModel,
    >((f4, None)));
    assert(spec_feed(f4, RawTokenModel::Punct(';')) == Ok::<
        (ParserModel, Option<CmdModel>),
        ErrorModel,
    >((init_parser(), Some(c))));
    let s4 = seq![RawTokenModel::Punct(';')];
    let s3f = seq![RawTokenModel::Group(source), RawTokenModel::Punct(';')];
    let s2f = seq![
        RawTokenModel::Punct('<'),
        RawTokenModel::Group(source),
        RawTokenModel::Punct(';'),
    ];
    let s1f = seq![
        RawTokenModel::Group(sink),
        RawTokenModel::Punct('<'),
        RawTokenModel::Group(source),
        RawTokenModel::Punct(';'),
    ];
    assert(s4.skip(1) =~= Seq::<RawTokenModel>::empty());
    assert(s3f.skip(1) =~= s4);
    assert(s2f.skip(1) =~= s3f);
    assert(s1f.skip(1) =~= s2f);
    assert(fwd.skip(1) =~= s1f);
    assert(spec_run(f4, s4, Seq::empty()) == Ok::<(ParserModel, Seq<CmdModel>), ErrorModel>(
        (init_parser(), acc1),
    ));
    assert(spec_run(f3, s3f, Seq::empty()) == Ok::<(ParserModel, Seq<CmdModel>), ErrorModel>(
        (init_parser(), acc1),
    ));
    assert(spec_run(f2, s2f, Seq::empty()) == Ok::<(ParserModel, Seq<CmdModel>), ErrorModel>(
        (init_parser(), acc1),
    ));
    assert(spec_run(f1, s1f, Seq::empty()) == Ok::<(ParserModel, Seq<CmdModel>), ErrorModel>(
        (init_parser(), acc1),
    ));
    assert(spec_run(p, fwd, Seq::empty()) == Ok::<(ParserModel, Seq<CmdModel>), ErrorModel>(
        (init_parser(), acc1),
    ));
    // Reverse order: source first, then sink, then the terminator.
    let r1 = ParserModel { state: ParseState::SetSource, ..p };
    let r2 = ParserModel {
        state: ParseState::DoneSetSource,
        source: Some(SourceModel::Expr(source)),
        ..r1
    };
    let r3 = ParserModel { state: ParseState::SetSink, ..r2 };
    let r4 = ParserModel { state: ParseState::DoneSetSink, sink: Some(SinkModel::Expr(sink)), ..r3 };
    assert(take_model(r4) =~= c);
    assert(spec_feed(p, RawTokenModel::Punct('<')) == Ok::<
        (ParserModel, Option<CmdModel>),
        ErrorModel,
    >((r1, None)));
    assert(spec_feed(r1, RawTokenModel::Group(source)) == Ok::<
        (ParserModel, Option<CmdModel>),
        ErrorModel,
    >((r2, None)));
    assert(spec_feed(r2, RawTokenModel::Punct('>')) == Ok::<
        (ParserModel, Option<CmdModel>),
        ErrorModel,
    >((r3, None)));
    assert(spec_feed(r3, RawTokenModel::Group(sink)) == Ok::<
        (ParserModel, Option<CmdModel>),
        ErrorModel,
    >((r4, None)));
    assert(spec_feed(r4, RawTokenModel::Punct(';')) == Ok::<
        (ParserModel, Option<CmdModel>),
        ErrorModel,
    >((init_parser(), Some(c))));
    let s3r = seq![RawTokenModel::Group(sink), RawTokenModel::Punct(';')];
    let s2r = seq![
        RawTokenModel::Punct('>'),
        RawTokenModel::Group(sink),
        RawTokenModel::Punct(';'),
    ];
    let s1r = seq![
        RawTokenModel::Group(source),
        RawTokenModel::Punct('>'),
        RawTokenModel::Group(sink),
        RawTokenModel::Punct(';'),
    ];
    assert(s3r.skip(1) =~= s4);
    assert(s2r.skip(1) =~= s3r);
    assert(s1r.skip(1) =~= s2r);
    assert(rev.skip(1) =~= s1r);
    assert(spec_run(r4, s4, Seq::empty()) == Ok::<(ParserModel, Seq<CmdModel>), ErrorModel>(
        (init_parser(), acc1),
    ));
    assert(spec_run(r3, s3r, Seq::empty()) == Ok::<(ParserModel, Seq<CmdModel>), ErrorModel>(
        (init_parser(), acc1),
    ));
    assert(spec_run(r2, s2r, Seq::empty()) == Ok::<(ParserModel, Seq<CmdModel>), ErrorModel>(
        (init_parser(), acc1),
    ));
    assert(spec_run(r1, s1r, Seq::empty()) == Ok::<(ParserModel, Seq<CmdModel>), ErrorModel>(
        (init_parser(), acc1),
    ));
    assert(spec_run(p, rev, Seq::empty()) == Ok::<(ParserModel, Seq<CmdModel>), ErrorModel>(
        (init_parser(), acc1),
    ));
    assert(Seq::<CmdModel>::empty().push(c) =~= seq![c]);
}

/// Law: setting the sink a second time in one statement is fatal with the
/// duplicate-sink error, whether the repetition is a second sink marker
/// right after the sink was set or a sink value reached with the sink
/// already set; no command is produced, as the transition yields no
/// finalized command and the whole run aborts on the error.
pub proof fn lemma_duplicate_sink(p: ParserModel, t: TokenModel)
    requires
        (p.state == ParseState::DoneSetSink && t == TokenModel::SinkMark) || (p.state
            == ParseState::SetSink && p.sink is Some && (t matches TokenModel::Value(_)
            || t matches TokenModel::ExprGroup(_))),
    ensures
        spec_step(p, t) == Err::<(ParserModel, Option<CmdModel>), ErrorModel>(
            ErrorModel::DuplicateSink,
        ),
{
}

/// Law: setting the source a second time in one statement is fatal with
/// the duplicate-source error; no command is produced.
pub proof fn lemma_duplicate_source(p: ParserModel, t: TokenModel)
    requires
        (p.state == ParseState::DoneSetSource && t == TokenModel::SourceMark) || (p.state
            == ParseState::SetSource && p.source is Some && (t matches TokenModel::Value(_)
            || t matches TokenModel::ExprGroup(_))),
    ensures
        spec_step(p, t) == Err::<(ParserModel, Option<CmdModel>), ErrorModel>(
            ErrorModel::DuplicateSource,
        ),
{
}

/// Law: a fatal error anywhere in the stream aborts the whole
/// translation: no partial command list is produced.
pub proof fn lemma_fatal_is_atomic(toks: Seq<RawTokenModel>, e: ErrorModel)
    requires
        spec_run(init_parser(), toks, Seq::empty()) == Err::<
            (ParserModel, Seq<CmdModel>),
            ErrorModel,
        >(e),
    ensures
        spec_parse_batch(toks) == Err::<Seq<CmdModel>, ErrorModel>(e),
{
}

/// Law: at end-of-stream the in-progress command is finalized and
/// appended exactly when at least a program name was set; a run that ends
/// with nothing accumulated appends nothing.
pub proof fn lemma_end_of_stream(toks: Seq<RawTokenModel>, p: ParserModel, cs: Seq<CmdModel>)
    requires
        spec_run(init_parser(), toks, Seq::empty()) == Ok::<
            (ParserModel, Seq<CmdModel>),
            ErrorModel,
        >((p, cs)),
    ensures
        p.cmd is Some ==> spec_parse_batch(toks) == Ok::<Seq<CmdModel>, ErrorModel>(
            cs.push(take_model(p)),
        ),
        p.cmd is None ==> spec_parse_batch(toks) == Ok::<Seq<CmdModel>, ErrorModel>(cs),
{
}

/// Whether every character is a decimal digit.
pub open spec fn all_digits(s: Seq<char>) -> bool {
    forall|j: int| 0 <= j < s.len() ==> is_digit(#[trigger] s[j])
}

pub proof fn lemma_scan_num_range(s: Seq<char>, i: int, j: int)
    requires
        0 <= i <= j <= s.len(),
        forall|m: int| i <= m < j ==> is_digit_or_us(#[trigger] s[m]),
        j == s.len() || !is_digit_or_us(s[j]),
    ensures
        scan_num(s, i) == j,
    decreases j - i,
{
    if i < j {
        lemma_scan_num_range(s, i + 1, j);
    }
}

pub proof fn lemma_scan_num_props(s: Seq<char>, i: int)
    requires
        0 <= i <= s.len(),
    ensures
        i <= scan_num(s, i) <= s.len(),
        forall|m: int| i <= m < scan_num(s, i) ==> is_digit_or_us(#[trigger] s[m]),
        scan_num(s, i) == s.len() || !is_digit_or_us(s[scan_num(s, i)]),
    decreases s.len() - i,
{
    if i < s.len() && is_digit_or_us(s[i]) {
        lemma_scan_num_props(s, i + 1);
    }
}

pub proof fn lemma_strip_us_digits(s: Seq<char>)
    requires
        forall|j: int| 0 <= j < s.len() ==> is_digit_or_us(#[trigger] s[j]),
    ensures
        all_digits(strip_us(s)),
    decreases s.len(),
{
    if s.len() == 0 {
    } else {
        assert(forall|j: int|
            0 <= j < s.skip(1).len() ==> is_digit_or_us(#[trigger] s.skip(1)[j]));
        lemma_strip_us_digits(s.skip(1));
        if s[0] != '_' {
            let r = strip_us(s);
            assert(r == seq![s[0]] + strip_us(s.skip(1)));
            assert forall|j: int| 0 <= j < r.len() implies is_digit(#[trigger] r[j]) by {
                if j == 0 {
                    assert(r[0] == s[0]);
                } else {
                    assert(r[j] == strip_us(s.skip(1))[j - 1]);
                }
            }
        }
    }
}

pub proof fn lemma_strip_head(s: Seq<char>)
    requires
        s.len() > 0,
        s[0] != '_',
    ensures
        strip_us(s).len() >= 1,
        strip_us(s)[0] == s[0],
{
    assert(strip_us(s) == seq![s[0]] + strip_us(s.skip(1)));
}

pub proof fn lemma_decimal_digits(n: int)
    requires
        n >= 0,
    ensures
        all_digits(spec_decimal(n)),
        spec_decimal(n).len() >= 1,
    decreases n,
{
    if n < 10 {
    } else {
        lemma_decimal_digits(n / 10);
        let r = spec_decimal(n);
        let h = spec_decimal(n / 10);
        assert(r == h + seq![crate::literal::digit_char(n % 10)]);
        assert forall|j: int| 0 <= j < r.len() implies is_digit(#[trigger] r[j]) by {
            if j < h.len() {
                assert(r[j] == h[j]);
            } else {
                assert(r[j] == crate::literal::digit_char(n % 10));
            }
        }
    }
}

/// A canonical integer spelling, an optional minus sign and digits,
/// renormalizes to itself.
pub proof fn lemma_canonical_int(neg: bool, digs: Seq<char>)
    requires
        digs.len() >= 1,
        all_digits(digs),
    ensures
        spec_normalize_literal(sign_seq(neg) + digs) == Ok::<Seq<char>, ErrorModel>(
            sign_seq(neg) + digs,
        ),
{
    let c = sign_seq(neg) + digs;
    reveal_strlit("true");
    reveal_strlit("false");
    assert(is_digit(digs[0]));
    if neg {
        assert(c[0] == '-');
    } else {
        assert(c[0] == digs[0]);
    }
    assert(c != "true"@) by {
        if c == "true"@ {
            assert(c[0] == 't');
        }
    }
    assert(c != "false"@) by {
        if c == "false"@ {
            assert(c[0] == 'f');
        }
    }
    let body = if neg {
        c.skip(1)
    } else {
        c
    };
    assert(body =~= digs);
    assert(is_digit(body[0]));
    if body.len() >= 2 {
        assert(body[1] == digs[1]);
        assert(is_digit(body[1]));
        assert(body[1] != 'x' && body[1] != 'o' && body[1] != 'b');
    }
    assert(forall|m: int| 0 <= m < digs.len() ==> is_digit_or_us(#[trigger] digs[m]));
    lemma_scan_num_range(digs, 0, digs.len() as int);
    assert(scan_num(body, 0) == body.len());
    assert(body.subrange(0, body.len() as int) =~= digs);
    assert(forall|m: int| 0 <= m < digs.len() ==> #[trigger] digs[m] != '_');
    lemma_strip_us_identity(digs);
    assert(spec_normalize_literal(c) == Ok::<Seq<char>, ErrorModel>(sign_seq(neg) + digs));
}

/// A canonical float spelling, sign, integer digits, an optional dotted
/// fraction, an optional exponent, renormalizes to itself.
#[verifier::rlimit(80)]
pub proof fn lemma_canonical_float(
    neg: bool,
    intd: Seq<char>,
    dot: bool,
    frac: Seq<char>,
    has_exp: bool,
    eneg: bool,
    expd: Seq<char>,
)
    requires
        intd.len() >= 1,
        all_digits(intd),
        all_digits(frac),
        all_digits(expd),
        dot || has_exp,
        has_exp ==> expd.len() >= 1,
        !dot ==> frac.len() == 0,
        !has_exp ==> expd.len() == 0 && !eneg,
    ensures
        ({
            let dotpart = if dot {
                seq!['.'] + frac
            } else {
                Seq::<char>::empty()
            };
            let exppart = if has_exp {
                seq!['e'] + sign_seq(eneg) + expd
            } else {
                Seq::<char>::empty()
            };
            spec_normalize_literal(sign_seq(neg) + (intd + dotpart + exppart)) == Ok::<
                Seq<char>,
                ErrorModel,
            >(sign_seq(neg) + (intd + dotpart + exppart))
        }),
{
    let dotpart = if dot {
        seq!['.'] + frac
    } else {
        Seq::<char>::empty()
    };
    let exppart = if has_exp {
        seq!['e'] + sign_seq(eneg) + expd
    } else {
        Seq::<char>::empty()
    };
    let body = intd + dotpart + exppart;
    let c = sign_seq(neg) + body;
    let il = intd.len() as int;
    let dl = dotpart.len() as int;
    let bl = body.len() as int;
    reveal_strlit("true");
    reveal_strlit("false");
    assert(is_digit(intd[0]));
    assert(body[0] == intd[0]);
    if neg {
        assert(c[0] == '-');
    } else {
        assert(c[0] == body[0]);
    }
    assert(c != "true"@) by {
        if c == "true"@ {
            assert(c[0] == 't');
        }
    }
    assert(c != "false"@) by {
        if c == "false"@ {
            assert(c[0] == 'f');
        }
    }
    let nbody = if neg {
        c.skip(1)
    } else {
        c
    };
    assert(nbody =~= body);
    // Not a base-prefixed integer: the second character is a digit, a
    // dot, or the exponent marker.
    if body.len() >= 2 {
        if intd.len() >= 2 {
            assert(body[1] == intd[1]);
            assert(is_digit(body[1]));
        } else if dot {
            assert(body[1] == dotpart[0]);
            assert(body[1] == '.');
        } else {
            assert(body[1] == exppart[0]);
            assert(body[1] == 'e');
        }
        assert(body[1] != 'x' && body[1] != 'o' && body[1] != 'b');
    }
    // The integer digits end exactly at the dot or the exponent marker.
    assert(forall|m: int| 0 <= m < il ==> #[trigger] body[m] == intd[m]);
    assert(forall|m: int| 0 <= m < il ==> is_digit_or_us(#[trigger] body[m]));
    if dot {
        assert(body[il] == dotpart[0]);
        assert(body[il] == '.');
        assert(!is_digit_or_us(body[il]));
    } else {
        assert(body[il] == exppart[0]);
        assert(body[il] == 'e');
        assert(!is_digit_or_us(body[il]));
    }
    lemma_scan_num_range(body, 0, il);
    assert(body.subrange(0, il) =~= intd);
    assert(forall|m: int| 0 <= m < intd.len() ==> #[trigger] intd[m] != '_');
    lemma_strip_us_identity(intd);
    if dot {
        // The fraction digits end exactly at the exponent marker or the
        // end of the spelling.
        let fl = frac.len() as int;
        assert(forall|m: int| 0 <= m < fl ==> #[trigger] body[il + 1 + m] == frac[m]);
        assert(forall|m: int|
            il + 1 <= m < il + 1 + fl ==> is_digit_or_us(#[trigger] body[m]));
        if has_exp {
            assert(body[il + 1 + fl] == exppart[0]);
            assert(body[il + 1 + fl] == 'e');
            assert(!is_digit_or_us(body[il + 1 + fl]));
        } else {
            assert(il + 1 + fl == bl);
        }
        lemma_scan_num_range(body, il + 1, il + 1 + fl);
        assert(body.subrange(il + 1, il + 1 + fl) =~= frac);
        assert(forall|m: int| 0 <= m < frac.len() ==> #[trigger] frac[m] != '_');
        lemma_strip_us_identity(frac);
        if !has_exp {
            assert(spec_normalize_literal(c) == Ok::<Seq<char>, ErrorModel>(
                sign_seq(neg) + intd + seq!['.'] + frac,
            ));
            assert(sign_seq(neg) + intd + seq!['.'] + frac =~= c);
        } else {
            let j = il + 1 + fl + 1;
            let el = sign_seq(eneg).len() as int;
            assert(body.subrange(j, bl) =~= sign_seq(eneg) + expd) by {
                assert(bl - j == el + expd.len());
                assert forall|m: int| 0 <= m < bl - j implies body.subrange(j, bl)[m] == (sign_seq(
                    eneg,
                ) + expd)[m] by {
                    assert(body.subrange(j, bl)[m] == body[j + m]);
                    assert(body[j + m] == exppart[1 + m]);
                    assert(exppart[1 + m] == (sign_seq(eneg) + expd)[m]);
                }
            }
            lemma_canonical_exponent(body, j, eneg, expd);
            assert(spec_normalize_literal(c) == Ok::<Seq<char>, ErrorModel>(
                sign_seq(neg) + intd + seq!['.'] + frac + seq!['e'] + (sign_seq(eneg) + expd),
            ));
            assert(sign_seq(neg) + intd + seq!['.'] + frac + seq!['e'] + (sign_seq(eneg) + expd)
                =~= c);
        }
    } else {
        let j = il + 1;
        let el = sign_seq(eneg).len() as int;
        assert(body.subrange(j, bl) =~= sign_seq(eneg) + expd) by {
            assert(bl - j == el + expd.len());
            assert forall|m: int| 0 <= m < bl - j implies body.subrange(j, bl)[m] == (sign_seq(
                eneg,
            ) + expd)[m] by {
                assert(body.subrange(j, bl)[m] == body[j + m]);
                assert(body[j + m] == exppart[1 + m]);
                assert(exppart[1 + m] == (sign_seq(eneg) + expd)[m]);
            }
        }
        lemma_canonical_exponent(body, j, eneg, expd);
        assert(spec_normalize_literal(c) == Ok::<Seq<char>, ErrorModel>(
            sign_seq(neg) + intd + seq!['e'] + (sign_seq(eneg) + expd),
        ));
        assert(sign_seq(neg) + intd + seq!['e'] + (sign_seq(eneg) + expd) =~= c);
    }
}

/// A canonical exponent, an optional minus sign and digits filling the
/// rest of the spelling, is read back unchanged.
proof fn lemma_canonical_exponent(body: Seq<char>, j: int, eneg: bool, expd: Seq<char>)
    requires
        expd.len() >= 1,
        all_digits(expd),
        0 <= j <= body.len(),
        body.subrange(j, body.len() as int) == sign_seq(eneg) + expd,
    ensures
        spec_exponent(body, j) == Some(sign_seq(eneg) + expd),
{
    let bl = body.len() as int;
    let tail = body.subrange(j, bl);
    let el = sign_seq(eneg).len() as int;
    assert(tail.len() == el + expd.len());
    assert(j < bl);
    assert(body[j] == tail[0]);
    if eneg {
        assert(tail[0] == '-');
    } else {
        assert(tail[0] == expd[0]);
        assert(is_digit(body[j]));
        assert(body[j] != '-' && body[j] != '+');
    }
    let j2 = j + el;
    assert forall|m: int| j2 <= m < bl implies is_digit_or_us(#[trigger] body[m]) by {
        assert(body[m] == tail[m - j]);
        assert(tail[m - j] == expd[m - j - el]);
        assert(is_digit(expd[m - j - el]));
    }
    lemma_scan_num_range(body, j2, bl);
    assert(body.subrange(j2, bl) =~= expd) by {
        assert forall|m: int| 0 <= m < bl - j2 implies body.subrange(j2, bl)[m] == expd[m] by {
            assert(body.subrange(j2, bl)[m] == body[j2 + m]);
            assert(body[j2 + m] == tail[j2 + m - j]);
            assert(tail[j2 + m - j] == expd[m]);
        }
    }
    assert(forall|m: int| 0 <= m < expd.len() ==> #[trigger] expd[m] != '_');
    lemma_strip_us_identity(expd);
    assert(scan_num(body, j2) == bl);
}

/// Law: literal normalization is idempotent on boolean and number
/// literals: the canonical text, normalized again, yields itself. String
/// literals are excluded: their canonical form is the unescaped contents,
/// which is no longer a literal spelling.
#[verifier::rlimit(80)]
pub proof fn lemma_normalize_idempotent(s: Seq<char>)
    requires
        spec_normalize_literal(s) is Ok,
        !(s.len() > 0 && s[0] == '"'),
    ensures
        spec_normalize_literal(spec_normalize_literal(s)->Ok_0) == spec_normalize_literal(s),
{
    let c = spec_normalize_literal(s)->Ok_0;
    if s == "true"@ || s == "false"@ {
    } else {
        let neg = s.len() > 0 && s[0] == '-';
        let body = if neg {
            s.skip(1)
        } else {
            s
        };
        if body.len() >= 2 && body[0] == '0' && (body[1] == 'x' || body[1] == 'o' || body[1]
            == 'b') {
            let base = base_of(body[1]);
            let rest = body.skip(2);
            let k = scan_base(rest, 0, base);
            let digs = strip_us(rest.subrange(0, k));
            let v = spec_base_value(digs, base);
            lemma_scan_base_range(rest, 0, base);
            assert(forall|m: int|
                0 <= m < rest.subrange(0, k).len() ==> (crate::literal::is_base_digit(
                    #[trigger] rest.subrange(0, k)[m],
                    base,
                ) || rest.subrange(0, k)[m] == '_'));
            lemma_strip_us_all_base(rest.subrange(0, k), base);
            lemma_base_value_nonneg(digs, base);
            lemma_decimal_digits(v);
            lemma_canonical_int(neg, spec_decimal(v));
        } else {
            let ie = scan_num(body, 0);
            lemma_scan_num_props(body, 0);
            let run = body.subrange(0, ie);
            assert(forall|m: int| 0 <= m < run.len() ==> is_digit_or_us(#[trigger] run[m]));
            lemma_strip_us_digits(run);
            assert(scan_num(body, 0) == scan_num(body, 1));
            assert(ie >= 1);
            assert(run[0] == body[0]);
            lemma_strip_head(run);
            let intd = strip_us(run);
            if ie == body.len() {
                lemma_canonical_int(neg, intd);
            } else if body[ie] == '.' {
                let fe = scan_num(body, ie + 1);
                lemma_scan_num_props(body, ie + 1);
                let frun = body.subrange(ie + 1, fe);
                assert(forall|m: int| 0 <= m < frun.len() ==> is_digit_or_us(#[trigger] frun[m]));
                lemma_strip_us_digits(frun);
                let frac = strip_us(frun);
                if fe == body.len() || !(body[fe] == 'e' || body[fe] == 'E') {
                    lemma_canonical_float(neg, intd, true, frac, false, false, Seq::empty());
                    assert(sign_seq(neg) + (intd + (seq!['.'] + frac) + Seq::<char>::empty())
                        =~= sign_seq(neg) + intd + seq!['.'] + frac);
                } else {
                    let j = fe + 1;
                    let eneg = j < body.len() && body[j] == '-';
                    let j2 = if j < body.len() && (body[j] == '-' || body[j] == '+') {
                        j + 1
                    } else {
                        j
                    };
                    let k = scan_num(body, j2);
                    lemma_scan_num_props(body, j2);
                    let erun = body.subrange(j2, k);
                    assert(forall|m: int|
                        0 <= m < erun.len() ==> is_digit_or_us(#[trigger] erun[m]));
                    lemma_strip_us_digits(erun);
                    let expd = strip_us(erun);
                    lemma_canonical_float(neg, intd, true, frac, true, eneg, expd);
                    assert(sign_seq(neg) + (intd + (seq!['.'] + frac) + (seq!['e'] + sign_seq(eneg)
                        + expd)) =~= sign_seq(neg) + intd + seq!['.'] + frac + seq!['e'] + (
                    sign_seq(eneg) + expd));
                }
            } else if body[ie] == 'e' || body[ie] == 'E' {
                let j = ie + 1;
                let eneg = j < body.len() && body[j] == '-';
                let j2 = if j < body.len() && (body[j] == '-' || body[j] == '+') {
                    j + 1
                } else {
                    j
                };
                let k = scan_num(body, j2);
                lemma_scan_num_props(body, j2);
                let erun = body.subrange(j2, k);
                assert(forall|m: int| 0 <= m < erun.len() ==> is_digit_or_us(#[trigger] erun[m]));
                lemma_strip_us_digits(erun);
                let expd = strip_us(erun);
                lemma_canonical_float(neg, intd, false, Seq::empty(), true, eneg, expd);
                assert(sign_seq(neg) + (intd + Seq::<char>::empty() + (seq!['e'] + sign_seq(eneg)
                    + expd)) =~= sign_seq(neg) + intd + seq!['e'] + (sign_seq(eneg) + expd));
            } else {
                lemma_canonical_int(neg, intd);
            }
        }
    }
}

/// Unescaping what the emitter escaped yields the text unchanged.
pub proof fn lemma_escape_roundtrip(s: Seq<char>)
    ensures
        spec_unescape(spec_escape(s)) == Some(s),
    decreases s.len(),
{
    if s.len() == 0 {
        assert(spec_escape(s) =~= Seq::<char>::empty());
    } else {
        lemma_escape_roundtrip(s.skip(1));
        let c = s[0];
        let e = esc_text(c);
        let r = spec_escape(s);
        if c == '"' || c == '\\' || c == '\n' || c == '\r' || c == '\t' || c == '\0' {
            assert(r[0] == '\\');
            assert(r[1] == e[1]);
            assert(r.skip(2) =~= spec_escape(s.skip(1)));
            assert(seq![c] + s.skip(1) =~= s);
        } else {
            assert(r[0] == c);
            assert(r.skip(1) =~= spec_escape(s.skip(1)));
            assert(seq![c] + s.skip(1) =~= s);
        }
    }
}

/// Law: emission is hygienic for literal text: a string literal the
/// emitter builds, handed back to the literal normalizer, yields exactly
/// the text it was built from.
pub proof fn lemma_quote_normalize_roundtrip(s: Seq<char>)
    ensures
        spec_normalize_literal(spec_quote(s)) == Ok::<Seq<char>, ErrorModel>(s),
{
    lemma_escape_roundtrip(s);
    let q = spec_quote(s);
    reveal_strlit("true");
    reveal_strlit("false");
    assert(q[0] == '"');
    assert(q != "true"@) by {
        if q == "true"@ {
            assert(q[0] == 't');
        }
    }
    assert(q != "false"@) by {
        if q == "false"@ {
            assert(q[0] == 'f');
        }
    }
    assert(q.last() == '"');
    assert(q.len() >= 2);
    assert(q.subrange(1, q.len() - 1) =~= spec_escape(s));
}

} // verus!
