//! The statement parser: a six-state machine that consumes classified
//! tokens one at a time, accumulates a single command descriptor, and
//! finalizes it at each statement terminator.
//!
//! Sink and source may each appear at most once, in either order, but only
//! directly after the argument list. Any token not admitted by the current
//! state is a fatal parse error.

use vstd::prelude::*;
use crate::error::{Error, ErrorModel};
use crate::token::{classify, spec_classify, RawToken, RawTokenModel, Token, TokenModel};

verus! {

/// The parser's current position within one statement.
#[derive(Clone, Copy, Debug, PartialEq, Eq)]
pub enum ParseState {
    /// Awaiting the program name.
    Cmd,
    /// Collecting arguments.
    Args,
    /// A sink marker was read; awaiting the sink itself.
    SetSink,
    /// The sink is set; awaiting the terminator or a source marker.
    DoneSetSink,
    /// A source marker was read; awaiting the source itself.
    SetSource,
    /// The source is set; awaiting the terminator or a sink marker.
    DoneSetSource,
}

/// One command argument: literal text or an opaque host expression.
#[derive(Debug, PartialEq, Eq)]
pub enum Arg {
    Literal(String),
    Expr(String),
}

/// The declared destination for a command's captured output.
#[derive(Debug, PartialEq, Eq)]
pub enum Sink {
    /// A bare file reference; declared but rejected at emission time.
    File(String),
    /// An opaque host expression evaluated at the runtime stage.
    Expr(String),
}

/// The declared origin for a command's input.
#[derive(Debug, PartialEq, Eq)]
pub enum Source {
    /// A bare file reference; declared but rejected at emission time.
    File(String),
    /// An opaque host expression evaluated at the runtime stage.
    Expr(String),
}

/// The finalized intermediate representation of one statement.
#[derive(Debug, PartialEq, Eq)]
pub struct Cmd {
    pub cmd: String,
    pub args: Vec<Arg>,
    pub sink: Option<Sink>,
    pub source: Option<Source>,
}

/// The statement parser with its accumulator fields.
#[derive(Debug)]
pub struct CmdParser {
    state: ParseState,
    cmd: Option<String>,
    args: Vec<Arg>,
    sink: Option<Sink>,
    source: Option<Source>,
}

/// What one fed token produced: nothing yet, or a finalized command.
#[must_use]
#[derive(Debug, PartialEq, Eq)]
pub enum ParseResult {
    KeepGoing,
    Done(Cmd),
}

/// The mathematical model of an [`Arg`].
#[verifier::ext_equal]
pub enum ArgModel {
    Literal(Seq<char>),
    Expr(Seq<char>),
}

/// The mathematical model of a [`Sink`].
#[verifier::ext_equal]
pub enum SinkModel {
    File(Seq<char>),
    Expr(Seq<char>),
}

/// The mathematical model of a [`Source`].
#[verifier::ext_equal]
pub enum SourceModel {
    File(Seq<char>),
    Expr(Seq<char>),
}

/// The mathematical model of a [`Cmd`].
#[verifier::ext_equal]
pub struct CmdModel {
    pub cmd: Seq<char>,
    pub args: Seq<ArgModel>,
    pub sink: Option<SinkModel>,
    pub source: Option<SourceModel>,
}

/// The mathematical model of a [`CmdParser`].
#[verifier::ext_equal]
pub struct ParserModel {
    pub state: ParseState,
    pub cmd: Option<Seq<char>>,
    pub args: Seq<ArgModel>,
    pub sink: Option<SinkModel>,
    pub source: Option<SourceModel>,
}

impl View for Arg {
    type V = ArgModel;

    open spec fn view(&self) -> ArgModel {
        match self {
            Arg::Literal(s) => ArgModel::Literal(s@),
            Arg::Expr(s) => ArgModel::Expr(s@),
        }
    }
}

impl View for Sink {
    type V = SinkModel;

    open spec fn view(&self) -> SinkModel {
        match self {
            Sink::File(s) => SinkModel::File(s@),
            Sink::Expr(s) => SinkModel::Expr(s@),
        }
    }
}

impl View for Source {
    type V = SourceModel;

    open spec fn view(&self) -> SourceModel {
        match self {
            Source::File(s) => SourceModel::File(s@),
            Source::Expr(s) => SourceModel::Expr(s@),
        }
    }
}

/// The model of an optional viewable value.
pub open spec fn opt_view<T: View>(o: Option<T>) -> Option<T::V> {
    match o {
        Some(v) => Some(v@),
        None => None,
    }
}

/// The model of an argument vector.
pub open spec fn args_view(args: Seq<Arg>) -> Seq<ArgModel> {
    args.map_values(|a: Arg| a@)
}

/// The model of a command list.
pub open spec fn cmds_view(cs: Seq<Cmd>) -> Seq<CmdModel> {
    cs.map_values(|c: Cmd| c@)
}

impl View for Cmd {
    type V = CmdModel;

    open spec fn view(&self) -> CmdModel {
        CmdModel {
            cmd: self.cmd@,
            args: args_view(self.args@),
            sink: opt_view(self.sink),
            source: opt_view(self.source),
        }
    }
}

impl View for CmdParser {
    type V = ParserModel;

    closed spec fn view(&self) -> ParserModel {
        ParserModel {
            state: self.state,
            cmd: match self.cmd {
                Some(s) => Some(s@),
                None => None,
            },
            args: args_view(self.args@),
            sink: opt_view(self.sink),
            source: opt_view(self.source),
        }
    }
}

/// The parser's initial model: awaiting a program name, nothing
/// accumulated.
pub open spec fn init_parser() -> ParserModel {
    ParserModel {
        state: ParseState::Cmd,
        cmd: None,
        args: Seq::empty(),
        sink: None,
        source: None,
    }
}

/// Well-formedness of a parser model: past the initial state, the program
/// name is set.
pub open spec fn wf(p: ParserModel) -> bool {
    !(p.state matches ParseState::Cmd) ==> p.cmd is Some
}

/// The command packaged from the parser's accumulator fields.
pub open spec fn take_model(p: ParserModel) -> CmdModel
    recommends
        p.cmd is Some,
{
    CmdModel { cmd: p.cmd->0, args: p.args, sink: p.sink, source: p.source }
}

/// The statement state machine's transition function: one classified
/// token moves the parser to its next state, possibly finalizing a
/// command, or fails fatally.
pub open spec fn spec_step(p: ParserModel, t: TokenModel) -> Result<
    (ParserModel, Option<CmdModel>),
    ErrorModel,
> {
    match p.state {
        ParseState::Cmd => match t {
            TokenModel::Value(v) => Ok(
                (ParserModel { state: ParseState::Args, cmd: Some(v), ..p }, None),
            ),
            _ => Err(ErrorModel::MissingCommandName(t)),
        },
        ParseState::Args => match t {
            TokenModel::Value(v) => Ok(
                (ParserModel { args: p.args.push(ArgModel::Literal(v)), ..p }, None),
            ),
            TokenModel::EndOfLine => Ok((init_parser(), Some(take_model(p)))),
            TokenModel::ExprGroup(e) => Ok(
                (ParserModel { args: p.args.push(ArgModel::Expr(e)), ..p }, None),
            ),
            TokenModel::SinkMark => Ok((ParserModel { state: ParseState::SetSink, ..p }, None)),
            TokenModel::SourceMark => Ok(
                (ParserModel { state: ParseState::SetSource, ..p }, None),
            ),
        },
        ParseState::SetSink => match t {
            TokenModel::Value(v) => if p.sink is Some {
                Err(ErrorModel::DuplicateSink)
            } else {
                Ok(
                    (
                        ParserModel {
                            state: ParseState::DoneSetSink,
                            sink: Some(SinkModel::File(v)),
                            ..p
                        },
                        None,
                    ),
                )
            },
            TokenModel::ExprGroup(e) => if p.sink is Some {
                Err(ErrorModel::DuplicateSink)
            } else {
                Ok(
                    (
                        ParserModel {
                            state: ParseState::DoneSetSink,
                            sink: Some(SinkModel::Expr(e)),
                            ..p
                        },
                        None,
                    ),
                )
            },
            _ => Err(ErrorModel::UnexpectedToken(t)),
        },
        ParseState::SetSource => match t {
            TokenModel::Value(v) => if p.source is Some {
                Err(ErrorModel::DuplicateSource)
            } else {
                Ok(
                    (
                        ParserModel {
                            state: ParseState::DoneSetSource,
                            source: Some(SourceModel::File(v)),
                            ..p
                        },
                        None,
                    ),
                )
            },
            TokenModel::ExprGroup(e) => if p.source is Some {
                Err(ErrorModel::DuplicateSource)
            } else {
                Ok(
                    (
                        ParserModel {
                            state: ParseState::DoneSetSource,
                            source: Some(SourceModel::Expr(e)),
                            ..p
                        },
                        None,
                    ),
                )
            },
            _ => Err(ErrorModel::UnexpectedToken(t)),
        },
        ParseState::DoneSetSink => match t {
            TokenModel::EndOfLine => Ok((init_parser(), Some(take_model(p)))),
            TokenModel::SourceMark => Ok(
                (ParserModel { state: ParseState::SetSource, ..p }, None),
            ),
            TokenModel::SinkMark => Err(ErrorModel::DuplicateSink),
            _ => Err(ErrorModel::UnexpectedToken(t)),
        },
        ParseState::DoneSetSource => match t {
            TokenModel::EndOfLine => Ok((init_parser(), Some(take_model(p)))),
            TokenModel::SinkMark => Ok((ParserModel { state: ParseState::SetSink, ..p }, None)),
            TokenModel::SourceMark => Err(ErrorModel::DuplicateSource),
            _ => Err(ErrorModel::UnexpectedToken(t)),
        },
    }
}

/// Classification followed by one transition: what feeding one raw token
/// does to the parser.
pub open spec fn spec_feed(p: ParserModel, t: RawTokenModel) -> Result<
    (ParserModel, Option<CmdModel>),
    ErrorModel,
> {
    match spec_classify(t) {
        Ok(tok) => spec_step(p, tok),
        Err(e) => Err(e),
    }
}

/// The trailing command at end-of-stream: the in-progress command if a
/// program name was set, nothing otherwise.
pub open spec fn spec_finish(p: ParserModel) -> Option<CmdModel> {
    if p.cmd is Some {
        Some(take_model(p))
    } else {
        None
    }
}

impl CmdParser {
    /// A fresh parser, awaiting the first statement's program name.
    pub fn new() -> (p: CmdParser)
        ensures
            p@ == init_parser(),
    {
        let p = CmdParser {
            state: ParseState::Cmd,
            cmd: None,
            args: Vec::new(),
            sink: None,
            source: None,
        };
        proof {
            assert(p@ =~= init_parser());
        }
        p
    }

    /// Packages the accumulated fields into a command and resets the
    /// parser to its initial state.
    fn take(&mut self) -> (c: Cmd)
        requires
            old(self)@.cmd is Some,
        ensures
            c@ == take_model(old(self)@),
            final(self)@ == init_parser(),
    {
        let mut fresh = CmdParser::new();
        core::mem::swap(self, &mut fresh);
        let CmdParser { state: _, cmd, args, sink, source } = fresh;
        match cmd {
            Some(name) => {
                let c = Cmd { cmd: name, args, sink, source };
                proof {
                    assert(c@ =~= take_model(old(self)@));
                }
                c
            },
            None => vstd::pervasive::unreached(),
        }
    }

    /// Feeds one raw token: classifies it, then takes one transition of
    /// the statement state machine. On a fatal error the parser is left
    /// unchanged and no further tokens may be fed.
    pub fn feed(&mut self, token: RawToken) -> (r: Result<ParseResult, Error>)
        requires
            wf(old(self)@),
        ensures
            (match spec_feed(old(self)@, token@) {
                Ok(step) => {
                    &&& final(self)@ == step.0
                    &&& wf(final(self)@)
                    &&& (match step.1 {
                        Some(c) => r matches Ok(pr) && pr matches ParseResult::Done(done) && done@
                            == c,
                        None => r matches Ok(pr) && pr matches ParseResult::KeepGoing,
                    })
                },
                Err(e) => r matches Err(err) && err@ == e && final(self)@ == old(self)@,
            }),
    {
        let token = match classify(token) {
            Ok(t) => t,
            Err(e) => {
                return Err(e);
            },
        };
        match self.state {
            ParseState::Cmd => match token {
                Token::Value(value) => {
                    self.cmd = Some(value);
                    self.state = ParseState::Args;
                    proof {
                        assert(self@ =~= spec_step(old(self)@, token@)->Ok_0.0);
                    }
                    Ok(ParseResult::KeepGoing)
                },
                other => Err(Error::MissingCommandName(other)),
            },
            ParseState::Args => match token {
                Token::Value(v) => {
                    self.args.push(Arg::Literal(v));
                    proof {
                        assert(self@ =~= spec_step(old(self)@, token@)->Ok_0.0);
                    }
                    Ok(ParseResult::KeepGoing)
                },
                Token::EndOfLine => Ok(ParseResult::Done(self.take())),
                Token::ExprGroup(e) => {
                    self.args.push(Arg::Expr(e));
                    proof {
                        assert(self@ =~= spec_step(old(self)@, token@)->Ok_0.0);
                    }
                    Ok(ParseResult::KeepGoing)
                },
                Token::SinkMark => {
                    self.state = ParseState::SetSink;
                    proof {
                        assert(self@ =~= spec_step(old(self)@, token@)->Ok_0.0);
                    }
                    Ok(ParseResult::KeepGoing)
                },
                Token::SourceMark => {
                    self.state = ParseState::SetSource;
                    proof {
                        assert(self@ =~= spec_step(old(self)@, token@)->Ok_0.0);
                    }
                    Ok(ParseResult::KeepGoing)
                },
            },
            ParseState::SetSink => match token {
                Token::Value(v) => {
                    if self.sink.is_some() {
                        return Err(Error::DuplicateSink);
                    }
                    self.sink = Some(Sink::File(v));
                    self.state = ParseState::DoneSetSink;
                    proof {
                        assert(self@ =~= spec_step(old(self)@, token@)->Ok_0.0);
                    }
                    Ok(ParseResult::KeepGoing)
                },
                Token::ExprGroup(e) => {
                    if self.sink.is_some() {
                        return Err(Error::DuplicateSink);
                    }
                    self.sink = Some(Sink::Expr(e));
                    self.state = ParseState::DoneSetSink;
                    proof {
                        assert(self@ =~= spec_step(old(self)@, token@)->Ok_0.0);
                    }
                    Ok(ParseResult::KeepGoing)
                },
                other => Err(Error::UnexpectedToken(other)),
            },
            ParseState::SetSource => match token {
                Token::Value(v) => {
                    if self.source.is_some() {
                        return Err(Error::DuplicateSource);
                    }
                    self.source = Some(Source::File(v));
                    self.state = ParseState::DoneSetSource;
                    proof {
                        assert(self@ =~= spec_step(old(self)@, token@)->Ok_0.0);
                    }
                    Ok(ParseResult::KeepGoing)
                },
                Token::ExprGroup(e) => {
                    if self.source.is_some() {
                        return Err(Error::DuplicateSource);
                    }
                    self.source = Some(Source::Expr(e));
                    self.state = ParseState::DoneSetSource;
                    proof {
                        assert(self@ =~= spec_step(old(self)@, token@)->Ok_0.0);
                    }
                    Ok(ParseResult::KeepGoing)
                },
                other => Err(Error::UnexpectedToken(other)),
            },
            ParseState::DoneSetSink => match token {
                Token::EndOfLine => Ok(ParseResult::Done(self.take())),
                Token::SourceMark => {
                    self.state = ParseState::SetSource;
                    proof {
                        assert(self@ =~= spec_step(old(self)@, token@)->Ok_0.0);
                    }
                    Ok(ParseResult::KeepGoing)
                },
                Token::SinkMark => Err(Error::DuplicateSink),
                other => Err(Error::UnexpectedToken(other)),
            },
            ParseState::DoneSetSource => match token {
                Token::EndOfLine => Ok(ParseResult::Done(self.take())),
                Token::SinkMark => {
                    self.state = ParseState::SetSink;
                    proof {
                        assert(self@ =~= spec_step(old(self)@, token@)->Ok_0.0);
                    }
                    Ok(ParseResult::KeepGoing)
                },
                Token::SourceMark => Err(Error::DuplicateSource),
                other => Err(Error::UnexpectedToken(other)),
            },
        }
    }

    /// Finalizes a trailing statement at end-of-stream: the in-progress
    /// command if at least a program name was set, nothing otherwise.
    pub fn finish(self) -> (r: Option<Cmd>)
        ensures
            (match spec_finish(self@) {
                Some(c) => r matches Some(done) && done@ == c,
                None => r is None,
            }),
    {
        let mut this = self;
        if this.cmd.is_some() {
            Some(this.take())
        } else {
            None
        }
    }
}

impl Default for CmdParser {
    /// A fresh parser, as [`CmdParser::new`] builds it.
    fn default() -> (p: Self)
        ensures
            p@ == init_parser(),
    {
        CmdParser::new()
    }
}

} // verus!
