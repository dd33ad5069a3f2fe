//! The batch driver: runs one parser instance across an ordered token
//! stream, collecting every finalized command in statement order, plus a
//! trailing incomplete-but-named one at end-of-stream. Never reorders or
//! deduplicates; the first fatal error aborts the whole translation with
//! no partial result.

use vstd::prelude::*;
use crate::emit::{emit_batch, spec_emit_batch};
use crate::error::{Error, ErrorModel};
use crate::parser::{
    cmds_view, init_parser, spec_feed, spec_finish, wf, Cmd, CmdModel, CmdParser, ParseResult,
    ParserModel,
};
use crate::token::{raw_tokens_view, RawToken, RawTokenModel};

verus! {

/// What running the parser over a token stream leaves behind: the parser
/// and the commands finalized so far, or the first fatal error.
pub open spec fn spec_run(
    p: ParserModel,
    toks: Seq<RawTokenModel>,
    acc: Seq<CmdModel>,
) -> Result<(ParserModel, Seq<CmdModel>), ErrorModel>
    decreases toks.len(),
{
    if toks.len() == 0 {
        Ok((p, acc))
    } else {
        match spec_feed(p, toks[0]) {
            Err(e) => Err(e),
            Ok(step) => spec_run(
                step.0,
                toks.skip(1),
                match step.1 {
                    Some(c) => acc.push(c),
                    None => acc,
                },
            ),
        }
    }
}

/// The command list a token stream parses to: every statement's command
/// in order, the trailing unterminated one included when it has a name.
pub open spec fn spec_parse_batch(toks: Seq<RawTokenModel>) -> Result<Seq<CmdModel>, ErrorModel> {
    match spec_run(init_parser(), toks, Seq::empty()) {
        Err(e) => Err(e),
        Ok(end) => match spec_finish(end.0) {
            Some(c) => Ok(end.1.push(c)),
            None => Ok(end.1),
        },
    }
}

/// The whole translation: the token stream parsed to its command list,
/// then emitted as one block of host code.
pub open spec fn spec_lex(toks: Seq<RawTokenModel>) -> Result<Seq<char>, ErrorModel> {
    match spec_parse_batch(toks) {
        Err(e) => Err(e),
        Ok(cs) => spec_emit_batch(cs),
    }
}

/// Runs one parser across the whole token stream, in order, and returns
/// the finalized commands in statement order; the first fatal error
/// aborts with no partial result.
#[verifier::loop_isolation(false)]
pub fn parse_batch(tokens: Vec<RawToken>) -> (r: Result<Vec<Cmd>, Error>)
    ensures
        (match spec_parse_batch(raw_tokens_view(tokens@)) {
            Ok(cs) => r matches Ok(v) && cmds_view(v@) == cs,
            Err(e) => r matches Err(err) && err@ == e,
        }),
{
    let ghost all = raw_tokens_view(tokens@);
    let mut tokens = tokens;
    let mut parser = CmdParser::new();
    let mut cmds: Vec<Cmd> = Vec::new();
    proof {
        assert(cmds_view(cmds@) =~= Seq::<CmdModel>::empty());
        assert(raw_tokens_view(tokens@) =~= all);
    }
    while tokens.len() > 0
        invariant
            wf(parser@),
            spec_run(init_parser(), all, Seq::empty()) == spec_run(
                parser@,
                raw_tokens_view(tokens@),
                cmds_view(cmds@),
            ),
        decreases tokens@.len(),
    {
        let ghost rest = raw_tokens_view(tokens@);
        let t = tokens.remove(0);
        proof {
            assert(rest[0] == t@);
            assert(raw_tokens_view(tokens@) =~= rest.skip(1));
        }
        match parser.feed(t) {
            Ok(ParseResult::KeepGoing) => {
            },
            Ok(ParseResult::Done(c)) => {
                let ghost cs0 = cmds_view(cmds@);
                cmds.push(c);
                proof {
                    assert(cmds_view(cmds@) =~= cs0.push(c@));
                }
            },
            Err(e) => {
                return Err(e);
            },
        }
    }
    proof {
        assert(raw_tokens_view(tokens@) =~= Seq::<RawTokenModel>::empty());
    }
    match parser.finish() {
        Some(c) => {
            let ghost cs0 = cmds_view(cmds@);
            cmds.push(c);
            proof {
                assert(cmds_view(cmds@) =~= cs0.push(c@));
            }
            Ok(cmds)
        },
        None => Ok(cmds),
    }
}

/// Translates a whole token stream: parses it into commands and emits the
/// host code that builds and collects their runtime command objects.
pub fn lex(tokens: Vec<RawToken>) -> (r: Result<String, Error>)
    ensures
        (match spec_lex(raw_tokens_view(tokens@)) {
            Ok(v) => r matches Ok(out) && out@ == v,
            Err(e) => r matches Err(err) && err@ == e,
        }),
{
    match parse_batch(tokens) {
        Err(e) => Err(e),
        Ok(cmds) => emit_batch(&cmds),
    }
}

} // verus!
