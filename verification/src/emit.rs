//! The emitter: translates each command into host code that builds a
//! runtime command object, and wraps the whole batch as an ordered,
//! iterable collection of such objects.
//!
//! The generated code calls the runtime collaborator's command-builder
//! capability: a constructor taking the program name, `arg` for each
//! argument in declaration order, `sink` and `source` for the
//! redirections, and `build` for the finished command object. A sink or
//! source written as a bare file reference is rejected with a fatal
//! diagnostic naming the path.

use vstd::prelude::*;
use vstd::string::{StrSliceExecFns, StringExecFns};
use crate::error::{Error, ErrorModel};
use crate::parser::{cmds_view, Arg, ArgModel, Cmd, CmdModel, Sink, SinkModel, Source, SourceModel};

verus! {

/// How one character is written inside an emitted string literal.
pub open spec fn esc_text(c: char) -> Seq<char> {
    if c == '"' {
        seq!['\\', '"']
    } else if c == '\\' {
        seq!['\\', '\\']
    } else if c == '\n' {
        seq!['\\', 'n']
    } else if c == '\r' {
        seq!['\\', 'r']
    } else if c == '\t' {
        seq!['\\', 't']
    } else if c == '\0' {
        seq!['\\', '0']
    } else {
        seq![c]
    }
}

/// The text escaped for inclusion in an emitted string literal.
pub open spec fn spec_escape(s: Seq<char>) -> Seq<char>
    decreases s.len(),
{
    if s.len() == 0 {
        Seq::empty()
    } else {
        esc_text(s[0]) + spec_escape(s.skip(1))
    }
}

/// The text as an emitted string literal: quoted and escaped.
pub open spec fn spec_quote(s: Seq<char>) -> Seq<char> {
    seq!['"'] + spec_escape(s) + seq!['"']
}

/// The emitted line attaching one argument.
pub open spec fn spec_emit_arg(a: ArgModel) -> Seq<char> {
    match a {
        ArgModel::Literal(s) => "__cmd.arg({ "@ + spec_quote(s) + " });\n"@,
        ArgModel::Expr(e) => "__cmd.arg({ "@ + e + " });\n"@,
    }
}

/// The emitted lines attaching the arguments, in declaration order.
pub open spec fn spec_emit_args(args: Seq<ArgModel>) -> Seq<char>
    decreases args.len(),
{
    if args.len() == 0 {
        Seq::empty()
    } else {
        spec_emit_arg(args[0]) + spec_emit_args(args.skip(1))
    }
}

/// The emitted line attaching the sink, where one is present.
pub open spec fn spec_sink_text(sink: Option<SinkModel>) -> Seq<char> {
    match sink {
        Some(SinkModel::Expr(e)) => "__cmd.sink({ "@ + e + " });\n"@,
        _ => Seq::<char>::empty(),
    }
}

/// The emitted line attaching the source, where one is present.
pub open spec fn spec_source_text(source: Option<SourceModel>) -> Seq<char> {
    match source {
        Some(SourceModel::Expr(e)) => "__cmd.source({ "@ + e + " });\n"@,
        _ => Seq::<char>::empty(),
    }
}

/// The emitted construction expression for one command whose redirections
/// are expressions.
pub open spec fn spec_cmd_text(c: CmdModel) -> Seq<char> {
    "let mut __cmd = ::shx::CmdBuilder::new_command("@ + spec_quote(c.cmd) + ");\n"@
        + spec_emit_args(c.args) + spec_sink_text(c.sink) + spec_source_text(c.source)
        + "__cmd.build()"@
}

/// The emitted code for one command, or the fatal error for a sink or
/// source written as a bare file reference, the sink checked first.
pub open spec fn spec_emit_cmd(c: CmdModel) -> Result<Seq<char>, ErrorModel> {
    match c.sink {
        Some(SinkModel::File(p)) => Err(ErrorModel::UnimplementedFileRedirection(p)),
        _ => match c.source {
            Some(SourceModel::File(p)) => Err(ErrorModel::UnimplementedFileRedirection(p)),
            _ => Ok(spec_cmd_text(c)),
        },
    }
}

/// The emitted lines collecting each command's construction expression,
/// in statement order; the first fatal command aborts the batch.
pub open spec fn spec_emit_cmds(cs: Seq<CmdModel>) -> Result<Seq<char>, ErrorModel>
    decreases cs.len(),
{
    if cs.len() == 0 {
        Ok(Seq::empty())
    } else {
        match spec_emit_cmd(cs[0]) {
            Err(e) => Err(e),
            Ok(t) => match spec_emit_cmds(cs.skip(1)) {
                Err(e) => Err(e),
                Ok(r) => Ok("__commands.push({\n"@ + t + "\n});\n"@ + r),
            },
        }
    }
}

/// The emitted code for a whole batch: a block that collects the runtime
/// command objects in statement order and yields them as a single-pass
/// sequence.
pub open spec fn spec_emit_batch(cs: Seq<CmdModel>) -> Result<Seq<char>, ErrorModel> {
    match spec_emit_cmds(cs) {
        Err(e) => Err(e),
        Ok(t) => Ok(
            "{\nlet mut __commands = Vec::new();\n"@ + t + "__commands.into_iter()\n}"@,
        ),
    }
}

/// Appends the text escaped for an emitted string literal.
#[verifier::loop_isolation(false)]
fn append_escaped(out: &mut String, s: &str)
    ensures
        final(out)@ == old(out)@ + spec_escape(s@),
{
    let n = s.unicode_len();
    let mut i: usize = 0;
    proof {
        assert(s@.skip(0) =~= s@);
    }
    while i < n
        invariant
            0 <= i <= n,
            out@ + spec_escape(s@.skip(i as int)) == old(out)@ + spec_escape(s@),
        decreases n - i,
    {
        let ghost rest = s@.skip(i as int);
        proof {
            assert(rest[0] == s@[i as int]);
            assert(rest.skip(1) =~= s@.skip(i as int + 1));
        }
        let c = s.get_char(i);
        if c == '"' {
            out.append("\\\"");
            proof {
                reveal_strlit("\\\"");
                assert("\\\""@ =~= seq!['\\', '"']);
            }
        } else if c == '\\' {
            out.append("\\\\");
            proof {
                reveal_strlit("\\\\");
                assert("\\\\"@ =~= seq!['\\', '\\']);
            }
        } else if c == '\n' {
            out.append("\\n");
            proof {
                reveal_strlit("\\n");
                assert("\\n"@ =~= seq!['\\', 'n']);
            }
        } else if c == '\r' {
            out.append("\\r");
            proof {
                reveal_strlit("\\r");
                assert("\\r"@ =~= seq!['\\', 'r']);
            }
        } else if c == '\t' {
            out.append("\\t");
            proof {
                reveal_strlit("\\t");
                assert("\\t"@ =~= seq!['\\', 't']);
            }
        } else if c == '\0' {
            out.append("\\0");
            proof {
                reveal_strlit("\\0");
                assert("\\0"@ =~= seq!['\\', '0']);
            }
        } else {
            let piece = s.substring_char(i, i + 1);
            proof {
                assert(piece@ =~= seq![s@[i as int]]);
            }
            out.append(piece);
        }
        proof {
            assert(esc_text(c) + spec_escape(s@.skip(i as int + 1)) =~= spec_escape(rest));
        }
        i += 1;
    }
    proof {
        assert(s@.skip(n as int) =~= Seq::<char>::empty());
        assert(out@ + Seq::<char>::empty() =~= out@);
    }
}

/// Appends the text as an emitted string literal: quoted and escaped.
fn append_quoted(out: &mut String, s: &str)
    ensures
        final(out)@ == old(out)@ + spec_quote(s@),
{
    out.append("\"");
    proof {
        reveal_strlit("\"");
        assert("\""@ =~= seq!['"']);
    }
    append_escaped(out, s);
    out.append("\"");
    proof {
        assert(((old(out)@ + seq!['"']) + spec_escape(s@)) + seq!['"'] =~= old(out)@ + ((seq!['"']
            + spec_escape(s@)) + seq!['"']));
    }
}

/// Emits the construction expression for one command. A sink or source
/// written as a bare file reference is fatal, the sink checked first.
#[verifier::loop_isolation(false)]
pub fn emit_cmd(c: &Cmd) -> (r: Result<String, Error>)
    ensures
        (match spec_emit_cmd(c@) {
            Ok(v) => r matches Ok(out) && out@ == v,
            Err(e) => r matches Err(err) && err@ == e,
        }),
{
    if let Some(Sink::File(p)) = &c.sink {
        return Err(Error::UnimplementedFileRedirection(p.clone()));
    }
    if let Some(Source::File(p)) = &c.source {
        return Err(Error::UnimplementedFileRedirection(p.clone()));
    }
    let mut out = String::new();
    out.append("let mut __cmd = ::shx::CmdBuilder::new_command(");
    append_quoted(&mut out, c.cmd.as_str());
    out.append(");\n");
    let ghost av = crate::parser::args_view(c.args@);
    let ghost head = "let mut __cmd = ::shx::CmdBuilder::new_command("@ + spec_quote(c.cmd@)
        + ");\n"@;
    proof {
        assert(out@ =~= head);
    }
    let mut i: usize = 0;
    let n = c.args.len();
    proof {
        assert(av.skip(0) =~= av);
    }
    while i < n
        invariant
            0 <= i <= n,
            n == c.args.len(),
            out@ + spec_emit_args(av.skip(i as int)) == head + spec_emit_args(av),
        decreases n - i,
    {
        let ghost rest = av.skip(i as int);
        proof {
            assert(rest[0] == av[i as int]);
            assert(av[i as int] == c.args@[i as int]@);
            assert(rest.skip(1) =~= av.skip(i as int + 1));
        }
        let ghost out0 = out@;
        let a = &c.args[i];
        match a {
            Arg::Literal(s) => {
                out.append("__cmd.arg({ ");
                append_quoted(&mut out, s.as_str());
                out.append(" });\n");
                proof {
                    assert(out@ =~= out0 + spec_emit_arg(av[i as int]));
                }
            },
            Arg::Expr(e) => {
                out.append("__cmd.arg({ ");
                out.append(e.as_str());
                out.append(" });\n");
                proof {
                    assert(out@ =~= out0 + spec_emit_arg(av[i as int]));
                }
            },
        }
        proof {
            assert((out0 + spec_emit_arg(av[i as int])) + spec_emit_args(av.skip(i as int + 1))
                =~= out0 + (spec_emit_arg(rest[0]) + spec_emit_args(rest.skip(1))));
        }
        i += 1;
    }
    proof {
        assert(av.skip(n as int) =~= Seq::<ArgModel>::empty());
        assert(out@ + Seq::<char>::empty() =~= out@);
        assert(out@ =~= head + spec_emit_args(av));
    }
    let ghost with_args = out@;
    match &c.sink {
        Some(Sink::Expr(e)) => {
            out.append("__cmd.sink({ ");
            out.append(e.as_str());
            out.append(" });\n");
            proof {
                assert(out@ =~= with_args + spec_sink_text(c@.sink));
            }
        },
        Some(Sink::File(_)) => {
            proof {
                assert(false);
            }
        },
        None => {
            proof {
                assert(out@ =~= with_args + spec_sink_text(c@.sink));
            }
        },
    }
    let ghost with_sink = out@;
    match &c.source {
        Some(Source::Expr(e)) => {
            out.append("__cmd.source({ ");
            out.append(e.as_str());
            out.append(" });\n");
            proof {
                assert(out@ =~= with_sink + spec_source_text(c@.source));
            }
        },
        Some(Source::File(_)) => {
            proof {
                assert(false);
            }
        },
        None => {
            proof {
                assert(out@ =~= with_sink + spec_source_text(c@.source));
            }
        },
    }
    out.append("__cmd.build()");
    proof {
        assert(out@ =~= spec_cmd_text(c@));
    }
    Ok(out)
}

/// Emits the code for a whole batch of commands, in statement order; the
/// first fatal command aborts the batch with no partial emission.
#[verifier::loop_isolation(false)]
pub fn emit_batch(cmds: &Vec<Cmd>) -> (r: Result<String, Error>)
    ensures
        (match spec_emit_batch(cmds_view(cmds@)) {
            Ok(v) => r matches Ok(out) && out@ == v,
            Err(e) => r matches Err(err) && err@ == e,
        }),
{
    let ghost cv = cmds_view(cmds@);
    let mut body = String::new();
    let mut i: usize = 0;
    let n = cmds.len();
    proof {
        assert(cv.skip(0) =~= cv);
    }
    while i < n
        invariant
            0 <= i <= n,
            n == cmds.len(),
            (match spec_emit_cmds(cv.skip(i as int)) {
                Ok(t2) => spec_emit_cmds(cv) == Ok::<Seq<char>, ErrorModel>(body@ + t2),
                Err(e2) => spec_emit_cmds(cv) == Err::<Seq<char>, ErrorModel>(e2),
            }),
        decreases n - i,
    {
        let ghost rest = cv.skip(i as int);
        proof {
            assert(rest[0] == cv[i as int]);
            assert(cv[i as int] == cmds@[i as int]@);
            assert(rest.skip(1) =~= cv.skip(i as int + 1));
        }
        let ghost body0 = body@;
        match emit_cmd(&cmds[i]) {
            Err(e) => {
                return Err(e);
            },
            Ok(t) => {
                body.append("__commands.push({\n");
                body.append(t.as_str());
                body.append("\n});\n");
                proof {
                    let piece = "__commands.push({\n"@ + t@ + "\n});\n"@;
                    assert(body@ =~= body0 + piece);
                    if let Ok(t2) = spec_emit_cmds(cv.skip(i as int + 1)) {
                        assert((body0 + piece) + t2 =~= body0 + (piece + t2));
                    }
                }
            },
        }
        i += 1;
    }
    proof {
        assert(cv.skip(n as int) =~= Seq::<CmdModel>::empty());
        assert(body@ + Seq::<char>::empty() =~= body@);
    }
    let mut out = String::new();
    out.append("{\nlet mut __commands = Vec::new();\n");
    out.append(body.as_str());
    out.append("__commands.into_iter()\n}");
    proof {
        assert(out@ =~= "{\nlet mut __commands = Vec::new();\n"@ + body@
            + "__commands.into_iter()\n}"@);
    }
    Ok(out)
}

} // verus!
