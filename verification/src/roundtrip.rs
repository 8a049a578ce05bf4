//! Reconstructing the token stream of a parsed pipeline, and the round-trip
//! law: re-parsing the reconstructed tokens of a descriptor sequence yields
//! the same descriptor sequence.

use vstd::prelude::*;

use crate::parser::CommandView;
use crate::parser::SingleCommand;
use crate::parser::empty_command;
use crate::parser::in_tok;
use crate::parser::is_operator_tok;
use crate::parser::lemma_parse_loop_args_prefix;
use crate::parser::out_tok;
use crate::parser::parse_loop;
use crate::parser::parse_views;
use crate::parser::pipe_tok;

verus! {

/// A single descriptor is well formed: a filename is present only together
/// with its redirection mark, and no argument or filename is itself an
/// operator token.
pub open spec fn command_wf(c: CommandView) -> bool {
    &&& match c.input_filename {
        Some(f) => c.directed_input && !is_operator_tok(f),
        None => true,
    }
    &&& match c.output_filename {
        Some(f) => c.directed_output && !is_operator_tok(f),
        None => true,
    }
    &&& forall|k: int| 0 <= k < c.tokens.len() ==> !is_operator_tok(c.tokens[k])
}

/// A descriptor that records at least one token of input: an argument, a
/// redirection mark, or a piped output. The parser never yields a descriptor
/// with none of these.
pub open spec fn command_nonempty(c: CommandView) -> bool {
    c.tokens.len() > 0 || c.directed_input || c.directed_output || c.piped_output
}

/// A descriptor sequence in the shape the parser yields, with `piped_first`
/// saying whether the first descriptor's input is piped: every descriptor is
/// well formed and nonempty, input is piped exactly on descriptors after the
/// first (or on all of them when `piped_first`), and every descriptor but the
/// last has its output piped.
pub open spec fn commands_wf_from(cs: Seq<CommandView>, piped_first: bool) -> bool {
    &&& forall|j: int| 0 <= j < cs.len() ==> command_wf(#[trigger] cs[j])
    &&& forall|j: int| 0 <= j < cs.len() ==> command_nonempty(#[trigger] cs[j])
    &&& forall|j: int| 0 <= j < cs.len() ==> ((#[trigger] cs[j]).piped_input <==> (j > 0
        || piped_first))
    &&& forall|j: int| 0 <= j < cs.len() - 1 ==> (#[trigger] cs[j]).piped_output
}

/// A whole parsed pipeline is well formed: as above, with the first
/// descriptor's input not piped.
pub open spec fn commands_wf(cs: Seq<CommandView>) -> bool {
    commands_wf_from(cs, false)
}

proof fn lemma_parse_loop_wf(tokens: Seq<Seq<char>>, acc: CommandView)
    requires
        command_wf(acc),
        !acc.piped_output,
    ensures
        parse_loop(tokens, acc).len() >= 1,
        forall|j: int|
            0 <= j < parse_loop(tokens, acc).len() ==> command_wf(
                #[trigger] parse_loop(tokens, acc)[j],
            ),
        parse_loop(tokens, acc)[0].piped_input == acc.piped_input,
        forall|j: int|
            1 <= j < parse_loop(tokens, acc).len() ==> (#[trigger] parse_loop(
                tokens,
                acc,
            )[j]).piped_input,
        forall|j: int|
            0 <= j < parse_loop(tokens, acc).len() - 1 ==> (#[trigger] parse_loop(
                tokens,
                acc,
            )[j]).piped_output,
        (tokens.len() > 0 || command_nonempty(acc)) ==> forall|j: int|
            0 <= j < parse_loop(tokens, acc).len() ==> command_nonempty(
                #[trigger] parse_loop(tokens, acc)[j],
            ),
    decreases tokens.len(),
{
    let r = parse_loop(tokens, acc);
    if tokens.len() == 0 {
        assert(r == seq![acc]);
    } else if tokens[0] == pipe_tok() {
        let done = CommandView { piped_output: true, ..acc };
        assert(command_wf(done));
        assert(command_nonempty(done));
        if tokens.len() == 1 {
            assert(r == seq![done]);
        } else {
            lemma_parse_loop_wf(tokens.skip(1), empty_command(true));
            let rest = parse_loop(tokens.skip(1), empty_command(true));
            assert(r == seq![done] + rest);
            assert(forall|j: int| 1 <= j < r.len() ==> r[j] == rest[j - 1]);
        }
    } else if tokens[0] == out_tok() {
        if tokens.len() >= 2 && !is_operator_tok(tokens[1]) {
            let acc2 = CommandView {
                directed_output: true,
                output_filename: Some(tokens[1]),
                ..acc
            };
            lemma_parse_loop_wf(tokens.skip(2), acc2);
        } else {
            let acc2 = CommandView { directed_output: true, ..acc };
            lemma_parse_loop_wf(tokens.skip(1), acc2);
        }
    } else if tokens[0] == in_tok() {
        if tokens.len() >= 2 && !is_operator_tok(tokens[1]) {
            let acc2 = CommandView { directed_input: true, input_filename: Some(tokens[1]), ..acc };
            lemma_parse_loop_wf(tokens.skip(2), acc2);
        } else {
            let acc2 = CommandView { directed_input: true, ..acc };
            lemma_parse_loop_wf(tokens.skip(1), acc2);
        }
    } else {
        let acc2 = CommandView { tokens: acc.tokens.push(tokens[0]), ..acc };
        assert(command_wf(acc2)) by {
            assert(forall|k: int|
                0 <= k < acc.tokens.len() ==> acc2.tokens[k] == acc.tokens[k]);
            assert(acc2.tokens[acc.tokens.len() as int] == tokens[0]);
        }
        lemma_parse_loop_wf(tokens.skip(1), acc2);
    }
}

/// Law: whatever the input, the parser's output is a well-formed descriptor
/// sequence: filenames only beside their redirection marks, no operator
/// stored as an argument or filename, piped input exactly after a pipe, piped
/// output on every stage but the last except for a trailing pipe.
pub proof fn lemma_parse_output_wf(tokens: Seq<Seq<char>>)
    ensures
        commands_wf(parse_views(tokens)),
{
    if tokens.len() > 0 {
        lemma_parse_loop_wf(tokens, empty_command(false));
    }
}

/// The tokens of an optional filename: the filename alone, or nothing.
pub open spec fn filename_toks(f: Option<Seq<char>>) -> Seq<Seq<char>> {
    match f {
        Some(s) => seq![s],
        None => Seq::empty(),
    }
}

/// The tokens of one descriptor, without its pipe operator: its arguments,
/// then `<` with the input filename if the input is redirected, then `>` with
/// the output filename if the output is redirected.
pub open spec fn flatten_command_core(c: CommandView) -> Seq<Seq<char>> {
    c.tokens + (if c.directed_input {
        seq![in_tok()] + filename_toks(c.input_filename)
    } else {
        Seq::empty()
    }) + (if c.directed_output {
        seq![out_tok()] + filename_toks(c.output_filename)
    } else {
        Seq::empty()
    })
}

/// The tokens of one descriptor, with a trailing `|` if its output is piped.
pub open spec fn flatten_command(c: CommandView) -> Seq<Seq<char>> {
    flatten_command_core(c) + (if c.piped_output {
        seq![pipe_tok()]
    } else {
        Seq::empty()
    })
}

/// The reconstructed token stream of a whole descriptor sequence.
pub open spec fn flatten_views(cs: Seq<CommandView>) -> Seq<Seq<char>>
    decreases cs.len(),
{
    if cs.len() == 0 {
        Seq::empty()
    } else {
        flatten_command(cs[0]) + flatten_views(cs.skip(1))
    }
}

proof fn lemma_ops_distinct()
    ensures
        pipe_tok() != out_tok(),
        pipe_tok() != in_tok(),
        out_tok() != in_tok(),
        is_operator_tok(pipe_tok()),
        is_operator_tok(out_tok()),
        is_operator_tok(in_tok()),
{
    assert(pipe_tok()[0] == '|');
    assert(out_tok()[0] == '>');
    assert(in_tok()[0] == '<');
}

proof fn lemma_flatten_command_nonempty(c: CommandView)
    requires
        command_nonempty(c),
    ensures
        flatten_command(c).len() > 0,
{
}

/// Scanning the reconstructed tokens of one well-formed descriptor, up to but
/// not including its pipe operator, rebuilds exactly that descriptor.
proof fn lemma_parse_flatten_core(c: CommandView, suffix: Seq<Seq<char>>)
    requires
        command_wf(c),
        suffix.len() == 0 || is_operator_tok(suffix[0]),
    ensures
        parse_loop(flatten_command_core(c) + suffix, empty_command(c.piped_input)) == parse_loop(
            suffix,
            CommandView { piped_output: false, ..c },
        ),
{
    lemma_ops_distinct();
    let c0 = empty_command(c.piped_input);
    let in_part: Seq<Seq<char>> = if c.directed_input {
        seq![in_tok()] + filename_toks(c.input_filename)
    } else {
        Seq::empty()
    };
    let out_part: Seq<Seq<char>> = if c.directed_output {
        seq![out_tok()] + filename_toks(c.output_filename)
    } else {
        Seq::empty()
    };
    assert(flatten_command_core(c) + suffix =~= c.tokens + (in_part + (out_part + suffix)));
    lemma_parse_loop_args_prefix(c.tokens, in_part + (out_part + suffix), c0);
    let acc1 = CommandView { tokens: c0.tokens + c.tokens, ..c0 };
    assert(acc1.tokens =~= c.tokens);

    // Consume the input-redirection part, if any.
    let acc2 = if c.directed_input {
        CommandView { directed_input: true, input_filename: c.input_filename, ..acc1 }
    } else {
        acc1
    };
    assert(parse_loop(in_part + (out_part + suffix), acc1) == parse_loop(
        out_part + suffix,
        acc2,
    )) by {
        if c.directed_input {
            let t = in_part + (out_part + suffix);
            assert(t[0] == in_tok());
            match c.input_filename {
                Some(f) => {
                    assert(t.len() >= 2 && t[1] == f);
                    assert(!is_operator_tok(f));
                    assert(t.skip(2) =~= out_part + suffix);
                    assert((CommandView { directed_input: true, input_filename: Some(f), ..acc1 })
                        =~= acc2);
                },
                None => {
                    assert(t.skip(1) =~= out_part + suffix);
                    if t.len() >= 2 {
                        assert(t[1] == (out_part + suffix)[0]);
                    }
                    if t.len() >= 2 && !is_operator_tok(t[1]) {
                        // The next token would have been taken as a filename,
                        // but everything after an empty input part is an
                        // operator or lies beyond this descriptor.
                        assert(false) by {
                            if c.directed_output {
                                assert(t[1] == out_tok());
                            } else {
                                assert(out_part =~= Seq::<Seq<char>>::empty());
                                assert(t[1] == suffix[0]);
                            }
                        }
                    }
                    assert((CommandView { directed_input: true, ..acc1 }) =~= acc2);
                },
            }
        } else {
            assert(in_part + (out_part + suffix) =~= out_part + suffix);
        }
    }

    // Consume the output-redirection part, if any.
    let acc3 = if c.directed_output {
        CommandView { directed_output: true, output_filename: c.output_filename, ..acc2 }
    } else {
        acc2
    };
    assert(parse_loop(out_part + suffix, acc2) == parse_loop(suffix, acc3)) by {
        if c.directed_output {
            let t = out_part + suffix;
            assert(t[0] == out_tok());
            match c.output_filename {
                Some(f) => {
                    assert(t.len() >= 2 && t[1] == f);
                    assert(!is_operator_tok(f));
                    assert(t.skip(2) =~= suffix);
                    assert((CommandView { directed_output: true, output_filename: Some(f), ..acc2 })
                        =~= acc3);
                },
                None => {
                    assert(t.skip(1) =~= suffix);
                    if t.len() >= 2 {
                        assert(t[1] == suffix[0]);
                    }
                    assert((CommandView { directed_output: true, ..acc2 }) =~= acc3);
                },
            }
        } else {
            assert(out_part + suffix =~= suffix);
        }
    }

    assert(acc3 =~= (CommandView { piped_output: false, ..c }));
}

proof fn lemma_flatten_reparse_rec(cs: Seq<CommandView>, piped_first: bool)
    requires
        cs.len() > 0,
        commands_wf_from(cs, piped_first),
    ensures
        parse_loop(flatten_views(cs), empty_command(piped_first)) == cs,
    decreases cs.len(),
{
    lemma_ops_distinct();
    let c = cs[0];
    assert(command_wf(c) && command_nonempty(c) && c.piped_input == piped_first);
    let rest_cs = cs.skip(1);
    let pipe_part: Seq<Seq<char>> = if c.piped_output {
        seq![pipe_tok()]
    } else {
        Seq::empty()
    };
    let suffix = pipe_part + flatten_views(rest_cs);
    assert(flatten_views(cs) =~= flatten_command_core(c) + suffix);
    assert(suffix.len() == 0 || is_operator_tok(suffix[0])) by {
        if c.piped_output {
            assert(suffix[0] == pipe_tok());
        } else {
            assert(cs.len() == 1);
            assert(rest_cs.len() == 0);
            assert(suffix =~= Seq::<Seq<char>>::empty());
        }
    }
    lemma_parse_flatten_core(c, suffix);
    let c_open = CommandView { piped_output: false, ..c };

    if cs.len() == 1 {
        if c.piped_output {
            // A trailing pipe with nothing after it: the descriptor keeps its
            // piped-output mark and no further descriptor follows.
            assert(suffix =~= seq![pipe_tok()]);
            assert(parse_loop(suffix, c_open) == seq![
                (CommandView { piped_output: true, ..c_open }),
            ]);
            assert((CommandView { piped_output: true, ..c_open }) =~= c);
            assert(seq![c] =~= cs);
        } else {
            assert(parse_loop(suffix, c_open) == seq![c_open]);
            assert(c_open =~= c);
            assert(seq![c] =~= cs);
        }
    } else {
        assert(c.piped_output);
        assert(suffix[0] == pipe_tok());
        assert(commands_wf_from(rest_cs, true)) by {
            assert(forall|j: int| 0 <= j < rest_cs.len() ==> rest_cs[j] == cs[j + 1]);
        }
        lemma_flatten_reparse_rec(rest_cs, true);
        assert(flatten_views(rest_cs).len() > 0) by {
            lemma_flatten_command_nonempty(rest_cs[0]);
        }
        assert(suffix.len() >= 2);
        assert(suffix.skip(1) =~= flatten_views(rest_cs));
        assert(parse_loop(suffix, c_open) == seq![
            (CommandView { piped_output: true, ..c_open }),
        ] + parse_loop(flatten_views(rest_cs), empty_command(true)));
        assert((CommandView { piped_output: true, ..c_open }) =~= c);
        assert(seq![c] + rest_cs =~= cs);
    }
}

/// Law: re-parsing the reconstructed token stream of a well-formed descriptor
/// sequence yields that descriptor sequence again. Every sequence the parser
/// yields is well formed in this sense ([`lemma_parse_output_wf`]).
pub proof fn lemma_flatten_reparse(cs: Seq<CommandView>)
    requires
        commands_wf(cs),
    ensures
        parse_views(flatten_views(cs)) == cs,
{
    if cs.len() == 0 {
        assert(flatten_views(cs).len() == 0);
    } else {
        lemma_flatten_reparse_rec(cs, false);
        lemma_flatten_command_nonempty(cs[0]);
        assert(flatten_views(cs).len() > 0);
    }
}

/// Law: round-trip idempotence. Parsing a token stream, reconstructing the
/// token stream of the resulting descriptors, and parsing again yields the
/// same descriptors.
pub proof fn lemma_parse_roundtrip(tokens: Seq<Seq<char>>)
    ensures
        parse_views(flatten_views(parse_views(tokens))) == parse_views(tokens),
{
    lemma_parse_output_wf(tokens);
    lemma_flatten_reparse(parse_views(tokens));
}

proof fn lemma_flatten_views_push(cs: Seq<CommandView>, c: CommandView)
    ensures
        flatten_views(cs.push(c)) == flatten_views(cs) + flatten_command(c),
    decreases cs.len(),
{
    if cs.len() == 0 {
        assert(cs.push(c)[0] == c);
        assert(cs.push(c).skip(1) =~= Seq::<CommandView>::empty());
        assert(flatten_views(cs.push(c)) == flatten_command(c) + flatten_views(
            Seq::<CommandView>::empty(),
        ));
        assert(flatten_command(c) + Seq::<Seq<char>>::empty() =~= flatten_command(c));
        assert(flatten_views(cs) + flatten_command(c) =~= flatten_command(c));
    } else {
        assert(cs.push(c)[0] == cs[0]);
        assert(cs.push(c).skip(1) =~= cs.skip(1).push(c));
        lemma_flatten_views_push(cs.skip(1), c);
        assert(flatten_command(cs[0]) + (flatten_views(cs.skip(1)) + flatten_command(c)) =~= (
        flatten_command(cs[0]) + flatten_views(cs.skip(1))) + flatten_command(c));
    }
}

/// Reconstructs the token stream of a descriptor sequence: each stage's
/// arguments, its redirections with their filenames, and a `|` after each
/// stage whose output is piped.
#[verifier::rlimit(40)]
pub fn reconstruct_tokens(commands: &Vec<SingleCommand>) -> (tokens: Vec<String>)
    ensures
        tokens.deep_view() == flatten_views(commands.deep_view()),
{
    let ghost cvs = commands.deep_view();
    let mut tokens: Vec<String> = Vec::new();
    let mut idx: usize = 0;

    proof {
        assert(cvs.take(0) =~= Seq::<CommandView>::empty());
        assert(tokens.deep_view() =~= flatten_views(cvs.take(0)));
    }

    while idx < commands.len()
        invariant
            cvs == commands.deep_view(),
            idx <= commands.len(),
            tokens.deep_view() == flatten_views(cvs.take(idx as int)),
        decreases commands.len() - idx,
    {
        let ghost base = tokens.deep_view();
        let ghost c = cvs[idx as int];
        let cmd = &commands[idx];
        proof {
            assert(cmd@ == c);
        }

        let mut k: usize = 0;
        while k < cmd.tokens.len()
            invariant
                cmd@ == c,
                k <= cmd.tokens.len(),
                tokens.deep_view() == base + c.tokens.take(k as int),
            decreases cmd.tokens.len() - k,
        {
            let ghost b = tokens.deep_view();
            tokens.push(cmd.tokens[k].clone());
            proof {
                assert(cmd.tokens@[k as int]@ == c.tokens[k as int]);
                assert(tokens.deep_view() =~= b.push(c.tokens[k as int]));
                assert(c.tokens.take(k + 1) =~= c.tokens.take(k as int).push(c.tokens[k as int]));
                assert(tokens.deep_view() =~= base + c.tokens.take(k + 1));
            }
            k = k + 1;
        }
        proof {
            assert(c.tokens.take(c.tokens.len() as int) =~= c.tokens);
        }

        if cmd.directed_input {
            let ghost b = tokens.deep_view();
            tokens.push("<".to_owned());
            proof {
                reveal_strlit("<");
                assert("<"@ =~= in_tok());
                assert(tokens.deep_view() =~= b.push(in_tok()));
            }
            if let Some(f) = &cmd.input_filename {
                let ghost b2 = tokens.deep_view();
                tokens.push(f.clone());
                proof {
                    assert(c.input_filename == Some(f@));
                    assert(tokens.deep_view() =~= b2.push(f@));
                }
            }
        }
        if cmd.directed_output {
            let ghost b = tokens.deep_view();
            tokens.push(">".to_owned());
            proof {
                reveal_strlit(">");
                assert(">"@ =~= out_tok());
                assert(tokens.deep_view() =~= b.push(out_tok()));
            }
            if let Some(f) = &cmd.output_filename {
                let ghost b2 = tokens.deep_view();
                tokens.push(f.clone());
                proof {
                    assert(c.output_filename == Some(f@));
                    assert(tokens.deep_view() =~= b2.push(f@));
                }
            }
        }
        if cmd.piped_output {
            let ghost b = tokens.deep_view();
            tokens.push("|".to_owned());
            proof {
                reveal_strlit("|");
                assert("|"@ =~= pipe_tok());
                assert(tokens.deep_view() =~= b.push(pipe_tok()));
            }
        }

        proof {
            assert(tokens.deep_view() =~= base + flatten_command(c));
            lemma_flatten_views_push(cvs.take(idx as int), c);
            assert(cvs.take(idx as int).push(c) =~= cvs.take(idx + 1));
        }
        idx = idx + 1;
    }

    proof {
        assert(cvs.take(commands.len() as int) =~= cvs);
    }
    tokens
}

} // verus!
