//! The pipeline parser: turns a flat token stream into an ordered sequence
//! of command descriptors annotated with piping and redirection intent.

use vstd::prelude::*;

verus! {

/// One pipeline stage: its argument vector plus piping/redirection intent.
///
/// `tokens[0]` is the program name and the rest are its arguments. The
/// filename fields are set only when an explicit filename token followed the
/// corresponding redirection operator; a redirection operator with no usable
/// filename leaves the flag set and the filename absent, to be rejected at
/// execution time rather than at parse time.
#[derive(Clone, Debug, PartialEq)]
pub struct SingleCommand {
    pub tokens: Vec<String>,
    pub output_filename: Option<String>,
    pub input_filename: Option<String>,
    pub piped_input: bool,
    pub piped_output: bool,
    pub directed_output: bool,
    pub directed_input: bool,
}

/// The mathematical model of a [`SingleCommand`]: every string is a
/// sequence of characters.
#[verifier::ext_equal]
pub ghost struct CommandView {
    pub tokens: Seq<Seq<char>>,
    pub output_filename: Option<Seq<char>>,
    pub input_filename: Option<Seq<char>>,
    pub piped_input: bool,
    pub piped_output: bool,
    pub directed_output: bool,
    pub directed_input: bool,
}

impl View for SingleCommand {
    type V = CommandView;

    open spec fn view(&self) -> CommandView {
        CommandView {
            tokens: self.tokens.deep_view(),
            output_filename: self.output_filename.deep_view(),
            input_filename: self.input_filename.deep_view(),
            piped_input: self.piped_input,
            piped_output: self.piped_output,
            directed_output: self.directed_output,
            directed_input: self.directed_input,
        }
    }
}

impl DeepView for SingleCommand {
    type V = CommandView;

    open spec fn deep_view(&self) -> CommandView {
        self.view()
    }
}

/// The pipe operator `|` as a token.
pub open spec fn pipe_tok() -> Seq<char> {
    seq!['|']
}

/// The output-redirection operator `>` as a token.
pub open spec fn out_tok() -> Seq<char> {
    seq!['>']
}

/// The input-redirection operator `<` as a token.
pub open spec fn in_tok() -> Seq<char> {
    seq!['<']
}

/// Whether a token is one of the three shell operators.
pub open spec fn is_operator_tok(t: Seq<char>) -> bool {
    t == pipe_tok() || t == out_tok() || t == in_tok()
}

/// Whether a token consists of the single character `c`.
fn token_is_char(token: &str, c: char) -> (r: bool)
    ensures
        r == (token@ == seq![c]),
{
    proof {
        assert(seq![c].len() == 1);
    }
    if token.unicode_len() != 1 {
        false
    } else {
        let r = token.get_char(0) == c;
        proof {
            if r {
                assert(token@ =~= seq![c]);
            }
        }
        r
    }
}

/// Whether a token is one of the three shell operators `|`, `>`, `<`.
pub fn is_operator(token: &str) -> (r: bool)
    ensures
        r == is_operator_tok(token@),
{
    token_is_char(token, '|') || token_is_char(token, '>') || token_is_char(token, '<')
}

/// A descriptor with no arguments and no redirections, at the start of a
/// stage: only its piped-input mark is already known.
pub open spec fn empty_command(piped_input: bool) -> CommandView {
    CommandView {
        tokens: Seq::empty(),
        output_filename: None,
        input_filename: None,
        piped_input,
        piped_output: false,
        directed_output: false,
        directed_input: false,
    }
}

/// One left-to-right scan over the remaining tokens, carrying the descriptor
/// `acc` under construction.
///
/// A `>` or `<` marks the redirection on `acc` and, when the next token
/// exists and is not itself an operator, captures it as the filename. A `|`
/// finishes `acc` with its piped-output mark set and, when tokens remain,
/// starts the next descriptor with its piped-input mark set. Any other token
/// is appended to `acc`'s argument list. At end of input the descriptor under
/// construction is finished as it stands.
pub open spec fn parse_loop(tokens: Seq<Seq<char>>, acc: CommandView) -> Seq<CommandView>
    decreases tokens.len(),
{
    if tokens.len() == 0 {
        seq![acc]
    } else if tokens[0] == pipe_tok() {
        let done = CommandView { piped_output: true, ..acc };
        if tokens.len() == 1 {
            seq![done]
        } else {
            seq![done] + parse_loop(tokens.skip(1), empty_command(true))
        }
    } else if tokens[0] == out_tok() {
        if tokens.len() >= 2 && !is_operator_tok(tokens[1]) {
            parse_loop(
                tokens.skip(2),
                CommandView { directed_output: true, output_filename: Some(tokens[1]), ..acc },
            )
        } else {
            parse_loop(tokens.skip(1), CommandView { directed_output: true, ..acc })
        }
    } else if tokens[0] == in_tok() {
        if tokens.len() >= 2 && !is_operator_tok(tokens[1]) {
            parse_loop(
                tokens.skip(2),
                CommandView { directed_input: true, input_filename: Some(tokens[1]), ..acc },
            )
        } else {
            parse_loop(tokens.skip(1), CommandView { directed_input: true, ..acc })
        }
    } else {
        parse_loop(tokens.skip(1), CommandView { tokens: acc.tokens.push(tokens[0]), ..acc })
    }
}

/// What parsing a whole token stream yields: no tokens parse to no
/// descriptors; otherwise the scan starts with a fresh first descriptor,
/// whose input is not piped.
pub open spec fn parse_views(tokens: Seq<Seq<char>>) -> Seq<CommandView> {
    if tokens.len() == 0 {
        Seq::empty()
    } else {
        parse_loop(tokens, empty_command(false))
    }
}

/// Partitions a token stream into an ordered sequence of command
/// descriptors, recognizing the operators `|`, `>` and `<`.
///
/// The parser performs no I/O and cannot fail: dangling operators leave the
/// corresponding mark set with the filename or following stage absent, to be
/// rejected at execution time.
pub fn parse_user_input(tokens: Vec<&str>) -> (commands: Vec<SingleCommand>)
    ensures
        commands.deep_view() == parse_views(tokens.deep_view()),
{
    let ghost toks = tokens.deep_view();
    let mut commands: Vec<SingleCommand> = Vec::new();

    let len = tokens.len();
    let mut i: usize = 0;
    let mut pipe_next_input = false;

    proof {
        assert(toks.skip(0) =~= toks);
        assert(commands.deep_view() =~= Seq::<CommandView>::empty());
        if len > 0 {
            assert(commands.deep_view() + parse_loop(toks, empty_command(false)) =~= parse_loop(
                toks,
                empty_command(false),
            ));
        } else {
            assert(commands.deep_view() + Seq::<CommandView>::empty() =~= Seq::<
                CommandView,
            >::empty());
        }
    }

    while i < len
        invariant
            len == tokens.len(),
            toks == tokens.deep_view(),
            i <= len,
            commands.deep_view() + (if i < len {
                parse_loop(toks.skip(i as int), empty_command(pipe_next_input))
            } else {
                Seq::<CommandView>::empty()
            }) == parse_views(toks),
        decreases len - i,
    {
        let ghost i_entry = i as int;
        let mut command = SingleCommand {
            tokens: vec![],
            output_filename: None,
            input_filename: None,
            piped_input: false,
            piped_output: false,
            directed_output: false,
            directed_input: false,
        };

        if pipe_next_input {
            command.piped_input = true;
        }
        proof {
            assert(command@.tokens =~= Seq::<Seq<char>>::empty());
            assert(command@ =~= empty_command(pipe_next_input));
        }

        pipe_next_input = false;

        while i < len && !token_is_char(tokens[i], '|')
            invariant
                len == tokens.len(),
                toks == tokens.deep_view(),
                i_entry <= i <= len,
                commands.deep_view() + parse_loop(toks.skip(i as int), command@) == parse_views(
                    toks,
                ),
            decreases len - i,
        {
            let ghost pre = toks.skip(i as int);
            let ghost cmd0 = command@;
            proof {
                assert(pre[0] == toks[i as int]);
                assert(toks[i as int] == tokens[i as int]@);
            }
            if token_is_char(tokens[i], '>') {
                command.directed_output = true;
                if i + 1 < len && !is_operator(tokens[i + 1]) {
                    command.output_filename = Some(tokens[i + 1].to_owned());
                    proof {
                        assert(pre.len() >= 2);
                        assert(pre[1] == toks[i + 1] && toks[i + 1] == tokens[i + 1]@);
                        assert(pre.skip(2) =~= toks.skip(i + 2));
                        assert(command@ =~= (CommandView {
                            directed_output: true,
                            output_filename: Some(pre[1]),
                            ..cmd0
                        }));
                        assert(parse_loop(pre, cmd0) == parse_loop(toks.skip(i + 2), command@));
                    }
                    i = i + 1;
                } else {
                    proof {
                        assert(pre.skip(1) =~= toks.skip(i + 1));
                        assert(command@ =~= (CommandView { directed_output: true, ..cmd0 }));
                        assert(parse_loop(pre, cmd0) == parse_loop(toks.skip(i + 1), command@));
                    }
                }
            } else if token_is_char(tokens[i], '<') {
                command.directed_input = true;
                if i + 1 < len && !is_operator(tokens[i + 1]) {
                    command.input_filename = Some(tokens[i + 1].to_owned());
                    proof {
                        assert(pre.len() >= 2);
                        assert(pre[1] == toks[i + 1] && toks[i + 1] == tokens[i + 1]@);
                        assert(pre.skip(2) =~= toks.skip(i + 2));
                        assert(command@ =~= (CommandView {
                            directed_input: true,
                            input_filename: Some(pre[1]),
                            ..cmd0
                        }));
                        assert(parse_loop(pre, cmd0) == parse_loop(toks.skip(i + 2), command@));
                    }
                    i = i + 1;
                } else {
                    proof {
                        assert(pre.skip(1) =~= toks.skip(i + 1));
                        assert(command@ =~= (CommandView { directed_input: true, ..cmd0 }));
                        assert(parse_loop(pre, cmd0) == parse_loop(toks.skip(i + 1), command@));
                    }
                }
            } else {
                command.tokens.push(tokens[i].to_owned());
                proof {
                    assert(pre.skip(1) =~= toks.skip(i + 1));
                    assert(command@.tokens =~= cmd0.tokens.push(pre[0]));
                    assert(command@ =~= (CommandView { tokens: cmd0.tokens.push(pre[0]), ..cmd0 }));
                    assert(parse_loop(pre, cmd0) == parse_loop(toks.skip(i + 1), command@));
                }
            }
            i = i + 1;
        }

        let ghost done0 = commands.deep_view();
        let ghost pre = toks.skip(i as int);
        let ghost cmd0 = command@;

        proof {
            if i < len {
                // The inner scan stopped at a pipe operator.
                assert(pre[0] == toks[i as int]);
                assert(toks[i as int] == tokens[i as int]@);
                assert(pre[0] == pipe_tok());
            }
        }

        if i != len {
            command.piped_output = true;
            pipe_next_input = true;
            i = i + 1;
        }

        let ghost cmd_final = command@;
        commands.push(command);
        proof {
            assert(commands.deep_view() =~= done0.push(cmd_final));
            if pre.len() == 0 {
                // End of input finishes the current descriptor as it stands.
                assert(parse_loop(pre, cmd0) == seq![cmd0]);
                assert(done0.push(cmd_final) + Seq::<CommandView>::empty() =~= done0 + seq![cmd0]);
            } else {
                assert(cmd_final =~= (CommandView { piped_output: true, ..cmd0 }));
                if pre.len() == 1 {
                    assert(i == len);
                    assert(parse_loop(pre, cmd0) == seq![cmd_final]);
                    assert(done0.push(cmd_final) + Seq::<CommandView>::empty() =~= done0 + seq![
                        cmd_final,
                    ]);
                } else {
                    assert(i < len);
                    assert(pre.skip(1) =~= toks.skip(i as int));
                    assert(parse_loop(pre, cmd0) == seq![cmd_final] + parse_loop(
                        toks.skip(i as int),
                        empty_command(true),
                    ));
                    assert(done0.push(cmd_final) + parse_loop(
                        toks.skip(i as int),
                        empty_command(true),
                    ) =~= done0 + (seq![cmd_final] + parse_loop(
                        toks.skip(i as int),
                        empty_command(true),
                    )));
                }
            }
        }
    }

    commands
}

/// Scanning a run of non-operator tokens only appends them, in order, to the
/// argument list of the descriptor under construction.
pub proof fn lemma_parse_loop_args_prefix(
    args: Seq<Seq<char>>,
    rest: Seq<Seq<char>>,
    acc: CommandView,
)
    requires
        forall|k: int| 0 <= k < args.len() ==> !is_operator_tok(args[k]),
    ensures
        parse_loop(args + rest, acc) == parse_loop(
            rest,
            CommandView { tokens: acc.tokens + args, ..acc },
        ),
    decreases args.len(),
{
    if args.len() == 0 {
        assert(args + rest =~= rest);
        assert(acc.tokens + args =~= acc.tokens);
        assert((CommandView { tokens: acc.tokens + args, ..acc }) =~= acc);
    } else {
        let all = args + rest;
        assert(all[0] == args[0]);
        assert(all.len() > 0 && !is_operator_tok(all[0]));
        let acc2 = CommandView { tokens: acc.tokens.push(args[0]), ..acc };
        assert(all.skip(1) =~= args.skip(1) + rest);
        lemma_parse_loop_args_prefix(args.skip(1), rest, acc2);
        assert(acc2.tokens + args.skip(1) =~= acc.tokens + args);
        assert((CommandView { tokens: acc2.tokens + args.skip(1), ..acc2 }) =~= (CommandView {
            tokens: acc.tokens + args,
            ..acc
        }));
    }
}

/// Law: an input that holds no operator tokens parses to exactly one command
/// descriptor whose argument list is the token sequence verbatim, with no
/// piping or redirection marked.
pub proof fn lemma_parse_no_operators(tokens: Seq<Seq<char>>)
    requires
        tokens.len() > 0,
        forall|k: int| 0 <= k < tokens.len() ==> !is_operator_tok(tokens[k]),
    ensures
        parse_views(tokens) == seq![
            CommandView { tokens, ..empty_command(false) },
        ],
{
    lemma_parse_loop_args_prefix(tokens, Seq::empty(), empty_command(false));
    assert(tokens + Seq::<Seq<char>>::empty() =~= tokens);
    assert(empty_command(false).tokens + tokens =~= tokens);
    assert((CommandView { tokens: empty_command(false).tokens + tokens, ..empty_command(false) })
        =~= (CommandView { tokens, ..empty_command(false) }));
}

} // verus!
