//! The shell loop's decisions: what to do with a submitted line, and the
//! `cd` built-in's argument check. The surrounding binary prints the prompt,
//! changes the working directory and runs the pipeline.

use vstd::prelude::*;

use crate::parser::SingleCommand;

verus! {

/// What a trimmed input line asks the shell to do.
#[derive(Clone, Copy, PartialEq, Eq, Structural, Debug)]
pub enum LineKind {
    /// Nothing was typed: return to the prompt, leave history alone.
    Empty,
    /// The exit keyword: terminate the shell cleanly.
    Exit,
    /// Anything else: tokenize, parse and run it.
    Command,
}

/// The exit keyword.
pub open spec fn exit_word() -> Seq<char> {
    seq!['e', 'x', 'i', 't']
}

/// The name of the `cd` built-in.
pub open spec fn cd_word() -> Seq<char> {
    seq!['c', 'd']
}

/// What a trimmed line asks for: nothing, exit, or a command.
pub open spec fn classify_spec(s: Seq<char>) -> LineKind {
    if s.len() == 0 {
        LineKind::Empty
    } else if s == exit_word() {
        LineKind::Exit
    } else {
        LineKind::Command
    }
}

/// Classifies a trimmed input line: empty, the exit keyword, or a command to
/// tokenize and run.
pub fn classify_line(trimmed: &str) -> (k: LineKind)
    ensures
        k == classify_spec(trimmed@),
{
    let n = trimmed.unicode_len();
    if n == 0 {
        LineKind::Empty
    } else if n == 4 && trimmed.get_char(0) == 'e' && trimmed.get_char(1) == 'x'
        && trimmed.get_char(2) == 'i' && trimmed.get_char(3) == 't' {
        proof {
            assert(trimmed@ =~= exit_word());
        }
        LineKind::Exit
    } else {
        proof {
            if trimmed@ == exit_word() {
                assert(trimmed@.len() == 4);
                assert(trimmed@[0] == 'e' && trimmed@[1] == 'x' && trimmed@[2] == 'i' && trimmed@[3]
                    == 't');
            }
        }
        LineKind::Command
    }
}

/// Whether the pipeline's first stage invokes the `cd` built-in: its first
/// argument token is the `cd` name.
pub fn is_cd_pipeline(commands: &Vec<SingleCommand>) -> (r: bool)
    ensures
        r == (commands.deep_view().len() > 0 && commands.deep_view()[0].tokens.len() > 0
            && commands.deep_view()[0].tokens[0] == cd_word()),
{
    if commands.len() == 0 {
        return false;
    }
    let first = &commands[0];
    if first.tokens.len() == 0 {
        return false;
    }
    let t = first.tokens[0].as_str();
    proof {
        assert(commands.deep_view()[0] == first@);
        assert(first@.tokens[0] == first.tokens@[0]@);
    }
    let r = t.unicode_len() == 2 && t.get_char(0) == 'c' && t.get_char(1) == 'd';
    proof {
        if r {
            assert(t@ =~= cd_word());
        } else {
            if t@ == cd_word() {
                assert(t@.len() == 2);
                assert(t@[0] == 'c' && t@[1] == 'd');
            }
        }
    }
    r
}

/// The `cd` built-in's decision: with exactly two tokens (`cd` and the
/// target path) the path is handed out to be applied; with any other count
/// nothing changes and a usage error is reported. Piping or redirection
/// marks on the stage are ignored.
pub fn change_dir_target(command: &SingleCommand) -> (r: Option<&String>)
    ensures
        match r {
            Some(path) => command@.tokens.len() == 2 && path@ == command@.tokens[1],
            None => command@.tokens.len() != 2,
        },
{
    if command.tokens.len() == 2 {
        Some(&command.tokens[1])
    } else {
        None
    }
}

} // verus!
