//! The execution engine's decision logic: resolving each pipeline stage's
//! standard-input source and standard-output sink, and rejecting stages that
//! cannot be spawned. The surrounding binary opens the files, allocates the
//! pipes and spawns the processes that a stage plan calls for.

use vstd::prelude::*;

use crate::parser::SingleCommand;

verus! {

/// Where a stage's standard input comes from.
#[derive(Clone, Debug, PartialEq)]
pub enum InputSource {
    /// The shell's own standard input.
    Inherited,
    /// A file opened for reading.
    FromFile(String),
    /// The read end of the pipe fed by the previous stage.
    FromPreviousStage,
}

/// Where a stage's standard output goes.
#[derive(Clone, Debug, PartialEq)]
pub enum OutputSink {
    /// The shell's own standard output.
    Inherited,
    /// A file created, or truncated, for writing.
    ToFile(String),
    /// The write end of a fresh pipe whose read end feeds the next stage.
    ToNextStage,
}

/// Why a stage cannot be spawned. Each of these is reported for its own
/// stage only and leaves sibling stages still attempted.
#[derive(Clone, Copy, PartialEq, Eq, Structural, Debug)]
pub enum StageError {
    /// `<` was parsed with no usable filename after it.
    MissingInputFilename,
    /// `>` was parsed with no usable filename after it.
    MissingOutputFilename,
    /// The first stage of the pipeline cannot take piped input.
    PipedInputAtStart,
    /// The stage has no argument tokens, so there is no program to spawn.
    EmptyCommand,
}

/// Everything the engine needs to spawn one stage: its argument tokens
/// (`tokens[0]` is the program name) and its resolved input and output.
#[derive(Clone, Debug, PartialEq)]
pub struct StagePlan {
    pub tokens: Vec<String>,
    pub input: InputSource,
    pub output: OutputSink,
}

/// The mathematical model of an [`InputSource`].
pub ghost enum InputSourceView {
    Inherited,
    FromFile(Seq<char>),
    FromPreviousStage,
}

/// The mathematical model of an [`OutputSink`].
pub ghost enum OutputSinkView {
    Inherited,
    ToFile(Seq<char>),
    ToNextStage,
}

/// The mathematical model of a [`StagePlan`].
pub ghost struct StagePlanView {
    pub tokens: Seq<Seq<char>>,
    pub input: InputSourceView,
    pub output: OutputSinkView,
}

impl View for InputSource {
    type V = InputSourceView;

    open spec fn view(&self) -> InputSourceView {
        match self {
            InputSource::Inherited => InputSourceView::Inherited,
            InputSource::FromFile(f) => InputSourceView::FromFile(f@),
            InputSource::FromPreviousStage => InputSourceView::FromPreviousStage,
        }
    }
}

impl View for OutputSink {
    type V = OutputSinkView;

    open spec fn view(&self) -> OutputSinkView {
        match self {
            OutputSink::Inherited => OutputSinkView::Inherited,
            OutputSink::ToFile(f) => OutputSinkView::ToFile(f@),
            OutputSink::ToNextStage => OutputSinkView::ToNextStage,
        }
    }
}

impl View for StagePlan {
    type V = StagePlanView;

    open spec fn view(&self) -> StagePlanView {
        StagePlanView { tokens: self.tokens.deep_view(), input: self.input@, output: self.output@ }
    }
}

/// What planning one stage yields, on the model of the descriptor.
///
/// The input is resolved first (a file redirection wins over a pipe), then
/// the output, then the stage must have a program name. An error leaves the
/// stage unspawned without touching its siblings.
pub open spec fn plan_stage_spec(c: crate::parser::CommandView, index: int) -> Result<
    StagePlanView,
    StageError,
> {
    if c.directed_input && c.input_filename is None {
        Err(StageError::MissingInputFilename)
    } else if !c.directed_input && c.piped_input && index == 0 {
        Err(StageError::PipedInputAtStart)
    } else if c.directed_output && c.output_filename is None {
        Err(StageError::MissingOutputFilename)
    } else if c.tokens.len() == 0 {
        Err(StageError::EmptyCommand)
    } else {
        Ok(
            StagePlanView {
                tokens: c.tokens,
                input: if c.directed_input {
                    InputSourceView::FromFile(c.input_filename->Some_0)
                } else if c.piped_input {
                    InputSourceView::FromPreviousStage
                } else {
                    InputSourceView::Inherited
                },
                output: if c.directed_output {
                    OutputSinkView::ToFile(c.output_filename->Some_0)
                } else if c.piped_output {
                    OutputSinkView::ToNextStage
                } else {
                    OutputSinkView::Inherited
                },
            },
        )
    }
}

/// The model of a planning result.
pub open spec fn plan_result_view(r: Result<StagePlan, StageError>) -> Result<
    StagePlanView,
    StageError,
> {
    match r {
        Ok(p) => Ok(p@),
        Err(e) => Err(e),
    }
}

/// Plans one pipeline stage: resolves its input source and output sink and
/// hands back the argument tokens, or says why the stage cannot be spawned.
/// `index` is the stage's position in the pipeline; only the first stage can
/// reject piped input.
pub fn plan_stage(command: &SingleCommand, index: usize) -> (r: Result<StagePlan, StageError>)
    ensures
        plan_result_view(r) == plan_stage_spec(command@, index as int),
{
    let input: InputSource = if command.directed_input {
        match &command.input_filename {
            Some(f) => InputSource::FromFile(f.clone()),
            None => {
                return Err(StageError::MissingInputFilename);
            },
        }
    } else if command.piped_input {
        if index == 0 {
            return Err(StageError::PipedInputAtStart);
        }
        InputSource::FromPreviousStage
    } else {
        InputSource::Inherited
    };

    let output: OutputSink = if command.directed_output {
        match &command.output_filename {
            Some(f) => OutputSink::ToFile(f.clone()),
            None => {
                return Err(StageError::MissingOutputFilename);
            },
        }
    } else if command.piped_output {
        OutputSink::ToNextStage
    } else {
        OutputSink::Inherited
    };

    if command.tokens.len() == 0 {
        return Err(StageError::EmptyCommand);
    }

    Ok(StagePlan { tokens: clone_tokens(&command.tokens), input, output })
}

/// Clones an argument vector, keeping its model unchanged.
fn clone_tokens(tokens: &Vec<String>) -> (r: Vec<String>)
    ensures
        r.deep_view() == tokens.deep_view(),
{
    let mut r: Vec<String> = Vec::new();
    let mut i: usize = 0;
    proof {
        assert(r.deep_view() =~= tokens.deep_view().take(0));
    }
    while i < tokens.len()
        invariant
            i <= tokens.len(),
            r.deep_view() == tokens.deep_view().take(i as int),
        decreases tokens.len() - i,
    {
        let ghost b = r.deep_view();
        r.push(tokens[i].clone());
        proof {
            assert(r.deep_view() =~= b.push(tokens@[i as int]@));
            assert(tokens.deep_view().take(i + 1) =~= b.push(tokens.deep_view()[i as int]));
        }
        i = i + 1;
    }
    proof {
        assert(tokens.deep_view().take(tokens.len() as int) =~= tokens.deep_view());
    }
    r
}

/// Plans every stage of a pipeline, in order, one outcome per stage.
/// Planning never aborts siblings: a failed stage is reported in place.
pub fn plan_pipeline(commands: &Vec<SingleCommand>) -> (r: Vec<Result<StagePlan, StageError>>)
    ensures
        r.len() == commands.len(),
        forall|i: int|
            0 <= i < r.len() ==> plan_result_view(#[trigger] r[i]) == plan_stage_spec(
                commands.deep_view()[i],
                i,
            ),
{
    let mut r: Vec<Result<StagePlan, StageError>> = Vec::new();
    let mut i: usize = 0;
    while i < commands.len()
        invariant
            i <= commands.len(),
            r.len() == i,
            forall|j: int|
                0 <= j < i ==> plan_result_view(#[trigger] r[j]) == plan_stage_spec(
                    commands.deep_view()[j],
                    j,
                ),
        decreases commands.len() - i,
    {
        let plan = plan_stage(&commands[i], i);
        r.push(plan);
        i = i + 1;
    }
    r
}

} // verus!
