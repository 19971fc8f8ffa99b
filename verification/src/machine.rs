//! The run as a machine. It says what to print and what to do next; whoever
//! drives it does that and reports what happened. The machine never starts a
//! process, opens a connection or prints.
//!
//! A run goes through these steps, each answered by one report:
//!
//! 1. see whether the cluster tool starts; without it the run ends;
//! 2. process the custom resource definition;
//! 3. fetch the listing of definitions;
//! 4. process each planned definition of the listing, in order;
//! 5. list the deployments, print them, and end.
//!
//! A manifest on which the tool fails, or for which it cannot be started,
//! ends the run at once, and so does a listing that cannot be had. Each of
//! these ends shows one red line and asks for exit code 1. How the listing of
//! deployments ends makes no difference, not even where the tool cannot be
//! started for it.

use vstd::prelude::*;
use crate::command::{arg_texts, K8sCommand};
use crate::plan::{crd_url, crd_url_text, definition_url, definition_url_text, plan, planned};
use crate::plan::{tree_url, tree_url_text, USER_AGENT};
use crate::text::{read_output, shown_text};
use crate::tree::{entry_views, Tree, TreeDefinition, TreeDefinitionView, TreeView};

verus! {

/// The cluster command-line tool.
pub const CLUSTER_TOOL: &'static str = "kubectl";

/// The namespace whose deployments the final report lists.
pub const OPERATOR_NAMESPACE: &'static str = "healthchecks";

/// The colour of a printed line.
#[derive(Debug, Clone, Copy, PartialEq, Eq, Structural)]
pub enum Color {
    Cyan,
    Green,
    Magenta,
    Red,
    White,
}

/// A line to print, as plain values.
pub struct LineView {
    pub color: Color,
    pub text: Seq<char>,
}

/// A line to print: the text, without its line end, and its colour.
#[derive(Debug)]
pub struct Line {
    pub color: Color,
    pub text: String,
}

impl View for Line {
    type V = LineView;

    open spec fn view(&self) -> LineView {
        LineView { color: self.color, text: self.text@ }
    }
}

/// The lines of a sequence, each as plain values.
pub open spec fn line_views(lines: Seq<Line>) -> Seq<LineView> {
    lines.map_values(|line: Line| line@)
}

/// What the driver does next, as plain values.
pub enum ActionView {
    CheckTool,
    RunTool { args: Seq<Seq<char>> },
    FetchTree { url: Seq<char>, user_agent: Seq<char> },
    Exit { code: int },
}

/// What the driver does next.
#[derive(Debug)]
pub enum Action {
    /// Start the cluster tool without arguments and report whether it
    /// started.
    CheckTool,
    /// Run the cluster tool with these arguments, wait for it, and report
    /// how it ended and what it wrote.
    RunTool { args: Vec<String> },
    /// Fetch the listing at `url`, naming the program `user_agent`, and
    /// report the listing or the failure.
    FetchTree { url: String, user_agent: String },
    /// End the process with this code. Nothing is reported back.
    Exit { code: i32 },
}

impl View for Action {
    type V = ActionView;

    open spec fn view(&self) -> ActionView {
        match self {
            Action::CheckTool => ActionView::CheckTool,
            Action::RunTool { args } => ActionView::RunTool { args: arg_texts(args@) },
            Action::FetchTree { url, user_agent } => ActionView::FetchTree {
                url: url@,
                user_agent: user_agent@,
            },
            Action::Exit { code } => ActionView::Exit { code: *code as int },
        }
    }
}

/// One step of the run, as plain values.
pub struct StepView {
    pub lines: Seq<LineView>,
    pub action: ActionView,
}

/// One step of the run: the lines to print, in order, and then what to do.
#[derive(Debug)]
pub struct Step {
    pub lines: Vec<Line>,
    pub action: Action,
}

impl View for Step {
    type V = StepView;

    open spec fn view(&self) -> StepView {
        StepView { lines: line_views(self.lines@), action: self.action@ }
    }
}

/// How a run of the cluster tool ended, as plain values.
pub struct ToolOutputView {
    pub success: bool,
    pub stdout: Seq<u8>,
    pub stderr: Seq<u8>,
}

/// How a run of the cluster tool ended: whether its exit status was zero,
/// and what it wrote to its two streams.
#[derive(Debug)]
pub struct ToolOutput {
    pub success: bool,
    pub stdout: Vec<u8>,
    pub stderr: Vec<u8>,
}

impl View for ToolOutput {
    type V = ToolOutputView;

    open spec fn view(&self) -> ToolOutputView {
        ToolOutputView { success: self.success, stdout: self.stdout@, stderr: self.stderr@ }
    }
}

/// What the driver reports, as plain values.
pub enum EventView {
    ToolChecked { reachable: bool },
    ToolFinished { output: ToolOutputView },
    ToolNotStarted,
    TreeFetched { tree: TreeView },
    FetchFailed { reason: Seq<char> },
}

/// What the driver reports after it has done what a step asked for.
#[derive(Debug)]
pub enum Event {
    /// Answers `CheckTool`.
    ToolChecked { reachable: bool },
    /// Answers `RunTool`: the tool ran and ended.
    ToolFinished { output: ToolOutput },
    /// Answers `RunTool`: the tool could not be started.
    ToolNotStarted,
    /// Answers `FetchTree`: the listing came and could be read.
    TreeFetched { tree: Tree },
    /// Answers `FetchTree`: the request failed, or what came was no listing.
    /// `reason` says in one line what went wrong.
    FetchFailed { reason: String },
}

impl View for Event {
    type V = EventView;

    open spec fn view(&self) -> EventView {
        match self {
            Event::ToolChecked { reachable } => EventView::ToolChecked { reachable: *reachable },
            Event::ToolFinished { output } => EventView::ToolFinished { output: output@ },
            Event::ToolNotStarted => EventView::ToolNotStarted,
            Event::TreeFetched { tree } => EventView::TreeFetched { tree: tree@ },
            Event::FetchFailed { reason } => EventView::FetchFailed { reason: reason@ },
        }
    }
}

/// Where a run stands: what it is waiting for.
pub enum Phase {
    /// Waiting to hear whether the cluster tool starts.
    CheckingTool,
    /// Waiting for the tool to finish with the custom resource definition.
    ProcessingCrd,
    /// Waiting for the listing.
    FetchingTree,
    /// Waiting for the tool to finish with a definition; `remaining` are the
    /// entries still to process after that one, in order.
    ProcessingDefinition { remaining: Seq<TreeDefinitionView> },
    /// Waiting for the tool to finish listing the deployments.
    Reporting,
    /// The run has asked for the process to end.
    Finished,
}

/// A run as plain values.
pub struct InstallerView {
    pub command: K8sCommand,
    pub phase: Phase,
}

/// The arguments with which the cluster tool processes the manifest at
/// `url`.
pub open spec fn manifest_args(command: K8sCommand, url: Seq<char>) -> Seq<Seq<char>> {
    seq![command.verb_text(), "-f"@, url]
}

/// The arguments with which the cluster tool lists the deployments.
pub open spec fn report_args() -> Seq<Seq<char>> {
    seq!["get"@, "deploy"@, "-n"@, OPERATOR_NAMESPACE@]
}

/// The step that opens a run.
pub open spec fn opening_step() -> StepView {
    StepView {
        lines: seq![
            LineView { color: Color::Cyan, text: "Starting HealthChecks operator installer"@ },
        ],
        action: ActionView::CheckTool,
    }
}

/// The end of a run after the cluster tool has failed on a manifest: what
/// the tool wrote to its error stream, and exit code 1.
pub open spec fn failure_step(output: ToolOutputView) -> StepView {
    StepView {
        lines: seq![LineView { color: Color::Red, text: shown_text(output.stderr) }],
        action: ActionView::Exit { code: 1 },
    }
}

/// What follows `lines` when `remaining` are the entries still to process:
/// the first of them, or the report when none is left.
pub open spec fn continue_with(
    command: K8sCommand,
    remaining: Seq<TreeDefinitionView>,
    lines: Seq<LineView>,
) -> (Phase, StepView) {
    if remaining.len() == 0 {
        (Phase::Reporting, StepView { lines, action: ActionView::RunTool { args: report_args() } })
    } else {
        (
            Phase::ProcessingDefinition { remaining: remaining.drop_first() },
            StepView {
                lines: lines.push(
                    LineView { color: Color::Green, text: "Processing "@ + remaining[0].path },
                ),
                action: ActionView::RunTool {
                    args: manifest_args(command, definition_url_text(remaining[0].path)),
                },
            },
        )
    }
}

/// The end of a run whose cluster tool cannot be started, be it at the
/// first check or later on a manifest: exit code 1.
pub open spec fn tool_missing_step() -> StepView {
    StepView {
        lines: seq![
            LineView {
                color: Color::Red,
                text: "kubectl is not installed. Please install kubectl cli"@,
            },
        ],
        action: ActionView::Exit { code: 1 },
    }
}

/// The step that processes the custom resource definition.
pub open spec fn crd_step(command: K8sCommand) -> StepView {
    StepView {
        lines: seq![
            LineView {
                color: Color::Green,
                text: "Executing "@ + command.name_text() + " in all operator resources"@,
            },
            LineView { color: Color::Green, text: "Processing Custom Resource Definition"@ },
        ],
        action: ActionView::RunTool { args: manifest_args(command, crd_url_text()) },
    }
}

/// The step that fetches the listing, after the cluster tool has processed
/// the custom resource definition and written `output`.
pub open spec fn fetch_step(output: ToolOutputView) -> StepView {
    StepView {
        lines: seq![
            LineView { color: Color::White, text: shown_text(output.stdout) },
            LineView {
                color: Color::Magenta,
                text: "Reading yaml definition files from healthchecks repository"@,
            },
        ],
        action: ActionView::FetchTree { url: tree_url_text(), user_agent: USER_AGENT@ },
    }
}

/// The end of a run that could not get the listing: what went wrong, and
/// exit code 1.
pub open spec fn fetch_failed_step(reason: Seq<char>) -> StepView {
    StepView {
        lines: seq![LineView { color: Color::Red, text: reason }],
        action: ActionView::Exit { code: 1 },
    }
}

/// The end of a run that went through: the deployments as the cluster tool
/// listed them, the closing line, and exit code 0.
pub open spec fn closing_step(command: K8sCommand, report: Seq<char>) -> StepView {
    StepView {
        lines: seq![
            LineView { color: Color::White, text: report },
            LineView {
                color: Color::Green,
                text: "Healthchecks Operator "@ + command.name_text() + " finished"@,
            },
        ],
        action: ActionView::Exit { code: 0 },
    }
}

/// The rules of a run: where it stands next and what it asks for, when
/// `event` is reported in `phase`. `None` where `event` does not answer what
/// the run is waiting for.
///
/// A cluster tool that cannot be started ends the run like one that is
/// missing from the start, except for the listing of the deployments: there
/// nothing is shown in place of the listing, and the run closes as ever.
pub open spec fn transition(command: K8sCommand, phase: Phase, event: EventView) -> Option<
    (Phase, StepView),
> {
    match (phase, event) {
        (Phase::CheckingTool, EventView::ToolChecked { reachable }) => Some(
            if reachable {
                (Phase::ProcessingCrd, crd_step(command))
            } else {
                (Phase::Finished, tool_missing_step())
            },
        ),
        (Phase::ProcessingCrd, EventView::ToolFinished { output }) => Some(
            if output.success {
                (Phase::FetchingTree, fetch_step(output))
            } else {
                (Phase::Finished, failure_step(output))
            },
        ),
        (Phase::ProcessingCrd, EventView::ToolNotStarted) => Some(
            (Phase::Finished, tool_missing_step()),
        ),
        (Phase::FetchingTree, EventView::TreeFetched { tree }) => Some(
            continue_with(command, planned(command, tree.tree), Seq::empty()),
        ),
        (Phase::FetchingTree, EventView::FetchFailed { reason }) => Some(
            (Phase::Finished, fetch_failed_step(reason)),
        ),
        (Phase::ProcessingDefinition { remaining }, EventView::ToolFinished { output }) => Some(
            if output.success {
                continue_with(
                    command,
                    remaining,
                    seq![LineView { color: Color::White, text: shown_text(output.stdout) }],
                )
            } else {
                (Phase::Finished, failure_step(output))
            },
        ),
        (Phase::ProcessingDefinition { remaining }, EventView::ToolNotStarted) => Some(
            (Phase::Finished, tool_missing_step()),
        ),
        (Phase::Reporting, EventView::ToolFinished { output }) => Some(
            (Phase::Finished, closing_step(command, shown_text(output.stdout))),
        ),
        (Phase::Reporting, EventView::ToolNotStarted) => Some(
            (Phase::Finished, closing_step(command, Seq::empty())),
        ),
        _ => None,
    }
}

#[derive(Debug, Clone, Copy)]
enum Stage {
    CheckingTool,
    ProcessingCrd,
    FetchingTree,
    ProcessingDefinition,
    Reporting,
    Finished,
}

/// A run of the installer.
#[derive(Debug)]
pub struct Installer {
    command: K8sCommand,
    stage: Stage,
    /// The entries that the run processes, in order.
    queue: Vec<TreeDefinition>,
    /// The position in `queue` of the entry that is started next.
    next: usize,
}

impl View for Installer {
    type V = InstallerView;

    closed spec fn view(&self) -> InstallerView {
        InstallerView {
            command: self.command,
            phase: match self.stage {
                Stage::CheckingTool => Phase::CheckingTool,
                Stage::ProcessingCrd => Phase::ProcessingCrd,
                Stage::FetchingTree => Phase::FetchingTree,
                Stage::ProcessingDefinition => Phase::ProcessingDefinition {
                    remaining: self.remaining(),
                },
                Stage::Reporting => Phase::Reporting,
                Stage::Finished => Phase::Finished,
            },
        }
    }
}

fn line(color: Color, text: &str) -> (line: Line)
    ensures
        line@ == (LineView { color, text: text@ }),
{
    Line { color, text: String::from_str(text) }
}

fn output_line(color: Color, bytes: &Vec<u8>) -> (line: Line)
    ensures
        line@ == (LineView { color, text: shown_text(bytes@) }),
{
    Line { color, text: read_output(bytes) }
}

fn manifest_action(command: K8sCommand, url: String) -> (action: Action)
    ensures
        action@ == (ActionView::RunTool { args: manifest_args(command, url@) }),
{
    let mut args: Vec<String> = Vec::new();
    args.push(command.verb());
    args.push(String::from_str("-f"));
    args.push(url);
    assert(arg_texts(args@) =~= manifest_args(command, url@));
    Action::RunTool { args }
}

fn report_action() -> (action: Action)
    ensures
        action@ == (ActionView::RunTool { args: report_args() }),
{
    let mut args: Vec<String> = Vec::new();
    args.push(String::from_str("get"));
    args.push(String::from_str("deploy"));
    args.push(String::from_str("-n"));
    args.push(String::from_str(OPERATOR_NAMESPACE));
    assert(arg_texts(args@) =~= report_args());
    Action::RunTool { args }
}

fn failure(output: &ToolOutput) -> (step: Step)
    ensures
        step@ == failure_step(output@),
{
    let mut lines: Vec<Line> = Vec::new();
    lines.push(output_line(Color::Red, &output.stderr));
    assert(line_views(lines@) =~= failure_step(output@).lines);
    Step { lines, action: Action::Exit { code: 1 } }
}

fn tool_missing() -> (step: Step)
    ensures
        step@ == tool_missing_step(),
{
    let mut lines: Vec<Line> = Vec::new();
    lines.push(line(Color::Red, "kubectl is not installed. Please install kubectl cli"));
    assert(line_views(lines@) =~= tool_missing_step().lines);
    Step { lines, action: Action::Exit { code: 1 } }
}

fn process_crd(command: K8sCommand) -> (step: Step)
    ensures
        step@ == crd_step(command),
{
    let mut notice = String::from_str("Executing ");
    notice.append(command.name().as_str());
    notice.append(" in all operator resources");
    let mut lines: Vec<Line> = Vec::new();
    lines.push(Line { color: Color::Green, text: notice });
    lines.push(line(Color::Green, "Processing Custom Resource Definition"));
    assert(line_views(lines@) =~= crd_step(command).lines);
    Step { lines, action: manifest_action(command, crd_url()) }
}

fn fetch(output: &ToolOutput) -> (step: Step)
    ensures
        step@ == fetch_step(output@),
{
    let mut lines: Vec<Line> = Vec::new();
    lines.push(output_line(Color::White, &output.stdout));
    lines.push(line(Color::Magenta, "Reading yaml definition files from healthchecks repository"));
    assert(line_views(lines@) =~= fetch_step(output@).lines);
    Step {
        lines,
        action: Action::FetchTree { url: tree_url(), user_agent: String::from_str(USER_AGENT) },
    }
}

fn fetch_failed(reason: String) -> (step: Step)
    ensures
        step@ == fetch_failed_step(reason@),
{
    let mut lines: Vec<Line> = Vec::new();
    lines.push(Line { color: Color::Red, text: reason });
    assert(line_views(lines@) =~= fetch_failed_step(reason@).lines);
    Step { lines, action: Action::Exit { code: 1 } }
}

fn close(command: K8sCommand, report: String) -> (step: Step)
    ensures
        step@ == closing_step(command, report@),
{
    let mut notice = String::from_str("Healthchecks Operator ");
    notice.append(command.name().as_str());
    notice.append(" finished");
    let mut lines: Vec<Line> = Vec::new();
    lines.push(Line { color: Color::White, text: report });
    lines.push(Line { color: Color::Green, text: notice });
    assert(line_views(lines@) =~= closing_step(command, report@).lines);
    Step { lines, action: Action::Exit { code: 0 } }
}

impl Installer {
    /// The entries of the queue that have not been started.
    closed spec fn remaining(&self) -> Seq<TreeDefinitionView> {
        if self.next <= self.queue@.len() {
            entry_views(self.queue@.subrange(self.next as int, self.queue@.len() as int))
        } else {
            Seq::empty()
        }
    }

    /// Opens a run: the machine, waiting to hear of the cluster tool, and
    /// the first step.
    pub fn start(command: K8sCommand) -> (opened: (Installer, Step))
        ensures
            opened.0@ == (InstallerView { command, phase: Phase::CheckingTool }),
            opened.1@ == opening_step(),
    {
        let mut lines: Vec<Line> = Vec::new();
        lines.push(line(Color::Cyan, "Starting HealthChecks operator installer"));
        assert(line_views(lines@) =~= opening_step().lines);
        (
            Installer { command, stage: Stage::CheckingTool, queue: Vec::new(), next: 0 },
            Step { lines, action: Action::CheckTool },
        )
    }

    /// The operation of this run.
    pub fn command(&self) -> (command: K8sCommand)
        ensures
            command == self@.command,
    {
        self.command
    }

    /// Tells whether the run has asked for the process to end.
    pub fn is_finished(&self) -> (finished: bool)
        ensures
            finished == (self@.phase is Finished),
    {
        match self.stage {
            Stage::Finished => true,
            _ => false,
        }
    }

    fn proceed(&mut self, lines: Vec<Line>) -> (step: Step)
        ensures
            final(self).command == old(self).command,
            (final(self)@.phase, step@) == continue_with(
                old(self).command,
                old(self).remaining(),
                line_views(lines@),
            ),
    {
        let mut lines = lines;
        let ghost before = lines@;
        if self.next < self.queue.len() {
            let entry = &self.queue[self.next];
            let mut notice = String::from_str("Processing ");
            notice.append(entry.path.as_str());
            let url = definition_url(entry.path.as_str());
            lines.push(Line { color: Color::Green, text: notice });
            let action = manifest_action(self.command, url);
            proof {
                let rest = old(self).remaining();
                assert(rest[0] == self.queue@[self.next as int]@);
                assert(rest.drop_first() =~= entry_views(
                    self.queue@.subrange(self.next + 1, self.queue@.len() as int),
                ));
                assert(line_views(lines@) =~= line_views(before).push(
                    LineView { color: Color::Green, text: "Processing "@ + rest[0].path },
                ));
            }
            self.next = self.next + 1;
            self.stage = Stage::ProcessingDefinition;
            Step { lines, action }
        } else {
            self.stage = Stage::Reporting;
            Step { lines, action: report_action() }
        }
    }

    /// Takes the report of what the last step asked for, and gives the next
    /// step. Where `event` does not answer what the run is waiting for (after
    /// the step that ends the process, nothing does), gives `None` and
    /// leaves the run as it stands.
    pub fn advance(&mut self, event: Event) -> (step: Option<Step>)
        ensures
            final(self)@.command == old(self)@.command,
            match transition(old(self)@.command, old(self)@.phase, event@) {
                Some((phase, expected)) => {
                    &&& final(self)@.phase == phase
                    &&& step matches Some(given) && given@ == expected
                },
                None => step is None && final(self)@ == old(self)@,
            },
    {
        match (self.stage, event) {
            (Stage::CheckingTool, Event::ToolChecked { reachable }) => {
                if reachable {
                    self.stage = Stage::ProcessingCrd;
                    Some(process_crd(self.command))
                } else {
                    self.stage = Stage::Finished;
                    Some(tool_missing())
                }
            },
            (Stage::ProcessingCrd, Event::ToolFinished { output }) => {
                if output.success {
                    self.stage = Stage::FetchingTree;
                    Some(fetch(&output))
                } else {
                    self.stage = Stage::Finished;
                    Some(failure(&output))
                }
            },
            (Stage::FetchingTree, Event::TreeFetched { tree }) => {
                self.queue = plan(self.command, tree);
                self.next = 0;
                assert(self.queue@.subrange(0, self.queue@.len() as int) =~= self.queue@);
                let lines: Vec<Line> = Vec::new();
                assert(line_views(lines@) =~= Seq::empty());
                Some(self.proceed(lines))
            },
            (Stage::FetchingTree, Event::FetchFailed { reason }) => {
                self.stage = Stage::Finished;
                Some(fetch_failed(reason))
            },
            (Stage::ProcessingDefinition, Event::ToolFinished { output }) => {
                if output.success {
                    let mut lines: Vec<Line> = Vec::new();
                    lines.push(output_line(Color::White, &output.stdout));
                    assert(line_views(lines@) =~= seq![
                        LineView { color: Color::White, text: shown_text(output@.stdout) },
                    ]);
                    Some(self.proceed(lines))
                } else {
                    self.stage = Stage::Finished;
                    Some(failure(&output))
                }
            },
            (Stage::Reporting, Event::ToolFinished { output }) => {
                self.stage = Stage::Finished;
                Some(close(self.command, read_output(&output.stdout)))
            },
            (Stage::Reporting, Event::ToolNotStarted) => {
                self.stage = Stage::Finished;
                Some(close(self.command, String::new()))
            },
            (Stage::ProcessingCrd, Event::ToolNotStarted) => {
                self.stage = Stage::Finished;
                Some(tool_missing())
            },
            (Stage::ProcessingDefinition, Event::ToolNotStarted) => {
                self.stage = Stage::Finished;
                Some(tool_missing())
            },
            _ => None,
        }
    }
}

} // verus!
