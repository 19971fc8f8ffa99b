//! Whole runs: the steps that the machine gives as reports come in, and what
//! holds of them whatever is reported.

use vstd::prelude::*;
use crate::command::K8sCommand;
use crate::machine::{closing_step, continue_with, crd_step, failure_step};
use crate::machine::{fetch_failed_step, fetch_step};
use crate::machine::{manifest_args, opening_step, report_args, tool_missing_step, transition};
use crate::machine::{ActionView, Color, EventView, LineView, Phase, StepView, ToolOutputView};
use crate::plan::{definition_url_text, lemma_delete_spares_protected, planned, PROTECTED_MARK};
use crate::text::{occurs_in, shown_text};
use crate::tree::{TreeDefinitionView, TreeView};

verus! {

/// The steps that a run standing in `phase` gives as `events` are reported
/// one after another, up to the first event that does not answer what the
/// run is waiting for.
pub open spec fn steps_from(command: K8sCommand, phase: Phase, events: Seq<EventView>) -> Seq<
    StepView,
>
    decreases events.len(),
{
    if events.len() == 0 {
        Seq::empty()
    } else {
        match transition(command, phase, events[0]) {
            None => Seq::empty(),
            Some((next, step)) => seq![step] + steps_from(command, next, events.drop_first()),
        }
    }
}

/// The steps of a run from its opening.
pub open spec fn run(command: K8sCommand, events: Seq<EventView>) -> Seq<StepView> {
    seq![opening_step()] + steps_from(command, Phase::CheckingTool, events)
}

/// A step asks for the process to end exactly when it leaves the run
/// finished.
pub proof fn lemma_exit_leaves_finished(command: K8sCommand, phase: Phase, event: EventView)
    ensures
        transition(command, phase, event) matches Some((next, step)) ==> (step.action is Exit
            <==> next is Finished),
{
}

/// A finished run gives no further step, whatever is reported.
pub proof fn lemma_finished_gives_no_step(command: K8sCommand, events: Seq<EventView>)
    ensures
        steps_from(command, Phase::Finished, events) == Seq::<StepView>::empty(),
{
}

/// Where the cluster tool cannot be started, the run ends with exit code 1
/// right after the check, whatever is reported afterwards: no step runs the
/// tool on a manifest or fetches the listing.
pub proof fn lemma_missing_tool_ends_run(command: K8sCommand, events: Seq<EventView>)
    requires
        events.len() > 0,
        events[0] == (EventView::ToolChecked { reachable: false }),
    ensures
        run(command, events) == seq![opening_step(), tool_missing_step()],
        forall|i: int|
            0 <= i < run(command, events).len() ==> !(#[trigger] run(command, events)[i].action
                is FetchTree) && !(run(command, events)[i].action is RunTool),
        run(command, events).last().action == (ActionView::Exit { code: 1 }),
{
    lemma_finished_gives_no_step(command, events.drop_first());
    assert(run(command, events) =~= seq![opening_step(), tool_missing_step()]);
}

/// Where the cluster tool fails on a manifest, be it the custom resource
/// definition or a definition of the listing, the run ends there with exit
/// code 1, whatever is reported afterwards: no later manifest is attempted.
pub proof fn lemma_failed_manifest_ends_run(
    command: K8sCommand,
    phase: Phase,
    output: ToolOutputView,
    events: Seq<EventView>,
)
    requires
        phase is ProcessingCrd || phase is ProcessingDefinition,
        !output.success,
        events.len() > 0,
        events[0] == (EventView::ToolFinished { output }),
    ensures
        steps_from(command, phase, events) == seq![failure_step(output)],
        failure_step(output).action == (ActionView::Exit { code: 1 }),
{
    lemma_finished_gives_no_step(command, events.drop_first());
    assert(steps_from(command, phase, events) =~= seq![failure_step(output)]);
}

/// Where the cluster tool cannot be started for a manifest, be it the custom
/// resource definition or a definition of the listing, the run ends there
/// with one red line and exit code 1, whatever is reported afterwards: no
/// later manifest is attempted.
pub proof fn lemma_lost_tool_ends_run(command: K8sCommand, phase: Phase, events: Seq<EventView>)
    requires
        phase is ProcessingCrd || phase is ProcessingDefinition,
        events.len() > 0,
        events[0] == EventView::ToolNotStarted,
    ensures
        steps_from(command, phase, events) == seq![tool_missing_step()],
        tool_missing_step().action == (ActionView::Exit { code: 1 }),
        tool_missing_step().lines.len() == 1,
        tool_missing_step().lines[0].color == Color::Red,
{
    lemma_finished_gives_no_step(command, events.drop_first());
    assert(steps_from(command, phase, events) =~= seq![tool_missing_step()]);
}

/// Where the listing cannot be had, the run ends there with one red line,
/// which says why, and exit code 1, whatever is reported afterwards: the
/// cluster tool is not run again, and the fetch is not tried again.
pub proof fn lemma_failed_fetch_ends_run(
    command: K8sCommand,
    reason: Seq<char>,
    events: Seq<EventView>,
)
    requires
        events.len() > 0,
        events[0] == (EventView::FetchFailed { reason }),
    ensures
        steps_from(command, Phase::FetchingTree, events) == seq![fetch_failed_step(reason)],
        fetch_failed_step(reason).action == (ActionView::Exit { code: 1 }),
        fetch_failed_step(reason).lines == seq![LineView { color: Color::Red, text: reason }],
{
    lemma_finished_gives_no_step(command, events.drop_first());
    assert(steps_from(command, Phase::FetchingTree, events) =~= seq![fetch_failed_step(reason)]);
}

/// A run in which the cluster tool fails on the custom resource definition
/// is the opening, the step for the definition, and the end with what the
/// tool wrote to its error stream: the listing is never fetched.
pub proof fn lemma_run_with_failed_crd(
    command: K8sCommand,
    output: ToolOutputView,
    rest: Seq<EventView>,
)
    requires
        !output.success,
    ensures
        run(
            command,
            seq![EventView::ToolChecked { reachable: true }, EventView::ToolFinished { output }]
                + rest,
        ) == seq![opening_step(), crd_step(command), failure_step(output)],
{
    let events = seq![
        EventView::ToolChecked { reachable: true },
        EventView::ToolFinished { output },
    ] + rest;
    lemma_failed_manifest_ends_run(command, Phase::ProcessingCrd, output, events.drop_first());
    assert(run(command, events) =~= seq![
        opening_step(),
        crd_step(command),
        failure_step(output),
    ]);
}

/// A run in which the listing cannot be had is the opening, the step for
/// the custom resource definition, the fetch, and the end with the reason:
/// the fetch is asked for once, and no definition of the listing is
/// processed.
pub proof fn lemma_run_with_failed_fetch(
    command: K8sCommand,
    crd_output: ToolOutputView,
    reason: Seq<char>,
    rest: Seq<EventView>,
)
    requires
        crd_output.success,
    ensures
        run(
            command,
            seq![
                EventView::ToolChecked { reachable: true },
                EventView::ToolFinished { output: crd_output },
                EventView::FetchFailed { reason },
            ] + rest,
        ) == seq![
            opening_step(),
            crd_step(command),
            fetch_step(crd_output),
            fetch_failed_step(reason),
        ],
{
    let events = seq![
        EventView::ToolChecked { reachable: true },
        EventView::ToolFinished { output: crd_output },
        EventView::FetchFailed { reason },
    ] + rest;
    let after_check = events.drop_first();
    let after_crd = after_check.drop_first();
    lemma_failed_fetch_ends_run(command, reason, after_crd);
    assert(steps_from(command, Phase::ProcessingCrd, after_check) =~= seq![
        fetch_step(crd_output),
        fetch_failed_step(reason),
    ]);
    assert(run(command, events) =~= seq![
        opening_step(),
        crd_step(command),
        fetch_step(crd_output),
        fetch_failed_step(reason),
    ]);
}

/// However the listing of the deployments ends, with success, with failure
/// or without the cluster tool having started, the run closes: it shows what
/// was listed, or nothing where the tool did not start, then the closing
/// line, and asks for exit code 0.
pub proof fn lemma_report_always_closes(
    command: K8sCommand,
    output: ToolOutputView,
    report: Seq<char>,
)
    ensures
        transition(command, Phase::Reporting, EventView::ToolFinished { output }) == Some(
            (Phase::Finished, closing_step(command, shown_text(output.stdout))),
        ),
        transition(command, Phase::Reporting, EventView::ToolNotStarted) == Some(
            (Phase::Finished, closing_step(command, Seq::empty())),
        ),
        closing_step(command, report).action == (ActionView::Exit { code: 0 }),
        closing_step(command, report).lines.len() == 2,
        closing_step(command, report).lines[0] == (LineView { color: Color::White, text: report }),
{
}

/// Every end of a run but the close reports one error: the step shows one
/// line, in red, and asks for exit code 1.
pub proof fn lemma_every_failure_shows_one_line(
    command: K8sCommand,
    phase: Phase,
    event: EventView,
)
    ensures
        transition(command, phase, event) matches Some((next, step)) ==> (step.action
            matches ActionView::Exit { code } ==> if phase is Reporting {
            code == 0
        } else {
            code == 1 && step.lines.len() == 1 && step.lines[0].color == Color::Red
        }),
{
}

/// The reports of runs of the cluster tool that ended as `outputs` say.
pub open spec fn tool_reports(outputs: Seq<ToolOutputView>) -> Seq<EventView> {
    outputs.map_values(|output: ToolOutputView| EventView::ToolFinished { output })
}

/// Every one of `outputs` is that of a run of the tool that succeeded.
pub open spec fn all_succeeded(outputs: Seq<ToolOutputView>) -> bool {
    forall|i: int| 0 <= i < outputs.len() ==> (#[trigger] outputs[i]).success
}

/// The steps in which a run works through `entries` while the cluster tool
/// succeeds: `steps[i]` starts `entries[i]`, the step after the last entry
/// asks for the report, and the one after the report closes the run.
pub open spec fn works_through(
    command: K8sCommand,
    entries: Seq<TreeDefinitionView>,
    outputs: Seq<ToolOutputView>,
    steps: Seq<StepView>,
) -> bool {
    &&& steps.len() == outputs.len() + 1
    &&& forall|i: int|
        0 <= i < entries.len() && i <= outputs.len() ==> {
            &&& (#[trigger] steps[i]).action == (ActionView::RunTool {
                args: manifest_args(command, definition_url_text(entries[i].path)),
            })
            &&& steps[i].lines.len() > 0
            &&& steps[i].lines.last() == (LineView {
                color: Color::Green,
                text: "Processing "@ + entries[i].path,
            })
        }
    &&& entries.len() <= outputs.len() ==> steps[entries.len() as int].action
        == (ActionView::RunTool { args: report_args() })
    &&& entries.len() + 1 == outputs.len() ==> steps.last() == closing_step(
        command,
        shown_text(outputs.last().stdout),
    )
}

proof fn lemma_works_through(
    command: K8sCommand,
    remaining: Seq<TreeDefinitionView>,
    lines: Seq<LineView>,
    outputs: Seq<ToolOutputView>,
)
    requires
        all_succeeded(outputs),
        outputs.len() <= remaining.len() + 1,
    ensures
        works_through(
            command,
            remaining,
            outputs,
            seq![continue_with(command, remaining, lines).1] + steps_from(
                command,
                continue_with(command, remaining, lines).0,
                tool_reports(outputs),
            ),
        ),
    decreases remaining.len(),
{
    let (phase, step) = continue_with(command, remaining, lines);
    let events = tool_reports(outputs);
    let steps = seq![step] + steps_from(command, phase, events);
    if outputs.len() == 0 {
        assert(steps =~= seq![step]);
    } else {
        let output = outputs[0];
        let shown = seq![LineView { color: Color::White, text: shown_text(output.stdout) }];
        assert(events[0] == (EventView::ToolFinished { output }));
        assert(output.success);
        assert(events.drop_first() =~= tool_reports(outputs.drop_first()));
        if remaining.len() == 0 {
            assert(outputs.len() == 1);
            lemma_finished_gives_no_step(command, events.drop_first());
            assert(steps =~= seq![step, closing_step(command, shown_text(output.stdout))]);
        } else {
            let rest = remaining.drop_first();
            let later = outputs.drop_first();
            assert(all_succeeded(later)) by {
                assert forall|i: int| 0 <= i < later.len() implies (#[trigger] later[i]).success
                by {
                    assert(later[i] == outputs[i + 1]);
                }
            }
            lemma_works_through(command, rest, shown, later);
            let tail = seq![continue_with(command, rest, shown).1] + steps_from(
                command,
                continue_with(command, rest, shown).0,
                tool_reports(later),
            );
            assert(steps =~= seq![step] + tail);
            assert forall|i: int| 0 <= i < remaining.len() && i <= outputs.len() implies {
                &&& (#[trigger] steps[i]).action == (ActionView::RunTool {
                    args: manifest_args(command, definition_url_text(remaining[i].path)),
                })
                &&& steps[i].lines.len() > 0
                &&& steps[i].lines.last() == (LineView {
                    color: Color::Green,
                    text: "Processing "@ + remaining[i].path,
                })
            } by {
                if i > 0 {
                    assert(steps[i] == tail[i - 1]);
                    assert(rest[i - 1] == remaining[i]);
                }
            }
            if remaining.len() <= outputs.len() {
                assert(steps[remaining.len() as int] == tail[rest.len() as int]);
            }
            if remaining.len() + 1 == outputs.len() {
                assert(steps.last() == tail.last());
                assert(later.last() == outputs.last());
            }
        }
    }
}

/// Once the listing has come, and as long as the cluster tool succeeds, the
/// run works through the planned entries of the listing in their order: one
/// step for each, then the report, then the close with exit code 0.
pub proof fn lemma_run_follows_plan(
    command: K8sCommand,
    tree: TreeView,
    outputs: Seq<ToolOutputView>,
)
    requires
        all_succeeded(outputs),
        outputs.len() <= planned(command, tree.tree).len() + 1,
    ensures
        works_through(
            command,
            planned(command, tree.tree),
            outputs,
            steps_from(
                command,
                Phase::FetchingTree,
                seq![EventView::TreeFetched { tree }] + tool_reports(outputs),
            ),
        ),
{
    let entries = planned(command, tree.tree);
    let events = seq![EventView::TreeFetched { tree }] + tool_reports(outputs);
    assert(events.drop_first() =~= tool_reports(outputs));
    lemma_works_through(command, entries, Seq::empty(), outputs);
}

/// A run in which the cluster tool is there and succeeds every time: after
/// the opening it processes the custom resource definition, fetches the
/// listing, and works through the planned entries of the listing in their
/// order, up to the report and the close with exit code 0.
pub proof fn lemma_successful_run(
    command: K8sCommand,
    crd_output: ToolOutputView,
    tree: TreeView,
    outputs: Seq<ToolOutputView>,
)
    requires
        crd_output.success,
        all_succeeded(outputs),
        outputs.len() <= planned(command, tree.tree).len() + 1,
    ensures
        ({
            let events = seq![
                EventView::ToolChecked { reachable: true },
                EventView::ToolFinished { output: crd_output },
                EventView::TreeFetched { tree },
            ] + tool_reports(outputs);
            let steps = run(command, events);
            &&& steps.len() == outputs.len() + 4
            &&& steps.subrange(0, 3) == seq![
                opening_step(),
                crd_step(command),
                fetch_step(crd_output),
            ]
            &&& works_through(
                command,
                planned(command, tree.tree),
                outputs,
                steps.subrange(3, steps.len() as int),
            )
        }),
{
    let fetched = seq![EventView::TreeFetched { tree }] + tool_reports(outputs);
    let finished = seq![EventView::ToolFinished { output: crd_output }] + fetched;
    let events = seq![
        EventView::ToolChecked { reachable: true },
        EventView::ToolFinished { output: crd_output },
        EventView::TreeFetched { tree },
    ] + tool_reports(outputs);
    let tail = steps_from(command, Phase::FetchingTree, fetched);
    lemma_run_follows_plan(command, tree, outputs);
    assert(finished.drop_first() =~= fetched);
    assert(events.drop_first() =~= finished);
    assert(steps_from(command, Phase::ProcessingCrd, finished) =~= seq![fetch_step(crd_output)]
        + tail);
    let steps = run(command, events);
    assert(steps =~= seq![opening_step(), crd_step(command), fetch_step(crd_output)] + tail);
    assert(steps.subrange(0, 3) =~= seq![
        opening_step(),
        crd_step(command),
        fetch_step(crd_output),
    ]);
    assert(steps.subrange(3, steps.len() as int) =~= tail);
}

/// Where `action` runs the cluster tool, it does so for the report or on the
/// manifest of one of `entries`.
pub open spec fn runs_only(
    command: K8sCommand,
    entries: Seq<TreeDefinitionView>,
    action: ActionView,
) -> bool {
    action matches ActionView::RunTool { args } ==> args == report_args() || exists|k: int|
        0 <= k < entries.len() && args == manifest_args(
            command,
            definition_url_text(#[trigger] entries[k].path),
        )
}

/// `phase` is one in which a run stands after the listing has come and `done`
/// of `entries` have been started.
pub open spec fn works_on(phase: Phase, entries: Seq<TreeDefinitionView>, done: int) -> bool {
    match phase {
        Phase::ProcessingDefinition { remaining } => 0 <= done <= entries.len() && remaining
            == entries.subrange(done, entries.len() as int),
        Phase::Reporting => true,
        Phase::Finished => true,
        _ => false,
    }
}

proof fn lemma_continue_runs_only(
    command: K8sCommand,
    entries: Seq<TreeDefinitionView>,
    done: int,
    lines: Seq<LineView>,
)
    requires
        0 <= done <= entries.len(),
    ensures
        runs_only(
            command,
            entries,
            continue_with(command, entries.subrange(done, entries.len() as int), lines).1.action,
        ),
        works_on(
            continue_with(command, entries.subrange(done, entries.len() as int), lines).0,
            entries,
            done + 1,
        ),
{
    let remaining = entries.subrange(done, entries.len() as int);
    if remaining.len() > 0 {
        assert(remaining[0] == entries[done]);
        assert(remaining.drop_first() =~= entries.subrange(done + 1, entries.len() as int));
    }
}

proof fn lemma_runs_only_from(
    command: K8sCommand,
    phase: Phase,
    entries: Seq<TreeDefinitionView>,
    done: int,
    events: Seq<EventView>,
    i: int,
)
    requires
        works_on(phase, entries, done),
        0 <= i < steps_from(command, phase, events).len(),
    ensures
        runs_only(command, entries, steps_from(command, phase, events)[i].action),
    decreases events.len(),
{
    let (next, step) = transition(command, phase, events[0])->0;
    let later = steps_from(command, next, events.drop_first());
    assert(steps_from(command, phase, events) =~= seq![step] + later);
    if phase is ProcessingDefinition {
        match events[0] {
            EventView::ToolFinished { output } => {
                lemma_continue_runs_only(
                    command,
                    entries,
                    done,
                    seq![LineView { color: Color::White, text: shown_text(output.stdout) }],
                );
            },
            _ => {},
        }
    }
    if i > 0 {
        lemma_runs_only_from(command, next, entries, done + 1, events.drop_first(), i - 1);
    }
}

/// Once the listing has come, whatever is reported afterwards, the cluster
/// tool is run for the report or on the manifest of a planned entry, and on
/// nothing else.
pub proof fn lemma_only_planned_are_run(
    command: K8sCommand,
    tree: TreeView,
    events: Seq<EventView>,
    i: int,
)
    requires
        0 <= i < steps_from(
            command,
            Phase::FetchingTree,
            seq![EventView::TreeFetched { tree }] + events,
        ).len(),
    ensures
        runs_only(
            command,
            planned(command, tree.tree),
            steps_from(
                command,
                Phase::FetchingTree,
                seq![EventView::TreeFetched { tree }] + events,
            )[i].action,
        ),
{
    let entries = planned(command, tree.tree);
    let all = seq![EventView::TreeFetched { tree }] + events;
    let (next, step) = continue_with(command, entries, Seq::empty());
    assert(all.drop_first() =~= events);
    assert(steps_from(command, Phase::FetchingTree, all) =~= seq![step] + steps_from(
        command,
        next,
        events,
    ));
    assert(entries.subrange(0, entries.len() as int) =~= entries);
    lemma_continue_runs_only(command, entries, 0, Seq::empty());
    if i > 0 {
        lemma_runs_only_from(command, next, entries, 1, events, i - 1);
    }
}

/// Once the listing has come, a run that deletes never runs the cluster tool
/// on a manifest whose locator holds the protected mark, whatever the listing
/// holds and whatever is reported.
pub proof fn lemma_delete_never_runs_protected(
    tree: TreeView,
    events: Seq<EventView>,
    i: int,
    url: Seq<char>,
)
    requires
        0 <= i < steps_from(
            K8sCommand::Delete,
            Phase::FetchingTree,
            seq![EventView::TreeFetched { tree }] + events,
        ).len(),
        occurs_in(url, PROTECTED_MARK@),
    ensures
        steps_from(
            K8sCommand::Delete,
            Phase::FetchingTree,
            seq![EventView::TreeFetched { tree }] + events,
        )[i].action != (ActionView::RunTool { args: manifest_args(K8sCommand::Delete, url) }),
{
    let command = K8sCommand::Delete;
    let entries = planned(command, tree.tree);
    let wanted = manifest_args(command, url);
    lemma_only_planned_are_run(command, tree, events, i);
    assert(wanted.len() == 3 && wanted[2] == url);
    assert(report_args().len() == 4);
    assert forall|k: int| 0 <= k < entries.len() implies wanted != manifest_args(
        command,
        definition_url_text(#[trigger] entries[k].path),
    ) by {
        lemma_delete_spares_protected(tree.tree, k);
        assert(manifest_args(command, definition_url_text(entries[k].path))[2]
            == definition_url_text(entries[k].path));
    }
}

} // verus!
