use installer::command::K8sCommand;
use installer::machine::{Action, Color, Event, Installer, Step, ToolOutput};
use installer::machine::{CLUSTER_TOOL, OPERATOR_NAMESPACE};
use installer::tree::{Tree, TreeDefinition};

const RAW: &str =
    "https://raw.githubusercontent.com/Xabaril/AspNetCore.Diagnostics.HealthChecks/master";

fn entry(path: &str, file_type: &str) -> TreeDefinition {
    TreeDefinition {
        path: path.to_string(),
        url: format!("https://api.example/blobs/{}", path),
        file_type: file_type.to_string(),
    }
}

fn listing(entries: Vec<TreeDefinition>) -> Tree {
    Tree { tree: entries, url: "https://api.example/trees/1".to_string() }
}

fn succeeded(stdout: &str) -> ToolOutput {
    ToolOutput { success: true, stdout: stdout.as_bytes().to_vec(), stderr: Vec::new() }
}

fn failed(stderr: &str) -> ToolOutput {
    ToolOutput { success: false, stdout: b"ignored".to_vec(), stderr: stderr.as_bytes().to_vec() }
}

fn shown(step: &Step) -> Vec<(Color, &str)> {
    step.lines.iter().map(|line| (line.color, line.text.as_str())).collect()
}

fn tool_args(step: &Step) -> Vec<&str> {
    match &step.action {
        Action::RunTool { args } => args.iter().map(|arg| arg.as_str()).collect(),
        other => panic!("the step does not run the tool: {:?}", other),
    }
}

fn exit_code(step: &Step) -> i32 {
    match &step.action {
        Action::Exit { code } => *code,
        other => panic!("the step does not end the process: {:?}", other),
    }
}

/// What a driven run did, in order.
#[derive(Debug, PartialEq)]
enum Did {
    Printed(Color, String),
    Checked,
    Ran(Vec<String>),
    Fetched(String, String),
    Exited(i32),
}

/// How the cluster tool behaves in a driven run.
#[derive(Clone, Copy)]
enum Tool<'a> {
    /// It is not there at all.
    Missing,
    /// It is there and always succeeds.
    Works,
    /// It fails on the calls that have an argument holding this text.
    FailsOn(&'a str),
    /// It cannot be started for the calls that have an argument holding this
    /// text.
    LostOn(&'a str),
}

/// Drives a run to its end against `tool` and a repository that answers with
/// the listing or fails for the reason given.
fn drive(command: K8sCommand, tool: Tool, tree: Result<Tree, &str>) -> Vec<Did> {
    let mut did = Vec::new();
    let mut tree = Some(tree);
    let (mut run, mut step) = Installer::start(command);
    loop {
        for line in &step.lines {
            did.push(Did::Printed(line.color, line.text.clone()));
        }
        let event = match step.action {
            Action::CheckTool => {
                did.push(Did::Checked);
                Event::ToolChecked { reachable: !matches!(tool, Tool::Missing) }
            }
            Action::RunTool { args } => {
                let hit = |mark: &str| args.iter().any(|arg| arg.contains(mark));
                let event = match tool {
                    Tool::LostOn(mark) if hit(mark) => Event::ToolNotStarted,
                    Tool::FailsOn(mark) if hit(mark) => Event::ToolFinished {
                        output: failed(&format!("error: {}", args.join(" "))),
                    },
                    _ => Event::ToolFinished {
                        output: succeeded(&format!("ok: {}", args.join(" "))),
                    },
                };
                did.push(Did::Ran(args));
                event
            }
            Action::FetchTree { url, user_agent } => {
                did.push(Did::Fetched(url, user_agent));
                match tree.take().expect("the listing is fetched once") {
                    Ok(tree) => Event::TreeFetched { tree },
                    Err(reason) => Event::FetchFailed { reason: reason.to_string() },
                }
            }
            Action::Exit { code } => {
                did.push(Did::Exited(code));
                assert!(run.is_finished());
                return did;
            }
        };
        assert!(!run.is_finished());
        step = run.advance(event).expect("the event answers the step");
    }
}

fn printed(color: Color, text: &str) -> Did {
    Did::Printed(color, text.to_string())
}

fn ran(args: &[&str]) -> Did {
    Did::Ran(args.iter().map(|arg| arg.to_string()).collect())
}

fn fetched() -> Did {
    Did::Fetched(
        "https://api.github.com/repos/Xabaril/AspNetCore.Diagnostics.HealthChecks/git/trees/31bb25e1778dd3af99501ca457d0ef653ea31618".to_string(),
        "Operator Installer Agent".to_string(),
    )
}

#[test]
fn the_tool_and_the_namespace_are_fixed() {
    assert_eq!(CLUSTER_TOOL, "kubectl");
    assert_eq!(OPERATOR_NAMESPACE, "healthchecks");
}

#[test]
fn a_run_opens_with_the_banner_and_the_check() {
    let (run, step) = Installer::start(K8sCommand::Delete);
    assert_eq!(run.command(), K8sCommand::Delete);
    assert!(!run.is_finished());
    assert_eq!(shown(&step), vec![(Color::Cyan, "Starting HealthChecks operator installer")]);
    assert!(matches!(step.action, Action::CheckTool));
}

#[test]
fn a_missing_tool_ends_the_run_before_any_fetch() {
    let did = drive(K8sCommand::Apply, Tool::Missing, Ok(listing(vec![entry("a.yaml", "blob")])));
    assert_eq!(
        did,
        vec![
            printed(Color::Cyan, "Starting HealthChecks operator installer"),
            Did::Checked,
            printed(Color::Red, "kubectl is not installed. Please install kubectl cli"),
            Did::Exited(1),
        ]
    );
}

#[test]
fn end_to_end_apply_of_two_files() {
    let tree = listing(vec![entry("b", "blob"), entry("a", "blob")]);
    let did = drive(K8sCommand::Apply, Tool::Works, Ok(tree));
    let crd = format!("{}/deploy/operator/crd/healthcheck-crd.yaml", RAW);
    let a = format!("{}/deploy/operator/a", RAW);
    let b = format!("{}/deploy/operator/b", RAW);
    assert_eq!(
        did,
        vec![
            printed(Color::Cyan, "Starting HealthChecks operator installer"),
            Did::Checked,
            printed(Color::Green, "Executing Apply in all operator resources"),
            printed(Color::Green, "Processing Custom Resource Definition"),
            ran(&["apply", "-f", &crd]),
            printed(Color::White, &format!("ok: apply -f {}", crd)),
            printed(Color::Magenta, "Reading yaml definition files from healthchecks repository"),
            fetched(),
            printed(Color::Green, "Processing a"),
            ran(&["apply", "-f", &a]),
            printed(Color::White, &format!("ok: apply -f {}", a)),
            printed(Color::Green, "Processing b"),
            ran(&["apply", "-f", &b]),
            printed(Color::White, &format!("ok: apply -f {}", b)),
            ran(&["get", "deploy", "-n", "healthchecks"]),
            printed(Color::White, "ok: get deploy -n healthchecks"),
            printed(Color::Green, "Healthchecks Operator Apply finished"),
            Did::Exited(0),
        ]
    );
}

#[test]
fn end_to_end_delete_spares_the_namespace() {
    let tree = listing(vec![
        entry("service.yaml", "blob"),
        entry("00-namespace.yaml", "blob"),
        entry("crd", "tree"),
        entry("deployment.yaml", "blob"),
    ]);
    let did = drive(K8sCommand::Delete, Tool::Works, Ok(tree));
    let crd = format!("{}/deploy/operator/crd/healthcheck-crd.yaml", RAW);
    let deployment = format!("{}/deploy/operator/deployment.yaml", RAW);
    let service = format!("{}/deploy/operator/service.yaml", RAW);
    assert_eq!(
        did,
        vec![
            printed(Color::Cyan, "Starting HealthChecks operator installer"),
            Did::Checked,
            printed(Color::Green, "Executing Delete in all operator resources"),
            printed(Color::Green, "Processing Custom Resource Definition"),
            ran(&["delete", "-f", &crd]),
            printed(Color::White, &format!("ok: delete -f {}", crd)),
            printed(Color::Magenta, "Reading yaml definition files from healthchecks repository"),
            fetched(),
            printed(Color::Green, "Processing deployment.yaml"),
            ran(&["delete", "-f", &deployment]),
            printed(Color::White, &format!("ok: delete -f {}", deployment)),
            printed(Color::Green, "Processing service.yaml"),
            ran(&["delete", "-f", &service]),
            printed(Color::White, &format!("ok: delete -f {}", service)),
            ran(&["get", "deploy", "-n", "healthchecks"]),
            printed(Color::White, "ok: get deploy -n healthchecks"),
            printed(Color::Green, "Healthchecks Operator Delete finished"),
            Did::Exited(0),
        ]
    );
}

#[test]
fn apply_processes_the_namespace_too() {
    let tree = listing(vec![entry("service.yaml", "blob"), entry("00-namespace.yaml", "blob")]);
    let did = drive(K8sCommand::Apply, Tool::Works, Ok(tree));
    let namespace = format!("{}/deploy/operator/00-namespace.yaml", RAW);
    let service = format!("{}/deploy/operator/service.yaml", RAW);
    let runs: Vec<&Did> = did.iter().filter(|d| matches!(d, Did::Ran(_))).collect();
    assert_eq!(runs.len(), 4);
    assert_eq!(*runs[1], ran(&["apply", "-f", &namespace]));
    assert_eq!(*runs[2], ran(&["apply", "-f", &service]));
}

#[test]
fn a_failed_manifest_ends_the_run_before_the_next() {
    let tree = listing(vec![entry("b.yaml", "blob"), entry("a.yaml", "blob")]);
    let did = drive(K8sCommand::Apply, Tool::FailsOn("a.yaml"), Ok(tree));
    let a = format!("{}/deploy/operator/a.yaml", RAW);
    let tail = &did[did.len() - 4..];
    assert_eq!(
        tail,
        &[
            printed(Color::Green, "Processing a.yaml"),
            ran(&["apply", "-f", &a]),
            printed(Color::Red, &format!("error: apply -f {}", a)),
            Did::Exited(1),
        ]
    );
    assert!(!did.iter().any(|d| match d {
        Did::Ran(args) => args.iter().any(|arg| arg.contains("b.yaml")),
        _ => false,
    }));
    assert!(!did.contains(&ran(&["get", "deploy", "-n", "healthchecks"])));
}

#[test]
fn a_failed_custom_resource_definition_ends_the_run_before_the_fetch() {
    let tree = listing(vec![entry("a.yaml", "blob")]);
    let did = drive(K8sCommand::Delete, Tool::FailsOn("healthcheck-crd"), Ok(tree));
    let crd = format!("{}/deploy/operator/crd/healthcheck-crd.yaml", RAW);
    assert_eq!(
        did,
        vec![
            printed(Color::Cyan, "Starting HealthChecks operator installer"),
            Did::Checked,
            printed(Color::Green, "Executing Delete in all operator resources"),
            printed(Color::Green, "Processing Custom Resource Definition"),
            ran(&["delete", "-f", &crd]),
            printed(Color::Red, &format!("error: delete -f {}", crd)),
            Did::Exited(1),
        ]
    );
}

#[test]
fn a_failed_fetch_ends_the_run_with_one_red_line_and_code_one() {
    let did = drive(K8sCommand::Apply, Tool::Works, Err("missing field `type` at line 1"));
    let tail = &did[did.len() - 4..];
    assert_eq!(
        tail,
        &[
            printed(Color::Magenta, "Reading yaml definition files from healthchecks repository"),
            fetched(),
            printed(Color::Red, "missing field `type` at line 1"),
            Did::Exited(1),
        ]
    );
    assert_eq!(did.iter().filter(|d| matches!(d, Did::Ran(_))).count(), 1);
    assert_eq!(did.iter().filter(|d| matches!(d, Did::Fetched(_, _))).count(), 1);
    let processing: Vec<&Did> = did
        .iter()
        .filter(|d| matches!(d, Did::Printed(_, text) if text.starts_with("Processing ")))
        .collect();
    assert_eq!(processing, vec![&printed(Color::Green, "Processing Custom Resource Definition")]);
    assert!(!did.iter().any(|d| matches!(d, Did::Printed(_, text) if text.contains("finished"))));
}

#[test]
fn a_failed_fetch_shows_the_reason_as_given() {
    for reason in ["", "connection refused", "HTTP 403: rate limit \u{e9}"] {
        let (mut run, _) = Installer::start(K8sCommand::Delete);
        run.advance(Event::ToolChecked { reachable: true }).unwrap();
        run.advance(Event::ToolFinished { output: succeeded("") }).unwrap();
        let step = run.advance(Event::FetchFailed { reason: reason.to_string() }).unwrap();
        assert_eq!(shown(&step), vec![(Color::Red, reason)]);
        assert_eq!(exit_code(&step), 1);
        assert!(run.is_finished());
    }
}

#[test]
fn a_tool_lost_on_the_custom_resource_definition_ends_the_run() {
    let tree = listing(vec![entry("a.yaml", "blob")]);
    let did = drive(K8sCommand::Apply, Tool::LostOn("healthcheck-crd"), Ok(tree));
    let crd = format!("{}/deploy/operator/crd/healthcheck-crd.yaml", RAW);
    assert_eq!(
        did,
        vec![
            printed(Color::Cyan, "Starting HealthChecks operator installer"),
            Did::Checked,
            printed(Color::Green, "Executing Apply in all operator resources"),
            printed(Color::Green, "Processing Custom Resource Definition"),
            ran(&["apply", "-f", &crd]),
            printed(Color::Red, "kubectl is not installed. Please install kubectl cli"),
            Did::Exited(1),
        ]
    );
}

#[test]
fn a_tool_lost_on_a_definition_ends_the_run_before_the_next() {
    let tree = listing(vec![entry("b.yaml", "blob"), entry("a.yaml", "blob")]);
    let did = drive(K8sCommand::Delete, Tool::LostOn("a.yaml"), Ok(tree));
    let a = format!("{}/deploy/operator/a.yaml", RAW);
    let tail = &did[did.len() - 4..];
    assert_eq!(
        tail,
        &[
            printed(Color::Green, "Processing a.yaml"),
            ran(&["delete", "-f", &a]),
            printed(Color::Red, "kubectl is not installed. Please install kubectl cli"),
            Did::Exited(1),
        ]
    );
    assert!(!did.iter().any(|d| match d {
        Did::Ran(args) => args.iter().any(|arg| arg.contains("b.yaml")),
        _ => false,
    }));
    assert!(!did.contains(&ran(&["get", "deploy", "-n", "healthchecks"])));
}

#[test]
fn a_tool_lost_on_the_report_still_closes_the_run() {
    let tree = listing(vec![entry("a.yaml", "blob")]);
    let did = drive(K8sCommand::Apply, Tool::LostOn("healthchecks"), Ok(tree));
    let tail = &did[did.len() - 4..];
    assert_eq!(
        tail,
        &[
            ran(&["get", "deploy", "-n", "healthchecks"]),
            printed(Color::White, ""),
            printed(Color::Green, "Healthchecks Operator Apply finished"),
            Did::Exited(0),
        ]
    );
    assert!(did.iter().all(|d| match d {
        Did::Printed(color, _) => *color != Color::Red,
        _ => true,
    }));
}

#[test]
fn a_listing_without_files_goes_straight_to_the_report() {
    let did = drive(K8sCommand::Apply, Tool::Works, Ok(listing(vec![entry("crd", "tree")])));
    let tail = &did[did.len() - 5..];
    assert_eq!(
        tail,
        &[
            fetched(),
            ran(&["get", "deploy", "-n", "healthchecks"]),
            printed(Color::White, "ok: get deploy -n healthchecks"),
            printed(Color::Green, "Healthchecks Operator Apply finished"),
            Did::Exited(0),
        ]
    );
}

#[test]
fn a_failed_report_still_closes_the_run() {
    let did = drive(K8sCommand::Apply, Tool::FailsOn("healthchecks"), Ok(listing(vec![])));
    assert!(did.iter().all(|d| match d {
        Did::Printed(color, _) => *color != Color::Red,
        _ => true,
    }));
    let (mut run, _) = Installer::start(K8sCommand::Apply);
    run.advance(Event::ToolChecked { reachable: true }).unwrap();
    run.advance(Event::ToolFinished { output: succeeded("") }).unwrap();
    let report = run.advance(Event::TreeFetched { tree: listing(vec![]) }).unwrap();
    assert_eq!(tool_args(&report), vec!["get", "deploy", "-n", "healthchecks"]);
    let output =
        ToolOutput { success: false, stdout: b"partial".to_vec(), stderr: b"denied".to_vec() };
    let close = run.advance(Event::ToolFinished { output }).unwrap();
    assert_eq!(
        shown(&close),
        vec![(Color::White, "partial"), (Color::Green, "Healthchecks Operator Apply finished")]
    );
    assert_eq!(exit_code(&close), 0);
    assert!(run.is_finished());
}

#[test]
fn what_the_tool_wrote_is_read_leniently() {
    let (mut run, _) = Installer::start(K8sCommand::Apply);
    run.advance(Event::ToolChecked { reachable: true }).unwrap();
    let output = ToolOutput {
        success: false,
        stdout: b"shown nowhere".to_vec(),
        stderr: vec![b'n', b'o', 0xff, b'!', 0xc3, 0xa9, 0xc3],
    };
    let step = run.advance(Event::ToolFinished { output }).unwrap();
    assert_eq!(shown(&step), vec![(Color::Red, "no\u{fffd}!\u{e9}\u{fffd}")]);
    assert_eq!(exit_code(&step), 1);

    let (mut run, _) = Installer::start(K8sCommand::Apply);
    run.advance(Event::ToolChecked { reachable: true }).unwrap();
    let output =
        ToolOutput { success: true, stdout: vec![0x80, b'o', b'k'], stderr: b"unseen".to_vec() };
    let step = run.advance(Event::ToolFinished { output }).unwrap();
    assert_eq!(
        shown(&step),
        vec![
            (Color::White, "\u{fffd}ok"),
            (Color::Magenta, "Reading yaml definition files from healthchecks repository"),
        ]
    );
}

#[test]
fn an_event_out_of_turn_changes_nothing() {
    let (mut run, _) = Installer::start(K8sCommand::Apply);
    assert!(run.advance(Event::FetchFailed { reason: String::new() }).is_none());
    assert!(run.advance(Event::ToolFinished { output: succeeded("") }).is_none());
    assert!(run.advance(Event::TreeFetched { tree: listing(vec![]) }).is_none());
    assert!(run.advance(Event::ToolNotStarted).is_none());
    assert!(!run.is_finished());
    let step = run.advance(Event::ToolChecked { reachable: true }).unwrap();
    assert_eq!(tool_args(&step)[0], "apply");
    assert!(run.advance(Event::ToolChecked { reachable: true }).is_none());
    assert!(run.advance(Event::FetchFailed { reason: String::new() }).is_none());
    let step = run.advance(Event::ToolFinished { output: succeeded("") }).unwrap();
    assert!(matches!(step.action, Action::FetchTree { .. }));
    assert!(run.advance(Event::ToolFinished { output: succeeded("") }).is_none());
    assert!(run.advance(Event::ToolNotStarted).is_none());
    assert!(run.advance(Event::ToolChecked { reachable: false }).is_none());
    let step = run.advance(Event::TreeFetched { tree: listing(vec![entry("a", "blob")]) }).unwrap();
    assert_eq!(shown(&step), vec![(Color::Green, "Processing a")]);
    assert!(run.advance(Event::TreeFetched { tree: listing(vec![]) }).is_none());
    assert!(run.advance(Event::FetchFailed { reason: String::new() }).is_none());
    let step = run.advance(Event::ToolFinished { output: succeeded("done") }).unwrap();
    assert_eq!(shown(&step), vec![(Color::White, "done")]);
    assert_eq!(tool_args(&step), vec!["get", "deploy", "-n", "healthchecks"]);
    assert!(run.advance(Event::ToolChecked { reachable: true }).is_none());
}

#[test]
fn a_finished_run_takes_no_event() {
    let (mut run, _) = Installer::start(K8sCommand::Delete);
    let step = run.advance(Event::ToolChecked { reachable: false }).unwrap();
    assert_eq!(exit_code(&step), 1);
    assert!(run.is_finished());
    assert!(run.advance(Event::ToolChecked { reachable: true }).is_none());
    assert!(run.advance(Event::ToolFinished { output: succeeded("") }).is_none());
    assert!(run.advance(Event::ToolFinished { output: failed("") }).is_none());
    assert!(run.advance(Event::ToolNotStarted).is_none());
    assert!(run.advance(Event::TreeFetched { tree: listing(vec![]) }).is_none());
    assert!(run.advance(Event::FetchFailed { reason: String::new() }).is_none());
    assert!(run.is_finished());
    assert_eq!(run.command(), K8sCommand::Delete);
}
