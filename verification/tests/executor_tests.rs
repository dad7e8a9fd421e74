use terrashift::executor::{
    run_dir_name, ApprovalMode, DockerRunner, Executor, ExecutorError, LocalRunner, SubprocessOutcome, Verdict,
};

fn strings(xs: &[&str]) -> Vec<String> {
    xs.iter().map(|s| s.to_string()).collect()
}

fn outcome(exit_code: i32, log_path: &str) -> SubprocessOutcome {
    SubprocessOutcome {
        program: "terraform".to_string(),
        args: vec![],
        exit_code,
        duration_ms: 1,
        log_path: log_path.to_string(),
    }
}

#[test]
fn docker_runner_builds_canonical_args() {
    let cwd = "/host/work";
    let command: Vec<String> = vec!["terraform".to_string(), "plan".to_string()];
    let env: Vec<(String, String)> = vec![
        ("AWS_REGION".to_string(), "us-east-1".to_string()),
        ("AWS_ACCESS_KEY_ID".to_string(), "AKIA...".to_string()),
    ];
    let runner = DockerRunner::new();
    let args = runner.build_docker_args(&command, &env, cwd);

    assert_eq!(args[0], "run");
    assert_eq!(args[1], "--rm");
    assert!(args.iter().any(|a| a == "-v"), "should bind-mount cwd");
    assert!(args.iter().any(|a| a == "AWS_REGION=us-east-1"), "should pass env vars via -e");
    assert!(args.iter().any(|a| a.contains("hashicorp/terraform")), "should reference terraform image");
    let image_idx = args.iter().position(|a| a.contains("terraform:")).unwrap();
    assert_eq!(args[image_idx + 1], "terraform");
    assert_eq!(args[image_idx + 2], "plan");
}

#[test]
fn docker_runner_image_override() {
    let runner = DockerRunner::with_image("my-registry/terraform:1.5");
    let args = runner.build_docker_args(&vec![], &vec![], "/x");
    assert!(args.iter().any(|a| a == "my-registry/terraform:1.5"));
}

#[test]
fn docker_args_exact_layout() {
    let runner = DockerRunner::with_image("img:1");
    let args = runner.build_docker_args(
        &strings(&["terraform", "init"]),
        &vec![("K".to_string(), "V".to_string())],
        "/w",
    );
    assert_eq!(args, strings(&["run", "--rm", "-v", "/w:/work", "-w", "/work", "-e", "K=V", "img:1", "terraform", "init"]));
}

#[test]
fn local_runner_empty_command_is_loud_error() {
    let result = LocalRunner::split_command(&vec![]);
    assert!(matches!(result, Err(ExecutorError::EmptyCommand)));
}

#[test]
fn local_runner_splits_program_and_args() {
    match LocalRunner::split_command(&strings(&["echo", "hello", "world"])) {
        Ok((program, args)) => {
            assert_eq!(program, "echo");
            assert_eq!(args, strings(&["hello", "world"]));
        }
        Err(_) => panic!("a non-empty command splits"),
    }
}

// The approval verdicts below are those of the stage-1 policy, which the
// driver computes; the Executor decides on them.

#[test]
fn us1_terraform_apply_is_denied_before_subprocess() {
    let exec = Executor::stage1_default();
    let run_id = uuid::Uuid::new_v4().as_u128();
    let result = exec.begin_apply(run_id, &strings(&["terraform apply mainplan.tfplan"]), &vec![Verdict::Deny], "/tmp/x".to_string());
    match result {
        Err(ExecutorError::DeniedByApprovalGate { command, verdict }) => {
            assert_eq!(command, "terraform apply mainplan.tfplan");
            assert_eq!(verdict, Verdict::Deny);
        }
        _ => panic!("expected DeniedByApprovalGate for `terraform apply`"),
    }
}

#[test]
fn us1_terraform_destroy_is_denied() {
    let exec = Executor::stage1_default();
    let run_id = uuid::Uuid::new_v4().as_u128();
    let result = exec.begin_apply(run_id, &strings(&["terraform destroy"]), &vec![Verdict::Deny], "/tmp/x".to_string());
    assert!(matches!(result, Err(ExecutorError::DeniedByApprovalGate { .. })));
}

#[test]
fn us2_deny_in_list_stops_before_subsequent_commands() {
    let exec = Executor::stage1_default();
    let run_id = uuid::Uuid::new_v4().as_u128();
    let commands = strings(&[
        "terraform init",
        "terraform validate",
        "terraform apply mainplan.tfplan",
        "echo this should never be reached",
    ]);
    let verdicts = vec![Verdict::Allow, Verdict::Allow, Verdict::Deny, Verdict::Allow];
    match exec.begin_apply(run_id, &commands, &verdicts, "/tmp/x".to_string()) {
        Err(ExecutorError::DeniedByApprovalGate { command, .. }) => {
            assert!(command.starts_with("terraform apply"));
        }
        _ => panic!("expected Deny"),
    }
}

#[test]
fn us3_all_allow_path_returns_not_implemented_yet() {
    let exec = Executor::stage1_default();
    let run_id = uuid::Uuid::new_v4().as_u128();
    let commands = strings(&["terraform init", "terraform validate", "terraform plan -out=plan.tfplan"]);
    let verdicts = vec![Verdict::Allow, Verdict::Allow, Verdict::Allow];
    match exec.begin_apply(run_id, &commands, &verdicts, "/tmp/x".to_string()) {
        Err(ExecutorError::NotImplementedYet { which, session }) => {
            assert_eq!(which, "terraform_subprocess_via_docker");
            assert_eq!(session, "S5");
        }
        _ => panic!("expected NotImplementedYet for an all-Allow path"),
    }
}

#[test]
fn us4_prompt_in_non_interactive_is_refused() {
    let exec = Executor::stage1_default();
    let run_id = uuid::Uuid::new_v4().as_u128();
    match exec.begin_apply(run_id, &strings(&["terraform foo"]), &vec![Verdict::Prompt], "/tmp/x".to_string()) {
        Err(ExecutorError::PromptRequiredButNonInteractive { command }) => {
            assert!(command.starts_with("terraform foo"));
        }
        _ => panic!("expected PromptRequiredButNonInteractive"),
    }
}

#[test]
fn custom_policy_overrides_stage1_default() {
    // A custom policy that allows `terraform apply`.
    let exec = Executor::new(ApprovalMode::NonInteractive);
    let run_id = uuid::Uuid::new_v4().as_u128();
    let result = exec.begin_apply(run_id, &strings(&["terraform apply foo.tfplan"]), &vec![Verdict::Allow], "/tmp/x".to_string());
    assert!(matches!(result, Err(ExecutorError::NotImplementedYet { .. })));
}

#[test]
fn working_dir_includes_run_id() {
    let run_id = uuid::Uuid::new_v4();
    let s = run_dir_name(run_id.as_u128());
    assert!(s.contains(&run_id.to_string()));
    assert!(s.contains("terrashift-exec-"));
}

#[test]
fn run_with_runner_walks_commands_and_logs() {
    let exec = Executor::stage1_default().with_runner().with_cwd("/work".to_string());
    let run_id = uuid::Uuid::nil().as_u128();
    let commands = strings(&["terraform init", "   ", "terraform plan -out=p"]);
    let verdicts = vec![Verdict::Allow, Verdict::Allow, Verdict::Allow];
    let mut run = match exec.begin_apply(run_id, &commands, &verdicts, "/tmp/default".to_string()) {
        Ok(run) => run,
        Err(_) => panic!("an all-allowed apply with a runner starts"),
    };
    assert_eq!(run.working_dir, "/work");
    assert_eq!(run.log_dir, "/work/.terrashift/runs/00000000-0000-0000-0000-000000000000/logs");
    let first = run.next_command().expect("first command");
    assert_eq!(first.parts, strings(&["terraform", "init"]));
    assert_eq!(first.log_path, "/work/.terrashift/runs/00000000-0000-0000-0000-000000000000/logs/00-terraform.log");
    assert!(run
        .record(outcome(0, &first.log_path))
        .is_ok());
    // The blank command is skipped.
    let second = run.next_command().expect("second command");
    assert_eq!(second.parts, strings(&["terraform", "plan", "-out=p"]));
    assert!(second.log_path.ends_with("/02-terraform.log"));
    // Exit code 2 ("changes present") is not a failure.
    assert!(run
        .record(outcome(2, &second.log_path))
        .is_ok());
    assert!(run.next_command().is_none());
    let outcome = run.finish();
    assert_eq!(outcome.subprocess_outcomes.len(), 2);
    assert_eq!(outcome.authorized_commands.len(), 3);
}

#[test]
fn failing_exit_code_stops_the_apply() {
    let exec = Executor::stage1_default().with_runner();
    let mut run = match exec.begin_apply(7, &strings(&["terraform init"]), &vec![Verdict::Allow], "/d".to_string()) {
        Ok(run) => run,
        Err(_) => panic!("starts"),
    };
    assert_eq!(run.working_dir, "/d");
    let _ = run.next_command().expect("command");
    match run.record(outcome(1, "l")) {
        Err(ExecutorError::NonZeroExit { program, exit_code }) => {
            assert_eq!(program, "terraform");
            assert_eq!(exit_code, 1);
        }
        _ => panic!("exit code 1 is a failure"),
    }
}

#[test]
fn executor_error_messages() {
    let e = ExecutorError::DeniedByApprovalGate { command: "terraform destroy".to_string(), verdict: Verdict::Deny };
    assert!(e.message().contains("terraform destroy"));
}
