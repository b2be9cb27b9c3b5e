use ezllama::cuda_toolkit::{
    CheckOptions as CudaOptions, CudaAction, CudaCheck, CudaEvent, cuda_check_step,
    install_plan as cuda_install_plan, is_yes, parse_cuda_version, probe,
};
use ezllama::llama_cpp::{
    CheckFailure, CheckOptions, LlamaAction, LlamaCheck, LlamaEvent, checked_version,
    checked_version_from_line, extract_version,
    extract_version_after_label, extract_version_from_line, first_version_token,
    install_plan as llama_install_plan, llama_check_step, looks_like_version, parse_compute_caps,
};

const TALKATIVE: CudaOptions = CudaOptions { verbose: true, interactive: true };

fn texts(lines: &[ezllama::cuda_toolkit::ConsoleLine]) -> Vec<(String, bool)> {
    lines.iter().map(|l| (l.text.clone(), l.to_stderr)).collect()
}

#[test]
fn cuda_version_is_read_from_nvcc_output() {
    let out = "nvcc: NVIDIA (R) Cuda compiler driver\nCuda compilation tools, release 12.4, V12.4.131\n";
    assert_eq!(parse_cuda_version(out).as_deref(), Some("12.4"));
    assert_eq!(parse_cuda_version("release  11.8 ").as_deref(), Some("11.8"));
    assert_eq!(parse_cuda_version("release ,x").as_deref(), Some(""));
    assert_eq!(parse_cuda_version("no marker here"), None);
    assert_eq!(parse_cuda_version("Release 12.4"), None);
}

#[test]
fn yes_answers() {
    for yes in ["y", "Y", "yes", "YES", "  Yes \n", "예", "ㅇ", " 예\r\n"] {
        assert!(is_yes(yes), "{yes:?}");
    }
    for no in ["", "n", "no", "ye", "yess", "y y", "아니오"] {
        assert!(!is_yes(no), "{no:?}");
    }
}

#[test]
fn cuda_probes_and_plans() {
    let (program, args) = probe(0);
    assert_eq!(program, "apt");
    assert_eq!(args, vec!["--version".to_string()]);
    let (program, args) = probe(3);
    assert_eq!(program, "pacman");
    assert_eq!(args, vec!["-V".to_string()]);
    let (program, _) = probe(5);
    assert_eq!(program, "brew");

    let plan = cuda_install_plan(Some(1));
    assert_eq!(plan.message, "sudo dnf install -y cuda-toolkit");
    assert_eq!(plan.command.as_deref(), Some("sudo dnf install -y cuda-toolkit"));
    let plan = cuda_install_plan(None);
    assert!(plan.command.is_none());
    assert!(plan.message.starts_with("Unable to determine"));
}

#[test]
fn cuda_check_reports_installed_version() {
    let s = cuda_check_step(CudaCheck::Start, &TALKATIVE, CudaEvent::Begin);
    assert!(matches!(s.action, CudaAction::QueryVersion));
    assert!(s.output.is_empty());
    let out = "Cuda compilation tools, release 12.4, V12.4.131".to_string();
    let s = cuda_check_step(s.state, &TALKATIVE, CudaEvent::VersionOutput(Some(out)));
    assert!(matches!(s.state, CudaCheck::Finished));
    assert!(matches!(s.action, CudaAction::Finish));
    assert_eq!(
        texts(&s.output),
        vec![
            ("CUDA Toolkit is installed.".to_string(), false),
            ("Version: 12.4".to_string(), false),
        ]
    );
}

#[test]
fn cuda_check_probes_until_a_manager_is_found_and_installs_on_yes() {
    let s = cuda_check_step(CudaCheck::Querying, &TALKATIVE, CudaEvent::VersionOutput(None));
    assert_eq!(texts(&s.output), vec![("CUDA Toolkit is not installed.".to_string(), false)]);
    match &s.action {
        CudaAction::Probe(p, a) => {
            assert_eq!(p, "apt");
            assert_eq!(a, &vec!["--version".to_string()]);
        }
        _ => panic!("expected a probe"),
    }
    let s = cuda_check_step(s.state, &TALKATIVE, CudaEvent::ProbeResult(false));
    match &s.action {
        CudaAction::Probe(p, _) => assert_eq!(p, "dnf"),
        _ => panic!("expected a probe"),
    }
    let s = cuda_check_step(s.state, &TALKATIVE, CudaEvent::ProbeResult(true));
    assert_eq!(
        texts(&s.output),
        vec![
            ("Installation command:".to_string(), false),
            ("sudo dnf install -y cuda-toolkit".to_string(), false),
        ]
    );
    match &s.action {
        CudaAction::Ask(p) => assert_eq!(p, "Install CUDA Toolkit? [y/N]: "),
        _ => panic!("expected a question"),
    }
    let s = cuda_check_step(s.state, &TALKATIVE, CudaEvent::Answer(Some("yes\n".to_string())));
    match &s.action {
        CudaAction::RunInstall(c) => assert_eq!(c, "sudo dnf install -y cuda-toolkit"),
        _ => panic!("expected the install"),
    }
    let failure = CudaEvent::InstallResult(Err("Exit code: 1".to_string()));
    let done = cuda_check_step(s.state, &TALKATIVE, failure);
    assert_eq!(
        texts(&done.output),
        vec![("Installation command failed: Exit code: 1".to_string(), true)]
    );
    let ok = cuda_check_step(CudaCheck::Installing, &TALKATIVE, CudaEvent::InstallResult(Ok(())));
    assert_eq!(texts(&ok.output), vec![("Installation command executed.".to_string(), false)]);
}

#[test]
fn cuda_check_skips_on_no_and_gives_up_without_manager() {
    let s = cuda_check_step(
        CudaCheck::Asking("brew install --cask cuda".to_string()),
        &TALKATIVE,
        CudaEvent::Answer(Some("n".to_string())),
    );
    assert!(matches!(s.action, CudaAction::Finish));
    assert_eq!(texts(&s.output), vec![("Skipping installation.".to_string(), false)]);

    let s = cuda_check_step(CudaCheck::Probing(5), &TALKATIVE, CudaEvent::ProbeResult(false));
    assert!(matches!(s.action, CudaAction::Finish));
    let out = texts(&s.output);
    assert_eq!(out.len(), 3);
    assert_eq!(out[0].0, "Installation command:");
    assert!(out[1].0.starts_with("Unable to determine"));
    assert!(out[2].0.starts_with("No automatic install command"));

    let s = cuda_check_step(CudaCheck::Start, &TALKATIVE, CudaEvent::ProbeResult(true));
    assert!(matches!(s.state, CudaCheck::Finished));
    assert!(s.output.is_empty());
}

#[test]
fn versions_are_read_from_tool_output() {
    assert_eq!(extract_version("version: 4567 (abcdef)\nbuilt with cc").as_deref(), Some("4567"));
    assert_eq!(extract_version("\n  \nllama-cli Version = v1.2.3\n").as_deref(), Some("1.2.3"));
    assert_eq!(extract_version("load_backend: x\nversion 0.0.1\n").as_deref(), Some("0.0.1"));
    assert_eq!(extract_version("no numbers\nat all"), None);
    assert_eq!(extract_version("tool v2.5 ready").as_deref(), Some("2.5"));
    assert_eq!(extract_version_from_line("VERSION: (b1234)").as_deref(), Some("b1234"));
    assert_eq!(extract_version_from_line("version: beta 1.0").as_deref(), Some("1.0"));
    assert_eq!(extract_version_from_line("plain 3.4 text").as_deref(), Some("3.4"));
    assert_eq!(extract_version_after_label(":= v7 ").as_deref(), Some("7"));
    assert_eq!(extract_version_after_label("  "), None);
    assert_eq!(extract_version_after_label("beta"), None);
    assert_eq!(first_version_token("a 1 b (v10.2)").as_deref(), Some("10.2"));
    assert_eq!(first_version_token("1 2 3"), None);
    assert!(looks_like_version("1.2"));
    assert!(!looks_like_version("12"));
    assert!(!looks_like_version("a.b"));
}

#[test]
fn llama_install_plan_builds_for_the_chosen_architectures() {
    let plan = llama_install_plan(Some("61;89"));
    let cmd = plan.command.expect("a command");
    assert_eq!(plan.message, cmd);
    assert!(cmd.starts_with("if [ -d llama.cpp ]; then cd llama.cpp; else git clone"));
    assert!(cmd.contains("-DCMAKE_CUDA_ARCHITECTURES=\"61;89\" && cmake --build build -j"));
    assert!(cmd.ends_with("~/.local/bin/llama-completion"));
    let none = llama_install_plan(None);
    assert!(none.command.is_none());
    assert_eq!(none.message, "No CUDA architecture was selected.");
}

fn query(step: &ezllama::llama_cpp::LlamaStep) -> String {
    match &step.action {
        LlamaAction::QueryVersion(t) => t.clone(),
        _ => panic!("expected a version query"),
    }
}

#[test]
fn llama_check_reports_three_versions_when_verbose() {
    let o = CheckOptions { verbose: true, interactive: true };
    let s = llama_check_step(LlamaCheck::Start, &o, LlamaEvent::Begin);
    assert_eq!(query(&s), "llama-cli");
    let s = llama_check_step(s.state, &o, LlamaEvent::VersionOutput(Some("version: 1 (a)".to_string())));
    assert_eq!(query(&s), "llama-server");
    let s = llama_check_step(s.state, &o, LlamaEvent::VersionOutput(Some("version: 2 (b)".to_string())));
    assert_eq!(query(&s), "llama-completion");
    let s = llama_check_step(s.state, &o, LlamaEvent::VersionOutput(Some("version: 3 (c)".to_string())));
    assert!(matches!(s.action, LlamaAction::Finish(Ok(()))));
    assert_eq!(
        s.output,
        vec![
            "llama.cpp is installed.".to_string(),
            "llama-cli version: 1".to_string(),
            "llama-server version: 2".to_string(),
            "llama-completion version: 3".to_string(),
        ]
    );
}

#[test]
fn quiet_automated_check_fails_without_asking() {
    let o = CheckOptions { verbose: false, interactive: false };
    let s = llama_check_step(
        LlamaCheck::Versions(vec![], false),
        &o,
        LlamaEvent::VersionOutput(None),
    );
    assert!(s.output.is_empty());
    assert!(matches!(s.action, LlamaAction::DetectArchitectures));
    let s = llama_check_step(s.state, &o, LlamaEvent::Detected(Some("8.9\n".to_string())));
    assert!(s.output.is_empty());
    match s.action {
        LlamaAction::Finish(Err(CheckFailure::NotFound(m))) => {
            assert_eq!(m, "llama-cli, llama-server, and llama-completion are not installed.")
        }
        _ => panic!("expected a failure"),
    }
    let s = llama_check_step(LlamaCheck::Detecting, &o, LlamaEvent::Detected(None));
    assert!(s.output.is_empty());
    match s.action {
        LlamaAction::Finish(Err(CheckFailure::NotFound(m))) => {
            assert!(m.starts_with("No automatic install command could be determined."))
        }
        _ => panic!("expected a failure"),
    }
}

#[test]
fn interactive_check_selects_asks_installs_and_verifies() {
    let o = CheckOptions { verbose: true, interactive: true };
    let s = llama_check_step(LlamaCheck::Detecting, &o, LlamaEvent::Detected(Some("bad".to_string())));
    assert_eq!(s.output, vec!["Unable to detect CUDA architecture automatically.".to_string()]);
    assert!(matches!(s.action, LlamaAction::SelectArchitecture));
    let s = llama_check_step(s.state, &o, LlamaEvent::Selected(Some(Some("86".to_string()))));
    assert_eq!(s.output.len(), 2);
    assert_eq!(s.output[0], "Installation command:");
    assert!(s.output[1].contains("-DCMAKE_CUDA_ARCHITECTURES=\"86\""));
    match &s.action {
        LlamaAction::Ask(p) => assert_eq!(p, "Install llama.cpp? [y/N]: "),
        _ => panic!("expected a question"),
    }
    let s = llama_check_step(s.state, &o, LlamaEvent::Answer(Some("Y".to_string())));
    match &s.action {
        LlamaAction::RunInstall(c) => assert!(c.contains("\"86\"")),
        _ => panic!("expected the install"),
    }
    let s = llama_check_step(s.state, &o, LlamaEvent::Installed(true));
    assert_eq!(s.output, vec!["Installation command executed.".to_string()]);
    assert_eq!(query(&s), "llama-cli");
    let s = llama_check_step(s.state, &o, LlamaEvent::VersionOutput(Some("1.0".to_string())));
    let s = llama_check_step(s.state, &o, LlamaEvent::VersionOutput(None));
    match s.action {
        LlamaAction::Finish(Err(CheckFailure::NotFound(m))) => assert!(m.contains("still not available")),
        _ => panic!("expected a failure"),
    }
}

#[test]
fn declined_or_failed_steps_end_the_check() {
    let o = CheckOptions { verbose: true, interactive: true };
    let s = llama_check_step(LlamaCheck::Asking("cmd".to_string()), &o, LlamaEvent::Answer(None));
    assert_eq!(s.output, vec!["Skipping installation.".to_string()]);
    assert!(matches!(s.action, LlamaAction::Finish(Err(CheckFailure::Interrupted(_)))));
    let s = llama_check_step(LlamaCheck::Selecting, &o, LlamaEvent::Selected(Some(None)));
    match s.action {
        LlamaAction::Finish(Err(CheckFailure::NotFound(m))) => assert!(m.starts_with("No automatic")),
        _ => panic!("expected a failure"),
    }
    let s = llama_check_step(LlamaCheck::Selecting, &o, LlamaEvent::Selected(None));
    assert!(matches!(s.action, LlamaAction::Finish(Err(CheckFailure::Failed))));
    let s = llama_check_step(LlamaCheck::Installing, &o, LlamaEvent::Installed(false));
    assert!(matches!(s.action, LlamaAction::Finish(Err(CheckFailure::Failed))));
}

#[test]
fn automated_cuda_check_is_silent_and_never_asks() {
    let quiet = CudaOptions { verbose: false, interactive: false };
    let s = cuda_check_step(
        CudaCheck::Querying,
        &quiet,
        CudaEvent::VersionOutput(Some("release 12.4, V12.4.131".to_string())),
    );
    assert!(s.output.is_empty());
    assert!(matches!(s.action, CudaAction::Finish));
    let s = cuda_check_step(CudaCheck::Querying, &quiet, CudaEvent::VersionOutput(None));
    assert!(s.output.is_empty());
    assert!(matches!(s.action, CudaAction::Probe(_, _)));
    let s = cuda_check_step(s.state, &quiet, CudaEvent::ProbeResult(true));
    assert!(s.output.is_empty());
    assert!(matches!(s.state, CudaCheck::Finished));
    assert!(matches!(s.action, CudaAction::Finish));
}

#[test]
fn version_place_follows_the_unicode_lower_case_in_bytes() {
    // `Ⱥ` takes two bytes and its lower case three, so the place after `version`
    // in the lowered line lies two bytes further on in the line itself.
    assert_eq!(
        checked_version_from_line("ȺȺ version 1.2"),
        Some(Some(".2".to_string()))
    );
    assert_eq!(checked_version_from_line("İversioné"), None);
    assert_eq!(checked_version_from_line("plain 3.4"), Some(Some("3.4".to_string())));
    assert_eq!(checked_version("version 2.0\nİversioné"), Some(Some("2.0".to_string())));
    assert_eq!(checked_version("no digits\nİversioné\nversion 2.0"), None);
    assert_eq!(checked_version("nothing here"), Some(None));
}

#[test]
fn unreadable_version_output_stops_the_check() {
    let o = CheckOptions { verbose: true, interactive: true };
    let s = llama_check_step(
        LlamaCheck::Versions(vec![], false),
        &o,
        LlamaEvent::VersionOutput(Some("İversioné".to_string())),
    );
    assert!(s.output.is_empty());
    assert!(matches!(s.state, LlamaCheck::Finished));
    match s.action {
        LlamaAction::Abort(m) => assert_eq!(
            m,
            "The version output of llama-cli cannot be read: a byte offset falls inside a character."
        ),
        _ => panic!("expected the check to stop"),
    }
}

#[test]
fn architectures_ignore_order_and_repeats() {
    assert_eq!(parse_compute_caps("6.1\n8.9\n"), parse_compute_caps(" 8.9\n\n8.9\n6.1"));
    assert_eq!(parse_compute_caps("8.6\n7.5").as_deref(), Some("75;86"));
}
