use ezllama::cli::{
    Launch, ParsedArgs, RunMode, RunModeError, Tool, client_input, decimal_string,
    is_supported_context_size, launch_plan, parse_args, parse_ctx_size, parse_run_mode,
    parse_u32, run_mode_from_selection, run_mode_options, tool_command, tool_for,
};
use ezllama::llama_cpp::ClientInput;

fn args(list: &[&str]) -> Vec<String> {
    list.iter().map(|s| s.to_string()).collect()
}

fn parsed(list: &[&str]) -> Result<ParsedArgs, String> {
    parse_args(&args(list))
}

#[test]
fn options_are_read_with_their_values() {
    match parsed(&["--mode", "client", "--model", "Qwen/Qwen3-4B-GGUF", "--ctx-size", "8192", "--prompt", "hi"]) {
        Ok(ParsedArgs::Run(a)) => {
            assert!(a.run_mode == Some(RunMode::Client));
            assert_eq!(a.model.as_deref(), Some("Qwen/Qwen3-4B-GGUF"));
            assert_eq!(a.ctx_size, Some(8192));
            assert_eq!(a.prompt.as_deref(), Some("hi"));
            assert_eq!(a.file, None);
            assert!(!a.list);
        }
        _ => panic!("a valid command line"),
    }
    match parsed(&["--list", "--model", "a", "--model", "b", "--file", "f.txt"]) {
        Ok(ParsedArgs::Run(a)) => {
            assert!(a.list);
            assert_eq!(a.model.as_deref(), Some("b"));
            assert_eq!(a.file.as_deref(), Some("f.txt"));
        }
        _ => panic!("a valid command line"),
    }
    match parsed(&[]) {
        Ok(ParsedArgs::Run(a)) => {
            assert!(a.run_mode.is_none() && a.model.is_none() && a.ctx_size.is_none() && !a.list)
        }
        _ => panic!("an empty command line"),
    }
}

#[test]
fn help_stops_reading() {
    assert!(matches!(parsed(&["--help"]), Ok(ParsedArgs::Help)));
    assert!(matches!(parsed(&["--list", "-h", "--bogus"]), Ok(ParsedArgs::Help)));
    assert!(matches!(parsed(&["--bogus", "-h"]), Err(_)));
}

#[test]
fn bad_command_lines_are_refused_with_a_message() {
    assert_eq!(parsed(&["--mode"]).err().as_deref(), Some("--mode requires a value."));
    assert_eq!(parsed(&["--model"]).err().as_deref(), Some("--model requires a value."));
    assert_eq!(parsed(&["--prompt"]).err().as_deref(), Some("--prompt requires a value."));
    assert_eq!(parsed(&["--file"]).err().as_deref(), Some("--file requires a value."));
    assert_eq!(parsed(&["--ctx-size"]).err().as_deref(), Some("--ctx-size requires a value."));
    assert_eq!(
        parsed(&["--mode", "batch"]).err().as_deref(),
        Some("Invalid value for --mode: batch")
    );
    assert_eq!(parsed(&["--verbose"]).err().as_deref(), Some("Unknown argument: --verbose"));
    assert_eq!(
        parsed(&["--ctx-size", "big"]).err().as_deref(),
        Some("Invalid value for --ctx-size: big")
    );
    assert_eq!(
        parsed(&["--ctx-size", "1000"]).err().as_deref(),
        Some("Unsupported value for --ctx-size: 1000. Supported values are 4096, 8192, 16384, and 32768.")
    );
}

#[test]
fn run_modes_by_name() {
    assert!(parse_run_mode("client") == Ok(RunMode::Client));
    assert!(parse_run_mode("server") == Ok(RunMode::Server));
    assert_eq!(parse_run_mode("Client").err().as_deref(), Some("Invalid value for --mode: Client"));
}

#[test]
fn context_sizes() {
    for size in [4096u32, 8192, 16384, 32768] {
        assert!(is_supported_context_size(size));
        assert_eq!(parse_ctx_size(&size.to_string()), Ok(size));
    }
    assert!(!is_supported_context_size(2048));
    assert_eq!(parse_ctx_size("+4096"), Ok(4096));
    assert_eq!(parse_ctx_size("04096"), Ok(4096));
    assert_eq!(
        parse_ctx_size("-4096").err().as_deref(),
        Some("Invalid value for --ctx-size: -4096")
    );
    assert_eq!(
        parse_ctx_size("4294967296").err().as_deref(),
        Some("Invalid value for --ctx-size: 4294967296")
    );
    assert_eq!(
        parse_ctx_size("+0").err().as_deref(),
        Some("Unsupported value for --ctx-size: 0. Supported values are 4096, 8192, 16384, and 32768.")
    );
}

#[test]
fn numbers_read_as_str_parse_does() {
    for text in ["0", "7", "+12", "4294967295", "4294967296", "", "+", "1_0", " 1", "99999999999", "-1"] {
        assert_eq!(parse_u32(text), text.parse::<u32>().ok(), "{text:?}");
    }
}

#[test]
fn decimal_strings_read_back() {
    for n in [0u32, 9, 10, 4096, 1234567, u32::MAX] {
        let s = decimal_string(n);
        assert_eq!(s, n.to_string());
        assert_eq!(parse_u32(&s), Some(n));
    }
}

#[test]
fn launch_rules() {
    let run = |list: &[&str]| match parsed(list) {
        Ok(ParsedArgs::Run(a)) => launch_plan(&a),
        _ => panic!("a valid command line"),
    };
    assert!(matches!(run(&["--list", "--prompt", "a", "--file", "b"]), Ok(Launch::ListModels)));
    assert_eq!(
        run(&["--prompt", "a", "--file", "b"]).err().as_deref(),
        Some("--prompt and --file cannot be used together.")
    );
    assert_eq!(
        run(&["--mode", "server", "--prompt", "a"]).err().as_deref(),
        Some("--prompt and --file can only be used with --mode client.")
    );
    assert!(matches!(
        run(&["--mode", "client", "--model", "m", "--prompt", "a"]),
        Ok(Launch::Run { automated: true })
    ));
    assert!(matches!(
        run(&["--mode", "client", "--prompt", "a"]),
        Ok(Launch::Run { automated: false })
    ));
    assert!(matches!(run(&["--model", "m", "--file", "f"]), Ok(Launch::Run { automated: false })));
    assert!(matches!(run(&["--mode", "server"]), Ok(Launch::Run { automated: false })));
}

#[test]
fn tools_and_inputs() {
    assert!(tool_for(RunMode::Client, true) == Tool::Completion);
    assert!(tool_for(RunMode::Client, false) == Tool::Cli);
    assert!(tool_for(RunMode::Server, true) == Tool::Server);
    assert_eq!(tool_command(Tool::Completion), "llama-completion");
    assert_eq!(tool_command(Tool::Cli), "llama-cli");
    assert_eq!(tool_command(Tool::Server), "llama-server");
    assert!(matches!(client_input(Some("p".to_string()), None), Some(ClientInput::Prompt(p)) if p == "p"));
    assert!(matches!(client_input(None, Some("f".to_string())), Some(ClientInput::File(f)) if f == "f"));
    assert!(client_input(None, None).is_none());
}

#[test]
fn run_mode_selection() {
    let options = run_mode_options();
    assert_eq!(options.len(), 2);
    assert_eq!(options[0].display, "Client (llama-cli)");
    assert_eq!(options[1].value, "server");
    assert!(run_mode_from_selection(Some("client".to_string())).ok() == Some(RunMode::Client));
    assert!(run_mode_from_selection(Some("server".to_string())).ok() == Some(RunMode::Server));
    match run_mode_from_selection(Some("other".to_string())) {
        Err(RunModeError::Invalid(m)) => assert_eq!(m, "Invalid run mode value: other"),
        _ => panic!("an unknown value is invalid"),
    }
    match run_mode_from_selection(None) {
        Err(RunModeError::Canceled(m)) => assert_eq!(m, "Run mode selection was canceled."),
        _ => panic!("no selection is a cancel"),
    }
}
