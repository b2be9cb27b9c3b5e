//! The command line: options and their values, the rules that tie them
//! together, the run mode picked by hand, and the tool to run.
use vstd::prelude::*;
use crate::list_picker::PickerItem;
use crate::llama_cpp::ClientInput;
use crate::text::{chars_of, is_ascii_digit, opt_view, views};

verus! {

/// Chat with the model, or serve it.
#[derive(Clone, Copy, PartialEq, Eq, Structural)]
pub enum RunMode {
    Client,
    Server,
}

/// The options given on the command line.
pub struct CliArgs {
    pub run_mode: Option<RunMode>,
    pub model: Option<String>,
    pub ctx_size: Option<u32>,
    pub prompt: Option<String>,
    pub file: Option<String>,
    pub list: bool,
}

/// What the command line asks for: the usage text, or a run with these options.
pub enum ParsedArgs {
    Help,
    Run(CliArgs),
}

// ---------------------------------------------------------------------------
// Numbers
// ---------------------------------------------------------------------------
/// The value of a decimal digit.
pub open spec fn digit_value(c: char) -> int {
    if c == '0' {
        0
    } else if c == '1' {
        1
    } else if c == '2' {
        2
    } else if c == '3' {
        3
    } else if c == '4' {
        4
    } else if c == '5' {
        5
    } else if c == '6' {
        6
    } else if c == '7' {
        7
    } else if c == '8' {
        8
    } else {
        9
    }
}

fn digit_value_of(c: char) -> (d: u32)
    ensures
        d == digit_value(c),
{
    if c == '0' {
        0
    } else if c == '1' {
        1
    } else if c == '2' {
        2
    } else if c == '3' {
        3
    } else if c == '4' {
        4
    } else if c == '5' {
        5
    } else if c == '6' {
        6
    } else if c == '7' {
        7
    } else if c == '8' {
        8
    } else {
        9
    }
}

/// The number that the decimal digits `d` write.
pub open spec fn decimal_value(d: Seq<char>) -> int
    decreases d.len(),
{
    if d.len() == 0 {
        0
    } else {
        10 * decimal_value(d.drop_last()) + digit_value(d.last())
    }
}

pub open spec fn all_digits(s: Seq<char>) -> bool {
    forall|i: int| 0 <= i < s.len() ==> is_ascii_digit(#[trigger] s[i])
}

/// `u32::from_str`: an optional `+`, then at least one decimal digit and nothing
/// else, with a value that fits in 32 bits.
pub open spec fn parsed_u32(s: Seq<char>) -> Option<u32> {
    let d = if s.len() > 0 && s[0] == '+' {
        s.drop_first()
    } else {
        s
    };
    if d.len() > 0 && all_digits(d) && decimal_value(d) <= u32::MAX {
        Some(decimal_value(d) as u32)
    } else {
        None
    }
}

proof fn lemma_decimal_grows(d: Seq<char>, i: int)
    requires
        0 <= i <= d.len(),
        all_digits(d),
    ensures
        decimal_value(d) >= decimal_value(d.take(i)) >= 0,
    decreases d.len() - i,
{
    if i < d.len() {
        lemma_decimal_grows(d, i + 1);
        assert(d.take(i + 1).drop_last() =~= d.take(i));
        assert(is_ascii_digit(d[i]));
    } else {
        assert(d.take(i) =~= d);
    }
    lemma_decimal_nonneg(d.take(i));
}

proof fn lemma_decimal_nonneg(d: Seq<char>)
    requires
        all_digits(d),
    ensures
        decimal_value(d) >= 0,
    decreases d.len(),
{
    if d.len() > 0 {
        assert(is_ascii_digit(d.last()));
        lemma_decimal_nonneg(d.drop_last());
    }
}

/// Reads a `u32` as `str::parse` does (see `parsed_u32`).
pub fn parse_u32(value: &str) -> (r: Option<u32>)
    ensures
        r == parsed_u32(value@),
{
    let v = chars_of(value);
    let start: usize = if v.len() > 0 && v[0] == '+' {
        1
    } else {
        0
    };
    let ghost d = if v@.len() > 0 && v@[0] == '+' {
        v@.drop_first()
    } else {
        v@
    };
    assert(d =~= v@.subrange(start as int, v@.len() as int));
    if start == v.len() {
        return None;
    }
    let mut acc: u64 = 0;
    let mut i = start;
    assert(d.take(0) =~= Seq::<char>::empty());
    while i < v.len()
        invariant
            start <= i <= v@.len(),
            v@ == value@,
            d == (if v@.len() > 0 && v@[0] == '+' {
                v@.drop_first()
            } else {
                v@
            }),
            d == v@.subrange(start as int, v@.len() as int),
            all_digits(d.take(i - start)),
            acc == decimal_value(d.take(i - start)),
            acc <= u32::MAX,
        decreases v@.len() - i,
    {
        let c = v[i];
        if !('0' <= c && c <= '9') {
            assert(d[i - start] == c);
            assert(!is_ascii_digit(d[i - start]));
            assert(!all_digits(d));
            return None;
        }
        let digit = digit_value_of(c) as u64;
        let next = acc * 10 + digit;
        let ghost k = i - start;
        assert(digit == digit_value(c));
        assert(d.take(k + 1).drop_last() =~= d.take(k));
        assert(d.take(k + 1).last() == c);
        assert(all_digits(d.take(k + 1))) by {
            assert forall|j: int| 0 <= j < k + 1 implies is_ascii_digit(#[trigger] d.take(k + 1)[j]) by {
                if j < k {
                    assert(d.take(k + 1)[j] == d.take(k)[j]);
                }
            }
        }
        if next > 0xFFFF_FFFF {
            proof {
                assert(next == decimal_value(d.take(k + 1)));
                if all_digits(d) {
                    lemma_decimal_grows(d, k + 1);
                }
            }
            return None;
        }
        acc = next;
        i = i + 1;
    }
    assert(d.take(d.len() as int) =~= d);
    Some(acc as u32)
}

/// The decimal digits of `n`, without leading zeros.
pub open spec fn decimal(n: nat) -> Seq<char>
    decreases n,
{
    if n < 10 {
        seq![digit_char(n)]
    } else {
        decimal(n / 10).push(digit_char(n % 10))
    }
}

pub open spec fn digit_char(d: nat) -> char {
    if d == 0 {
        '0'
    } else if d == 1 {
        '1'
    } else if d == 2 {
        '2'
    } else if d == 3 {
        '3'
    } else if d == 4 {
        '4'
    } else if d == 5 {
        '5'
    } else if d == 6 {
        '6'
    } else if d == 7 {
        '7'
    } else if d == 8 {
        '8'
    } else {
        '9'
    }
}

/// The decimal digits of `n` as a string (see `decimal`).
pub fn decimal_string(n: u32) -> (s: String)
    ensures
        s@ == decimal(n as nat),
    decreases n,
{
    let d = n % 10;
    let c = digit_of(d);
    if n < 10 {
        let mut s = String::new();
        s.push(c);
        assert(s@ =~= decimal(n as nat));
        s
    } else {
        let mut s = decimal_string(n / 10);
        s.push(c);
        s
    }
}

fn digit_of(d: u32) -> (c: char)
    requires
        d < 10,
    ensures
        c == digit_char(d as nat),
{
    if d == 0 {
        '0'
    } else if d == 1 {
        '1'
    } else if d == 2 {
        '2'
    } else if d == 3 {
        '3'
    } else if d == 4 {
        '4'
    } else if d == 5 {
        '5'
    } else if d == 6 {
        '6'
    } else if d == 7 {
        '7'
    } else if d == 8 {
        '8'
    } else {
        '9'
    }
}

fn concat(a: &str, b: &str) -> (s: String)
    ensures
        s@ == a@ + b@,
{
    let mut s = String::from_str(a);
    s.append(b);
    s
}

// ---------------------------------------------------------------------------
// Option values
// ---------------------------------------------------------------------------
/// `client` or `server`.
pub open spec fn run_mode_named(value: Seq<char>) -> Option<RunMode> {
    if value == "client"@ {
        Some(RunMode::Client)
    } else if value == "server"@ {
        Some(RunMode::Server)
    } else {
        None
    }
}

fn str_eq(a: &str, b: &str) -> (r: bool)
    ensures
        r == (a@ == b@),
{
    let x = chars_of(a);
    let y = chars_of(b);
    if x.len() != y.len() {
        return false;
    }
    let mut i: usize = 0;
    while i < x.len()
        invariant
            x@.len() == y@.len(),
            x@ == a@,
            y@ == b@,
            i <= x@.len(),
            forall|j: int| 0 <= j < i ==> x@[j] == y@[j],
        decreases x@.len() - i,
    {
        if x[i] != y[i] {
            assert(x@[i as int] != y@[i as int]);
            return false;
        }
        i = i + 1;
    }
    assert(x@ =~= y@);
    true
}

/// The run mode a `--mode` value names; the error for any other value.
pub fn parse_run_mode(value: &str) -> (r: Result<RunMode, String>)
    ensures
        match run_mode_named(value@) {
            Some(m) => r == Ok::<RunMode, String>(m),
            None => r matches Err(e) && e@ == "Invalid value for --mode: "@ + value@,
        },
{
    if str_eq(value, "client") {
        Ok(RunMode::Client)
    } else if str_eq(value, "server") {
        Ok(RunMode::Server)
    } else {
        Err(concat("Invalid value for --mode: ", value))
    }
}

/// The context sizes a run accepts.
pub open spec fn supported_context_size(size: u32) -> bool {
    size == 4096 || size == 8192 || size == 16384 || size == 32768
}

/// Is `size` one of the accepted context sizes (see `supported_context_size`)?
pub fn is_supported_context_size(size: u32) -> (b: bool)
    ensures
        b == supported_context_size(size),
{
    size == 4096 || size == 8192 || size == 16384 || size == 32768
}

pub open spec fn unsupported_size_message(size: u32) -> Seq<char> {
    "Unsupported value for --ctx-size: "@ + decimal(size as nat)
        + ". Supported values are 4096, 8192, 16384, and 32768."@
}

/// The context size a `--ctx-size` value gives: a number, and one of the
/// supported sizes; the error otherwise.
pub fn parse_ctx_size(value: &str) -> (r: Result<u32, String>)
    ensures
        match parsed_u32(value@) {
            None => r matches Err(e) && e@ == "Invalid value for --ctx-size: "@ + value@,
            Some(n) => if supported_context_size(n) {
                r == Ok::<u32, String>(n)
            } else {
                r matches Err(e) && e@ == unsupported_size_message(n)
            },
        },
{
    let size = match parse_u32(value) {
        None => {
            return Err(concat("Invalid value for --ctx-size: ", value));
        },
        Some(n) => n,
    };
    if is_supported_context_size(size) {
        Ok(size)
    } else {
        let mut e = String::from_str("Unsupported value for --ctx-size: ");
        let digits = decimal_string(size);
        e.append(digits.as_str());
        e.append(". Supported values are 4096, 8192, 16384, and 32768.");
        Err(e)
    }
}

} // verus!

verus! {

// ---------------------------------------------------------------------------
// The command line
// ---------------------------------------------------------------------------
/// The options as plain values.
pub ghost struct ArgsView {
    pub run_mode: Option<RunMode>,
    pub model: Option<Seq<char>>,
    pub ctx_size: Option<u32>,
    pub prompt: Option<Seq<char>>,
    pub file: Option<Seq<char>>,
    pub list: bool,
}

/// What reading the command line gives: the usage text, options, or an error message.
pub ghost enum ParseView {
    Help,
    Run(ArgsView),
    Error(Seq<char>),
}

pub open spec fn args_view(a: CliArgs) -> ArgsView {
    ArgsView {
        run_mode: a.run_mode,
        model: opt_view(a.model),
        ctx_size: a.ctx_size,
        prompt: opt_view(a.prompt),
        file: opt_view(a.file),
        list: a.list,
    }
}

pub open spec fn no_args() -> ArgsView {
    ArgsView { run_mode: None, model: None, ctx_size: None, prompt: None, file: None, list: false }
}

pub open spec fn missing_value(flag: Seq<char>) -> Seq<char> {
    flag + " requires a value."@
}

/// Reading `args[i..]` with the options read so far: `--help` or `-h` stops with the
/// usage text; each option with a value takes the next argument, a later one
/// replacing an earlier; the first bad argument stops with its message.
pub open spec fn parse_from(args: Seq<Seq<char>>, i: int, acc: ArgsView) -> ParseView
    decreases args.len() - i,
{
    if i < 0 || i >= args.len() {
        ParseView::Run(acc)
    } else {
        let a = args[i];
        if a == "--help"@ || a == "-h"@ {
            ParseView::Help
        } else if a == "--list"@ {
            parse_from(args, i + 1, ArgsView { list: true, ..acc })
        } else if a == "--mode"@ || a == "--model"@ || a == "--ctx-size"@ || a == "--prompt"@ || a
            == "--file"@ {
            if i + 1 >= args.len() {
                ParseView::Error(missing_value(a))
            } else {
                let v = args[i + 1];
                if a == "--mode"@ {
                    match run_mode_named(v) {
                        Some(m) => parse_from(args, i + 2, ArgsView { run_mode: Some(m), ..acc }),
                        None => ParseView::Error("Invalid value for --mode: "@ + v),
                    }
                } else if a == "--model"@ {
                    parse_from(args, i + 2, ArgsView { model: Some(v), ..acc })
                } else if a == "--ctx-size"@ {
                    match parsed_u32(v) {
                        None => ParseView::Error("Invalid value for --ctx-size: "@ + v),
                        Some(n) => if supported_context_size(n) {
                            parse_from(args, i + 2, ArgsView { ctx_size: Some(n), ..acc })
                        } else {
                            ParseView::Error(unsupported_size_message(n))
                        },
                    }
                } else if a == "--prompt"@ {
                    parse_from(args, i + 2, ArgsView { prompt: Some(v), ..acc })
                } else {
                    parse_from(args, i + 2, ArgsView { file: Some(v), ..acc })
                }
            }
        } else {
            ParseView::Error("Unknown argument: "@ + a)
        }
    }
}

/// What the command line `args` (the program name left out) asks for.
pub open spec fn parsed_args(args: Seq<Seq<char>>) -> ParseView {
    parse_from(args, 0, no_args())
}

pub open spec fn parse_result_matches(r: Result<ParsedArgs, String>, v: ParseView) -> bool {
    match v {
        ParseView::Help => r matches Ok(ParsedArgs::Help),
        ParseView::Run(a) => r matches Ok(ParsedArgs::Run(c)) && args_view(c) == a,
        ParseView::Error(m) => r matches Err(e) && e@ == m,
    }
}

/// Reads the command line (the program name left out; see `parsed_args`).
pub fn parse_args(args: &Vec<String>) -> (r: Result<ParsedArgs, String>)
    ensures
        parse_result_matches(r, parsed_args(views(args@))),
{
    let ghost all = views(args@);
    let mut run_mode: Option<RunMode> = None;
    let mut model: Option<String> = None;
    let mut ctx_size: Option<u32> = None;
    let mut prompt: Option<String> = None;
    let mut file: Option<String> = None;
    let mut list = false;
    let mut i: usize = 0;
    while i < args.len()
        invariant
            all == views(args@),
            i <= args@.len(),
            parsed_args(all) == parse_from(
                all,
                i as int,
                ArgsView {
                    run_mode,
                    model: opt_view(model),
                    ctx_size,
                    prompt: opt_view(prompt),
                    file: opt_view(file),
                    list,
                },
            ),
        decreases args@.len() - i,
    {
        let a = args[i].as_str();
        assert(all[i as int] == a@);
        if str_eq(a, "--help") || str_eq(a, "-h") {
            return Ok(ParsedArgs::Help);
        } else if str_eq(a, "--list") {
            list = true;
            i = i + 1;
        } else if str_eq(a, "--mode") || str_eq(a, "--model") || str_eq(a, "--ctx-size") || str_eq(
            a,
            "--prompt",
        ) || str_eq(a, "--file") {
            if i + 1 >= args.len() {
                let mut e = String::from_str(a);
                e.append(" requires a value.");
                return Err(e);
            }
            let v = args[i + 1].as_str();
            assert(all[i + 1] == v@);
            if str_eq(a, "--mode") {
                match parse_run_mode(v) {
                    Ok(m) => {
                        run_mode = Some(m);
                    },
                    Err(e) => {
                        return Err(e);
                    },
                }
            } else if str_eq(a, "--model") {
                model = Some(String::from_str(v));
            } else if str_eq(a, "--ctx-size") {
                match parse_ctx_size(v) {
                    Ok(n) => {
                        ctx_size = Some(n);
                    },
                    Err(e) => {
                        return Err(e);
                    },
                }
            } else if str_eq(a, "--prompt") {
                prompt = Some(String::from_str(v));
            } else {
                file = Some(String::from_str(v));
            }
            i = i + 2;
        } else {
            return Err(concat("Unknown argument: ", a));
        }
    }
    let c = CliArgs { run_mode, model, ctx_size, prompt, file, list };
    Ok(ParsedArgs::Run(c))
}

// ---------------------------------------------------------------------------
// The rules of a run
// ---------------------------------------------------------------------------
/// What a run does: list the models, or launch a tool; a run with a client mode,
/// a model and a prompt or file is automated (no questions, no status output).
pub enum Launch {
    ListModels,
    Run { automated: bool },
}

pub open spec fn automated(a: ArgsView) -> bool {
    a.run_mode == Some(RunMode::Client) && a.model is Some && (a.prompt is Some || a.file is Some)
}

/// The rules the options obey: listing comes first; a prompt and a file exclude
/// each other; both are for the client only.
pub open spec fn launch_of(a: ArgsView) -> Result<Option<bool>, Seq<char>> {
    if a.list {
        Ok(None)
    } else if a.prompt is Some && a.file is Some {
        Err("--prompt and --file cannot be used together."@)
    } else if a.run_mode == Some(RunMode::Server) && (a.prompt is Some || a.file is Some) {
        Err("--prompt and --file can only be used with --mode client."@)
    } else {
        Ok(Some(automated(a)))
    }
}

/// What a run with these options does (see `launch_of`).
pub fn launch_plan(args: &CliArgs) -> (r: Result<Launch, String>)
    ensures
        match launch_of(args_view(*args)) {
            Ok(None) => r matches Ok(Launch::ListModels),
            Ok(Some(b)) => r matches Ok(Launch::Run { automated }) && automated == b,
            Err(m) => r matches Err(e) && e@ == m,
        },
{
    if args.list {
        return Ok(Launch::ListModels);
    }
    if args.prompt.is_some() && args.file.is_some() {
        return Err(String::from_str("--prompt and --file cannot be used together."));
    }
    let server = match args.run_mode {
        Some(RunMode::Server) => true,
        _ => false,
    };
    if server && (args.prompt.is_some() || args.file.is_some()) {
        return Err(String::from_str("--prompt and --file can only be used with --mode client."));
    }
    let client = match args.run_mode {
        Some(RunMode::Client) => true,
        _ => false,
    };
    let automated = client && args.model.is_some() && (args.prompt.is_some()
        || args.file.is_some());
    Ok(Launch::Run { automated })
}

/// What the client is given: the prompt, or the file; nothing when neither was.
pub fn client_input(prompt: Option<String>, file: Option<String>) -> (r: Option<ClientInput>)
    requires
        !(prompt is Some && file is Some),
    ensures
        match (prompt, file) {
            (Some(p), _) => r matches Some(ClientInput::Prompt(q)) && q@ == p@,
            (None, Some(f)) => r matches Some(ClientInput::File(g)) && g@ == f@,
            (None, None) => r is None,
        },
{
    match (prompt, file) {
        (Some(p), _) => Some(ClientInput::Prompt(p)),
        (None, Some(f)) => Some(ClientInput::File(f)),
        (None, None) => None,
    }
}

/// The tool a run launches.
#[derive(Clone, Copy, PartialEq, Eq, Structural)]
pub enum Tool {
    /// `llama-cli`: an interactive chat.
    Cli,
    /// `llama-completion`: one answer to the prompt, for automated runs.
    Completion,
    /// `llama-server`.
    Server,
}

/// The client is a chat, or one completion when the run is automated.
pub fn tool_for(mode: RunMode, automated: bool) -> (t: Tool)
    ensures
        t == match mode {
            RunMode::Client => if automated {
                Tool::Completion
            } else {
                Tool::Cli
            },
            RunMode::Server => Tool::Server,
        },
{
    match mode {
        RunMode::Client => if automated {
            Tool::Completion
        } else {
            Tool::Cli
        },
        RunMode::Server => Tool::Server,
    }
}

/// The program name of a tool.
pub fn tool_command(tool: Tool) -> (name: &'static str)
    ensures
        name@ == match tool {
            Tool::Cli => "llama-cli"@,
            Tool::Completion => "llama-completion"@,
            Tool::Server => "llama-server"@,
        },
{
    match tool {
        Tool::Cli => "llama-cli",
        Tool::Completion => "llama-completion",
        Tool::Server => "llama-server",
    }
}

// ---------------------------------------------------------------------------
// The run mode picked by hand
// ---------------------------------------------------------------------------
/// Why no run mode came from the picker.
pub enum RunModeError {
    /// The picker gave a value that is no run mode.
    Invalid(String),
    /// The picker was left without a choice.
    Canceled(String),
}

/// The picker items of the run modes, uncoloured: client, then server.
pub fn run_mode_options() -> (items: Vec<PickerItem>)
    ensures
        items@.len() == 2,
        items@[0].display@ == "Client (llama-cli)"@ && items@[0].value@ == "client"@
            && items@[0].color is None,
        items@[1].display@ == "Server (llama-server)"@ && items@[1].value@ == "server"@
            && items@[1].color is None,
{
    let mut items: Vec<PickerItem> = Vec::new();
    items.push(
        PickerItem {
            display: String::from_str("Client (llama-cli)"),
            value: String::from_str("client"),
            color: None,
        },
    );
    items.push(
        PickerItem {
            display: String::from_str("Server (llama-server)"),
            value: String::from_str("server"),
            color: None,
        },
    );
    items
}

/// The title of the run mode picker.
pub fn run_mode_title() -> (t: &'static str)
    ensures
        t@ == "Select execution mode:"@,
{
    "Select execution mode:"
}

/// The run mode the picker's value names; an error for another value or none.
pub fn run_mode_from_selection(selected: Option<String>) -> (r: Result<RunMode, RunModeError>)
    ensures
        match selected {
            Some(s) => match run_mode_named(s@) {
                Some(m) => r == Ok::<RunMode, RunModeError>(m),
                None => r matches Err(RunModeError::Invalid(e)) && e@ == "Invalid run mode value: "@
                    + s@,
            },
            None => r matches Err(RunModeError::Canceled(e)) && e@
                == "Run mode selection was canceled."@,
        },
{
    match selected {
        Some(s) => {
            if str_eq(s.as_str(), "client") {
                Ok(RunMode::Client)
            } else if str_eq(s.as_str(), "server") {
                Ok(RunMode::Server)
            } else {
                Err(RunModeError::Invalid(concat("Invalid run mode value: ", s.as_str())))
            }
        },
        None => Err(RunModeError::Canceled(String::from_str("Run mode selection was canceled."))),
    }
}

} // verus!

verus! {

// ---------------------------------------------------------------------------
// Laws
// ---------------------------------------------------------------------------
proof fn lemma_digit(k: nat)
    requires
        k < 10,
    ensures
        digit_value(digit_char(k)) == k,
        is_ascii_digit(digit_char(k)),
{
}

proof fn lemma_decimal(n: nat)
    ensures
        decimal(n).len() > 0,
        all_digits(decimal(n)),
        decimal_value(decimal(n)) == n,
    decreases n,
{
    if n < 10 {
        lemma_digit(n);
        let d = decimal(n);
        assert(d.last() == digit_char(n));
        assert(d.drop_last() =~= Seq::<char>::empty());
        assert(decimal_value(d.drop_last()) == 0);
    } else {
        lemma_decimal(n / 10);
        lemma_digit(n % 10);
        let d = decimal(n);
        assert(d.drop_last() =~= decimal(n / 10));
        assert(d.last() == digit_char(n % 10));
        assert(n == 10 * (n / 10) + n % 10);
        assert forall|i: int| 0 <= i < d.len() implies is_ascii_digit(#[trigger] d[i]) by {
            if i < d.len() - 1 {
                assert(d[i] == decimal(n / 10)[i]);
            }
        }
    }
}

/// The size an unsupported-size message names reads back as that size.
pub proof fn decimal_reads_back(n: u32)
    ensures
        parsed_u32(decimal(n as nat)) == Some(n),
{
    lemma_decimal(n as nat);
    let d = decimal(n as nat);
    assert(d[0] != '+') by {
        assert(is_ascii_digit(d[0]));
    }
}

/// A run in client mode with a model and a prompt or a file, not listing, is
/// automated; a prompt and a file count alike for it, and a run without a model
/// or in server mode is not automated.
pub proof fn client_with_model_and_input_is_automated(a: ArgsView, input: Seq<char>)
    requires
        !a.list,
    ensures
        a.run_mode == Some(RunMode::Client) && a.model is Some ==> launch_of(
            ArgsView { prompt: Some(input), file: None, ..a },
        ) == Ok::<Option<bool>, Seq<char>>(Some(true)) && launch_of(
            ArgsView { prompt: None, file: Some(input), ..a },
        ) == Ok::<Option<bool>, Seq<char>>(Some(true)),
        launch_of(ArgsView { prompt: Some(input), file: None, ..a }) == launch_of(
            ArgsView { prompt: None, file: Some(input), ..a },
        ),
        a.model is None ==> launch_of(ArgsView { prompt: Some(input), file: None, ..a }) != Ok::<
            Option<bool>,
            Seq<char>,
        >(Some(true)),
        launch_of(ArgsView { prompt: None, file: None, ..a }) == Ok::<Option<bool>, Seq<char>>(
            Some(false),
        ),
{
}

} // verus!
