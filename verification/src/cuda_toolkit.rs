//! The CUDA Toolkit check: reading the version `nvcc` reports, choosing an
//! install command by the package manager found, the yes/no answer, and the
//! steps of the check. Running commands and talking to the user are the caller's.
use vstd::prelude::*;
use crate::text::{
    CharClass, chars_of, find, find_in, lemma_find, lowercase, skip_backward, skip_forward,
    string_from, to_lowercase, trim,
};

verus! {

// ---------------------------------------------------------------------------
// The version nvcc reports
// ---------------------------------------------------------------------------
pub open spec fn release_marker() -> Seq<char> {
    seq!['r', 'e', 'l', 'e', 'a', 's', 'e', ' ']
}

/// The version in `nvcc --version` output: what follows the first `release `,
/// up to the next `,` (or the end), trimmed.
pub open spec fn cuda_version_in(output: Seq<char>) -> Option<Seq<char>> {
    match find(output, release_marker()) {
        None => None,
        Some(i) => {
            let rest = output.subrange(i + 8, output.len() as int);
            match find(rest, seq![',']) {
                Some(e) => Some(trim(rest.take(e))),
                None => Some(trim(rest)),
            }
        },
    }
}

/// The CUDA version in `nvcc --version` output (see `cuda_version_in`).
pub fn parse_cuda_version(output: &str) -> (r: Option<String>)
    ensures
        match r {
            Some(s) => cuda_version_in(output@) == Some(s@),
            None => cuda_version_in(output@) is None,
        },
{
    let v = chars_of(output);
    let marker = vec!['r', 'e', 'l', 'e', 'a', 's', 'e', ' '];
    let comma = vec![','];
    assert(marker@ == release_marker());
    assert(comma@ == seq![',']);
    assert(v@.subrange(0, v@.len() as int) =~= v@);
    let start = match find_in(&v, 0, v.len(), &marker) {
        None => {
            return None;
        },
        Some(i) => i + 8,
    };
    let ghost rest = v@.subrange(start as int, v@.len() as int);
    let end = match find_in(&v, start, v.len(), &comma) {
        Some(e) => {
            assert(rest.take(e - start) =~= v@.subrange(start as int, e as int));
            e
        },
        None => {
            assert(rest =~= v@.subrange(start as int, v@.len() as int));
            v.len()
        },
    };
    let a = skip_forward(&v, start, end, CharClass::Whitespace);
    let b = skip_backward(&v, a, end, CharClass::Whitespace);
    Some(string_from(&v, a, b))
}

// ---------------------------------------------------------------------------
// Yes or no
// ---------------------------------------------------------------------------
/// An answer that agrees: `y`, `yes`, `예` or `ㅇ`, in any case, white space around it ignored.
pub open spec fn is_yes_answer(input: Seq<char>) -> bool {
    let a = lowercase(trim(input));
    ||| a == seq!['y']
    ||| a == seq!['y', 'e', 's']
    ||| a == seq!['\u{C608}']
    ||| a == seq!['\u{3147}']
}

/// Does the answer agree (see `is_yes_answer`)?
pub fn is_yes(input: &str) -> (b: bool)
    ensures
        b == is_yes_answer(input@),
{
    let v = chars_of(input);
    assert(v@.subrange(0, v@.len() as int) =~= v@);
    let a = skip_forward(&v, 0, v.len(), CharClass::Whitespace);
    let b = skip_backward(&v, a, v.len(), CharClass::Whitespace);
    let t = string_from(&v, a, b);
    let lower = to_lowercase(t.as_str());
    let l = chars_of(lower.as_str());
    let r = (l.len() == 1 && l[0] == 'y') || (l.len() == 3 && l[0] == 'y' && l[1] == 'e' && l[2]
        == 's') || (l.len() == 1 && l[0] == '\u{C608}') || (l.len() == 1 && l[0] == '\u{3147}');
    proof {
        let x = l@;
        if x.len() == 1 {
            if x[0] == 'y' {
                assert(x =~= seq!['y']);
            }
            if x[0] == '\u{C608}' {
                assert(x =~= seq!['\u{C608}']);
            }
            if x[0] == '\u{3147}' {
                assert(x =~= seq!['\u{3147}']);
            }
        }
        if x.len() == 3 && x[0] == 'y' && x[1] == 'e' && x[2] == 's' {
            assert(x =~= seq!['y', 'e', 's']);
        }
        if x == seq!['y', 'e', 's'] {
            assert(x[1] == 'e');
        }
    }
    r
}

// ---------------------------------------------------------------------------
// The install command
// ---------------------------------------------------------------------------
/// How to install the toolkit: the text shown, and the command to run when one is known.
pub struct InstallPlan {
    pub message: String,
    pub command: Option<String>,
}

/// The number of package managers probed.
pub open spec fn manager_count() -> int {
    6
}

/// The package managers probed, in order: the program and its arguments.
pub open spec fn probe_of(i: int) -> (Seq<char>, Seq<Seq<char>>) {
    if i == 0 {
        ("apt"@, seq!["--version"@])
    } else if i == 1 {
        ("dnf"@, seq!["--version"@])
    } else if i == 2 {
        ("yum"@, seq!["--version"@])
    } else if i == 3 {
        ("pacman"@, seq!["-V"@])
    } else if i == 4 {
        ("zypper"@, seq!["--version"@])
    } else {
        ("brew"@, seq!["--version"@])
    }
}

/// The install command for the package manager at `i` of the probe order.
pub open spec fn install_command_of(i: int) -> Seq<char> {
    if i == 0 {
        "sudo apt update && sudo apt install -y nvidia-cuda-toolkit"@
    } else if i == 1 {
        "sudo dnf install -y cuda-toolkit"@
    } else if i == 2 {
        "sudo yum install -y cuda-toolkit"@
    } else if i == 3 {
        "sudo pacman -S --noconfirm cuda"@
    } else if i == 4 {
        "sudo zypper install -y cuda-toolkit"@
    } else {
        "brew install --cask cuda"@
    }
}

pub open spec fn no_manager_message() -> Seq<char> {
    "Unable to determine an installation command automatically. Please check the CUDA Toolkit install command for your distribution."@
}

/// The program and arguments of the `i`-th probe (see `probe_of`).
pub fn probe(i: usize) -> (r: (String, Vec<String>))
    requires
        i < 6,
    ensures
        r.0@ == probe_of(i as int).0,
        r.1@.len() == 1,
        r.1@[0]@ == probe_of(i as int).1[0],
        probe_of(i as int).1.len() == 1,
{
    let (program, arg) = if i == 0 {
        ("apt", "--version")
    } else if i == 1 {
        ("dnf", "--version")
    } else if i == 2 {
        ("yum", "--version")
    } else if i == 3 {
        ("pacman", "-V")
    } else if i == 4 {
        ("zypper", "--version")
    } else {
        ("brew", "--version")
    };
    let mut args: Vec<String> = Vec::new();
    args.push(String::from_str(arg));
    (String::from_str(program), args)
}

/// The install plan when the package manager at `manager` of the probe order was
/// the first found, or when none was.
pub fn install_plan(manager: Option<usize>) -> (p: InstallPlan)
    requires
        manager matches Some(i) ==> i < 6,
    ensures
        match manager {
            Some(i) => p.message@ == install_command_of(i as int) && (p.command matches Some(c)
                && c@ == install_command_of(i as int)),
            None => p.message@ == no_manager_message() && p.command is None,
        },
{
    match manager {
        Some(i) => {
            let command = if i == 0 {
                "sudo apt update && sudo apt install -y nvidia-cuda-toolkit"
            } else if i == 1 {
                "sudo dnf install -y cuda-toolkit"
            } else if i == 2 {
                "sudo yum install -y cuda-toolkit"
            } else if i == 3 {
                "sudo pacman -S --noconfirm cuda"
            } else if i == 4 {
                "sudo zypper install -y cuda-toolkit"
            } else {
                "brew install --cask cuda"
            };
            InstallPlan {
                message: String::from_str(command),
                command: Some(String::from_str(command)),
            }
        },
        None => InstallPlan {
            message: String::from_str(
                "Unable to determine an installation command automatically. Please check the CUDA Toolkit install command for your distribution.",
            ),
            command: None,
        },
    }
}

} // verus!

verus! {

// ---------------------------------------------------------------------------
// The steps of the check
// ---------------------------------------------------------------------------
/// A line for the user: on standard output, or on standard error.
pub struct ConsoleLine {
    pub text: String,
    pub to_stderr: bool,
}

pub open spec fn console_views(out: Seq<ConsoleLine>) -> Seq<(Seq<char>, bool)> {
    out.map_values(|l: ConsoleLine| (l.text@, l.to_stderr))
}

/// Where the check stands.
pub enum CudaCheck {
    /// Nothing done yet.
    Start,
    /// Waiting for the output of `nvcc --version`.
    Querying,
    /// Waiting for whether the package manager at this position of the probe order runs.
    Probing(usize),
    /// Waiting for the user's answer; the install command to run on a yes.
    Asking(String),
    /// Waiting for the install command to finish.
    Installing,
    /// The check is over.
    Finished,
}

/// What the caller reports to the check.
pub enum CudaEvent {
    /// Start the check.
    Begin,
    /// The standard output and error of `nvcc --version`, one after the other;
    /// `None` when it could not be run.
    VersionOutput(Option<String>),
    /// Whether the probed package manager could be run.
    ProbeResult(bool),
    /// The line the user typed; `None` when nothing could be read.
    Answer(Option<String>),
    /// The outcome of the install command: its error message when it failed.
    InstallResult(Result<(), String>),
}

/// What the check asks of the caller.
pub enum CudaAction {
    /// Run `nvcc --version`.
    QueryVersion,
    /// Run this program with these arguments, output discarded, and report
    /// whether it could be started.
    Probe(String, Vec<String>),
    /// Show this prompt and read a line.
    Ask(String),
    /// Run this command with `sh -c`.
    RunInstall(String),
    /// The check is over.
    Finish,
}

/// The outcome of one step: the next state, the lines to show, the next action.
pub struct CudaStep {
    pub state: CudaCheck,
    pub output: Vec<ConsoleLine>,
    pub action: CudaAction,
}

pub open spec fn install_prompt() -> Seq<char> {
    "Install CUDA Toolkit? [y/N]: "@
}

pub open spec fn no_command_message() -> Seq<char> {
    "No automatic install command could be determined. Please check the installation command for your distribution."@
}

/// How the check talks and whether it may ask.
pub struct CheckOptions {
    /// Report on standard output what the check finds and does.
    pub verbose: bool,
    /// Offer to install the toolkit when it is missing.
    pub interactive: bool,
}

/// The status lines `ls` when the check is verbose; none otherwise.
pub open spec fn when_verbose(o: CheckOptions, ls: Seq<(Seq<char>, bool)>) -> Seq<(Seq<char>, bool)> {
    if o.verbose {
        ls
    } else {
        seq![]
    }
}

/// The step that follows a plan: the plan shown, then the question when the
/// check may ask; the note that no command is known when none is.
pub open spec fn after_plan(
    o: CheckOptions,
    manager: Option<int>,
    pre: Seq<(Seq<char>, bool)>,
    r: CudaStep,
) -> bool {
    match manager {
        Some(i) => {
            &&& console_views(r.output@) == pre + when_verbose(
                o,
                seq![("Installation command:"@, false), (install_command_of(i), false)],
            )
            &&& if o.interactive {
                &&& r.state matches CudaCheck::Asking(c) && c@ == install_command_of(i)
                &&& r.action matches CudaAction::Ask(p) && p@ == install_prompt()
            } else {
                &&& r.state matches CudaCheck::Finished
                &&& r.action matches CudaAction::Finish
            }
        },
        None => {
            &&& console_views(r.output@) == pre + when_verbose(
                o,
                seq![
                    ("Installation command:"@, false),
                    (no_manager_message(), false),
                    (no_command_message(), false),
                ],
            )
            &&& r.state matches CudaCheck::Finished
            &&& r.action matches CudaAction::Finish
        },
    }
}

/// The step after probing the package manager at `i`.
pub open spec fn after_probe(o: CheckOptions, i: int, pre: Seq<(Seq<char>, bool)>, r: CudaStep) -> bool {
    if i < manager_count() {
        &&& console_views(r.output@) == pre
        &&& r.state matches CudaCheck::Probing(j) && j == i
        &&& r.action matches CudaAction::Probe(program, args) && program@ == probe_of(i).0 && args@.len()
            == 1 && args@[0]@ == probe_of(i).1[0]
    } else {
        after_plan(o, None, pre, r)
    }
}

/// The steps of the check.
pub open spec fn cuda_transition(state: CudaCheck, o: CheckOptions, event: CudaEvent, r: CudaStep) -> bool {
    match (state, event) {
        (CudaCheck::Start, CudaEvent::Begin) => {
            &&& r.output@.len() == 0
            &&& r.state matches CudaCheck::Querying
            &&& r.action matches CudaAction::QueryVersion
        },
        (CudaCheck::Querying, CudaEvent::VersionOutput(text)) => {
            let version = match text {
                Some(t) => cuda_version_in(t@),
                None => None,
            };
            match version {
                Some(v) => {
                    &&& console_views(r.output@) == when_verbose(
                        o,
                        seq![("CUDA Toolkit is installed."@, false), ("Version: "@ + v, false)],
                    )
                    &&& r.state matches CudaCheck::Finished
                    &&& r.action matches CudaAction::Finish
                },
                None => after_probe(
                    o,
                    0,
                    when_verbose(o, seq![("CUDA Toolkit is not installed."@, false)]),
                    r,
                ),
            }
        },
        (CudaCheck::Probing(i), CudaEvent::ProbeResult(found)) => if i < 6 {
            if found {
                after_plan(o, Some(i as int), seq![], r)
            } else {
                after_probe(o, i + 1, seq![], r)
            }
        } else {
            r.output@.len() == 0 && (r.state matches CudaCheck::Finished) && (r.action matches CudaAction::Finish)
        },
        (CudaCheck::Asking(command), CudaEvent::Answer(line)) => {
            let yes = match line {
                Some(l) => is_yes_answer(l@),
                None => false,
            };
            if yes {
                &&& r.output@.len() == 0
                &&& r.state matches CudaCheck::Installing
                &&& r.action matches CudaAction::RunInstall(c) && c@ == command@
            } else {
                &&& console_views(r.output@) == when_verbose(o, seq![("Skipping installation."@, false)])
                &&& r.state matches CudaCheck::Finished
                &&& r.action matches CudaAction::Finish
            }
        },
        (CudaCheck::Installing, CudaEvent::InstallResult(outcome)) => {
            &&& console_views(r.output@) == match outcome {
                Ok(_) => when_verbose(o, seq![("Installation command executed."@, false)]),
                Err(e) => seq![("Installation command failed: "@ + e@, true)],
            }
            &&& r.state matches CudaCheck::Finished
            &&& r.action matches CudaAction::Finish
        },
        _ => r.output@.len() == 0 && (r.state matches CudaCheck::Finished) && (r.action matches CudaAction::Finish),
    }
}

/// Appends `text` as a status line when `verbose`.
fn say(output: &mut Vec<ConsoleLine>, verbose: bool, text: &str)
    ensures
        console_views(final(output)@) == console_views(old(output)@) + (if verbose {
            seq![(text@, false)]
        } else {
            seq![]
        }),
{
    let ghost before = console_views(output@);
    if verbose {
        output.push(ConsoleLine { text: String::from_str(text), to_stderr: false });
        assert(console_views(output@) =~= before + seq![(text@, false)]);
    } else {
        assert(console_views(output@) =~= before + Seq::<(Seq<char>, bool)>::empty());
    }
}

fn finished(output: Vec<ConsoleLine>) -> (r: CudaStep)
    ensures
        r.output@ == output@,
        r.state matches CudaCheck::Finished,
        r.action matches CudaAction::Finish,
{
    CudaStep { state: CudaCheck::Finished, output, action: CudaAction::Finish }
}

fn plan_step(options: &CheckOptions, manager: Option<usize>, output: Vec<ConsoleLine>) -> (r: CudaStep)
    requires
        manager matches Some(i) ==> i < 6,
    ensures
        after_plan(
            *options,
            match manager {
                Some(i) => Some(i as int),
                None => None,
            },
            console_views(output@),
            r,
        ),
{
    let ghost pre = console_views(output@);
    let mut output = output;
    let plan = install_plan(manager);
    let ghost msg = plan.message@;
    say(&mut output, options.verbose, "Installation command:");
    if options.verbose {
        let ghost mid = console_views(output@);
        output.push(ConsoleLine { text: plan.message, to_stderr: false });
        assert(console_views(output@) =~= mid.push((msg, false)));
        assert(console_views(output@) =~= pre + seq![("Installation command:"@, false), (msg, false)]);
    } else {
        assert(console_views(output@) =~= pre);
    }
    match plan.command {
        Some(command) => {
            let ghost cmd = install_command_of(manager->0 as int);
            assert(msg == cmd);
            assert(console_views(output@) =~= pre + when_verbose(
                *options,
                seq![("Installation command:"@, false), (cmd, false)],
            ));
            if options.interactive {
                CudaStep {
                    state: CudaCheck::Asking(command),
                    output,
                    action: CudaAction::Ask(String::from_str("Install CUDA Toolkit? [y/N]: ")),
                }
            } else {
                finished(output)
            }
        },
        None => {
            say(
                &mut output,
                options.verbose,
                "No automatic install command could be determined. Please check the installation command for your distribution.",
            );
            assert(console_views(output@) =~= pre + when_verbose(
                *options,
                seq![
                    ("Installation command:"@, false),
                    (no_manager_message(), false),
                    (no_command_message(), false),
                ],
            ));
            finished(output)
        },
    }
}

fn probe_step(options: &CheckOptions, i: usize, output: Vec<ConsoleLine>) -> (r: CudaStep)
    requires
        i <= 6,
    ensures
        after_probe(*options, i as int, console_views(output@), r),
{
    if i < 6 {
        let (program, args) = probe(i);
        CudaStep { state: CudaCheck::Probing(i), output, action: CudaAction::Probe(program, args) }
    } else {
        plan_step(options, None, output)
    }
}

/// One step of the CUDA Toolkit check (see `cuda_transition`): report the version
/// when `nvcc` gives one; otherwise probe the package managers in order, show the
/// install command of the first found, and, when the check may ask, run it if the
/// user agrees. Status lines are shown only when the check is verbose.
pub fn cuda_check_step(state: CudaCheck, options: &CheckOptions, event: CudaEvent) -> (r: CudaStep)
    ensures
        cuda_transition(state, *options, event, r),
{
    match (state, event) {
        (CudaCheck::Start, CudaEvent::Begin) => CudaStep {
            state: CudaCheck::Querying,
            output: Vec::new(),
            action: CudaAction::QueryVersion,
        },
        (CudaCheck::Querying, CudaEvent::VersionOutput(text)) => {
            let version = match text {
                Some(t) => parse_cuda_version(t.as_str()),
                None => None,
            };
            let mut output: Vec<ConsoleLine> = Vec::new();
            assert(console_views(output@) =~= Seq::<(Seq<char>, bool)>::empty());
            match version {
                Some(v) => {
                    say(&mut output, options.verbose, "CUDA Toolkit is installed.");
                    if options.verbose {
                        let ghost mid = console_views(output@);
                        let mut text = String::from_str("Version: ");
                        text.append(v.as_str());
                        output.push(ConsoleLine { text, to_stderr: false });
                        assert(console_views(output@) =~= mid.push(("Version: "@ + v@, false)));
                    }
                    assert(console_views(output@) =~= when_verbose(
                        *options,
                        seq![("CUDA Toolkit is installed."@, false), ("Version: "@ + v@, false)],
                    ));
                    finished(output)
                },
                None => {
                    say(&mut output, options.verbose, "CUDA Toolkit is not installed.");
                    assert(console_views(output@) =~= when_verbose(
                        *options,
                        seq![("CUDA Toolkit is not installed."@, false)],
                    ));
                    probe_step(options, 0, output)
                },
            }
        },
        (CudaCheck::Probing(i), CudaEvent::ProbeResult(found)) => {
            if i < 6 {
                let output: Vec<ConsoleLine> = Vec::new();
                assert(console_views(output@) =~= Seq::<(Seq<char>, bool)>::empty());
                if found {
                    plan_step(options, Some(i), output)
                } else {
                    probe_step(options, i + 1, output)
                }
            } else {
                finished(Vec::new())
            }
        },
        (CudaCheck::Asking(command), CudaEvent::Answer(answer)) => {
            let yes = match &answer {
                Some(l) => is_yes(l.as_str()),
                None => false,
            };
            if yes {
                CudaStep {
                    state: CudaCheck::Installing,
                    output: Vec::new(),
                    action: CudaAction::RunInstall(command),
                }
            } else {
                let mut output: Vec<ConsoleLine> = Vec::new();
                assert(console_views(output@) =~= Seq::<(Seq<char>, bool)>::empty());
                say(&mut output, options.verbose, "Skipping installation.");
                assert(console_views(output@) =~= when_verbose(
                    *options,
                    seq![("Skipping installation."@, false)],
                ));
                finished(output)
            }
        },
        (CudaCheck::Installing, CudaEvent::InstallResult(outcome)) => {
            let mut output: Vec<ConsoleLine> = Vec::new();
            assert(console_views(output@) =~= Seq::<(Seq<char>, bool)>::empty());
            match outcome {
                Ok(()) => {
                    say(&mut output, options.verbose, "Installation command executed.");
                    assert(console_views(output@) =~= when_verbose(
                        *options,
                        seq![("Installation command executed."@, false)],
                    ));
                },
                Err(e) => {
                    let mut text = String::from_str("Installation command failed: ");
                    text.append(e.as_str());
                    output.push(ConsoleLine { text, to_stderr: true });
                    assert(console_views(output@) =~= seq![
                        ("Installation command failed: "@ + e@, true),
                    ]);
                },
            }
            finished(output)
        },
        _ => finished(Vec::new()),
    }
}

} // verus!

verus! {

// ---------------------------------------------------------------------------
// Laws
// ---------------------------------------------------------------------------
/// A declined install runs nothing: the check ends, saying (when verbose) that it skipped.
pub proof fn declined_install_runs_nothing(
    command: String,
    options: CheckOptions,
    line: Option<String>,
    r: CudaStep,
)
    requires
        cuda_transition(CudaCheck::Asking(command), options, CudaEvent::Answer(line), r),
        !(line matches Some(l) && is_yes_answer(l@)),
    ensures
        r.action is Finish,
        console_views(r.output@) == when_verbose(options, seq![("Skipping installation."@, false)]),
{
}

/// An agreed install runs exactly the command that was shown.
pub proof fn agreed_install_runs_shown_command(
    command: String,
    options: CheckOptions,
    line: String,
    r: CudaStep,
)
    requires
        cuda_transition(CudaCheck::Asking(command), options, CudaEvent::Answer(Some(line)), r),
        is_yes_answer(line@),
    ensures
        r.action matches CudaAction::RunInstall(c) && c@ == command@,
{
}

/// A check that may not ask never comes to the question, so it never asks and
/// never installs.
pub proof fn quiet_check_never_asks(
    state: CudaCheck,
    options: CheckOptions,
    event: CudaEvent,
    r: CudaStep,
)
    requires
        !options.interactive,
        !(state is Asking),
        cuda_transition(state, options, event, r),
    ensures
        !(r.state is Asking),
        !(r.action is Ask),
        !(r.action is RunInstall),
{
}

/// A check that is not verbose prints no status line: whatever it shows goes to
/// standard error.
pub proof fn quiet_check_prints_no_status(
    state: CudaCheck,
    options: CheckOptions,
    event: CudaEvent,
    r: CudaStep,
)
    requires
        !options.verbose,
        cuda_transition(state, options, event, r),
    ensures
        forall|k: int| 0 <= k < r.output@.len() ==> (#[trigger] r.output@[k]).to_stderr,
{
    let cv = console_views(r.output@);
    assert(cv.len() == 0 || (cv.len() == 1 && cv[0].1));
    assert forall|k: int| 0 <= k < r.output@.len() implies (#[trigger] r.output@[k]).to_stderr by {
        assert(cv[k] == (r.output@[k].text@, r.output@[k].to_stderr));
    }
}

/// The install command chosen for a package manager runs that package manager:
/// it begins with `sudo <manager> ` (`brew ` for Homebrew, which runs without
/// `sudo`), and no two managers get the same command.
pub proof fn install_command_runs_its_manager(i: int, j: int)
    requires
        0 <= i < manager_count(),
        0 <= j < manager_count(),
    ensures
        i < 5 ==> install_command_of(i).take(probe_of(i).0.len() + 6int) == "sudo "@ + probe_of(i).0
            + " "@,
        i == 5 ==> install_command_of(i).take(5) == probe_of(i).0 + " "@,
        i != j ==> install_command_of(i) != install_command_of(j),
{
    reveal_strlit("apt");
    reveal_strlit("dnf");
    reveal_strlit("yum");
    reveal_strlit("pacman");
    reveal_strlit("zypper");
    reveal_strlit("brew");
    reveal_strlit("sudo ");
    reveal_strlit(" ");
    reveal_strlit("sudo apt update && sudo apt install -y nvidia-cuda-toolkit");
    reveal_strlit("sudo dnf install -y cuda-toolkit");
    reveal_strlit("sudo yum install -y cuda-toolkit");
    reveal_strlit("sudo pacman -S --noconfirm cuda");
    reveal_strlit("sudo zypper install -y cuda-toolkit");
    reveal_strlit("brew install --cask cuda");
    let c = install_command_of(i);
    let n = probe_of(i).0;
    if i < 5 {
        assert(c.take(n.len() + 6int) =~= "sudo "@ + n + " "@);
    } else {
        assert(c.take(5) =~= n + " "@);
    }
    if i != j {
        let d = install_command_of(j);
        // The first character tells Homebrew apart; the sixth, the others.
        if i == 5 || j == 5 {
            assert(c[0] != d[0]);
        } else {
            assert(c[5] != d[5]);
        }
    }
}

} // verus!
