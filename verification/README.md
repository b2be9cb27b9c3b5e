# ezllama

A terminal launcher for the llama.cpp tools: it checks the CUDA Toolkit and
llama.cpp (building llama.cpp for the GPUs found when it is missing), lets the
user pick a run mode and a Hugging Face GGUF model, and runs `llama-cli`,
`llama-server` or `llama-completion`.

## Layout

- `src/` is the library, verified with Verus. Every decision the program makes
  stands there with its contract: the parsers of tool output (`nvcc`,
  `--version`, `nvidia-smi`, the Hugging Face JSON pages and `Link` headers),
  the command line, the list and model pickers, and the two checks, written as
  step functions from state and event to next state and action.
  - `text.rs`: characters, trimming, searching, lines and words.
  - `ordered.rs`: sorted sets of strings. They are strictly increasing
    `Vec<String>`s built by a verified merge sort that drops repeats: vstd's
    specification of `BTreeSet` holds only for keys whose order vstd models
    (integers and tuples of them), and `String` is not among them, so a
    `BTreeSet<String>` would carry no proved fact about its contents or order.
    For the same reason the ids already seen on a page are kept in a `Vec`
    searched in full, not a `HashSet<String>`: vstd's hash-table model covers
    integer and `bool` keys (and boxes of them), not `String`.
  - `huggingface.rs`, `list_picker.rs`, `model_picker.rs`, `llama_cpp.rs`,
    `cuda_toolkit.rs`, `cli.rs`: the parts of the program.
- `app/` is the program around it: the terminal, processes, files, the
  environment and the network. It runs the step functions and performs the
  actions they return.
- `tests/` runs the library on concrete inputs.
