//! llama.cpp: reading versions from `--version` output, the CUDA architectures
//! of the installed GPUs, the install command, the check that installs the tools
//! when they are missing, and the arguments of the tools it runs.
use vstd::prelude::*;
use crate::list_picker::PickerItem;
use crate::ordered::{
    join, join_strings, lemma_sorted_set, lemma_sorted_unique, same_elements, sorted_set, sorted_set_is_sorted_and_complete, sorted_unique,
    strictly_sorted,
};
use crate::text::{
    CharClass, char_at_byte, char_at_byte_in, chars_of, drop_while, find, find_in, first_word,
    is_ascii_digit, lemma_drop_while, lemma_find, lemma_utf8_len_ascii_run, lines, lowercase,
    next_line, occurs_at, opt_view, skip_backward, skip_forward, string_from, to_lowercase, trim,
    strip_cr, trim_class, utf8_len, utf8_len_of_prefix, views, words,
};

verus! {

// ---------------------------------------------------------------------------
// Versions
// ---------------------------------------------------------------------------
pub open spec fn has_digit(s: Seq<char>) -> bool {
    exists|i: int| 0 <= i < s.len() && is_ascii_digit(#[trigger] s[i])
}

/// A version-like token: a digit and a `.` in it.
pub open spec fn version_like(s: Seq<char>) -> bool {
    has_digit(s) && s.contains('.')
}

/// A token with the characters around it that cannot be part of a version
/// removed from both ends.
pub open spec fn cleaned(token: Seq<char>) -> Seq<char> {
    trim_class(token, CharClass::NotVersionChar)
}

/// A version as reported: without leading `v`s.
pub open spec fn without_v(s: Seq<char>) -> Seq<char> {
    drop_while(s, CharClass::LowerV)
}

/// The first word whose cleaned form looks like a version, cleaned and without
/// its leading `v`s.
pub open spec fn first_version_in(ws: Seq<Seq<char>>) -> Option<Seq<char>>
    decreases ws.len(),
{
    if ws.len() == 0 {
        None
    } else if version_like(cleaned(ws[0])) {
        Some(without_v(cleaned(ws[0])))
    } else {
        first_version_in(ws.drop_first())
    }
}

/// The version that follows a `version` label: the first word after any `:` or `=`,
/// cleaned, if it holds a digit.
pub open spec fn version_after_label(text: Seq<char>) -> Option<Seq<char>> {
    let t = trim(drop_while(text, CharClass::LabelSeparator));
    if t.len() == 0 || words(t).len() == 0 {
        None
    } else {
        let c = cleaned(words(t)[0]);
        if c.len() > 0 && has_digit(c) {
            Some(without_v(c))
        } else {
            None
        }
    }
}

pub open spec fn version_label() -> Seq<char> {
    seq!['v', 'e', 'r', 's', 'i', 'o', 'n']
}

/// Where a line's version is read from when the line holds the word `version`
/// in its Unicode lower case (`None` when it does not): the character of the line
/// that begins at the byte offset just past the first `version` in the lowered
/// line, or `None` inside it when that offset falls inside a character of the
/// line or past its end.
pub open spec fn label_end(line: Seq<char>) -> Option<Option<int>> {
    let lower = lowercase(line);
    match find(lower, version_label()) {
        None => None,
        Some(i) => Some(char_at_byte(line, utf8_len(lower.take(i)) + 7int)),
    }
}

/// The place to read the version from cuts a character of the line (see
/// `label_end`): no version can be read from such a line.
pub open spec fn label_cuts(line: Seq<char>) -> bool {
    label_end(line) matches Some(None)
}

/// The version a line states: what follows the word `version` (see
/// `label_end`) when the line has it, else the first version-like word.
pub open spec fn version_in_line(line: Seq<char>) -> Option<Seq<char>> {
    match label_end(line) {
        Some(Some(j)) => {
            let after = trim(line.subrange(j, line.len() as int));
            match version_after_label(after) {
                Some(v) => Some(v),
                None => first_version_in(words(after)),
            }
        },
        Some(None) => None,
        None => first_version_in(words(line)),
    }
}

/// The version in the first non-blank line that states one.
pub open spec fn version_in_lines(ls: Seq<Seq<char>>) -> Option<Seq<char>>
    decreases ls.len(),
{
    if ls.len() == 0 {
        None
    } else {
        let l = trim(ls[0]);
        if l.len() > 0 && version_in_line(l) is Some {
            version_in_line(l)
        } else {
            version_in_lines(ls.drop_first())
        }
    }
}

/// Reading the lines in order comes, before any line that states a version, to a
/// non-blank line whose version place cuts a character (see `label_cuts`).
pub open spec fn reading_cuts(ls: Seq<Seq<char>>) -> bool
    decreases ls.len(),
{
    if ls.len() == 0 {
        false
    } else {
        let l = trim(ls[0]);
        if l.len() > 0 && label_cuts(l) {
            true
        } else if l.len() > 0 && version_in_line(l) is Some {
            false
        } else {
            reading_cuts(ls.drop_first())
        }
    }
}

pub open spec fn version_in(output: Seq<char>) -> Option<Seq<char>> {
    version_in_lines(lines(output))
}

fn has_digit_in(v: &Vec<char>, lo: usize, hi: usize) -> (b: bool)
    requires
        lo <= hi <= v@.len(),
    ensures
        b == has_digit(v@.subrange(lo as int, hi as int)),
{
    let ghost s = v@.subrange(lo as int, hi as int);
    let mut i = lo;
    while i < hi
        invariant
            lo <= i <= hi <= v@.len(),
            s == v@.subrange(lo as int, hi as int),
            forall|j: int| 0 <= j < i - lo ==> !is_ascii_digit(#[trigger] s[j]),
        decreases hi - i,
    {
        if '0' <= v[i] && v[i] <= '9' {
            assert(is_ascii_digit(s[i - lo]));
            return true;
        }
        i = i + 1;
    }
    false
}

fn has_dot_in(v: &Vec<char>, lo: usize, hi: usize) -> (b: bool)
    requires
        lo <= hi <= v@.len(),
    ensures
        b == v@.subrange(lo as int, hi as int).contains('.'),
{
    let ghost s = v@.subrange(lo as int, hi as int);
    let mut i = lo;
    while i < hi
        invariant
            lo <= i <= hi <= v@.len(),
            s == v@.subrange(lo as int, hi as int),
            forall|j: int| 0 <= j < i - lo ==> s[j] != '.',
        decreases hi - i,
    {
        if v[i] == '.' {
            assert(s[i - lo] == '.');
            return true;
        }
        i = i + 1;
    }
    false
}

/// Bounds of `cleaned(v[lo..hi])`.
fn clean_range(v: &Vec<char>, lo: usize, hi: usize) -> (r: (usize, usize))
    requires
        lo <= hi <= v@.len(),
    ensures
        lo <= r.0 <= r.1 <= hi,
        v@.subrange(r.0 as int, r.1 as int) == cleaned(v@.subrange(lo as int, hi as int)),
{
    let a = skip_forward(v, lo, hi, CharClass::NotVersionChar);
    let b = skip_backward(v, a, hi, CharClass::NotVersionChar);
    (a, b)
}

/// `v[lo..hi]` without leading `v`s, as a new string.
fn without_v_string(v: &Vec<char>, lo: usize, hi: usize) -> (s: String)
    requires
        lo <= hi <= v@.len(),
    ensures
        s@ == without_v(v@.subrange(lo as int, hi as int)),
{
    let a = skip_forward(v, lo, hi, CharClass::LowerV);
    string_from(v, a, hi)
}

/// The first version-like word of `v[lo..hi]` (see `first_version_in`).
fn first_version_token_in(v: &Vec<char>, lo: usize, hi: usize) -> (r: Option<String>)
    requires
        lo <= hi <= v@.len(),
    ensures
        opt_view(r) == first_version_in(words(v@.subrange(lo as int, hi as int))),
{
    let mut pos = lo;
    while pos < hi
        invariant
            lo <= pos <= hi <= v@.len(),
            first_version_in(words(v@.subrange(lo as int, hi as int))) == first_version_in(
                words(v@.subrange(pos as int, hi as int)),
            ),
        decreases hi - pos,
    {
        match first_word(v, pos, hi) {
            None => {
                return None;
            },
            Some((a, b)) => {
                let (ca, cb) = clean_range(v, a, b);
                let ghost ws = words(v@.subrange(pos as int, hi as int));
                assert(ws[0] == v@.subrange(a as int, b as int));
                assert(ws.drop_first() =~= words(v@.subrange(b as int, hi as int)));
                if has_digit_in(v, ca, cb) && has_dot_in(v, ca, cb) {
                    return Some(without_v_string(v, ca, cb));
                }
                pos = b;
            },
        }
    }
    assert(v@.subrange(pos as int, hi as int).len() == 0);
    assert(words(v@.subrange(pos as int, hi as int)).len() == 0);
    None
}

/// The version after a label in `v[lo..hi]` (see `version_after_label`).
fn version_after_label_in(v: &Vec<char>, lo: usize, hi: usize) -> (r: Option<String>)
    requires
        lo <= hi <= v@.len(),
    ensures
        opt_view(r) == version_after_label(v@.subrange(lo as int, hi as int)),
{
    let a0 = skip_forward(v, lo, hi, CharClass::LabelSeparator);
    let a = skip_forward(v, a0, hi, CharClass::Whitespace);
    let b = skip_backward(v, a, hi, CharClass::Whitespace);
    if a == b {
        return None;
    }
    assert(v@.subrange(a as int, b as int).subrange(0, (b - a) as int) =~= v@.subrange(
        a as int,
        b as int,
    ));
    match first_word(v, a, b) {
        None => None,
        Some((wa, wb)) => {
            let (ca, cb) = clean_range(v, wa, wb);
            if ca < cb && has_digit_in(v, ca, cb) {
                Some(without_v_string(v, ca, cb))
            } else {
                None
            }
        },
    }
}

/// Where the version of the line `v[lo..hi]` is read from (see `label_end`), as a
/// position in `v`.
fn label_end_at(v: &Vec<char>, lo: usize, hi: usize) -> (r: Option<Option<usize>>)
    requires
        lo <= hi <= v@.len(),
    ensures
        match (r, label_end(v@.subrange(lo as int, hi as int))) {
            (None, None) => true,
            (Some(None), Some(None)) => true,
            (Some(Some(j)), Some(Some(k))) => j == lo + k && lo <= j <= hi,
            _ => false,
        },
{
    let line = string_from(v, lo, hi);
    let lower = to_lowercase(line.as_str());
    let lv = chars_of(lower.as_str());
    let label = vec!['v', 'e', 'r', 's', 'i', 'o', 'n'];
    assert(label@ == version_label());
    assert(lv@.subrange(0, lv@.len() as int) =~= lv@);
    proof {
        lemma_find(lv@, label@);
    }
    match find_in(&lv, 0, lv.len(), &label) {
        None => None,
        Some(i) => {
            proof {
                assert(occurs_at(lv@, label@, i as int));
                assert forall|k: int| i <= k < i + 7 implies (#[trigger] lv@[k] as u32) < 0x80 by {
                    assert(lv@[k] == lv@.subrange(i as int, i + 7)[k - i]);
                }
                lemma_utf8_len_ascii_run(lv@, i as int, 7);
            }
            let e = utf8_len_of_prefix(lower.as_str(), &lv, i + 7);
            Some(char_at_byte_in(v, lo, hi, e))
        },
    }
}

/// The version that the line `v[lo..hi]` states (see `version_in_line`); `None`
/// when the place to read it from cuts a character (see `label_cuts`).
fn version_in_line_at(v: &Vec<char>, lo: usize, hi: usize) -> (r: Option<Option<String>>)
    requires
        lo <= hi <= v@.len(),
    ensures
        r is None <==> label_cuts(v@.subrange(lo as int, hi as int)),
        r matches Some(x) ==> opt_view(x) == version_in_line(v@.subrange(lo as int, hi as int)),
{
    let ghost line = v@.subrange(lo as int, hi as int);
    match label_end_at(v, lo, hi) {
        Some(Some(j)) => {
            assert(line.subrange(j - lo, line.len() as int) =~= v@.subrange(j as int, hi as int));
            let a = skip_forward(v, j, hi, CharClass::Whitespace);
            let b = skip_backward(v, a, hi, CharClass::Whitespace);
            match version_after_label_in(v, a, b) {
                Some(version) => Some(Some(version)),
                None => Some(first_version_token_in(v, a, b)),
            }
        },
        Some(None) => None,
        None => Some(first_version_token_in(v, lo, hi)),
    }
}

/// The version stated in `output` (see `version_in`); `None` when reading comes
/// to a line whose version place cuts a character first (see `reading_cuts`).
fn version_reading(output: &str) -> (r: Option<Option<String>>)
    ensures
        r is None <==> reading_cuts(lines(output@)),
        r matches Some(x) ==> opt_view(x) == version_in(output@),
{
    let v = chars_of(output);
    let len = v.len();
    let mut pos: usize = 0;
    assert(v@.subrange(0, len as int) =~= v@);
    while pos < len
        invariant
            pos <= len == v@.len(),
            v@ == output@,
            version_in(output@) == version_in_lines(lines(v@.subrange(pos as int, len as int))),
            reading_cuts(lines(output@)) == reading_cuts(lines(v@.subrange(pos as int, len as int))),
        decreases len - pos,
    {
        let (a, b, next) = next_line(&v, pos, len);
        let ghost ls = lines(v@.subrange(pos as int, len as int));
        assert(ls.drop_first() =~= lines(v@.subrange(next as int, len as int)));
        let ta = skip_forward(&v, a, b, CharClass::Whitespace);
        let tb = skip_backward(&v, ta, b, CharClass::Whitespace);
        if ta < tb {
            match version_in_line_at(&v, ta, tb) {
                None => {
                    return None;
                },
                Some(Some(version)) => {
                    return Some(Some(version));
                },
                Some(None) => {},
            }
        }
        pos = next;
    }
    assert(lines(v@.subrange(pos as int, len as int)).len() == 0);
    Some(None)
}

/// The version stated in the output of a `--version` run: from the first
/// non-blank line that states one (see `version_in`). No line before it may have
/// a version place that cuts a character (see `checked_version`).
pub fn extract_version(output: &str) -> (r: Option<String>)
    requires
        !reading_cuts(lines(output@)),
    ensures
        opt_view(r) == version_in(output@),
{
    match version_reading(output) {
        Some(version) => version,
        None => None,
    }
}

/// The version stated in `output` (see `extract_version`), or `None` when reading
/// comes first to a line whose version place cuts a character, where no version
/// can be read.
pub fn checked_version(output: &str) -> (r: Option<Option<String>>)
    ensures
        r is None <==> reading_cuts(lines(output@)),
        r matches Some(x) ==> opt_view(x) == version_in(output@),
{
    match version_reading(output) {
        None => None,
        Some(_) => Some(extract_version(output)),
    }
}

/// The version a single line states (see `version_in_line`); the place to read it
/// from may not cut a character (see `checked_version_from_line`).
pub fn extract_version_from_line(line: &str) -> (r: Option<String>)
    requires
        !label_cuts(line@),
    ensures
        opt_view(r) == version_in_line(line@),
{
    let v = chars_of(line);
    assert(v@.subrange(0, v@.len() as int) =~= v@);
    match version_in_line_at(&v, 0, v.len()) {
        Some(version) => version,
        None => None,
    }
}

/// The version a single line states (see `extract_version_from_line`), or `None`
/// when the place to read it from cuts a character.
pub fn checked_version_from_line(line: &str) -> (r: Option<Option<String>>)
    ensures
        r is None <==> label_cuts(line@),
        r matches Some(x) ==> opt_view(x) == version_in_line(line@),
{
    let v = chars_of(line);
    assert(v@.subrange(0, v@.len() as int) =~= v@);
    match version_in_line_at(&v, 0, v.len()) {
        None => None,
        Some(_) => Some(extract_version_from_line(line)),
    }
}

/// The version after a `version` label (see `version_after_label`).
pub fn extract_version_after_label(text: &str) -> (r: Option<String>)
    ensures
        opt_view(r) == version_after_label(text@),
{
    let v = chars_of(text);
    assert(v@.subrange(0, v@.len() as int) =~= v@);
    version_after_label_in(&v, 0, v.len())
}

/// The first version-like word of `text` (see `first_version_in`).
pub fn first_version_token(text: &str) -> (r: Option<String>)
    ensures
        opt_view(r) == first_version_in(words(text@)),
{
    let v = chars_of(text);
    assert(v@.subrange(0, v@.len() as int) =~= v@);
    first_version_token_in(&v, 0, v.len())
}

/// Does `token` hold a digit and a `.`?
pub fn looks_like_version(token: &str) -> (b: bool)
    ensures
        b == version_like(token@),
{
    let v = chars_of(token);
    assert(v@.subrange(0, v@.len() as int) =~= v@);
    has_digit_in(&v, 0, v.len()) && has_dot_in(&v, 0, v.len())
}

} // verus!

verus! {

// ---------------------------------------------------------------------------
// CUDA architectures
// ---------------------------------------------------------------------------
pub open spec fn all_digits(s: Seq<char>) -> bool {
    forall|i: int| 0 <= i < s.len() ==> is_ascii_digit(#[trigger] s[i])
}

/// The CMake architecture of a compute capability `major.minor`: the two numbers
/// side by side; `None` unless the capability is two non-empty runs of digits
/// (white space around each allowed) joined by one `.`.
pub open spec fn architecture_of(cap: Seq<char>) -> Option<Seq<char>> {
    match find(cap, seq!['.']) {
        None => None,
        Some(i) => {
            let major = trim(cap.take(i));
            let rest = cap.subrange(i + 1, cap.len() as int);
            if find(rest, seq!['.']) is Some {
                None
            } else {
                let minor = trim(rest);
                if major.len() > 0 && minor.len() > 0 && all_digits(major) && all_digits(minor) {
                    Some(major + minor)
                } else {
                    None
                }
            }
        },
    }
}

fn all_digits_in(v: &Vec<char>, lo: usize, hi: usize) -> (b: bool)
    requires
        lo <= hi <= v@.len(),
    ensures
        b == all_digits(v@.subrange(lo as int, hi as int)),
{
    let ghost s = v@.subrange(lo as int, hi as int);
    let mut i = lo;
    while i < hi
        invariant
            lo <= i <= hi <= v@.len(),
            s == v@.subrange(lo as int, hi as int),
            forall|j: int| 0 <= j < i - lo ==> is_ascii_digit(#[trigger] s[j]),
        decreases hi - i,
    {
        if !('0' <= v[i] && v[i] <= '9') {
            assert(!is_ascii_digit(s[i - lo]));
            return false;
        }
        i = i + 1;
    }
    true
}

/// The architecture of the capability `v[lo..hi]` (see `architecture_of`).
fn architecture_at(v: &Vec<char>, lo: usize, hi: usize) -> (r: Option<String>)
    requires
        lo <= hi <= v@.len(),
    ensures
        opt_view(r) == architecture_of(v@.subrange(lo as int, hi as int)),
{
    let dot = vec!['.'];
    assert(dot@ == seq!['.']);
    let ghost cap = v@.subrange(lo as int, hi as int);
    let i = match find_in(v, lo, hi, &dot) {
        None => {
            return None;
        },
        Some(i) => i,
    };
    assert(cap.take(i - lo) =~= v@.subrange(lo as int, i as int));
    assert(cap.subrange(i - lo + 1, cap.len() as int) =~= v@.subrange(i + 1, hi as int));
    if find_in(v, i + 1, hi, &dot).is_some() {
        return None;
    }
    let ma = skip_forward(v, lo, i, CharClass::Whitespace);
    let mb = skip_backward(v, ma, i, CharClass::Whitespace);
    let na = skip_forward(v, i + 1, hi, CharClass::Whitespace);
    let nb = skip_backward(v, na, hi, CharClass::Whitespace);
    if ma < mb && na < nb && all_digits_in(v, ma, mb) && all_digits_in(v, na, nb) {
        let mut r = string_from(v, ma, mb);
        let minor = string_from(v, na, nb);
        r.append(minor.as_str());
        Some(r)
    } else {
        None
    }
}

/// The CMake architecture of a compute capability such as `8.9` (see
/// `architecture_of`).
pub fn compute_cap_to_architecture(compute_cap: &str) -> (r: Option<String>)
    ensures
        opt_view(r) == architecture_of(compute_cap@),
{
    let v = chars_of(compute_cap);
    assert(v@.subrange(0, v@.len() as int) =~= v@);
    architecture_at(&v, 0, v.len())
}

/// The architectures of the non-blank lines, in order; `None` when one of them is
/// not a compute capability.
pub open spec fn architectures_in(ls: Seq<Seq<char>>) -> Option<Seq<Seq<char>>>
    decreases ls.len(),
{
    if ls.len() == 0 {
        Some(seq![])
    } else {
        let cap = trim(ls[0]);
        let rest = architectures_in(ls.drop_first());
        if cap.len() == 0 {
            rest
        } else {
            match (architecture_of(cap), rest) {
                (Some(a), Some(r)) => Some(seq![a] + r),
                _ => None,
            }
        }
    }
}

/// The value for `CMAKE_CUDA_ARCHITECTURES` from `nvidia-smi` output: the
/// distinct architectures of its lines, in increasing order, joined by `;`;
/// `None` when a line is not a capability or there is none.
pub open spec fn architectures_value(output: Seq<char>) -> Option<Seq<char>> {
    match architectures_in(lines(output)) {
        None => None,
        Some(archs) => if archs.len() == 0 {
            None
        } else {
            Some(join(sorted_set(archs), ';'))
        },
    }
}

pub open spec fn prepend_all(pre: Seq<Seq<char>>, r: Option<Seq<Seq<char>>>) -> Option<
    Seq<Seq<char>>,
> {
    match r {
        Some(x) => Some(pre + x),
        None => None,
    }
}

/// The CUDA architectures of the GPUs that `nvidia-smi` lists, one compute
/// capability per line (see `architectures_value`).
pub fn parse_compute_caps(output: &str) -> (r: Option<String>)
    ensures
        opt_view(r) == architectures_value(output@),
{
    let v = chars_of(output);
    let len = v.len();
    let mut archs: Vec<String> = Vec::new();
    let mut pos: usize = 0;
    assert(v@.subrange(0, len as int) =~= v@);
    proof {
        if let Some(x) = architectures_in(lines(v@)) {
            assert(views(archs@) + x =~= x);
        }
    }
    while pos < len
        invariant
            pos <= len == v@.len(),
            v@ == output@,
            architectures_in(lines(output@)) == prepend_all(
                views(archs@),
                architectures_in(lines(v@.subrange(pos as int, len as int))),
            ),
        decreases len - pos,
    {
        let (a, b, next) = next_line(&v, pos, len);
        let ghost ls = lines(v@.subrange(pos as int, len as int));
        assert(ls.drop_first() =~= lines(v@.subrange(next as int, len as int)));
        let ta = skip_forward(&v, a, b, CharClass::Whitespace);
        let tb = skip_backward(&v, ta, b, CharClass::Whitespace);
        if ta < tb {
            match architecture_at(&v, ta, tb) {
                None => {
                    return None;
                },
                Some(arch) => {
                    let ghost before = views(archs@);
                    let ghost w = arch@;
                    archs.push(arch);
                    assert(views(archs@) =~= before.push(w));
                    proof {
                        if let Some(x) = architectures_in(lines(v@.subrange(next as int, len as int))) {
                            assert(before + (seq![w] + x) =~= before.push(w) + x);
                        }
                    }
                },
            }
        }
        pos = next;
    }
    assert(lines(v@.subrange(pos as int, len as int)).len() == 0);
    assert(views(archs@) + Seq::<Seq<char>>::empty() =~= views(archs@));
    if archs.len() == 0 {
        return None;
    }
    let sorted = sorted_unique(&archs);
    Some(join_strings(&sorted, ';'))
}

// ---------------------------------------------------------------------------
// The install command
// ---------------------------------------------------------------------------
/// How to install llama.cpp: the text shown, and the command to run when one is known.
pub struct InstallPlan {
    pub message: String,
    pub command: Option<String>,
}

pub open spec fn build_script_head() -> Seq<char> {
    "if [ -d llama.cpp ]; then cd llama.cpp; else git clone https://github.com/ggerganov/llama.cpp.git && cd llama.cpp; fi && cmake -B build -DLLAMA_SERVER=ON -DGGML_CUDA=ON -DCMAKE_CUDA_ARCHITECTURES=\""@
}

pub open spec fn build_script_tail() -> Seq<char> {
    "\" && cmake --build build -j && mkdir -p ~/.local/bin && cp -f \"$(pwd)/build/bin/llama-cli\" ~/.local/bin/llama-cli && cp -f \"$(pwd)/build/bin/llama-server\" ~/.local/bin/llama-server && cp -f \"$(pwd)/build/bin/llama-completion\" ~/.local/bin/llama-completion"@
}

/// The shell command that fetches (or reuses) the llama.cpp sources, builds them
/// with CUDA for `architectures`, and copies the three tools to `~/.local/bin`.
pub open spec fn build_script(architectures: Seq<char>) -> Seq<char> {
    build_script_head() + architectures + build_script_tail()
}

pub open spec fn no_architecture_message() -> Seq<char> {
    "No CUDA architecture was selected."@
}

/// The install plan for the chosen CUDA architectures, or for none chosen.
pub fn install_plan(cuda_architectures: Option<&str>) -> (p: InstallPlan)
    ensures
        match cuda_architectures {
            Some(a) => p.message@ == build_script(a@) && (p.command matches Some(c) && c@
                == build_script(a@)),
            None => p.message@ == no_architecture_message() && p.command is None,
        },
{
    match cuda_architectures {
        None => InstallPlan {
            message: String::from_str("No CUDA architecture was selected."),
            command: None,
        },
        Some(a) => {
            let mut cmd = String::from_str(
                "if [ -d llama.cpp ]; then cd llama.cpp; else git clone https://github.com/ggerganov/llama.cpp.git && cd llama.cpp; fi && cmake -B build -DLLAMA_SERVER=ON -DGGML_CUDA=ON -DCMAKE_CUDA_ARCHITECTURES=\"",
            );
            cmd.append(a);
            cmd.append(
                "\" && cmake --build build -j && mkdir -p ~/.local/bin && cp -f \"$(pwd)/build/bin/llama-cli\" ~/.local/bin/llama-cli && cp -f \"$(pwd)/build/bin/llama-server\" ~/.local/bin/llama-server && cp -f \"$(pwd)/build/bin/llama-completion\" ~/.local/bin/llama-completion",
            );
            let message = cmd.clone();
            InstallPlan { message, command: Some(cmd) }
        },
    }
}

} // verus!

verus! {

// ---------------------------------------------------------------------------
// The steps of the check
// ---------------------------------------------------------------------------
/// How the check talks and whether it may ask.
pub struct CheckOptions {
    pub verbose: bool,
    pub interactive: bool,
}

/// Why the check failed.
pub enum CheckFailure {
    /// The tools are missing and cannot be installed; the message says why.
    NotFound(String),
    /// The user declined the install; the message says what is missing.
    Interrupted(String),
    /// The outside work last asked for failed; its own error is the reason.
    Failed,
}

/// Where the check stands.
pub enum LlamaCheck {
    /// Nothing done yet.
    Start,
    /// Waiting for the `--version` output of the next tool; the versions read so
    /// far, and whether this is the check after an install.
    Versions(Vec<String>, bool),
    /// Waiting for the `nvidia-smi` output.
    Detecting,
    /// Waiting for the architecture the user picks.
    Selecting,
    /// Waiting for the user's answer; the install command to run on a yes.
    Asking(String),
    /// Waiting for the install command to finish.
    Installing,
    /// The check is over.
    Finished,
}

/// What the caller reports to the check.
pub enum LlamaEvent {
    /// Start the check.
    Begin,
    /// The standard output and error of `<tool> --version`, one after the other;
    /// `None` when it could not be run.
    VersionOutput(Option<String>),
    /// The standard output of the `nvidia-smi` compute-capability query; `None`
    /// when it could not be run or failed.
    Detected(Option<String>),
    /// The architecture picked (`None` for none); `None` when the picker failed.
    Selected(Option<Option<String>>),
    /// The line the user typed; `None` when nothing could be read.
    Answer(Option<String>),
    /// Whether the install command succeeded.
    Installed(bool),
}

/// What the check asks of the caller.
pub enum LlamaAction {
    /// Run this tool with `--version`.
    QueryVersion(String),
    /// Query the compute capabilities of the GPUs with `nvidia-smi`.
    DetectArchitectures,
    /// Let the user pick from `cuda_architecture_options`.
    SelectArchitecture,
    /// Show this prompt and read a line.
    Ask(String),
    /// Run this command with `sh -c`.
    RunInstall(String),
    /// The check is over, with this outcome.
    Finish(Result<(), CheckFailure>),
    /// The check cannot go on: the version output of a tool cannot be read,
    /// because the place to read its version from cuts a character (see
    /// `reading_cuts`). The program stops with this message.
    Abort(String),
}

/// The outcome of one step: the next state, the lines to print, the next action.
pub struct LlamaStep {
    pub state: LlamaCheck,
    pub output: Vec<String>,
    pub action: LlamaAction,
}

/// The tools checked, in order.
pub open spec fn tool_name(i: int) -> Seq<char> {
    if i == 0 {
        "llama-cli"@
    } else if i == 1 {
        "llama-server"@
    } else {
        "llama-completion"@
    }
}

pub open spec fn not_all_installed() -> Seq<char> {
    "llama-cli, llama-server, and llama-completion are not all installed."@
}

pub open spec fn not_installed() -> Seq<char> {
    "llama-cli, llama-server, and llama-completion are not installed."@
}

pub open spec fn no_command() -> Seq<char> {
    "No automatic install command could be determined. Please check the llama.cpp install command for your distribution."@
}

pub open spec fn still_missing() -> Seq<char> {
    "llama.cpp installation completed, but llama-cli, llama-server, and llama-completion are still not available."@
}

/// Why the check stops on the version output of `tool`.
pub open spec fn unreadable_version(tool: Seq<char>) -> Seq<char> {
    "The version output of "@ + tool + " cannot be read: a byte offset falls inside a character."@
}

pub open spec fn llama_prompt() -> Seq<char> {
    "Install llama.cpp? [y/N]: "@
}

pub open spec fn when_verbose(o: CheckOptions, ls: Seq<Seq<char>>) -> Seq<Seq<char>> {
    if o.verbose {
        ls
    } else {
        seq![]
    }
}

/// The report of the three versions, under a header.
pub open spec fn version_report(header: Seq<char>, vs: Seq<Seq<char>>) -> Seq<Seq<char>> {
    seq![
        header,
        "llama-cli version: "@ + vs[0],
        "llama-server version: "@ + vs[1],
        "llama-completion version: "@ + vs[2],
    ]
}

pub open spec fn finishes(r: LlamaStep, outcome: Result<(), CheckFailure>) -> bool {
    &&& r.state matches LlamaCheck::Finished
    &&& match (r.action, outcome) {
        (LlamaAction::Finish(Ok(())), Ok(())) => true,
        (LlamaAction::Finish(Err(CheckFailure::Failed)), Err(CheckFailure::Failed)) => true,
        (
            LlamaAction::Finish(Err(CheckFailure::NotFound(m))),
            Err(CheckFailure::NotFound(n)),
        ) => m@ == n@,
        (
            LlamaAction::Finish(Err(CheckFailure::Interrupted(m))),
            Err(CheckFailure::Interrupted(n)),
        ) => m@ == n@,
        _ => false,
    }
}

pub open spec fn fails_with(r: LlamaStep, kind: int, msg: Seq<char>) -> bool {
    &&& r.state matches LlamaCheck::Finished
    &&& if kind == 0 {
        r.action matches LlamaAction::Finish(Err(CheckFailure::NotFound(m))) && m@ == msg
    } else if kind == 1 {
        r.action matches LlamaAction::Finish(Err(CheckFailure::Interrupted(m))) && m@ == msg
    } else {
        r.action matches LlamaAction::Finish(Err(CheckFailure::Failed))
    }
}

/// The step that follows the choice of architecture: the plan shown (when
/// verbose), then the question, or the failure when no command is known or
/// asking is not allowed.
pub open spec fn after_plan(
    arch: Option<Seq<char>>,
    o: CheckOptions,
    pre: Seq<Seq<char>>,
    r: LlamaStep,
) -> bool {
    let msg = match arch {
        Some(a) => build_script(a),
        None => no_architecture_message(),
    };
    &&& views(r.output@) == pre + when_verbose(o, seq!["Installation command:"@, msg])
    &&& match arch {
        None => fails_with(r, 0, no_command()),
        Some(a) => if !o.interactive {
            fails_with(r, 0, not_installed())
        } else {
            &&& r.state matches LlamaCheck::Asking(c) && c@ == build_script(a)
            &&& r.action matches LlamaAction::Ask(p) && p@ == llama_prompt()
        },
    }
}

/// The steps of the check.
pub open spec fn llama_transition(
    state: LlamaCheck,
    o: CheckOptions,
    event: LlamaEvent,
    r: LlamaStep,
) -> bool {
    match (state, event) {
        (LlamaCheck::Start, LlamaEvent::Begin) => {
            &&& r.output@.len() == 0
            &&& r.state matches LlamaCheck::Versions(found, verifying) && found@.len() == 0
                && !verifying
            &&& r.action matches LlamaAction::QueryVersion(t) && t@ == tool_name(0)
        },
        (LlamaCheck::Versions(found, verifying), LlamaEvent::VersionOutput(text)) => {
            let version = match text {
                Some(t) => version_in(t@),
                None => None,
            };
            if found@.len() >= 3 {
                r.output@.len() == 0 && fails_with(r, 2, seq![])
            } else if text matches Some(t) && reading_cuts(lines(t@)) {
                &&& r.output@.len() == 0
                &&& r.state matches LlamaCheck::Finished
                &&& r.action matches LlamaAction::Abort(m) && m@ == unreadable_version(
                    tool_name(found@.len() as int),
                )
            } else {
                match version {
                    Some(v) => {
                        let now = views(found@).push(v);
                        if now.len() < 3 {
                            &&& r.output@.len() == 0
                            &&& r.state matches LlamaCheck::Versions(f2, v2) && views(f2@) == now
                                && v2 == verifying
                            &&& r.action matches LlamaAction::QueryVersion(t) && t@ == tool_name(
                                now.len() as int,
                            )
                        } else {
                            &&& views(r.output@) == when_verbose(
                                o,
                                version_report(
                                    if verifying {
                                        "llama.cpp installation verified."@
                                    } else {
                                        "llama.cpp is installed."@
                                    },
                                    now,
                                ),
                            )
                            &&& finishes(r, Ok(()))
                        }
                    },
                    None => if verifying {
                        r.output@.len() == 0 && fails_with(r, 0, still_missing())
                    } else {
                        &&& views(r.output@) == when_verbose(o, seq![not_all_installed()])
                        &&& r.state matches LlamaCheck::Detecting
                        &&& r.action matches LlamaAction::DetectArchitectures
                    },
                }
            }
        },
        (LlamaCheck::Detecting, LlamaEvent::Detected(text)) => {
            let detected = match text {
                Some(t) => architectures_value(t@),
                None => None,
            };
            match detected {
                Some(d) => after_plan(
                    Some(d),
                    o,
                    when_verbose(o, seq!["Detected CUDA architecture target: "@ + d]),
                    r,
                ),
                None => if !o.interactive {
                    after_plan(None, o, seq![], r)
                } else {
                    &&& views(r.output@) == seq![
                        "Unable to detect CUDA architecture automatically."@,
                    ]
                    &&& r.state matches LlamaCheck::Selecting
                    &&& r.action matches LlamaAction::SelectArchitecture
                },
            }
        },
        (LlamaCheck::Selecting, LlamaEvent::Selected(picked)) => match picked {
            None => r.output@.len() == 0 && fails_with(r, 2, seq![]),
            Some(choice) => after_plan(
                match choice {
                    Some(a) => Some(a@),
                    None => None,
                },
                o,
                seq![],
                r,
            ),
        },
        (LlamaCheck::Asking(command), LlamaEvent::Answer(line)) => {
            let yes = match line {
                Some(l) => crate::cuda_toolkit::is_yes_answer(l@),
                None => false,
            };
            if yes {
                &&& r.output@.len() == 0
                &&& r.state matches LlamaCheck::Installing
                &&& r.action matches LlamaAction::RunInstall(c) && c@ == command@
            } else {
                &&& views(r.output@) == when_verbose(o, seq!["Skipping installation."@])
                &&& fails_with(r, 1, not_installed())
            }
        },
        (LlamaCheck::Installing, LlamaEvent::Installed(ok)) => if ok {
            &&& views(r.output@) == when_verbose(o, seq!["Installation command executed."@])
            &&& r.state matches LlamaCheck::Versions(found, verifying) && found@.len() == 0
                && verifying
            &&& r.action matches LlamaAction::QueryVersion(t) && t@ == tool_name(0)
        } else {
            r.output@.len() == 0 && fails_with(r, 2, seq![])
        },
        _ => r.output@.len() == 0 && fails_with(r, 2, seq![]),
    }
}

fn tool(i: usize) -> (t: String)
    requires
        i < 3,
    ensures
        t@ == tool_name(i as int),
{
    if i == 0 {
        String::from_str("llama-cli")
    } else if i == 1 {
        String::from_str("llama-server")
    } else {
        String::from_str("llama-completion")
    }
}

fn fail(kind: usize, msg: &str, output: Vec<String>) -> (r: LlamaStep)
    requires
        kind < 3,
    ensures
        r.output@ == output@,
        fails_with(r, kind as int, msg@),
{
    let failure = if kind == 0 {
        CheckFailure::NotFound(String::from_str(msg))
    } else if kind == 1 {
        CheckFailure::Interrupted(String::from_str(msg))
    } else {
        CheckFailure::Failed
    };
    LlamaStep { state: LlamaCheck::Finished, output, action: LlamaAction::Finish(Err(failure)) }
}

fn concat(a: &str, b: &str) -> (s: String)
    ensures
        s@ == a@ + b@,
{
    let mut s = String::from_str(a);
    s.append(b);
    s
}

fn plan_step(arch: Option<String>, options: &CheckOptions, output: Vec<String>) -> (r: LlamaStep)
    ensures
        after_plan(
            match arch {
                Some(a) => Some(a@),
                None => None,
            },
            *options,
            views(output@),
            r,
        ),
{
    let ghost pre = views(output@);
    let mut output = output;
    let plan = match &arch {
        Some(a) => install_plan(Some(a.as_str())),
        None => install_plan(None),
    };
    if options.verbose {
        output.push(String::from_str("Installation command:"));
        output.push(plan.message);
    }
    assert(views(output@) =~= pre + when_verbose(
        *options,
        seq![
            "Installation command:"@,
            match arch {
                Some(a) => build_script(a@),
                None => no_architecture_message(),
            },
        ],
    ));
    let ghost archv = match arch {
        Some(a) => Some(a@),
        None => None::<Seq<char>>,
    };
    let ghost msg = match archv {
        Some(a) => build_script(a),
        None => no_architecture_message(),
    };
    assert(views(output@) == pre + when_verbose(*options, seq!["Installation command:"@, msg]));
    assert(arch is None ==> plan.command is None);
    assert(arch is Some ==> plan.command is Some);
    match plan.command {
        None => fail(
            0,
            "No automatic install command could be determined. Please check the llama.cpp install command for your distribution.",
            output,
        ),
        Some(command) => {
            if !options.interactive {
                fail(0, "llama-cli, llama-server, and llama-completion are not installed.", output)
            } else {
                LlamaStep {
                    state: LlamaCheck::Asking(command),
                    output,
                    action: LlamaAction::Ask(String::from_str("Install llama.cpp? [y/N]: ")),
                }
            }
        },
    }
}

/// One step of the llama.cpp check (see `llama_transition`): read the versions of
/// the three tools; when one is missing, find the CUDA architectures (from
/// `nvidia-smi`, else from the user), show the build command, and build and
/// install the tools if the user agrees, then read the versions again.
pub fn llama_check_step(state: LlamaCheck, options: &CheckOptions, event: LlamaEvent) -> (r:
    LlamaStep)
    ensures
        llama_transition(state, *options, event, r),
{
    match (state, event) {
        (LlamaCheck::Start, LlamaEvent::Begin) => LlamaStep {
            state: LlamaCheck::Versions(Vec::new(), false),
            output: Vec::new(),
            action: LlamaAction::QueryVersion(tool(0)),
        },
        (LlamaCheck::Versions(found, verifying), LlamaEvent::VersionOutput(text)) => {
            if found.len() >= 3 {
                return fail(2, "", Vec::new());
            }
            let version = match &text {
                Some(t) => match checked_version(t.as_str()) {
                    Some(version) => version,
                    None => {
                        let mut m = String::from_str("The version output of ");
                        m.append(tool(found.len()).as_str());
                        m.append(" cannot be read: a byte offset falls inside a character.");
                        return LlamaStep {
                            state: LlamaCheck::Finished,
                            output: Vec::new(),
                            action: LlamaAction::Abort(m),
                        };
                    },
                },
                None => None,
            };
            match version {
                Some(v) => {
                    let ghost before = views(found@);
                    let ghost w = v@;
                    let mut found = found;
                    found.push(v);
                    assert(views(found@) =~= before.push(w));
                    if found.len() < 3 {
                        let next = tool(found.len());
                        LlamaStep {
                            state: LlamaCheck::Versions(found, verifying),
                            output: Vec::new(),
                            action: LlamaAction::QueryVersion(next),
                        }
                    } else {
                        let mut output: Vec<String> = Vec::new();
                        if options.verbose {
                            if verifying {
                                output.push(String::from_str("llama.cpp installation verified."));
                            } else {
                                output.push(String::from_str("llama.cpp is installed."));
                            }
                            output.push(concat("llama-cli version: ", found[0].as_str()));
                            output.push(concat("llama-server version: ", found[1].as_str()));
                            output.push(concat("llama-completion version: ", found[2].as_str()));
                        }
                        assert(views(output@) =~= when_verbose(
                            *options,
                            version_report(
                                if verifying {
                                    "llama.cpp installation verified."@
                                } else {
                                    "llama.cpp is installed."@
                                },
                                views(found@),
                            ),
                        ));
                        LlamaStep {
                            state: LlamaCheck::Finished,
                            output,
                            action: LlamaAction::Finish(Ok(())),
                        }
                    }
                },
                None => {
                    if verifying {
                        fail(
                            0,
                            "llama.cpp installation completed, but llama-cli, llama-server, and llama-completion are still not available.",
                            Vec::new(),
                        )
                    } else {
                        let mut output: Vec<String> = Vec::new();
                        if options.verbose {
                            output.push(
                                String::from_str(
                                    "llama-cli, llama-server, and llama-completion are not all installed.",
                                ),
                            );
                        }
                        assert(views(output@) =~= when_verbose(
                            *options,
                            seq![not_all_installed()],
                        ));
                        LlamaStep {
                            state: LlamaCheck::Detecting,
                            output,
                            action: LlamaAction::DetectArchitectures,
                        }
                    }
                },
            }
        },
        (LlamaCheck::Detecting, LlamaEvent::Detected(text)) => {
            let detected = match &text {
                Some(t) => parse_compute_caps(t.as_str()),
                None => None,
            };
            match detected {
                Some(d) => {
                    let mut output: Vec<String> = Vec::new();
                    if options.verbose {
                        output.push(concat("Detected CUDA architecture target: ", d.as_str()));
                    }
                    assert(views(output@) =~= when_verbose(
                        *options,
                        seq!["Detected CUDA architecture target: "@ + d@],
                    ));
                    plan_step(Some(d), options, output)
                },
                None => {
                    if !options.interactive {
                        let output: Vec<String> = Vec::new();
                        assert(views(output@) =~= Seq::<Seq<char>>::empty());
                        plan_step(None, options, output)
                    } else {
                        let mut output: Vec<String> = Vec::new();
                        output.push(
                            String::from_str("Unable to detect CUDA architecture automatically."),
                        );
                        assert(views(output@) =~= seq![
                            "Unable to detect CUDA architecture automatically."@,
                        ]);
                        LlamaStep {
                            state: LlamaCheck::Selecting,
                            output,
                            action: LlamaAction::SelectArchitecture,
                        }
                    }
                },
            }
        },
        (LlamaCheck::Selecting, LlamaEvent::Selected(picked)) => match picked {
            None => fail(2, "", Vec::new()),
            Some(choice) => {
                let output: Vec<String> = Vec::new();
                assert(views(output@) =~= Seq::<Seq<char>>::empty());
                plan_step(choice, options, output)
            },
        },
        (LlamaCheck::Asking(command), LlamaEvent::Answer(line)) => {
            let yes = match &line {
                Some(l) => crate::cuda_toolkit::is_yes(l.as_str()),
                None => false,
            };
            if yes {
                LlamaStep {
                    state: LlamaCheck::Installing,
                    output: Vec::new(),
                    action: LlamaAction::RunInstall(command),
                }
            } else {
                let mut output: Vec<String> = Vec::new();
                if options.verbose {
                    output.push(String::from_str("Skipping installation."));
                }
                assert(views(output@) =~= when_verbose(*options, seq!["Skipping installation."@]));
                fail(1, "llama-cli, llama-server, and llama-completion are not installed.", output)
            }
        },
        (LlamaCheck::Installing, LlamaEvent::Installed(ok)) => {
            if ok {
                let mut output: Vec<String> = Vec::new();
                if options.verbose {
                    output.push(String::from_str("Installation command executed."));
                }
                assert(views(output@) =~= when_verbose(
                    *options,
                    seq!["Installation command executed."@],
                ));
                LlamaStep {
                    state: LlamaCheck::Versions(Vec::new(), true),
                    output,
                    action: LlamaAction::QueryVersion(tool(0)),
                }
            } else {
                fail(2, "", Vec::new())
            }
        },
        _ => fail(2, "", Vec::new()),
    }
}

} // verus!

verus! {

// ---------------------------------------------------------------------------
// Running the tools
// ---------------------------------------------------------------------------
/// What the client is given to answer: a prompt, or a file that holds it.
pub enum ClientInput {
    Prompt(String),
    File(String),
}

pub open spec fn prompt_args(flag: Seq<char>, prompt: Option<&str>) -> Seq<Seq<char>> {
    match prompt {
        Some(p) => seq![flag, p@],
        None => seq![],
    }
}

/// The arguments of `llama-cli` for a model of the hub, and the prompt if any.
pub fn client_args(model: &str, prompt: Option<&str>) -> (args: Vec<String>)
    ensures
        views(args@) == seq!["-hf"@, model@] + prompt_args("-p"@, prompt),
{
    let mut args: Vec<String> = Vec::new();
    args.push(String::from_str("-hf"));
    args.push(String::from_str(model));
    if let Some(p) = prompt {
        args.push(String::from_str("-p"));
        args.push(String::from_str(p));
    }
    assert(views(args@) =~= seq!["-hf"@, model@] + prompt_args("-p"@, prompt));
    args
}

/// The arguments of `llama-completion`: one turn, plain output, no logging,
/// and the prompt if any.
pub fn completion_args(model: &str, prompt: Option<&str>) -> (args: Vec<String>)
    ensures
        views(args@) == seq![
            "-hf"@,
            model@,
            "--no-conversation"@,
            "--single-turn"@,
            "--simple-io"@,
            "--log-disable"@,
        ] + prompt_args("--prompt"@, prompt),
{
    let mut args: Vec<String> = Vec::new();
    args.push(String::from_str("-hf"));
    args.push(String::from_str(model));
    args.push(String::from_str("--no-conversation"));
    args.push(String::from_str("--single-turn"));
    args.push(String::from_str("--simple-io"));
    args.push(String::from_str("--log-disable"));
    if let Some(p) = prompt {
        args.push(String::from_str("--prompt"));
        args.push(String::from_str(p));
    }
    assert(views(args@) =~= seq![
        "-hf"@,
        model@,
        "--no-conversation"@,
        "--single-turn"@,
        "--simple-io"@,
        "--log-disable"@,
    ] + prompt_args("--prompt"@, prompt));
    args
}

/// The arguments of `llama-server` for a model of the hub.
pub fn server_args(model: &str) -> (args: Vec<String>)
    ensures
        views(args@) == seq!["-hf"@, model@],
{
    let mut args: Vec<String> = Vec::new();
    args.push(String::from_str("-hf"));
    args.push(String::from_str(model));
    assert(views(args@) =~= seq!["-hf"@, model@]);
    args
}

/// The line shown before running the client.
pub fn client_echo(model: &str) -> (line: String)
    ensures
        line@ == "llama-cli -hf "@ + model@,
{
    concat("llama-cli -hf ", model)
}

/// The line shown before running a completion.
pub fn completion_echo(model: &str) -> (line: String)
    ensures
        line@ == "llama-completion -hf "@ + model@ + " --single-turn --simple-io --log-disable"@,
{
    let mut line = concat("llama-completion -hf ", model);
    line.append(" --single-turn --simple-io --log-disable");
    line
}

/// The line shown before running the server.
pub fn server_echo(model: &str) -> (line: String)
    ensures
        line@ == "llama-server --webui-mcp-proxy -hf "@ + model@,
{
    concat("llama-server --webui-mcp-proxy -hf ", model)
}

// ---------------------------------------------------------------------------
// Choosing an architecture by hand
// ---------------------------------------------------------------------------
/// The architectures offered when none is detected: `(shown text, value)`.
pub open spec fn architecture_choices() -> Seq<(Seq<char>, Seq<char>)> {
    seq![
        ("61 - Pascal (GTX 1080 and related)"@, "61"@),
        ("70 - Volta (V100 and related)"@, "70"@),
        ("75 - Turing (RTX 20xx, T4)"@, "75"@),
        ("80 - Ampere datacenter (A100)"@, "80"@),
        ("86 - Ampere consumer (RTX 30xx)"@, "86"@),
        ("89 - Ada (RTX 40xx)"@, "89"@),
        ("90 - Hopper (H100)"@, "90"@),
        ("61;70;75;80;86;89;90 - Common multi-arch build"@, "61;70;75;80;86;89;90"@),
    ]
}

fn choice(display: &str, value: &str) -> (item: PickerItem)
    ensures
        item.display@ == display@,
        item.value@ == value@,
        item.color is None,
{
    PickerItem { display: String::from_str(display), value: String::from_str(value), color: None }
}

/// The picker items of `architecture_choices`, uncoloured, in that order.
pub fn cuda_architecture_options() -> (items: Vec<PickerItem>)
    ensures
        items@.len() == architecture_choices().len(),
        forall|i: int|
            0 <= i < items@.len() ==> (#[trigger] items@[i]).display@ == architecture_choices()[i].0
                && items@[i].value@ == architecture_choices()[i].1 && items@[i].color is None,
{
    let mut items: Vec<PickerItem> = Vec::new();
    items.push(choice("61 - Pascal (GTX 1080 and related)", "61"));
    items.push(choice("70 - Volta (V100 and related)", "70"));
    items.push(choice("75 - Turing (RTX 20xx, T4)", "75"));
    items.push(choice("80 - Ampere datacenter (A100)", "80"));
    items.push(choice("86 - Ampere consumer (RTX 30xx)", "86"));
    items.push(choice("89 - Ada (RTX 40xx)", "89"));
    items.push(choice("90 - Hopper (H100)", "90"));
    items.push(
        choice("61;70;75;80;86;89;90 - Common multi-arch build", "61;70;75;80;86;89;90"),
    );
    items
}

/// The title of the architecture picker.
pub fn cuda_architecture_title() -> (t: &'static str)
    ensures
        t@ == "Select CUDA architecture target:"@,
{
    "Select CUDA architecture target:"
}

} // verus!

verus! {

// ---------------------------------------------------------------------------
// Laws
// ---------------------------------------------------------------------------
proof fn lemma_without_v_shape(c: Seq<char>)
    requires
        has_digit(c),
    ensures
        has_digit(without_v(c)),
        without_v(c).len() > 0 && without_v(c)[0] != 'v',
{
    lemma_drop_while(c, CharClass::LowerV);
    let w = without_v(c);
    let j = choose|j: int| 0 <= j < c.len() && is_ascii_digit(#[trigger] c[j]);
    let off = c.len() - w.len();
    if j < off {
        assert(c[j] == 'v');
    }
    assert(w[j - off] == c[j]);
}

proof fn lemma_first_version_shape(ws: Seq<Seq<char>>)
    ensures
        first_version_in(ws) matches Some(v) ==> has_digit(v) && v.len() > 0 && v[0] != 'v',
    decreases ws.len(),
{
    if ws.len() > 0 {
        if version_like(cleaned(ws[0])) {
            lemma_without_v_shape(cleaned(ws[0]));
        } else {
            lemma_first_version_shape(ws.drop_first());
        }
    }
}

proof fn lemma_line_version_shape(line: Seq<char>)
    ensures
        version_in_line(line) matches Some(v) ==> has_digit(v) && v.len() > 0 && v[0] != 'v',
{
    match label_end(line) {
        Some(Some(j)) => {
            let after = trim(line.subrange(j, line.len() as int));
            let t = trim(drop_while(after, CharClass::LabelSeparator));
            if t.len() > 0 && words(t).len() > 0 {
                let c = cleaned(words(t)[0]);
                if c.len() > 0 && has_digit(c) {
                    lemma_without_v_shape(c);
                }
            }
            lemma_first_version_shape(words(after));
        },
        Some(None) => {},
        None => {
            lemma_first_version_shape(words(line));
        },
    }
}

proof fn lemma_lines_version_shape(ls: Seq<Seq<char>>)
    ensures
        version_in_lines(ls) matches Some(v) ==> has_digit(v) && v.len() > 0 && v[0] != 'v',
    decreases ls.len(),
{
    if ls.len() > 0 {
        lemma_line_version_shape(trim(ls[0]));
        lemma_lines_version_shape(ls.drop_first());
    }
}

/// A version read from `--version` output holds a digit and does not start with `v`.
pub proof fn version_has_digit_and_no_v(output: Seq<char>)
    ensures
        version_in(output) matches Some(v) ==> has_digit(v) && v.len() > 0 && v[0] != 'v',
{
    lemma_lines_version_shape(lines(output));
}

/// The architectures value lists each architecture of the GPUs once, in
/// increasing order.
pub proof fn architectures_are_sorted_and_distinct(output: Seq<char>)
    ensures
        architectures_in(lines(output)) matches Some(archs) ==> archs.len() > 0
            ==> architectures_value(output) == Some(join(sorted_set(archs), ';'))
            && strictly_sorted(sorted_set(archs)) && same_elements(sorted_set(archs), archs),
{
    if let Some(archs) = architectures_in(lines(output)) {
        sorted_set_is_sorted_and_complete(archs);
    }
}

proof fn lemma_trim_digits(s: Seq<char>)
    requires
        all_digits(s),
    ensures
        trim(s) == s,
{
    if s.len() > 0 {
        assert(is_ascii_digit(s[0]));
        assert(is_ascii_digit(s.last()));
    }
}

proof fn lemma_no_dot_in_digits(s: Seq<char>)
    requires
        all_digits(s),
    ensures
        find(s, seq!['.']) is None,
{
    lemma_find(s, seq!['.']);
    if let Some(i) = find(s, seq!['.']) {
        assert(s.subrange(i, i + 1)[0] == s[i]);
        assert(is_ascii_digit(s[i]));
    }
}

/// The CMake architecture of a capability `major.minor` whose parts are runs of
/// digits is the whole major part followed by the whole minor part, every digit
/// kept: `12.0` gives `120`, `8.9` gives `89`.
pub proof fn architecture_joins_major_and_minor(major: Seq<char>, minor: Seq<char>)
    requires
        major.len() > 0,
        minor.len() > 0,
        all_digits(major),
        all_digits(minor),
    ensures
        architecture_of(major + seq!['.'] + minor) == Some(major + minor),
        (major + minor).len() == major.len() + minor.len(),
{
    let cap = major + seq!['.'] + minor;
    let m = major.len() as int;
    lemma_find(cap, seq!['.']);
    assert(cap.subrange(m, m + 1) =~= seq!['.']);
    assert(occurs_at(cap, seq!['.'], m));
    assert forall|j: int| 0 <= j < m implies !occurs_at(cap, seq!['.'], j) by {
        assert(cap[j] == major[j]);
        assert(is_ascii_digit(major[j]));
        if occurs_at(cap, seq!['.'], j) {
            assert(cap.subrange(j, j + 1)[0] == cap[j]);
        }
    }
    assert(find(cap, seq!['.']) == Some(m));
    assert(cap.take(m) =~= major);
    assert(cap.subrange(m + 1, cap.len() as int) =~= minor);
    lemma_trim_digits(major);
    lemma_trim_digits(minor);
    lemma_no_dot_in_digits(minor);
}

/// `nvidia-smi` reporting one GPU of capability `major.minor` (digit runs) gives
/// that GPU's architecture, all digits of both parts kept: `12.0` gives `120`.
pub proof fn one_gpu_gives_its_architecture(major: Seq<char>, minor: Seq<char>)
    requires
        major.len() > 0,
        minor.len() > 0,
        all_digits(major),
        all_digits(minor),
    ensures
        architectures_value(major + seq!['.'] + minor + seq!['\n']) == Some(major + minor),
{
    let cap = major + seq!['.'] + minor;
    let out = cap + seq!['\n'];
    let n = cap.len() as int;
    architecture_joins_major_and_minor(major, minor);
    lemma_find(out, seq!['\n']);
    assert(out.subrange(n, n + 1) =~= seq!['\n']);
    assert(occurs_at(out, seq!['\n'], n));
    assert forall|j: int| 0 <= j < n implies !occurs_at(out, seq!['\n'], j) by {
        if occurs_at(out, seq!['\n'], j) {
            assert(out.subrange(j, j + 1)[0] == out[j]);
            if j < major.len() {
                assert(out[j] == major[j]);
                assert(is_ascii_digit(major[j]));
            } else if j == major.len() {
                assert(out[j] == '.');
            } else {
                assert(out[j] == minor[j - major.len() - 1]);
                assert(is_ascii_digit(minor[j - major.len() - 1]));
            }
        }
    }
    assert(find(out, seq!['\n']) == Some(n));
    assert(out.take(n) =~= cap);
    assert(cap.last() == minor.last());
    assert(is_ascii_digit(minor.last()));
    assert(strip_cr(cap) == cap);
    assert(out.skip(n + 1) =~= Seq::<char>::empty());
    assert(lines(Seq::<char>::empty()) =~= Seq::<Seq<char>>::empty());
    assert(lines(out) == seq![strip_cr(out.take(n))] + lines(out.skip(n + 1)));
    assert(lines(out) =~= seq![cap]);
    assert(is_ascii_digit(major[0]));
    assert(cap[0] == major[0]);
    assert(trim(cap) == cap);
    assert(seq![cap].drop_first() =~= Seq::<Seq<char>>::empty());
    let a = major + minor;
    assert(architectures_in(Seq::<Seq<char>>::empty()) == Some(Seq::<Seq<char>>::empty()));
    assert(lines(out)[0] == cap);
    assert(architecture_of(trim(lines(out)[0])) == Some(a));
    assert(architectures_in(lines(out)) == Some(seq![a] + Seq::<Seq<char>>::empty()));
    assert(seq![a] + Seq::<Seq<char>>::empty() =~= seq![a]);
    assert(same_elements(seq![a], seq![a]));
    lemma_sorted_set(seq![a], seq![a]);
}

/// The architectures value depends only on which architectures the lines name:
/// reordering or repeating lines never changes it.
pub proof fn architectures_value_ignores_order_and_repeats(a: Seq<char>, b: Seq<char>)
    requires
        architectures_in(lines(a)) matches Some(x) && architectures_in(lines(b)) matches Some(y)
            && same_elements(x, y),
    ensures
        architectures_value(a) == architectures_value(b),
{
    let x = architectures_in(lines(a))->0;
    let y = architectures_in(lines(b))->0;
    sorted_set_is_sorted_and_complete(x);
    sorted_set_is_sorted_and_complete(y);
    lemma_sorted_unique(sorted_set(x), sorted_set(y));
    if x.len() == 0 && y.len() > 0 {
        assert(y.contains(y[0]));
    }
    if y.len() == 0 && x.len() > 0 {
        assert(x.contains(x[0]));
    }
}

/// When `nvidia-smi` yields architectures, the check builds for them: it never
/// opens the picker, says (when verbose) what it detected and shows the build
/// command for exactly those architectures, and (when it may ask) asks whether to
/// run that command.
pub proof fn detected_architectures_are_built(
    options: CheckOptions,
    text: String,
    d: Seq<char>,
    r: LlamaStep,
)
    requires
        architectures_value(text@) == Some(d),
        llama_transition(LlamaCheck::Detecting, options, LlamaEvent::Detected(Some(text)), r),
    ensures
        !(r.action is SelectArchitecture),
        !(r.state is Selecting),
        options.verbose ==> views(r.output@) == seq![
            "Detected CUDA architecture target: "@ + d,
            "Installation command:"@,
            build_script(d),
        ],
        !options.verbose ==> r.output@.len() == 0,
        options.interactive ==> (r.state matches LlamaCheck::Asking(c) && c@ == build_script(d))
            && (r.action matches LlamaAction::Ask(p) && p@ == llama_prompt()),
{
    if options.verbose {
        assert(views(r.output@) =~= seq![
            "Detected CUDA architecture target: "@ + d,
            "Installation command:"@,
            build_script(d),
        ]);
    }
}

/// A check that may not ask never asks the user and never opens the picker.
pub proof fn quiet_check_never_asks(
    state: LlamaCheck,
    options: CheckOptions,
    event: LlamaEvent,
    r: LlamaStep,
)
    requires
        !options.interactive,
        llama_transition(state, options, event, r),
    ensures
        !(r.action is Ask),
        !(r.action is SelectArchitecture),
        !(r.state is Selecting),
        !(r.state is Asking),
{
}

/// A check that is neither verbose nor interactive, as an automated run is,
/// prints nothing.
pub proof fn quiet_check_prints_nothing(
    state: LlamaCheck,
    options: CheckOptions,
    event: LlamaEvent,
    r: LlamaStep,
)
    requires
        !options.verbose,
        !options.interactive,
        llama_transition(state, options, event, r),
    ensures
        r.output@.len() == 0,
{
}

/// A declined install runs nothing and ends the check with the tools reported
/// missing.
pub proof fn declined_install_runs_nothing(
    command: String,
    options: CheckOptions,
    line: Option<String>,
    r: LlamaStep,
)
    requires
        llama_transition(LlamaCheck::Asking(command), options, LlamaEvent::Answer(line), r),
        !(line matches Some(l) && crate::cuda_toolkit::is_yes_answer(l@)),
    ensures
        !(r.action is RunInstall),
        r.action matches LlamaAction::Finish(Err(CheckFailure::Interrupted(m))) && m@
            == not_installed(),
{
}

/// An agreed install runs exactly the command that was shown.
pub proof fn agreed_install_runs_shown_command(
    command: String,
    options: CheckOptions,
    line: String,
    r: LlamaStep,
)
    requires
        llama_transition(LlamaCheck::Asking(command), options, LlamaEvent::Answer(Some(line)), r),
        crate::cuda_toolkit::is_yes_answer(line@),
    ensures
        r.action matches LlamaAction::RunInstall(c) && c@ == command@,
{
}

/// The check succeeds only on reading a version from the last of the three
/// tools, after a version was read from each of the two before it.
pub proof fn success_needs_all_three_versions(
    state: LlamaCheck,
    options: CheckOptions,
    event: LlamaEvent,
    r: LlamaStep,
)
    requires
        llama_transition(state, options, event, r),
        r.action matches LlamaAction::Finish(outcome) && outcome is Ok,
    ensures
        state matches LlamaCheck::Versions(found, _) && found@.len() == 2,
        event matches LlamaEvent::VersionOutput(Some(t)) && version_in(t@) is Some,
{
}

} // verus!
