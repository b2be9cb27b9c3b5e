//! The model picker: the state machine that keys drive, the lines it shows with
//! the models already in the local Hugging Face cache marked, and the cache
//! directory name of a model. The terminal and the file system are the caller's.
use vstd::prelude::*;
use crate::list_picker::{PickerAction, PickerKey, rows_for_items, truncated, truncate_to_width, visible_rows};
use crate::text::{chars_of, opt_view, views};

verus! {

// ---------------------------------------------------------------------------
// Cache directory names
// ---------------------------------------------------------------------------
/// `s` with every `/` replaced by `--`.
pub open spec fn replace_slashes(s: Seq<char>) -> Seq<char>
    decreases s.len(),
{
    if s.len() == 0 {
        seq![]
    } else {
        let rest = replace_slashes(s.drop_last());
        if s.last() == '/' {
            rest + seq!['-', '-']
        } else {
            rest.push(s.last())
        }
    }
}

pub open spec fn cache_dir_prefix() -> Seq<char> {
    seq!['m', 'o', 'd', 'e', 'l', 's', '-', '-']
}

/// The name of a model's directory in the Hugging Face hub cache:
/// `models--` and the model id with `/` written `--`.
pub fn repo_cache_dir_name(model: &str) -> (name: String)
    ensures
        name@ == cache_dir_prefix() + replace_slashes(model@),
{
    let v = chars_of(model);
    let mut name = String::new();
    name.push('m');
    name.push('o');
    name.push('d');
    name.push('e');
    name.push('l');
    name.push('s');
    name.push('-');
    name.push('-');
    assert(name@ =~= cache_dir_prefix());
    let mut i: usize = 0;
    while i < v.len()
        invariant
            i <= v@.len(),
            v@ == model@,
            name@ == cache_dir_prefix() + replace_slashes(v@.take(i as int)),
        decreases v@.len() - i,
    {
        assert(v@.take(i + 1).drop_last() =~= v@.take(i as int));
        if v[i] == '/' {
            name.push('-');
            name.push('-');
            assert(name@ =~= cache_dir_prefix() + replace_slashes(v@.take(i + 1)));
        } else {
            name.push(v[i]);
            assert(name@ =~= cache_dir_prefix() + replace_slashes(v@.take(i + 1)));
        }
        i = i + 1;
    }
    assert(v@.take(v@.len() as int) =~= v@);
    name
}

// ---------------------------------------------------------------------------
// The hub cache
// ---------------------------------------------------------------------------
/// `part` joined to the path `base` (`Path::join` with a relative `part`): a `/`
/// between them unless `base` is empty or already ends with one.
pub open spec fn joined(base: Seq<char>, part: Seq<char>) -> Seq<char> {
    if base.len() > 0 && base.last() != '/' {
        base + seq!['/'] + part
    } else {
        base + part
    }
}

/// `part` joined to the path `base` (see `joined`).
pub fn path_join(base: &str, part: &str) -> (r: String)
    ensures
        r@ == joined(base@, part@),
{
    let v = chars_of(base);
    let mut r = String::from_str(base);
    if v.len() > 0 && v[v.len() - 1] != '/' {
        r.push('/');
    }
    r.append(part);
    r
}

/// The roots of the Hugging Face hub cache, in the order they are looked in:
/// `$HUGGINGFACE_HUB_CACHE`, `$HF_HOME/hub`, `$XDG_CACHE_HOME/huggingface/hub`
/// and `$HOME/.cache/huggingface/hub`, each only where its variable is set.
pub open spec fn cache_roots(
    hub_cache: Option<Seq<char>>,
    hf_home: Option<Seq<char>>,
    xdg_cache: Option<Seq<char>>,
    home: Option<Seq<char>>,
) -> Seq<Seq<char>> {
    let a = match hub_cache {
        Some(p) => seq![p],
        None => seq![],
    };
    let b = match hf_home {
        Some(p) => seq![joined(p, "hub"@)],
        None => seq![],
    };
    let c = match xdg_cache {
        Some(p) => seq![joined(joined(p, "huggingface"@), "hub"@)],
        None => seq![],
    };
    let d = match home {
        Some(p) => seq![joined(joined(joined(p, ".cache"@), "huggingface"@), "hub"@)],
        None => seq![],
    };
    a + b + c + d
}

fn push_root(roots: &mut Vec<String>, root: Option<String>)
    ensures
        views(final(roots)@) == views(old(roots)@) + match opt_view(root) {
            Some(p) => seq![p],
            None => Seq::<Seq<char>>::empty(),
        },
{
    let ghost before = views(roots@);
    match root {
        Some(r) => {
            let ghost w = r@;
            roots.push(r);
            assert(views(roots@) =~= before + seq![w]);
        },
        None => {
            assert(views(roots@) =~= before + Seq::<Seq<char>>::empty());
        },
    }
}

/// The roots of the hub cache for these values of `HUGGINGFACE_HUB_CACHE`,
/// `HF_HOME`, `XDG_CACHE_HOME` and `HOME` (see `cache_roots`).
pub fn cache_roots_of(
    hub_cache: Option<String>,
    hf_home: Option<String>,
    xdg_cache: Option<String>,
    home: Option<String>,
) -> (r: Vec<String>)
    ensures
        views(r@) == cache_roots(
            opt_view(hub_cache),
            opt_view(hf_home),
            opt_view(xdg_cache),
            opt_view(home),
        ),
{
    let mut roots: Vec<String> = Vec::new();
    assert(views(roots@) =~= Seq::<Seq<char>>::empty());
    push_root(&mut roots, hub_cache);
    let hf = match &hf_home {
        Some(p) => Some(path_join(p.as_str(), "hub")),
        None => None,
    };
    proof {
        reveal_strlit("hub");
        reveal_strlit("huggingface");
        reveal_strlit(".cache");
    }
    push_root(&mut roots, hf);
    let xdg = match &xdg_cache {
        Some(p) => {
            let a = path_join(p.as_str(), "huggingface");
            Some(path_join(a.as_str(), "hub"))
        },
        None => None,
    };
    push_root(&mut roots, xdg);
    let hm = match &home {
        Some(p) => {
            let a = path_join(p.as_str(), ".cache");
            let b = path_join(a.as_str(), "huggingface");
            Some(path_join(b.as_str(), "hub"))
        },
        None => None,
    };
    push_root(&mut roots, hm);
    roots
}

/// The `snapshots` directory of a model under a cache root: where a model that
/// was downloaded has its files.
pub open spec fn snapshot_dir(root: Seq<char>, model: Seq<char>) -> Seq<char> {
    joined(joined(root, cache_dir_prefix() + replace_slashes(model)), "snapshots"@)
}

/// The `snapshots` directories of a model under each cache root, in order (see
/// `snapshot_dir`).
pub fn snapshot_dirs(roots: &Vec<String>, model: &str) -> (r: Vec<String>)
    ensures
        r@.len() == roots@.len(),
        forall|i: int| 0 <= i < r@.len() ==> #[trigger] r@[i]@ == snapshot_dir(roots@[i]@, model@),
{
    let name = repo_cache_dir_name(model);
    let mut r: Vec<String> = Vec::new();
    let mut i: usize = 0;
    proof {
        reveal_strlit("snapshots");
    }
    while i < roots.len()
        invariant
            i <= roots@.len(),
            r@.len() == i,
            name@ == cache_dir_prefix() + replace_slashes(model@),
            forall|j: int| 0 <= j < i ==> #[trigger] r@[j]@ == snapshot_dir(roots@[j]@, model@),
        decreases roots@.len() - i,
    {
        let dir = path_join(roots[i].as_str(), name.as_str());
        r.push(path_join(dir.as_str(), "snapshots"));
        i = i + 1;
    }
    r
}

// ---------------------------------------------------------------------------
// Line text
// ---------------------------------------------------------------------------
/// A model line: the prefix, the model id cut to what the width leaves, and the
/// suffix; only the prefix, cut, when prefix and suffix alone fill the width.
pub open spec fn formatted_model_line(
    prefix: Seq<char>,
    model: Seq<char>,
    suffix: Seq<char>,
    max: int,
) -> Seq<char> {
    if max <= prefix.len() + suffix.len() {
        truncated(prefix, max)
    } else {
        prefix + truncated(model, max - prefix.len() - suffix.len()) + suffix
    }
}

/// The text of a model line (see `formatted_model_line`).
pub fn format_model_line(prefix: &str, model: &str, suffix: &str, max_width: usize) -> (r: String)
    ensures
        r@ == formatted_model_line(prefix@, model@, suffix@, max_width as int),
{
    let prefix_width = chars_of(prefix).len();
    let suffix_width = chars_of(suffix).len();
    if max_width <= prefix_width || max_width - prefix_width <= suffix_width {
        return truncate_to_width(prefix, max_width);
    }
    let available = max_width - prefix_width - suffix_width;
    let model_part = truncate_to_width(model, available);
    let mut line = String::from_str(prefix);
    line.append(model_part.as_str());
    line.append(suffix);
    line
}

// ---------------------------------------------------------------------------
// The picker's state and its keys
// ---------------------------------------------------------------------------
/// The state of the model picker: the selected model and the first row shown.
pub struct ModelPicker {
    pub selected: usize,
    pub offset: usize,
}

/// The selection moved by a navigation key, with the first row shown following
/// it: `(selected, offset)` after the key, for a list of `len` models.
pub open spec fn model_navigate(sel: int, off: int, len: int, key: PickerKey, rows: int) -> (
    int,
    int,
) {
    match key {
        PickerKey::Up => {
            let ns = if sel > 0 {
                sel - 1
            } else {
                0
            };
            (ns, if ns < off {
                ns
            } else {
                off
            })
        },
        PickerKey::Down => {
            let ns = if sel + 1 < len {
                sel + 1
            } else {
                sel
            };
            (ns, if ns >= off + rows {
                ns + 1 - rows
            } else {
                off
            })
        },
        PickerKey::PageUp => {
            let ns = if sel >= rows {
                sel - rows
            } else {
                0
            };
            let o = if off >= rows {
                off - rows
            } else {
                0
            };
            (ns, if ns < o {
                ns
            } else {
                o
            })
        },
        PickerKey::PageDown => {
            let ns = if sel + rows < len - 1 {
                sel + rows
            } else {
                len - 1
            };
            (ns, if ns >= off + rows {
                ns + 1 - rows
            } else {
                off
            })
        },
        _ => (sel, off),
    }
}

impl ModelPicker {
    /// The selection is on a model of a list of `len`, and the first row shown is
    /// not below it.
    pub open spec fn wf(&self, len: int) -> bool {
        self.selected < len && self.offset <= self.selected
    }

    /// The selected row lies in the `rows` rows shown from `offset`.
    pub open spec fn shows_selection(&self, rows: int) -> bool {
        self.offset <= self.selected < self.offset + rows
    }

    /// The first model selected, shown from the top.
    pub fn new() -> (p: ModelPicker)
        ensures
            p.selected == 0,
            p.offset == 0,
    {
        ModelPicker { selected: 0, offset: 0 }
    }
}

/// The next state of the model picker after `key`, with `visible_rows` rows
/// shown, and what the caller is to do. The picker is drawn again after every
/// key that neither chooses nor cancels.
pub fn model_picker_step(p: &mut ModelPicker, models: &[String], key: PickerKey, visible_rows: usize) -> (action:
    PickerAction)
    requires
        old(p).wf(models@.len() as int),
        visible_rows >= 1,
    ensures
        final(p).wf(models@.len() as int),
        old(p).shows_selection(visible_rows as int) ==> final(p).shows_selection(
            visible_rows as int,
        ),
        key == PickerKey::Enter ==> *final(p) == *old(p) && (action matches PickerAction::Chosen(m)
            && m@ == models@[old(p).selected as int]@),
        key == PickerKey::Esc ==> *final(p) == *old(p) && action == PickerAction::Cancelled,
        key != PickerKey::Enter && key != PickerKey::Esc ==> {
            let (ns, no) = model_navigate(
                old(p).selected as int,
                old(p).offset as int,
                models@.len() as int,
                key,
                visible_rows as int,
            );
            &&& final(p).selected == ns
            &&& final(p).offset == no
            &&& action == PickerAction::Redraw
        },
{
    let len = models.len();
    match key {
        PickerKey::Up => {
            p.selected = p.selected.saturating_sub(1);
            if p.selected < p.offset {
                p.offset = p.selected;
            }
            PickerAction::Redraw
        },
        PickerKey::Down => {
            if p.selected + 1 < len {
                p.selected = p.selected + 1;
            }
            if p.selected - p.offset >= visible_rows {
                p.offset = p.selected + 1 - visible_rows;
            }
            PickerAction::Redraw
        },
        PickerKey::PageUp => {
            p.selected = p.selected.saturating_sub(visible_rows);
            p.offset = p.offset.saturating_sub(visible_rows);
            if p.selected < p.offset {
                p.offset = p.selected;
            }
            PickerAction::Redraw
        },
        PickerKey::PageDown => {
            let reach = p.selected.saturating_add(visible_rows);
            p.selected = if reach < len - 1 {
                reach
            } else {
                len - 1
            };
            if p.selected - p.offset >= visible_rows {
                p.offset = p.selected + 1 - visible_rows;
            }
            PickerAction::Redraw
        },
        PickerKey::Enter => PickerAction::Chosen(models[p.selected].clone()),
        PickerKey::Esc => PickerAction::Cancelled,
        _ => PickerAction::Redraw,
    }
}

// ---------------------------------------------------------------------------
// What the picker shows
// ---------------------------------------------------------------------------
/// How a model line is drawn.
#[derive(Clone, Copy, PartialEq, Eq, Structural)]
pub enum LineStyle {
    /// The selected row, reversed, in green for a model in the cache.
    SelectedInstalled,
    /// The selected row, reversed, in the default colour.
    Selected,
    /// Another row, in green: a model in the cache.
    Installed,
    /// Another row, plain.
    Plain,
}

pub open spec fn line_style(selected: bool, installed: bool) -> LineStyle {
    if selected {
        if installed {
            LineStyle::SelectedInstalled
        } else {
            LineStyle::Selected
        }
    } else if installed {
        LineStyle::Installed
    } else {
        LineStyle::Plain
    }
}

pub open spec fn installed_suffix() -> Seq<char> {
    seq![' ', '(', 'i', 'n', 's', 't', 'a', 'l', 'l', 'e', 'd', ')']
}

/// Is the model at `i` marked as in the cache? No mark where the flags run out.
pub open spec fn is_installed(installed: Seq<bool>, i: int) -> bool {
    0 <= i < installed.len() && installed[i]
}

/// A model line as drawn: its text and its style.
pub struct ModelLine {
    pub text: String,
    pub style: LineStyle,
}

/// A model picker screen: the item lines from the first row shown, and whether
/// the key help goes on the last row.
pub struct ModelFrame {
    pub lines: Vec<ModelLine>,
    pub footer: bool,
}

/// The screen of the model picker on a terminal of `cols` columns and `rows` rows;
/// `installed` marks the models found in the cache.
pub fn model_picker_frame(p: &ModelPicker, models: &[String], installed: &[bool], cols: u16, rows: u16) -> (f:
    ModelFrame)
    requires
        p.wf(models@.len() as int),
    ensures
        f.footer == (rows > 1),
        f.lines@.len() == (if p.offset + rows_for_items(rows as int) < models@.len() {
            p.offset + rows_for_items(rows as int)
        } else {
            models@.len() as int
        }) - p.offset,
        forall|k: int|
            0 <= k < f.lines@.len() ==> {
                let i = p.offset + k;
                let sel = i == p.selected;
                let inst = is_installed(installed@, i);
                &&& (#[trigger] f.lines@[k]).style == line_style(sel, inst)
                &&& f.lines@[k].text@ == formatted_model_line(
                    if sel {
                        seq!['>', ' ']
                    } else {
                        seq![' ', ' ']
                    },
                    models@[i]@,
                    if inst {
                        installed_suffix()
                    } else {
                        seq![]
                    },
                    cols as int,
                )
            },
{
    let vr = visible_rows(rows);
    let max_width = cols as usize;
    let len = models.len();
    let end = if vr < len - p.offset {
        p.offset + vr
    } else {
        len
    };
    let mut lines: Vec<ModelLine> = Vec::new();
    let mut i = p.offset;
    while i < end
        invariant
            p.wf(len as int),
            len == models@.len(),
            p.offset <= i <= end <= len,
            lines@.len() == i - p.offset,
            forall|k: int|
                0 <= k < lines@.len() ==> {
                    let j = p.offset + k;
                    let sel = j == p.selected;
                    let inst = is_installed(installed@, j);
                    &&& (#[trigger] lines@[k]).style == line_style(sel, inst)
                    &&& lines@[k].text@ == formatted_model_line(
                        if sel {
                            seq!['>', ' ']
                        } else {
                            seq![' ', ' ']
                        },
                        models@[j]@,
                        if inst {
                            installed_suffix()
                        } else {
                            seq![]
                        },
                        max_width as int,
                    )
                },
        decreases end - i,
    {
        let selected = i == p.selected;
        let inst = i < installed.len() && installed[i];
        let prefix = if selected {
            "> "
        } else {
            "  "
        };
        let suffix = if inst {
            " (installed)"
        } else {
            ""
        };
        proof {
            reveal_strlit("> ");
            reveal_strlit("  ");
            reveal_strlit(" (installed)");
            reveal_strlit("");
        }
        assert(prefix@ =~= if selected {
            seq!['>', ' ']
        } else {
            seq![' ', ' ']
        });
        assert(suffix@ =~= if inst {
            installed_suffix()
        } else {
            seq![]
        });
        let text = format_model_line(prefix, models[i].as_str(), suffix, max_width);
        let style = if selected {
            if inst {
                LineStyle::SelectedInstalled
            } else {
                LineStyle::Selected
            }
        } else if inst {
            LineStyle::Installed
        } else {
            LineStyle::Plain
        };
        lines.push(ModelLine { text, style });
        i = i + 1;
    }
    ModelFrame { lines, footer: rows > 1 }
}

} // verus!

verus! {

// ---------------------------------------------------------------------------
// Laws
// ---------------------------------------------------------------------------
/// A model line never exceeds the width of the terminal.
pub proof fn model_line_fits_width(prefix: Seq<char>, model: Seq<char>, suffix: Seq<char>, max: int)
    requires
        max >= 0,
    ensures
        formatted_model_line(prefix, model, suffix, max).len() <= max,
{
    crate::list_picker::truncated_length(prefix, max);
    if max > prefix.len() + suffix.len() {
        crate::list_picker::truncated_length(model, max - prefix.len() - suffix.len());
    }
}

/// A cache directory name has no `/`: it names one directory.
pub proof fn cache_dir_name_has_no_slash(model: Seq<char>)
    ensures
        !(cache_dir_prefix() + replace_slashes(model)).contains('/'),
    decreases model.len(),
{
    lemma_no_slash(model);
    let n = cache_dir_prefix() + replace_slashes(model);
    if n.contains('/') {
        let k = choose|k: int| 0 <= k < n.len() && n[k] == '/';
        if k >= 8 {
            assert(replace_slashes(model)[k - 8] == '/');
        }
    }
}

proof fn lemma_no_slash(model: Seq<char>)
    ensures
        forall|i: int| 0 <= i < replace_slashes(model).len() ==> #[trigger] replace_slashes(model)[i] != '/',
    decreases model.len(),
{
    if model.len() > 0 {
        lemma_no_slash(model.drop_last());
        let r = replace_slashes(model.drop_last());
        assert forall|i: int| 0 <= i < replace_slashes(model).len() implies #[trigger] replace_slashes(model)[i] != '/' by {
            if i < r.len() {
                assert(replace_slashes(model)[i] == r[i]);
            }
        }
    }
}

} // verus!
