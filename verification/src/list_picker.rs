//! A searchable list picker: the filter over the items, the text of its lines,
//! and the state machine that keys drive. The terminal work is the caller's.
use vstd::prelude::*;
use crossterm::style::Color;
use crate::text::{
    chars_of, contains, find, find_in, lemma_find, lowercase, occurs_at, push_range, string_from,
    to_lowercase,
};

verus! {

/// The terminal colour of a picker line.
#[verifier::external_type_specification]
#[verifier::external_body]
pub struct ExColor(Color);

/// An entry of the picker: the text shown, the value that choosing it gives,
/// and an optional colour.
#[derive(Clone, Debug)]
pub struct PickerItem {
    pub display: String,
    pub value: String,
    pub color: Option<Color>,
}

// ---------------------------------------------------------------------------
// Filtering
// ---------------------------------------------------------------------------
/// Does the display text match the query, ignoring case?
pub open spec fn display_matches(display: Seq<char>, query: Seq<char>) -> bool {
    contains(lowercase(display), lowercase(query))
}

pub open spec fn displays(items: Seq<PickerItem>) -> Seq<Seq<char>> {
    items.map_values(|it: PickerItem| it.display@)
}

/// The positions of the items whose display text matches the query, in order;
/// all positions for an empty query.
pub open spec fn filtered(ds: Seq<Seq<char>>, query: Seq<char>) -> Seq<usize>
    decreases ds.len(),
{
    if ds.len() == 0 {
        seq![]
    } else {
        let rest = filtered(ds.drop_last(), query);
        if query.len() == 0 || display_matches(ds.last(), query) {
            rest.push((ds.len() - 1) as usize)
        } else {
            rest
        }
    }
}

/// The items whose display text contains the query, ignoring case (all of them
/// for an empty query), by position.
pub fn filter_items(items: &[PickerItem], query: &str) -> (r: Vec<usize>)
    ensures
        r@ == filtered(displays(items@), query@),
{
    let q = to_lowercase(query);
    let qv = chars_of(q.as_str());
    let empty = chars_of(query).len() == 0;
    let mut r: Vec<usize> = Vec::new();
    let mut i: usize = 0;
    while i < items.len()
        invariant
            i <= items@.len(),
            qv@ == lowercase(query@),
            r@ == filtered(displays(items@).take(i as int), query@),
            empty == (query@.len() == 0),
        decreases items@.len() - i,
    {
        let keep = if empty {
            true
        } else {
            let d = to_lowercase(items[i].display.as_str());
            let dv = chars_of(d.as_str());
            assert(dv@.subrange(0, dv@.len() as int) =~= dv@);
            let found = find_in(&dv, 0, dv.len(), &qv);
            assert(dv@ == lowercase(displays(items@)[i as int]));
            found.is_some()
        };
        assert(keep == (query@.len() == 0 || display_matches(displays(items@)[i as int], query@)));
        assert(displays(items@).take(i + 1).drop_last() =~= displays(items@).take(i as int));
        if keep {
            r.push(i);
        }
        i = i + 1;
    }
    assert(displays(items@).take(items@.len() as int) =~= displays(items@));
    r
}

} // verus!

verus! {

// ---------------------------------------------------------------------------
// Line text
// ---------------------------------------------------------------------------
/// `…`, the mark of a cut line.
pub open spec fn ellipsis() -> char {
    '\u{2026}'
}

/// `text` cut to at most `max` characters, the last kept one replaced by `…`
/// when anything was cut.
pub open spec fn truncated(text: Seq<char>, max: int) -> Seq<char> {
    if max <= 0 {
        seq![]
    } else if text.len() <= max {
        text
    } else if max == 1 {
        seq![ellipsis()]
    } else {
        text.take(max - 1).push(ellipsis())
    }
}

/// A picker line: the prefix, then as much of the text as fits in `max`
/// characters; only the prefix, cut, when the prefix alone fills the width.
pub open spec fn formatted_line(prefix: Seq<char>, text: Seq<char>, max: int) -> Seq<char> {
    if max <= prefix.len() {
        truncated(prefix, max)
    } else {
        prefix + truncated(text, max - prefix.len())
    }
}

fn truncate_chars(v: &Vec<char>, max_width: usize) -> (r: String)
    ensures
        r@ == truncated(v@, max_width as int),
{
    if max_width == 0 {
        return String::new();
    }
    if v.len() <= max_width {
        return string_from(v, 0, v.len());
    }
    if max_width == 1 {
        let mut r = String::new();
        r.push('\u{2026}');
        return r;
    }
    let mut r = string_from(v, 0, max_width - 1);
    r.push('\u{2026}');
    r
}

/// `text` cut to `max_width` characters (see `truncated`).
pub fn truncate_to_width(text: &str, max_width: usize) -> (r: String)
    ensures
        r@ == truncated(text@, max_width as int),
{
    let v = chars_of(text);
    let r = truncate_chars(&v, max_width);
    assert(v@.subrange(0, v@.len() as int) =~= v@);
    r
}

/// The text of a picker line (see `formatted_line`).
pub fn format_line(prefix: &str, text: &str, max_width: usize) -> (r: String)
    ensures
        r@ == formatted_line(prefix@, text@, max_width as int),
{
    let pv = chars_of(prefix);
    let prefix_width = pv.len();
    if max_width <= prefix_width {
        return truncate_to_width(prefix, max_width);
    }
    let available = max_width - prefix_width;
    let text_part = truncate_to_width(text, available);
    let mut line = String::from_str(prefix);
    line.append(text_part.as_str());
    line
}

// ---------------------------------------------------------------------------
// The picker's state and its keys
// ---------------------------------------------------------------------------
/// The state of a list picker: the query typed so far, the positions of the
/// items that match it, the chosen row among them, and the first row shown.
pub struct ListPicker {
    pub query: Vec<char>,
    pub filtered: Vec<usize>,
    pub selected: usize,
    pub offset: usize,
}

/// The keys a picker reacts to.
#[derive(Clone, Copy, PartialEq, Eq, Structural)]
pub enum PickerKey {
    Up,
    Down,
    PageUp,
    PageDown,
    Enter,
    Esc,
    Backspace,
    /// A character typed without Control or Alt.
    Char(char),
    /// Any other key.
    Other,
}

/// What a key asks of the caller.
pub enum PickerAction {
    /// The state changed: draw the picker again.
    Redraw,
    /// Nothing changed.
    Unchanged,
    /// The value of the chosen item.
    Chosen(String),
    /// The picker was left without a choice.
    Cancelled,
}

/// The row selection moved by a navigation key, with the first row shown
/// following it: `(selected, offset)` after the key.
pub open spec fn navigate(sel: int, off: int, len: int, key: PickerKey, rows: int) -> (int, int) {
    match key {
        PickerKey::Up => if sel > 0 {
            (sel - 1, if sel - 1 < off {
                sel - 1
            } else {
                off
            })
        } else {
            (sel, off)
        },
        PickerKey::Down => if sel + 1 < len {
            (sel + 1, if sel + 1 >= off + rows {
                sel + 2 - rows
            } else {
                off
            })
        } else {
            (sel, off)
        },
        PickerKey::PageUp => {
            let ns = if sel >= rows {
                sel - rows
            } else {
                0
            };
            let o = if off >= rows {
                off - rows
            } else {
                0
            };
            if len > 0 && ns != sel {
                (ns, if ns < o {
                    ns
                } else {
                    o
                })
            } else {
                (sel, off)
            }
        },
        PickerKey::PageDown => {
            let ns = if sel + rows < len - 1 {
                sel + rows
            } else {
                len - 1
            };
            if len > 0 && ns != sel {
                (ns, if ns >= off + rows {
                    ns + 1 - rows
                } else {
                    off
                })
            } else {
                (sel, off)
            }
        },
        _ => (sel, off),
    }
}

pub open spec fn is_navigation(key: PickerKey) -> bool {
    key == PickerKey::Up || key == PickerKey::Down || key == PickerKey::PageUp || key
        == PickerKey::PageDown
}

impl ListPicker {
    /// The picker is consistent with `items`: its positions are those that match
    /// its query, the selection is on one of them (row 0 when there are none),
    /// and the first row shown is not below the selection.
    pub open spec fn wf(&self, items: Seq<PickerItem>) -> bool {
        &&& self.filtered@ == filtered(displays(items), self.query@)
        &&& (self.filtered@.len() == 0 ==> self.selected == 0)
        &&& (self.filtered@.len() > 0 ==> self.selected < self.filtered@.len())
        &&& self.offset <= self.selected
    }

    /// The selected row lies in the `rows` rows shown from `offset`.
    pub open spec fn shows_selection(&self, rows: int) -> bool {
        self.offset <= self.selected < self.offset + rows
    }

    /// A picker with an empty query, every item listed, the first one selected.
    pub fn new(items: &[PickerItem]) -> (p: ListPicker)
        ensures
            p.wf(items@),
            p.query@.len() == 0,
            p.selected == 0,
            p.offset == 0,
    {
        let filtered = filter_items(items, "");
        proof {
            reveal_strlit("");
        }
        let p = ListPicker { query: Vec::new(), filtered, selected: 0, offset: 0 };
        assert(p.query@ =~= ""@);
        p
    }
}

/// Positions of `ds` are all below its length.
proof fn lemma_filtered_bounds(ds: Seq<Seq<char>>, q: Seq<char>)
    ensures
        forall|k: int|
            0 <= k < filtered(ds, q).len() ==> (#[trigger] filtered(ds, q)[k] as int) < ds.len(),
        filtered(ds, q).len() <= ds.len(),
    decreases ds.len(),
{
    if ds.len() > 0 {
        lemma_filtered_bounds(ds.drop_last(), q);
    }
}

/// The next state of a list picker after `key`, with `visible_rows` rows shown,
/// and what the caller is to do.
pub fn list_picker_step(
    p: &mut ListPicker,
    items: &[PickerItem],
    key: PickerKey,
    visible_rows: usize,
) -> (action: PickerAction)
    requires
        old(p).wf(items@),
        visible_rows >= 1,
    ensures
        final(p).wf(items@),
        old(p).shows_selection(visible_rows as int) ==> final(p).shows_selection(
            visible_rows as int,
        ),
        is_navigation(key) ==> {
            let (ns, no) = navigate(
                old(p).selected as int,
                old(p).offset as int,
                old(p).filtered@.len() as int,
                key,
                visible_rows as int,
            );
            &&& final(p).query@ == old(p).query@
            &&& final(p).selected == ns
            &&& final(p).offset == no
            &&& action == if ns != old(p).selected {
                PickerAction::Redraw
            } else {
                PickerAction::Unchanged
            }
        },
        key == PickerKey::Enter ==> {
            &&& *final(p) == *old(p)
            &&& if old(p).selected < old(p).filtered@.len() {
                action matches PickerAction::Chosen(v) && v@ == items@[old(
                    p,
                ).filtered@[old(p).selected as int] as int].value@
            } else {
                action == PickerAction::Unchanged
            }
        },
        key == PickerKey::Esc ==> *final(p) == *old(p) && action == PickerAction::Cancelled,
        key == PickerKey::Other ==> *final(p) == *old(p) && action == PickerAction::Unchanged,
        key == PickerKey::Backspace ==> if old(p).query@.len() > 0 {
            &&& final(p).query@ == old(p).query@.drop_last()
            &&& final(p).selected == 0
            &&& final(p).offset == 0
            &&& action == PickerAction::Redraw
        } else {
            *final(p) == *old(p) && action == PickerAction::Unchanged
        },
        key matches PickerKey::Char(c) ==> {
            &&& final(p).query@ == old(p).query@.push(c)
            &&& final(p).selected == 0
            &&& final(p).offset == 0
            &&& action == PickerAction::Redraw
        },
{
    let len = p.filtered.len();
    match key {
        PickerKey::Up => {
            if p.selected > 0 {
                p.selected = p.selected - 1;
                if p.selected < p.offset {
                    p.offset = p.selected;
                }
                PickerAction::Redraw
            } else {
                PickerAction::Unchanged
            }
        },
        PickerKey::Down => {
            if p.selected + 1 < len {
                p.selected = p.selected + 1;
                if p.selected - p.offset >= visible_rows {
                    p.offset = p.selected + 1 - visible_rows;
                }
                PickerAction::Redraw
            } else {
                PickerAction::Unchanged
            }
        },
        PickerKey::PageUp => {
            if len > 0 {
                let next = p.selected.saturating_sub(visible_rows);
                if next != p.selected {
                    p.selected = next;
                    p.offset = p.offset.saturating_sub(visible_rows);
                    if p.selected < p.offset {
                        p.offset = p.selected;
                    }
                    PickerAction::Redraw
                } else {
                    PickerAction::Unchanged
                }
            } else {
                PickerAction::Unchanged
            }
        },
        PickerKey::PageDown => {
            if len > 0 {
                let reach = p.selected.saturating_add(visible_rows);
                let next = if reach < len - 1 {
                    reach
                } else {
                    len - 1
                };
                if next != p.selected {
                    p.selected = next;
                    if p.selected - p.offset >= visible_rows {
                        p.offset = p.selected + 1 - visible_rows;
                    }
                    PickerAction::Redraw
                } else {
                    PickerAction::Unchanged
                }
            } else {
                PickerAction::Unchanged
            }
        },
        PickerKey::Enter => {
            if p.selected < len {
                proof {
                    lemma_filtered_bounds(displays(items@), p.query@);
                }
                let index = p.filtered[p.selected];
                PickerAction::Chosen(items[index].value.clone())
            } else {
                PickerAction::Unchanged
            }
        },
        PickerKey::Esc => PickerAction::Cancelled,
        PickerKey::Backspace => {
            if p.query.len() > 0 {
                p.query.pop();
                refilter(p, items);
                PickerAction::Redraw
            } else {
                PickerAction::Unchanged
            }
        },
        PickerKey::Char(c) => {
            p.query.push(c);
            refilter(p, items);
            PickerAction::Redraw
        },
        PickerKey::Other => PickerAction::Unchanged,
    }
}

/// Filters again for the current query and selects the first row.
fn refilter(p: &mut ListPicker, items: &[PickerItem])
    ensures
        final(p).query == old(p).query,
        final(p).wf(items@),
        final(p).selected == 0,
        final(p).offset == 0,
{
    let q = string_from(&p.query, 0, p.query.len());
    assert(p.query@.subrange(0, p.query@.len() as int) =~= p.query@);
    p.filtered = filter_items(items, q.as_str());
    p.selected = 0;
    p.offset = 0;
}

} // verus!

verus! {

// ---------------------------------------------------------------------------
// What the picker shows
// ---------------------------------------------------------------------------
/// The number of item rows a terminal of `rows` rows shows: two rows fewer
/// (header and footer), at least one.
pub open spec fn rows_for_items(rows: int) -> int {
    let r = if rows >= 2 {
        rows - 2
    } else {
        0
    };
    if r < 1 {
        1
    } else {
        r
    }
}

/// The number of item rows a terminal of `rows` rows shows (see `rows_for_items`).
pub fn visible_rows(rows: u16) -> (r: usize)
    ensures
        r == rows_for_items(rows as int),
        1 <= r <= 0xFFFF,
{
    let r = rows.saturating_sub(2);
    if r < 1 {
        1
    } else {
        r as usize
    }
}

/// The prefix of a line: a marker on the selected row, blanks elsewhere.
pub open spec fn row_prefix(selected: bool) -> Seq<char> {
    if selected {
        seq!['>', ' ']
    } else {
        seq![' ', ' ']
    }
}

/// A line of the picker as drawn: its text, whether it is the selected row, and
/// the position of its item.
pub struct PickerLine {
    pub text: String,
    pub selected: bool,
    pub item: usize,
}

/// A picker screen: the header, the item lines from the first row shown, the
/// number of item rows, and whether the key help goes on the last row.
pub struct PickerFrame {
    pub header: String,
    pub lines: Vec<PickerLine>,
    pub visible_rows: usize,
    pub footer: bool,
}

fn row_prefix_str(selected: bool) -> (s: &'static str)
    ensures
        s@ == row_prefix(selected),
{
    proof {
        reveal_strlit("> ");
        reveal_strlit("  ");
    }
    if selected {
        "> "
    } else {
        "  "
    }
}

/// The screen of a list picker on a terminal of `cols` columns and `rows` rows.
pub fn list_picker_frame(p: &ListPicker, items: &[PickerItem], title: &str, cols: u16, rows: u16) -> (f:
    PickerFrame)
    requires
        p.wf(items@),
    ensures
        f.header@ == truncated(title@ + seq![' '] + p.query@, cols as int),
        f.visible_rows == rows_for_items(rows as int),
        f.footer == (rows > 1),
        f.lines@.len() == (if p.offset + f.visible_rows < p.filtered@.len() {
            p.offset + f.visible_rows
        } else {
            p.filtered@.len() as int
        }) - p.offset,
        forall|k: int|
            0 <= k < f.lines@.len() ==> {
                let line = #[trigger] f.lines@[k];
                &&& line.item == p.filtered@[p.offset + k]
                &&& line.item < items@.len()
                &&& line.selected == (p.offset + k == p.selected)
                &&& line.text@ == formatted_line(
                    row_prefix(line.selected),
                    items@[line.item as int].display@,
                    cols as int,
                )
            },
{
    let vr = visible_rows(rows);
    let max_width = cols as usize;
    let len = p.filtered.len();
    let end = if p.offset < len && vr < len - p.offset {
        p.offset + vr
    } else {
        len
    };
    let mut header_text = String::from_str(title);
    header_text.push(' ');
    push_range(&mut header_text, &p.query, 0, p.query.len());
    assert(p.query@.subrange(0, p.query@.len() as int) =~= p.query@);
    let header = truncate_to_width(header_text.as_str(), max_width);
    proof {
        lemma_filtered_bounds(displays(items@), p.query@);
    }
    let mut lines: Vec<PickerLine> = Vec::new();
    let mut abs = p.offset;
    while abs < end
        invariant
            p.wf(items@),
            p.offset <= abs <= end <= len,
            len == p.filtered@.len(),
            lines@.len() == abs - p.offset,
            forall|k: int|
                0 <= k < lines@.len() ==> {
                    let line = #[trigger] lines@[k];
                    &&& line.item == p.filtered@[p.offset + k]
                    &&& line.item < items@.len()
                    &&& line.selected == (p.offset + k == p.selected)
                    &&& line.text@ == formatted_line(
                        row_prefix(line.selected),
                        items@[line.item as int].display@,
                        max_width as int,
                    )
                },
            forall|k: int|
                0 <= k < p.filtered@.len() ==> (#[trigger] p.filtered@[k] as int) < items@.len(),
        decreases end - abs,
    {
        let item = p.filtered[abs];
        let selected = abs == p.selected;
        let text = format_line(row_prefix_str(selected), items[item].display.as_str(), max_width);
        lines.push(PickerLine { text, selected, item });
        abs = abs + 1;
    }
    PickerFrame { header, lines, visible_rows: vr, footer: rows > 1 }
}

} // verus!

verus! {

// ---------------------------------------------------------------------------
// Laws
// ---------------------------------------------------------------------------
/// A cut text is as long as the text or the width, whichever is less, and a
/// text that fits is left as it is.
pub proof fn truncated_length(text: Seq<char>, max: int)
    requires
        max >= 0,
    ensures
        truncated(text, max).len() == if text.len() <= max {
            text.len() as int
        } else {
            max
        },
        text.len() <= max ==> truncated(text, max) == text,
{
}

/// A picker line never exceeds the width of the terminal.
pub proof fn line_fits_width(prefix: Seq<char>, text: Seq<char>, max: int)
    requires
        max >= 0,
    ensures
        formatted_line(prefix, text, max).len() <= max,
{
    truncated_length(prefix, max);
    if max > prefix.len() {
        truncated_length(text, max - prefix.len());
    }
}

proof fn lemma_filter_member(ds: Seq<Seq<char>>, query: Seq<char>, k: int)
    requires
        ds.len() <= usize::MAX,
        0 <= k < ds.len(),
    ensures
        filtered(ds, query).contains(k as usize) <==> (query.len() == 0 || display_matches(
            ds[k],
            query,
        )),
    decreases ds.len(),
{
    let rest = ds.drop_last();
    let f = filtered(ds, query);
    let g = filtered(rest, query);
    lemma_filtered_bounds(rest, query);
    if k < ds.len() - 1 {
        lemma_filter_member(rest, query, k);
        assert(rest[k] == ds[k]);
        if f.contains(k as usize) {
            let m = choose|m: int| 0 <= m < f.len() && f[m] == k as usize;
            if m < g.len() {
                assert(g[m] == k as usize);
            } else {
                assert(f[m] == (ds.len() - 1) as usize);
            }
        }
        if g.contains(k as usize) {
            let m = choose|m: int| 0 <= m < g.len() && g[m] == k as usize;
            assert(f[m] == k as usize);
        }
    } else {
        if query.len() == 0 || display_matches(ds[k], query) {
            assert(f[g.len() as int] == k as usize);
        } else if f.contains(k as usize) {
            let m = choose|m: int| 0 <= m < f.len() && f[m] == k as usize;
            assert(g[m] == k as usize);
            assert((g[m] as int) < rest.len());
        }
    }
}

/// Position `k` is listed exactly when its display text matches (or the query is empty).
pub open spec fn listed_iff_matches(ds: Seq<Seq<char>>, query: Seq<char>, k: int) -> bool {
    filtered(ds, query).contains(k as usize) <==> (query.len() == 0 || display_matches(
        ds[k],
        query,
    ))
}

/// The filter lists, in increasing order, exactly the positions whose display
/// text matches the query, and every position for an empty query.
pub proof fn filter_is_exact(ds: Seq<Seq<char>>, query: Seq<char>)
    requires
        ds.len() <= usize::MAX,
    ensures
        forall|i: int, j: int|
            0 <= i < j < filtered(ds, query).len() ==> filtered(ds, query)[i] < filtered(
                ds,
                query,
            )[j],
        forall|k: int| 0 <= k < ds.len() ==> #[trigger] listed_iff_matches(ds, query, k),
        forall|x: usize| #[trigger] filtered(ds, query).contains(x) ==> (x as int) < ds.len(),
    decreases ds.len(),
{
    lemma_filtered_bounds(ds, query);
    if ds.len() > 0 {
        let rest = ds.drop_last();
        filter_is_exact(rest, query);
        lemma_filtered_bounds(rest, query);
        let f = filtered(ds, query);
        let g = filtered(rest, query);
        let last = (ds.len() - 1) as usize;
        assert forall|i: int, j: int| 0 <= i < j < f.len() implies f[i] < f[j] by {
            assert(g[i] == f[i]);
            if j < g.len() {
                assert(g[j] == f[j]);
            } else {
                assert(f[j] == last);
                assert((g[i] as int) < rest.len());
            }
        }
    }
    assert forall|k: int| 0 <= k < ds.len() implies #[trigger] listed_iff_matches(
        ds,
        query,
        k,
    ) by {
        lemma_filter_member(ds, query, k);
    }
    assert forall|x: usize| #[trigger] filtered(ds, query).contains(x) implies (x as int)
        < ds.len() by {
        let m = choose|m: int| 0 <= m < filtered(ds, query).len() && filtered(ds, query)[m] == x;
    }
}

/// Typing a character and erasing it lists the same items as before.
pub proof fn erase_undoes_typing(
    items: Seq<PickerItem>,
    before: ListPicker,
    typed: ListPicker,
    erased: ListPicker,
    c: char,
)
    requires
        before.wf(items),
        typed.wf(items),
        erased.wf(items),
        typed.query@ == before.query@.push(c),
        erased.query@ == typed.query@.drop_last(),
    ensures
        erased.query@ == before.query@,
        erased.filtered@ == before.filtered@,
{
    assert(before.query@.push(c).drop_last() =~= before.query@);
}

/// For a non-empty query, an item is listed exactly when the whole query, lowered,
/// occurs in its display text, lowered: `find` locates it there.
pub proof fn listed_iff_whole_query_found(ds: Seq<Seq<char>>, query: Seq<char>, k: int)
    requires
        ds.len() <= usize::MAX,
        0 <= k < ds.len(),
        query.len() > 0,
    ensures
        filtered(ds, query).contains(k as usize) <==> find(lowercase(ds[k]), lowercase(query)) is Some,
        filtered(ds, query).contains(k as usize) <==> exists|i: int|
            occurs_at(lowercase(ds[k]), lowercase(query), i),
{
    lemma_filter_member(ds, query, k);
    lemma_find(lowercase(ds[k]), lowercase(query));
}

} // verus!
