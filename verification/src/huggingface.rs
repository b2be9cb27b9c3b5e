//! Listing the text-generation GGUF models of the Hugging Face hub: the query,
//! the scan of a JSON page for model ids, the pagination header, and the
//! collection of ids over all pages.
use vstd::prelude::*;
use crate::ordered::{same_elements, sorted_set, sorted_unique, strictly_sorted};
use crate::text::{
    CharClass, ascii_lower_seq, ascii_lowercase, chars_of, contains, find, find_in, lemma_find,
    lines, matches_at, next_line, rfind, rfind_in, skip_backward, skip_forward, string_from, trim,
    trim_start, utf8_len, utf8_len_of_prefix, opt_view, views,
};

verus! {

// ---------------------------------------------------------------------------
// JSON string literals
// ---------------------------------------------------------------------------
/// The character that an escape `\c` stands for.
pub open spec fn unescape(c: char) -> char {
    if c == 'b' {
        '\u{8}'
    } else if c == 'f' {
        '\u{c}'
    } else if c == 'n' {
        '\n'
    } else if c == 'r' {
        '\r'
    } else if c == 't' {
        '\t'
    } else {
        c
    }
}

/// The decoded rest of a string literal after its opening quote, with the number
/// of characters up to and including the closing quote; `None` when it is unterminated.
pub open spec fn json_string_rest(s: Seq<char>, escaped: bool) -> Option<(Seq<char>, nat)>
    decreases s.len(),
{
    if s.len() == 0 {
        None
    } else if escaped {
        prefixed(seq![unescape(s[0])], 1, json_string_rest(s.drop_first(), false))
    } else if s[0] == '\\' {
        prefixed(seq![], 1, json_string_rest(s.drop_first(), true))
    } else if s[0] == '"' {
        Some((seq![], 1))
    } else {
        prefixed(seq![s[0]], 1, json_string_rest(s.drop_first(), false))
    }
}

pub open spec fn prefixed(w: Seq<char>, k: nat, r: Option<(Seq<char>, nat)>) -> Option<
    (Seq<char>, nat),
> {
    match r {
        Some((x, n)) => Some((w + x, n + k)),
        None => None,
    }
}

/// A JSON string literal at the start of `s`: its decoded value and the number of
/// characters it spans, quotes included.
pub open spec fn json_string(s: Seq<char>) -> Option<(Seq<char>, nat)> {
    if s.len() > 0 && s[0] == '"' {
        prefixed(seq![], 1, json_string_rest(s.drop_first(), false))
    } else {
        None
    }
}

proof fn lemma_prefixed_twice(w1: Seq<char>, k1: nat, w2: Seq<char>, k2: nat, r: Option<
    (Seq<char>, nat),
>)
    ensures
        prefixed(w1, k1, prefixed(w2, k2, r)) == prefixed(w1 + w2, k1 + k2, r),
{
    if let Some((x, n)) = r {
        assert(w1 + (w2 + x) =~= (w1 + w2) + x);
    }
}

/// The string literal that starts at `v[lo]`, read no further than `hi`.
fn json_string_at(v: &Vec<char>, lo: usize, hi: usize) -> (r: Option<(String, usize)>)
    requires
        lo <= hi <= v@.len(),
    ensures
        match r {
            Some((val, n)) => json_string(v@.subrange(lo as int, hi as int)) == Some(
                (val@, n as nat),
            ) && 0 < n <= hi - lo,
            None => json_string(v@.subrange(lo as int, hi as int)) is None,
        },
{
    let ghost s = v@.subrange(lo as int, hi as int);
    if lo == hi || v[lo] != '"' {
        return None;
    }
    let mut value = String::new();
    let mut escaped = false;
    let mut i = lo + 1;
    assert(s.drop_first() =~= v@.subrange(i as int, hi as int));
    assert(value@ + Seq::<char>::empty() =~= value@);
    while i < hi
        invariant
            lo < i <= hi <= v@.len(),
            s == v@.subrange(lo as int, hi as int),
            s.len() > 0 && s[0] == '"',
            json_string_rest(s.drop_first(), false) == prefixed(
                value@,
                (i - lo - 1) as nat,
                json_string_rest(v@.subrange(i as int, hi as int), escaped),
            ),
        decreases hi - i,
    {
        let c = v[i];
        let ghost t = v@.subrange(i as int, hi as int);
        let ghost old_value = value@;
        assert(t.drop_first() =~= v@.subrange(i + 1, hi as int));
        assert(t[0] == c);
        if escaped {
            let u = if c == 'b' {
                '\u{8}'
            } else if c == 'f' {
                '\u{c}'
            } else if c == 'n' {
                '\n'
            } else if c == 'r' {
                '\r'
            } else if c == 't' {
                '\t'
            } else {
                c
            };
            value.push(u);
            escaped = false;
            proof {
                lemma_prefixed_twice(
                    old_value,
                    (i - lo - 1) as nat,
                    seq![u],
                    1,
                    json_string_rest(v@.subrange(i + 1, hi as int), false),
                );
            }
        } else if c == '\\' {
            escaped = true;
            proof {
                lemma_prefixed_twice(
                    old_value,
                    (i - lo - 1) as nat,
                    seq![],
                    1,
                    json_string_rest(v@.subrange(i + 1, hi as int), true),
                );
                assert(old_value + Seq::<char>::empty() =~= old_value);
            }
        } else if c == '"' {
            assert(value@ + Seq::<char>::empty() =~= value@);
            return Some((value, i - lo + 1));
        } else {
            value.push(c);
            proof {
                lemma_prefixed_twice(
                    old_value,
                    (i - lo - 1) as nat,
                    seq![c],
                    1,
                    json_string_rest(v@.subrange(i + 1, hi as int), false),
                );
            }
        }
        i = i + 1;
    }
    None
}

/// A JSON string literal at the start of `s`: its decoded value and the number of
/// bytes that it spans in UTF-8, quotes included.
pub open spec fn json_literal(s: Seq<char>) -> Option<(Seq<char>, nat)> {
    match json_string(s) {
        Some((w, k)) => Some((w, utf8_len(s.take(k as int)))),
        None => None,
    }
}

/// Reads a JSON string literal at the start of `input`: its decoded value and the
/// number of bytes it spans, both quotes included (see `json_literal`).
pub fn parse_json_string(input: &str) -> (r: Option<(String, usize)>)
    ensures
        match r {
            Some((val, n)) => json_literal(input@) == Some((val@, n as nat)),
            None => json_literal(input@) is None,
        },
{
    let v = chars_of(input);
    assert(v@.subrange(0, v@.len() as int) =~= v@);
    match json_string_at(&v, 0, v.len()) {
        Some((val, k)) => {
            let n = utf8_len_of_prefix(input, &v, k);
            Some((val, n))
        },
        None => None,
    }
}

// ---------------------------------------------------------------------------
// Values of a key
// ---------------------------------------------------------------------------
pub open spec fn colon() -> Seq<char> {
    seq![':']
}

/// The values that the scan for `key` collects from `s[start..]`: after each
/// occurrence of the key, the first `:` and, past white space, a string literal.
/// The scan resumes as far past the colon as the literal is long.
pub open spec fn json_values_from(s: Seq<char>, key: Seq<char>, start: int) -> Seq<Seq<char>>
    decreases s.len() - start,
{
    if !(0 <= start <= s.len()) || key.len() == 0 {
        seq![]
    } else {
        match find(s.subrange(start, s.len() as int), key) {
            None => seq![],
            Some(i) => {
                let after_key = start + i + key.len();
                if !(0 <= i && after_key <= s.len()) {
                    seq![]
                } else {
                    match find(s.subrange(after_key, s.len() as int), colon()) {
                        None => seq![],
                        Some(c) => {
                            let after_colon = after_key + c + 1;
                            if !(0 <= c && after_colon <= s.len()) {
                                seq![]
                            } else {
                                match json_string(
                                    trim_start(s.subrange(after_colon, s.len() as int)),
                                ) {
                                    Some((val, n)) => if after_colon + n <= s.len() {
                                        seq![val] + json_values_from(s, key, after_colon + n)
                                    } else {
                                        seq![]
                                    },
                                    None => json_values_from(s, key, after_key),
                                }
                            }
                        },
                    }
                }
            },
        }
    }
}

pub open spec fn json_values(s: Seq<char>, key: Seq<char>) -> Seq<Seq<char>> {
    json_values_from(s, key, 0)
}

/// The string values that follow each occurrence of `key` in `input`
/// (see `json_values_from`).
pub fn extract_json_string_values(input: &str, key: &str) -> (values: Vec<String>)
    requires
        key@.len() > 0,
    ensures
        views(values@) == json_values(input@, key@),
{
    let v = chars_of(input);
    let k = chars_of(key);
    let colon_pat = vec![':'];
    assert(colon_pat@ == colon());
    let ghost s = v@;
    let len = v.len();
    let mut values: Vec<String> = Vec::new();
    let mut start: usize = 0;
    assert(views(values@) + json_values_from(s, k@, 0) =~= json_values_from(s, k@, 0));
    loop
        invariant
            s == v@,
            s == input@,
            k@ == key@,
            k@.len() > 0,
            colon_pat@ == colon(),
            len == v@.len(),
            start <= len,
            json_values(s, k@) == views(values@) + json_values_from(s, k@, start as int),
        ensures
            json_values(s, k@) == views(values@),
        decreases len - start,
    {
        let ghost before = views(values@);
        proof {
            lemma_find(s.subrange(start as int, len as int), k@);
        }
        let key_index = match find_in(&v, start, len, &k) {
            None => {
                assert(json_values_from(s, k@, start as int) =~= Seq::<Seq<char>>::empty());
                assert(before + Seq::<Seq<char>>::empty() =~= before);
                break ;
            },
            Some(i) => i,
        };
        let after_key = key_index + k.len();
        proof {
            lemma_find(s.subrange(after_key as int, len as int), colon());
        }
        let colon_index = match find_in(&v, after_key, len, &colon_pat) {
            None => {
                assert(json_values_from(s, k@, start as int) =~= Seq::<Seq<char>>::empty());
                assert(before + Seq::<Seq<char>>::empty() =~= before);
                break ;
            },
            Some(c) => c,
        };
        let after_colon = colon_index + 1;
        let body = skip_forward(&v, after_colon, len, CharClass::Whitespace);
        match json_string_at(&v, body, len) {
            Some((val, consumed)) => {
                let ghost w = val@;
                values.push(val);
                assert(views(values@) =~= before.push(w));
                assert(before + (seq![w] + json_values_from(
                    s,
                    k@,
                    (after_colon + consumed) as int,
                )) =~= before.push(w) + json_values_from(
                    s,
                    k@,
                    (after_colon + consumed) as int,
                ));
                start = after_colon + consumed;
            },
            None => {
                start = after_key;
            },
        }
    }
    values
}

// ---------------------------------------------------------------------------
// Model ids of a page
// ---------------------------------------------------------------------------
/// `s` with every repeated element removed, first occurrences kept in order.
pub open spec fn dedup(s: Seq<Seq<char>>) -> Seq<Seq<char>>
    decreases s.len(),
{
    if s.len() == 0 {
        seq![]
    } else {
        let d = dedup(s.drop_last());
        if d.contains(s.last()) {
            d
        } else {
            d.push(s.last())
        }
    }
}

pub open spec fn model_id_key() -> Seq<char> {
    seq!['"', 'm', 'o', 'd', 'e', 'l', 'I', 'd', '"']
}

pub open spec fn id_key() -> Seq<char> {
    seq!['"', 'i', 'd', '"']
}

/// The model ids of a page: the values of `"modelId"`, then those of `"id"`,
/// each id once, in order of first appearance.
pub open spec fn model_ids(body: Seq<char>) -> Seq<Seq<char>> {
    dedup(json_values(body, model_id_key()) + json_values(body, id_key()))
}

/// Does `list` hold a string equal to `x`?
pub fn contains_string(list: &Vec<String>, x: &String) -> (b: bool)
    ensures
        b == views(list@).contains(x@),
{
    let mut i: usize = 0;
    while i < list.len()
        invariant
            i <= list@.len(),
            forall|j: int| 0 <= j < i ==> list@[j]@ != x@,
        decreases list@.len() - i,
    {
        if list[i] == *x {
            assert(views(list@)[i as int] == x@);
            return true;
        }
        i = i + 1;
    }
    assert forall|j: int| 0 <= j < views(list@).len() implies views(list@)[j] != x@ by {}
    false
}

/// Appends the elements of `items` that `out` does not hold yet, in order,
/// each once; `out` is what deduplicating `pre` gave.
fn push_unseen(out: &mut Vec<String>, items: Vec<String>, Ghost(pre): Ghost<Seq<Seq<char>>>)
    requires
        dedup(pre) == views(old(out)@),
    ensures
        dedup(pre + views(items@)) == views(final(out)@),
{
    let ghost all = views(items@);
    let mut i: usize = 0;
    assert(pre + all.take(0) =~= pre);
    while i < items.len()
        invariant
            i <= items@.len(),
            all == views(items@),
            dedup(pre + all.take(i as int)) == views(out@),
        decreases items@.len() - i,
    {
        let x = &items[i];
        let ghost cur = views(out@);
        let ghost q = pre + all.take(i + 1);
        assert(q.drop_last() =~= pre + all.take(i as int));
        assert(q.last() == x@);
        let seen = contains_string(out, x);
        if !seen {
            out.push(x.clone());
            assert(views(out@) =~= cur.push(x@));
        }
        i = i + 1;
    }
    assert(all.take(items@.len() as int) =~= all);
}

/// The model ids of one page of the listing (see `model_ids`).
pub fn parse_model_ids(body: &str) -> (ids: Vec<String>)
    ensures
        views(ids@) == model_ids(body@),
{
    let model_key = "\"modelId\"";
    let plain_key = "\"id\"";
    proof {
        reveal_strlit("\"modelId\"");
        reveal_strlit("\"id\"");
        assert(model_key@ =~= model_id_key());
        assert(plain_key@ =~= id_key());
    }
    let first = extract_json_string_values(body, model_key);
    let second = extract_json_string_values(body, plain_key);
    let mut ids: Vec<String> = Vec::new();
    proof {
        assert(views(ids@) =~= Seq::<Seq<char>>::empty());
        assert(dedup(Seq::<Seq<char>>::empty()) =~= Seq::<Seq<char>>::empty());
    }
    let ghost a = views(first@);
    push_unseen(&mut ids, first, Ghost(Seq::<Seq<char>>::empty()));
    assert(Seq::<Seq<char>>::empty() + a =~= a);
    push_unseen(&mut ids, second, Ghost(a));
    ids
}

} // verus!

verus! {

// ---------------------------------------------------------------------------
// Pagination
// ---------------------------------------------------------------------------
pub open spec fn crlf_crlf() -> Seq<char> {
    seq!['\r', '\n', '\r', '\n']
}

pub open spec fn lf_lf() -> Seq<char> {
    seq!['\n', '\n']
}

pub open spec fn link_label() -> Seq<char> {
    seq!['l', 'i', 'n', 'k', ':']
}

pub open spec fn rel_next() -> Seq<char> {
    seq!['r', 'e', 'l', '=', '"', 'n', 'e', 'x', 't', '"']
}

/// The headers of the last response in `headers`: what follows the last blank
/// line (`\r\n\r\n`, else `\n\n`), or all of it when there is none.
pub open spec fn last_header_block(headers: Seq<char>) -> Seq<char> {
    match rfind(headers, crlf_crlf()) {
        Some(i) => headers.subrange(i + 4, headers.len() as int),
        None => match rfind(headers, lf_lf()) {
            Some(i) => headers.subrange(i + 2, headers.len() as int),
            None => headers,
        },
    }
}

/// A `Link` header line, its name in any ASCII case.
pub open spec fn is_link_line(line: Seq<char>) -> bool {
    line.len() >= 5 && ascii_lower_seq(line).take(5) == link_label()
}

/// The target of the first `Link` line that has a `<`, a `>` after it, and
/// `rel="next"`; `None` when none has, or when a `Link` line with a `<` has no `>`
/// after it.
pub open spec fn next_link_in(ls: Seq<Seq<char>>) -> Option<Seq<char>>
    decreases ls.len(),
{
    if ls.len() == 0 {
        None
    } else {
        let line = ls[0];
        if is_link_line(line) {
            match find(line, seq!['<']) {
                Some(st) => {
                    let rest = line.subrange(st + 1, line.len() as int);
                    match find(rest, seq!['>']) {
                        None => None,
                        Some(e) => if contains(line, rel_next()) {
                            Some(trim(rest.take(e)))
                        } else {
                            next_link_in(ls.drop_first())
                        },
                    }
                },
                None => next_link_in(ls.drop_first()),
            }
        } else {
            next_link_in(ls.drop_first())
        }
    }
}

/// The URL of the next page that the response headers announce.
pub open spec fn next_link(headers: Seq<char>) -> Option<Seq<char>> {
    next_link_in(lines(last_header_block(headers)))
}

/// Where the last header block of `v` begins.
fn last_block_start(v: &Vec<char>) -> (lo: usize)
    ensures
        lo <= v@.len(),
        v@.subrange(lo as int, v@.len() as int) == last_header_block(v@),
{
    let crlf2 = vec!['\r', '\n', '\r', '\n'];
    let lf2 = vec!['\n', '\n'];
    assert(crlf2@ == crlf_crlf());
    assert(lf2@ == lf_lf());
    assert(v@.subrange(0, v@.len() as int) =~= v@);
    match rfind_in(v, 0, v.len(), &crlf2) {
        Some(i) => i + 4,
        None => match rfind_in(v, 0, v.len(), &lf2) {
            Some(i) => i + 2,
            None => 0,
        },
    }
}

/// The URL of the next page, read from the `Link` header of the last response in
/// `headers` (see `next_link`).
pub fn parse_next_link(headers: &str) -> (r: Option<String>)
    ensures
        opt_view(r) == next_link(headers@),
{
    let v = chars_of(headers);
    let lower = ascii_lowercase(&v);
    let label = vec!['l', 'i', 'n', 'k', ':'];
    let lt = vec!['<'];
    let gt = vec!['>'];
    let rel = vec!['r', 'e', 'l', '=', '"', 'n', 'e', 'x', 't', '"'];
    assert(label@ == link_label());
    assert(rel@ == rel_next());
    let len = v.len();
    let mut pos = last_block_start(&v);
    loop
        invariant
            v@ == headers@,
            lower@ == ascii_lower_seq(v@),
            label@ == link_label(),
            lt@ == seq!['<'],
            gt@ == seq!['>'],
            rel@ == rel_next(),
            len == v@.len(),
            pos <= len,
            next_link(headers@) == next_link_in(lines(v@.subrange(pos as int, len as int))),
        decreases len - pos,
    {
        if pos == len {
            assert(v@.subrange(pos as int, len as int).len() == 0);
            return None;
        }
        let (a, b, next) = next_line(&v, pos, len);
        let ghost line = v@.subrange(a as int, b as int);
        let ghost ls = lines(v@.subrange(pos as int, len as int));
        assert(ls[0] == line);
        assert(ls.drop_first() =~= lines(v@.subrange(next as int, len as int)));
        let is_link = b - a >= 5 && matches_at(&lower, a, &label);
        proof {
            if b - a >= 5 {
                assert(lower@.subrange(a as int, a + 5) =~= ascii_lower_seq(line).take(5));
            }
        }
        if is_link {
            proof {
                lemma_find(line, seq!['<']);
            }
            match find_in(&v, a, b, &lt) {
                Some(st) => {
                    let ghost rest = line.subrange(st - a + 1, line.len() as int);
                    assert(rest =~= v@.subrange(st + 1, b as int));
                    match find_in(&v, st + 1, b, &gt) {
                        None => {
                            return None;
                        },
                        Some(e) => {
                            let has_rel = find_in(&v, a, b, &rel).is_some();
                            if has_rel {
                                let ua = skip_forward(&v, st + 1, e, CharClass::Whitespace);
                                let ub = skip_backward(&v, ua, e, CharClass::Whitespace);
                                assert(rest.take(e - st - 1) =~= v@.subrange(
                                    st + 1,
                                    e as int,
                                ));
                                return Some(string_from(&v, ua, ub));
                            }
                        },
                    }
                },
                None => {},
            }
        }
        pos = next;
    }
}

/// The URL of the first page of the listing: text-generation models matching
/// `gguf`, a hundred per page, most downloaded first.
pub open spec fn query_url() -> Seq<char> {
    "https://huggingface.co/api/models?filter=text-generation&search=gguf&limit=100&full=false&sort=downloads&direction=-1"@
}

/// The URL of the first page of the listing (see `query_url`).
pub fn build_query_url() -> (url: String)
    ensures
        url@ == query_url(),
{
    String::from_str("https://huggingface.co/api/models?filter=text-generation&search=gguf&limit=100&full=false&sort=downloads&direction=-1")
}

} // verus!

verus! {

// ---------------------------------------------------------------------------
// The listing over all pages
// ---------------------------------------------------------------------------
/// The model ids received so far while walking the pages of the listing.
pub struct GgufListing {
    ids: Vec<String>,
}

impl View for GgufListing {
    type V = Seq<Seq<char>>;

    /// Every id of every page received so far, page after page.
    closed spec fn view(&self) -> Seq<Seq<char>> {
        views(self.ids@)
    }
}

impl GgufListing {
    /// A walk that has received no page yet.
    pub fn new() -> (r: GgufListing)
        ensures
            r@ == Seq::<Seq<char>>::empty(),
    {
        let r = GgufListing { ids: Vec::new() };
        assert(r@ =~= Seq::<Seq<char>>::empty());
        r
    }
}

/// What the walk hands to its next step.
pub enum ListingEvent {
    /// The walk begins.
    Start,
    /// A page was fetched: its response headers and its body.
    Page(String, String),
    /// Fetching the last requested page failed.
    FetchFailed,
}

/// What the walk asks for next.
pub enum ListingAction {
    /// Fetch this URL and report the result.
    Fetch(String),
    /// The walk is over: every model id received, each once, in increasing order.
    Done(Vec<String>),
}

/// One step of the walk over the pages of the listing: the first page is the
/// query of `build_query_url`; after each page, the walk follows the page's
/// `Link: <..>; rel="next"` header; it ends when a page has none or a fetch fails,
/// with the distinct ids of all pages received, sorted.
pub fn get_text_generation_gguf(listing: &mut GgufListing, event: ListingEvent) -> (action:
    ListingAction)
    ensures
        match event {
            ListingEvent::Start => final(listing)@ == old(listing)@ && (action matches ListingAction::Fetch(
                u,
            ) && u@ == query_url()),
            ListingEvent::Page(headers, body) => final(listing)@ == old(listing)@ + model_ids(
                body@,
            ),
            ListingEvent::FetchFailed => final(listing)@ == old(listing)@,
        },
        match event {
            ListingEvent::Start => true,
            ListingEvent::Page(headers, body) => match next_link(headers@) {
                Some(url) => action matches ListingAction::Fetch(u) && u@ == url,
                None => action matches ListingAction::Done(list) && listing_result(
                    views(list@),
                    final(listing)@,
                ),
            },
            ListingEvent::FetchFailed => action matches ListingAction::Done(list)
                && listing_result(views(list@), final(listing)@),
        },
{
    match event {
        ListingEvent::Start => {
            let url = build_query_url();
            ListingAction::Fetch(url)
        },
        ListingEvent::Page(headers, body) => {
            let ghost before = listing@;
            let page_ids = parse_model_ids(body.as_str());
            let mut i: usize = 0;
            while i < page_ids.len()
                invariant
                    i <= page_ids@.len(),
                    listing@ == before + views(page_ids@).take(i as int),
                decreases page_ids@.len() - i,
            {
                let ghost cur = listing.ids@;
                listing.ids.push(page_ids[i].clone());
                assert(listing.ids@ == cur.push(page_ids@[i as int]));
                assert(views(listing.ids@) =~= views(cur).push(page_ids@[i as int]@));
                assert(views(page_ids@).take(i + 1) =~= views(page_ids@).take(i as int).push(
                    page_ids@[i as int]@,
                ));
                assert(listing@ =~= before + views(page_ids@).take(i + 1));
                i = i + 1;
            }
            assert(views(page_ids@).take(page_ids@.len() as int) =~= views(page_ids@));
            match parse_next_link(headers.as_str()) {
                Some(url) => ListingAction::Fetch(url),
                None => ListingAction::Done(sorted_unique(&listing.ids)),
            }
        },
        ListingEvent::FetchFailed => ListingAction::Done(sorted_unique(&listing.ids)),
    }
}

/// `list` is the outcome of a walk that received the ids `received`: each of them
/// once, in increasing order.
pub open spec fn listing_result(list: Seq<Seq<char>>, received: Seq<Seq<char>>) -> bool {
    &&& list == sorted_set(received)
    &&& strictly_sorted(list)
    &&& same_elements(list, received)
}

} // verus!

verus! {

// ---------------------------------------------------------------------------
// Laws
// ---------------------------------------------------------------------------
/// No element occurs twice.
pub open spec fn no_repeats(s: Seq<Seq<char>>) -> bool {
    forall|i: int, j: int| 0 <= i < j < s.len() ==> s[i] != s[j]
}

/// Removing repeats leaves each element once and loses none.
pub proof fn dedup_keeps_each_once(s: Seq<Seq<char>>)
    ensures
        no_repeats(dedup(s)),
        same_elements(dedup(s), s),
    decreases s.len(),
{
    if s.len() > 0 {
        let rest = s.drop_last();
        dedup_keeps_each_once(rest);
        let d = dedup(rest);
        assert forall|x: Seq<char>| dedup(s).contains(x) <==> s.contains(x) by {
            if dedup(s).contains(x) {
                let k = choose|k: int| 0 <= k < dedup(s).len() && dedup(s)[k] == x;
                if k < d.len() {
                    assert(d[k] == x);
                    assert(rest.contains(x));
                    let m = choose|m: int| 0 <= m < rest.len() && rest[m] == x;
                    assert(s[m] == x);
                } else {
                    assert(s[s.len() - 1] == x);
                }
            }
            if s.contains(x) {
                let m = choose|m: int| 0 <= m < s.len() && s[m] == x;
                if m < s.len() - 1 {
                    assert(rest[m] == x);
                    assert(d.contains(x));
                    let k = choose|k: int| 0 <= k < d.len() && d[k] == x;
                    if !d.contains(s.last()) {
                        assert(dedup(s)[k] == x);
                    }
                } else if !d.contains(s.last()) {
                    assert(dedup(s)[d.len() as int] == x);
                }
            }
        }
    }
}

/// The ids of a page are distinct, and they are exactly the values of its
/// `"modelId"` and `"id"` keys.
pub proof fn page_ids_are_distinct(body: Seq<char>)
    ensures
        no_repeats(model_ids(body)),
        forall|x: Seq<char>|
            model_ids(body).contains(x) <==> (json_values(body, model_id_key()).contains(x)
                || json_values(body, id_key()).contains(x)),
{
    let a = json_values(body, model_id_key());
    let b = json_values(body, id_key());
    dedup_keeps_each_once(a + b);
    assert forall|x: Seq<char>| (a + b).contains(x) <==> (a.contains(x) || b.contains(x)) by {
        if (a + b).contains(x) {
            let k = choose|k: int| 0 <= k < (a + b).len() && (a + b)[k] == x;
            if k < a.len() {
                assert(a[k] == x);
            } else {
                assert(b[k - a.len()] == x);
            }
        }
        if a.contains(x) {
            let k = choose|k: int| 0 <= k < a.len() && a[k] == x;
            assert((a + b)[k] == x);
        }
        if b.contains(x) {
            let k = choose|k: int| 0 <= k < b.len() && b[k] == x;
            assert((a + b)[k + a.len()] == x);
        }
    }
}

/// The ids received from pages with these bodies, page after page.
pub open spec fn ids_of_pages(bodies: Seq<Seq<char>>) -> Seq<Seq<char>>
    decreases bodies.len(),
{
    if bodies.len() == 0 {
        seq![]
    } else {
        ids_of_pages(bodies.drop_last()) + model_ids(bodies.last())
    }
}

proof fn lemma_ids_of_pages_contains(bodies: Seq<Seq<char>>, x: Seq<char>)
    ensures
        ids_of_pages(bodies).contains(x) <==> exists|k: int|
            0 <= k < bodies.len() && #[trigger] model_ids(bodies[k]).contains(x),
    decreases bodies.len(),
{
    if bodies.len() > 0 {
        let rest = bodies.drop_last();
        let a = ids_of_pages(rest);
        let b = model_ids(bodies.last());
        lemma_ids_of_pages_contains(rest, x);
        if (a + b).contains(x) {
            let m = choose|m: int| 0 <= m < (a + b).len() && (a + b)[m] == x;
            if m < a.len() {
                assert(a[m] == x);
                let k = choose|k: int| 0 <= k < rest.len() && #[trigger] model_ids(rest[k]).contains(x);
                assert(bodies[k] == rest[k]);
            } else {
                assert(b[m - a.len()] == x);
                assert(model_ids(bodies[bodies.len() - 1]).contains(x));
            }
        }
        if exists|k: int| 0 <= k < bodies.len() && #[trigger] model_ids(bodies[k]).contains(x) {
            let k = choose|k: int| 0 <= k < bodies.len() && #[trigger] model_ids(bodies[k]).contains(x);
            if k < rest.len() {
                assert(rest[k] == bodies[k]);
                assert(model_ids(rest[k]).contains(x));
                let m = choose|m: int| 0 <= m < a.len() && a[m] == x;
                assert((a + b)[m] == x);
            } else {
                let m = choose|m: int| 0 <= m < b.len() && b[m] == x;
                assert((a + b)[a.len() + m] == x);
            }
        }
    }
}

/// A whole walk over the pages of the listing lists every model id of every page
/// received, each once, in increasing order, and nothing else.
///
/// `listings[k]` is what the listing holds after the `k`-th page: a new listing
/// holds nothing, a page adds the model ids of its body (as each step of
/// `get_text_generation_gguf` ensures), and `list` is what the last step hands
/// back, when the last page names no next one or the next fetch fails.
pub proof fn walk_lists_every_page_once(
    bodies: Seq<Seq<char>>,
    listings: Seq<Seq<Seq<char>>>,
    list: Seq<Seq<char>>,
)
    requires
        listings.len() == bodies.len() + 1,
        listings[0] == Seq::<Seq<char>>::empty(),
        forall|k: int|
            0 <= k < bodies.len() ==> #[trigger] listings[k + 1] == listings[k] + model_ids(
                bodies[k],
            ),
        listing_result(list, listings[bodies.len() as int]),
    ensures
        list == sorted_set(ids_of_pages(bodies)),
        strictly_sorted(list),
        forall|x: Seq<char>|
            list.contains(x) <==> exists|k: int|
                0 <= k < bodies.len() && #[trigger] model_ids(bodies[k]).contains(x),
{
    assert forall|k: int| 0 <= k <= bodies.len() implies #[trigger] listings[k] == ids_of_pages(
        bodies.take(k),
    ) by {
        lemma_walk_prefix(bodies, listings, k);
    }
    assert(bodies.take(bodies.len() as int) =~= bodies);
    assert forall|x: Seq<char>| list.contains(x) <==> exists|k: int|
        0 <= k < bodies.len() && #[trigger] model_ids(bodies[k]).contains(x) by {
        lemma_ids_of_pages_contains(bodies, x);
    }
}

proof fn lemma_walk_prefix(bodies: Seq<Seq<char>>, listings: Seq<Seq<Seq<char>>>, k: int)
    requires
        listings.len() == bodies.len() + 1,
        listings[0] == Seq::<Seq<char>>::empty(),
        forall|j: int|
            0 <= j < bodies.len() ==> #[trigger] listings[j + 1] == listings[j] + model_ids(
                bodies[j],
            ),
        0 <= k <= bodies.len(),
    ensures
        listings[k] == ids_of_pages(bodies.take(k)),
    decreases k,
{
    if k == 0 {
        assert(bodies.take(0) =~= Seq::<Seq<char>>::empty());
    } else {
        lemma_walk_prefix(bodies, listings, k - 1);
        assert(bodies.take(k).drop_last() =~= bodies.take(k - 1));
        assert(listings[(k - 1) + 1] == listings[k - 1] + model_ids(bodies[k - 1]));
    }
}

/// The characters of `s` as a JSON string body: `\` and `"` escaped with `\`.
pub open spec fn escape_body(s: Seq<char>) -> Seq<char>
    decreases s.len(),
{
    if s.len() == 0 {
        seq![]
    } else {
        let c = s[0];
        (if c == '\\' || c == '"' {
            seq!['\\', c]
        } else {
            seq![c]
        }) + escape_body(s.drop_first())
    }
}

/// `s` written as a JSON string literal.
pub open spec fn quoted(s: Seq<char>) -> Seq<char> {
    seq!['"'] + escape_body(s) + seq!['"']
}

proof fn lemma_rest_of_escaped(s: Seq<char>, t: Seq<char>)
    ensures
        json_string_rest(escape_body(s) + seq!['"'] + t, false) == Some(
            (s, (escape_body(s).len() + 1) as nat),
        ),
    decreases s.len(),
{
    let x = escape_body(s) + seq!['"'] + t;
    if s.len() == 0 {
        assert(x[0] == '"');
        assert(s =~= Seq::<char>::empty());
    } else {
        let c = s[0];
        let d = s.drop_first();
        let u = escape_body(d) + seq!['"'] + t;
        lemma_rest_of_escaped(d, t);
        assert(s =~= seq![c] + d);
        if c == '\\' || c == '"' {
            assert(x =~= seq!['\\', c] + u);
            assert(x[0] == '\\');
            assert(x.drop_first() =~= seq![c] + u);
            assert(x.drop_first()[0] == c);
            assert(x.drop_first().drop_first() =~= u);
            assert(unescape(c) == c);
            lemma_prefixed_twice(
                seq![],
                1,
                seq![c],
                1,
                json_string_rest(u, false),
            );
            assert(Seq::<char>::empty() + seq![c] =~= seq![c]);
            assert(escape_body(s).len() == escape_body(d).len() + 2);
            assert(json_string_rest(x, false) == prefixed(
                seq![],
                1,
                json_string_rest(x.drop_first(), true),
            ));
            assert(json_string_rest(x.drop_first(), true) == prefixed(
                seq![c],
                1,
                json_string_rest(u, false),
            ));
        } else {
            assert(x =~= seq![c] + u);
            assert(x[0] == c);
            assert(x.drop_first() =~= u);
            assert(escape_body(s).len() == escape_body(d).len() + 1);
            assert(json_string_rest(x, false) == prefixed(seq![c], 1, json_string_rest(u, false)));
        }
    }
}

/// A string written as a JSON literal, whatever follows it, reads back as that
/// string, spanning the bytes of the literal.
pub proof fn quoted_reads_back(s: Seq<char>, t: Seq<char>)
    ensures
        json_literal(quoted(s) + t) == Some((s, utf8_len(quoted(s)))),
{
    let x = quoted(s) + t;
    lemma_rest_of_escaped(s, t);
    assert(x[0] == '"');
    assert(x.drop_first() =~= escape_body(s) + seq!['"'] + t);
    assert(Seq::<char>::empty() + s =~= s);
    assert(x.take(quoted(s).len() as int) =~= quoted(s));
}

} // verus!
