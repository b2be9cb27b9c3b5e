//! Character-level text utilities shared by the parsers of this crate.
//!
//! Text is modelled as a sequence of characters (`Seq<char>`, the view of
//! `str` and `String`). Positions in this crate count characters.
use vstd::prelude::*;

verus! {

/// Appending a character to a `String` extends its character sequence by that character.
pub assume_specification[ String::push ](s: &mut String, ch: char)
    ensures
        final(s)@ == old(s)@.push(ch),
;

// ---------------------------------------------------------------------------
// Case
// ---------------------------------------------------------------------------
/// What `str::to_lowercase` returns for `s` (Unicode lower case).
pub uninterp spec fn lowercase(s: Seq<char>) -> Seq<char>;

/// `str::to_lowercase`: the result is `lowercase` of the argument.
#[verifier::external_body]
pub(crate) fn to_lowercase(s: &str) -> (r: String)
    ensures
        r@ == lowercase(s@),
{
    s.to_lowercase()
}

// ---------------------------------------------------------------------------
// Character classes
// ---------------------------------------------------------------------------
/// Unicode `White_Space`, the set that `char::is_whitespace` and `str::trim` use.
pub open spec fn is_whitespace(c: char) -> bool {
    let u = c as u32;
    ||| 0x09 <= u <= 0x0D
    ||| u == 0x20
    ||| u == 0x85
    ||| u == 0xA0
    ||| u == 0x1680
    ||| 0x2000 <= u <= 0x200A
    ||| u == 0x2028
    ||| u == 0x2029
    ||| u == 0x202F
    ||| u == 0x205F
    ||| u == 0x3000
}

pub open spec fn is_ascii_digit(c: char) -> bool {
    '0' <= c <= '9'
}

pub open spec fn is_ascii_alphanumeric(c: char) -> bool {
    ||| '0' <= c <= '9'
    ||| 'a' <= c <= 'z'
    ||| 'A' <= c <= 'Z'
}

/// `char::to_ascii_lowercase`: maps `A`..`Z` to `a`..`z`, every other character to itself.
pub open spec fn ascii_lower(c: char) -> char {
    if 'A' <= c <= 'Z' {
        ((c as u32) + 32) as char
    } else {
        c
    }
}

pub open spec fn ascii_lower_seq(s: Seq<char>) -> Seq<char> {
    s.map_values(|c: char| ascii_lower(c))
}

/// The character classes that the parsers of this crate skip over.
#[derive(Clone, Copy, PartialEq, Eq, Structural)]
pub enum CharClass {
    /// Unicode white space.
    Whitespace,
    /// Anything that is not white space.
    NotWhitespace,
    /// `:` or `=`, the separators after a version label.
    LabelSeparator,
    /// Anything but an ASCII letter or digit, `.`, `-` or `_`.
    NotVersionChar,
    /// The letter `v`.
    LowerV,
}

pub open spec fn in_class(k: CharClass, c: char) -> bool {
    match k {
        CharClass::Whitespace => is_whitespace(c),
        CharClass::NotWhitespace => !is_whitespace(c),
        CharClass::LabelSeparator => c == ':' || c == '=',
        CharClass::NotVersionChar => !(is_ascii_alphanumeric(c) || c == '.' || c == '-' || c
            == '_'),
        CharClass::LowerV => c == 'v',
    }
}

pub fn is_whitespace_char(c: char) -> (b: bool)
    ensures
        b == is_whitespace(c),
{
    let u = c as u32;
    (0x09 <= u && u <= 0x0D) || u == 0x20 || u == 0x85 || u == 0xA0 || u == 0x1680 || (0x2000
        <= u && u <= 0x200A) || u == 0x2028 || u == 0x2029 || u == 0x202F || u == 0x205F || u
        == 0x3000
}

pub fn ascii_lower_char(c: char) -> (r: char)
    ensures
        r == ascii_lower(c),
{
    if 'A' <= c && c <= 'Z' {
        let u = (c as u32) + 32;
        assert(0x61 <= u <= 0x7A);
        char_from_ascii(u)
    } else {
        c
    }
}

fn char_from_ascii(u: u32) -> (c: char)
    requires
        u < 0x80,
    ensures
        c == u as char,
{
    (u as u8) as char
}

pub fn char_in_class(k: CharClass, c: char) -> (b: bool)
    ensures
        b == in_class(k, c),
{
    match k {
        CharClass::Whitespace => is_whitespace_char(c),
        CharClass::NotWhitespace => !is_whitespace_char(c),
        CharClass::LabelSeparator => c == ':' || c == '=',
        CharClass::NotVersionChar => !(('0' <= c && c <= '9') || ('a' <= c && c <= 'z') || ('A'
            <= c && c <= 'Z') || c == '.' || c == '-' || c == '_'),
        CharClass::LowerV => c == 'v',
    }
}

// ---------------------------------------------------------------------------
// Trimming
// ---------------------------------------------------------------------------
/// `s` without its longest prefix of characters of class `k`.
pub open spec fn drop_while(s: Seq<char>, k: CharClass) -> Seq<char>
    decreases s.len(),
{
    if s.len() > 0 && in_class(k, s[0]) {
        drop_while(s.drop_first(), k)
    } else {
        s
    }
}

/// `s` without its longest suffix of characters of class `k`.
pub open spec fn drop_last_while(s: Seq<char>, k: CharClass) -> Seq<char>
    decreases s.len(),
{
    if s.len() > 0 && in_class(k, s.last()) {
        drop_last_while(s.drop_last(), k)
    } else {
        s
    }
}

/// `str::trim_start`.
pub open spec fn trim_start(s: Seq<char>) -> Seq<char> {
    drop_while(s, CharClass::Whitespace)
}

/// `str::trim`.
pub open spec fn trim(s: Seq<char>) -> Seq<char> {
    drop_last_while(drop_while(s, CharClass::Whitespace), CharClass::Whitespace)
}

/// `str::trim_matches` with a class: both ends stripped.
pub open spec fn trim_class(s: Seq<char>, k: CharClass) -> Seq<char> {
    drop_last_while(drop_while(s, k), k)
}

/// What `drop_while` keeps is a suffix, every dropped character is in the class,
/// and the first kept one is not.
pub proof fn lemma_drop_while(s: Seq<char>, k: CharClass)
    ensures
        drop_while(s, k).len() <= s.len(),
        drop_while(s, k) == s.skip(s.len() - drop_while(s, k).len()),
        drop_while(s, k).len() > 0 ==> !in_class(k, drop_while(s, k)[0]),
        forall|j: int| 0 <= j < s.len() - drop_while(s, k).len() ==> in_class(k, #[trigger] s[j]),
    decreases s.len(),
{
    if s.len() > 0 && in_class(k, s[0]) {
        lemma_drop_while(s.drop_first(), k);
        let r = drop_while(s, k);
        assert(s.drop_first().skip(s.drop_first().len() - r.len()) =~= s.skip(s.len() - r.len()));
        assert forall|j: int| 0 <= j < s.len() - r.len() implies in_class(k, #[trigger] s[j]) by {
            if j > 0 {
                assert(s[j] == s.drop_first()[j - 1]);
            }
        }
    } else {
        assert(s.skip(0) =~= s);
    }
}

/// The first index in `lo..hi` from which `v[i..hi]` is `v[lo..hi]` with its
/// leading characters of class `k` removed.
pub fn skip_forward(v: &Vec<char>, lo: usize, hi: usize, k: CharClass) -> (i: usize)
    requires
        lo <= hi <= v@.len(),
    ensures
        lo <= i <= hi,
        v@.subrange(i as int, hi as int) == drop_while(v@.subrange(lo as int, hi as int), k),
{
    let mut i = lo;
    while i < hi && char_in_class(k, v[i])
        invariant
            lo <= i <= hi <= v@.len(),
            drop_while(v@.subrange(lo as int, hi as int), k) == drop_while(
                v@.subrange(i as int, hi as int),
                k,
            ),
        decreases hi - i,
    {
        assert(v@.subrange(i as int, hi as int).drop_first() =~= v@.subrange(
            i + 1,
            hi as int,
        ));
        i = i + 1;
    }
    i
}

/// The last index in `lo..hi` such that `v[lo..i]` is `v[lo..hi]` with its
/// trailing characters of class `k` removed.
pub fn skip_backward(v: &Vec<char>, lo: usize, hi: usize, k: CharClass) -> (i: usize)
    requires
        lo <= hi <= v@.len(),
    ensures
        lo <= i <= hi,
        v@.subrange(lo as int, i as int) == drop_last_while(v@.subrange(lo as int, hi as int), k),
{
    let mut i = hi;
    while i > lo && char_in_class(k, v[i - 1])
        invariant
            lo <= i <= hi <= v@.len(),
            drop_last_while(v@.subrange(lo as int, hi as int), k) == drop_last_while(
                v@.subrange(lo as int, i as int),
                k,
            ),
        decreases i - lo,
    {
        assert(v@.subrange(lo as int, i as int).drop_last() =~= v@.subrange(
            lo as int,
            i - 1,
        ));
        i = i - 1;
    }
    i
}

// ---------------------------------------------------------------------------
// Searching
// ---------------------------------------------------------------------------
/// Does `p` occur in `s` at position `i`?
pub open spec fn occurs_at(s: Seq<char>, p: Seq<char>, i: int) -> bool {
    0 <= i && i + p.len() <= s.len() && s.subrange(i, i + p.len()) == p
}

/// `str::find`: the first position at which `p` occurs in `s`.
pub open spec fn find(s: Seq<char>, p: Seq<char>) -> Option<int>
    decreases s.len(),
{
    if s.len() < p.len() {
        None
    } else if s.take(p.len() as int) == p {
        Some(0)
    } else if s.len() == 0 {
        None
    } else {
        match find(s.drop_first(), p) {
            Some(i) => Some(i + 1),
            None => None,
        }
    }
}

/// `str::rfind`: the last position at which `p` occurs in `s`.
pub open spec fn rfind(s: Seq<char>, p: Seq<char>) -> Option<int>
    decreases s.len(),
{
    if s.len() < p.len() {
        None
    } else if s.skip(s.len() - p.len()) == p {
        Some(s.len() - p.len())
    } else if s.len() == 0 {
        None
    } else {
        rfind(s.drop_last(), p)
    }
}

pub open spec fn contains(s: Seq<char>, p: Seq<char>) -> bool {
    find(s, p) is Some
}

/// `find` gives the first occurrence.
pub proof fn lemma_find(s: Seq<char>, p: Seq<char>)
    ensures
        find(s, p) matches Some(i) ==> occurs_at(s, p, i) && forall|j: int|
            0 <= j < i ==> !occurs_at(s, p, j),
        find(s, p) is None ==> forall|j: int| !occurs_at(s, p, j),
    decreases s.len(),
{
    if s.len() < p.len() {
    } else if s.take(p.len() as int) == p {
        assert(s.subrange(0, p.len() as int) =~= s.take(p.len() as int));
    } else if s.len() == 0 {
        assert(s.take(p.len() as int) =~= p);
    } else {
        let t = s.drop_first();
        lemma_find(t, p);
        assert forall|j: int| j >= 1 && #[trigger] occurs_at(s, p, j) implies occurs_at(
            t,
            p,
            j - 1,
        ) by {
            assert(s.subrange(j, j + p.len()) =~= t.subrange(j - 1, j - 1 + p.len()));
        }
        assert forall|j: int| j >= 1 && #[trigger] occurs_at(t, p, j - 1) implies occurs_at(
            s,
            p,
            j,
        ) by {
            assert(s.subrange(j, j + p.len()) =~= t.subrange(j - 1, j - 1 + p.len()));
        }
        assert(!occurs_at(s, p, 0)) by {
            assert(s.subrange(0, p.len() as int) =~= s.take(p.len() as int));
        }
        if let Some(i) = find(s, p) {
            assert(occurs_at(t, p, i - 1));
            assert forall|j: int| 0 <= j < i implies !occurs_at(s, p, j) by {
                if j >= 1 && occurs_at(s, p, j) {
                    assert(occurs_at(t, p, j - 1));
                }
            }
        } else {
            assert forall|j: int| !occurs_at(s, p, j) by {
                if j >= 1 && occurs_at(s, p, j) {
                    assert(occurs_at(t, p, j - 1));
                }
            }
        }
    }
}

/// Does `p` occur in `v` at position `i`?
pub fn matches_at(v: &Vec<char>, i: usize, p: &Vec<char>) -> (b: bool)
    ensures
        b == occurs_at(v@, p@, i as int),
{
    if i > v.len() || p.len() > v.len() - i {
        return false;
    }
    let mut j: usize = 0;
    while j < p.len()
        invariant
            i + p@.len() <= v@.len(),
            v@.len() == v.len(),
            j <= p@.len(),
            forall|k: int| 0 <= k < j ==> v@[i + k] == p@[k],
        decreases p@.len() - j,
    {
        if v[i + j] != p[j] {
            assert(v@.subrange(i as int, i + p@.len())[j as int] != p@[j as int]);
            return false;
        }
        j = j + 1;
    }
    assert(v@.subrange(i as int, i + p@.len()) =~= p@);
    true
}

pub open spec fn shift(r: Option<int>, d: int) -> Option<int> {
    match r {
        Some(i) => Some(i + d),
        None => None,
    }
}

/// The first occurrence of `p` in `v[lo..hi]`, as a position in `v`.
pub fn find_in(v: &Vec<char>, lo: usize, hi: usize, p: &Vec<char>) -> (r: Option<usize>)
    requires
        lo <= hi <= v@.len(),
    ensures
        shift(find(v@.subrange(lo as int, hi as int), p@), lo as int) == match r {
            Some(i) => Some(i as int),
            None => None::<int>,
        },
        r matches Some(i) ==> lo <= i && i + p@.len() <= hi,
{
    let mut i = lo;
    while i <= hi && p.len() <= hi - i
        invariant
            lo <= i <= hi + 1,
            hi <= v@.len(),
            i <= hi ==> shift(find(v@.subrange(lo as int, hi as int), p@), lo as int) == shift(
                find(v@.subrange(i as int, hi as int), p@),
                i as int,
            ),
            i > hi ==> find(v@.subrange(lo as int, hi as int), p@) is None,
        decreases hi + 1 - i,
    {
        let ghost s = v@.subrange(i as int, hi as int);
        if matches_at(v, i, p) {
            assert(s.take(p@.len() as int) =~= v@.subrange(i as int, i + p@.len()));
            return Some(i);
        }
        assert(s.take(p@.len() as int) != p@) by {
            assert(s.take(p@.len() as int) =~= v@.subrange(i as int, i + p@.len()));
        }
        if i == hi {
            assert(p@.len() == 0);
            assert(s.take(0) =~= p@);
            assert(false);
        }
        assert(s.drop_first() =~= v@.subrange(i + 1, hi as int));
        i = i + 1;
    }
    if i <= hi {
        assert(find(v@.subrange(i as int, hi as int), p@) is None);
    }
    None
}

/// The last occurrence of `p` in `v[lo..hi]`, as a position in `v`.
pub fn rfind_in(v: &Vec<char>, lo: usize, hi: usize, p: &Vec<char>) -> (r: Option<usize>)
    requires
        lo <= hi <= v@.len(),
    ensures
        shift(rfind(v@.subrange(lo as int, hi as int), p@), lo as int) == match r {
            Some(i) => Some(i as int),
            None => None::<int>,
        },
        r matches Some(i) ==> lo <= i && i + p@.len() <= hi,
{
    let mut e = hi;
    while e >= lo && p.len() <= e - lo
        invariant
            lo <= hi <= v@.len(),
            e <= hi,
            e + 1 >= lo,
            e >= lo ==> rfind(v@.subrange(lo as int, hi as int), p@) == rfind(
                v@.subrange(lo as int, e as int),
                p@,
            ),
            e < lo ==> rfind(v@.subrange(lo as int, hi as int), p@) is None,
        decreases e + 1 - lo,
    {
        let ghost s = v@.subrange(lo as int, e as int);
        let start = e - p.len();
        if matches_at(v, start, p) {
            assert(s.skip(s.len() - p@.len()) =~= v@.subrange(start as int, e as int));
            return Some(start);
        }
        assert(s.skip(s.len() - p@.len()) != p@) by {
            assert(s.skip(s.len() - p@.len()) =~= v@.subrange(start as int, e as int));
        }
        if e == lo {
            assert(p@.len() == 0);
            assert(s.skip(0) =~= p@);
            assert(false);
        }
        assert(s.drop_last() =~= v@.subrange(lo as int, e - 1));
        e = e - 1;
    }
    None
}

// ---------------------------------------------------------------------------
// Lines and words
// ---------------------------------------------------------------------------
pub open spec fn newline() -> Seq<char> {
    seq!['\n']
}

/// A line as `str::lines` yields it: without a `\r` before its `\n`.
pub open spec fn strip_cr(l: Seq<char>) -> Seq<char> {
    if l.len() > 0 && l.last() == '\r' {
        l.drop_last()
    } else {
        l
    }
}

/// `str::lines`: split at `\n`, each terminated line without a trailing `\r`,
/// and no empty line after a final `\n`.
pub open spec fn lines(s: Seq<char>) -> Seq<Seq<char>>
    decreases s.len(),
{
    if s.len() == 0 {
        seq![]
    } else {
        match find(s, newline()) {
            Some(i) => if 0 <= i < s.len() {
                seq![strip_cr(s.take(i))] + lines(s.skip(i + 1))
            } else {
                seq![s]
            },
            None => seq![s],
        }
    }
}

/// `str::split_whitespace`: the maximal runs of characters that are not white space.
pub open spec fn words(s: Seq<char>) -> Seq<Seq<char>>
    decreases s.len(),
{
    let t = drop_while(s, CharClass::Whitespace);
    let r = drop_while(t, CharClass::NotWhitespace);
    if t.len() == 0 {
        seq![]
    } else if r.len() < s.len() {
        seq![t.take(t.len() - r.len())] + words(r)
    } else {
        seq![t]
    }
}

/// The bounds of the first line of `v[pos..hi]`, and where the rest begins.
pub fn next_line(v: &Vec<char>, pos: usize, hi: usize) -> (r: (usize, usize, usize))
    requires
        pos < hi <= v@.len(),
    ensures
        pos <= r.0 == pos <= r.1 <= r.2 <= hi,
        r.2 > pos,
        lines(v@.subrange(pos as int, hi as int)) == seq![v@.subrange(r.0 as int, r.1 as int)]
            + lines(v@.subrange(r.2 as int, hi as int)),
{
    let nl = vec!['\n'];
    let ghost s = v@.subrange(pos as int, hi as int);
    proof {
        lemma_find(s, newline());
    }
    match find_in(v, pos, hi, &nl) {
        Some(i) => {
            let ghost k = i - pos;
            assert(nl@ == newline());
            assert(s.take(k) =~= v@.subrange(pos as int, i as int));
            assert(s.skip(k + 1) =~= v@.subrange(i + 1, hi as int));
            let end = if i > pos && v[i - 1] == '\r' {
                assert(v@.subrange(pos as int, i as int).drop_last() =~= v@.subrange(
                    pos as int,
                    i - 1,
                ));
                i - 1
            } else {
                i
            };
            (pos, end, i + 1)
        },
        None => {
            assert(nl@ == newline());
            assert(v@.subrange(hi as int, hi as int).len() == 0);
            assert(lines(v@.subrange(hi as int, hi as int)) =~= Seq::<Seq<char>>::empty());
            assert(seq![s] + Seq::<Seq<char>>::empty() =~= seq![s]);
            (pos, hi, hi)
        },
    }
}

/// The first word of `v[lo..hi]`, as bounds in `v`, when there is one.
pub fn first_word(v: &Vec<char>, lo: usize, hi: usize) -> (r: Option<(usize, usize)>)
    requires
        lo <= hi <= v@.len(),
    ensures
        match r {
            Some((a, b)) => lo <= a < b <= hi && words(v@.subrange(lo as int, hi as int)) == seq![
                v@.subrange(a as int, b as int)] + words(v@.subrange(b as int, hi as int)),
            None => words(v@.subrange(lo as int, hi as int)).len() == 0,
        },
{
    let ghost s = v@.subrange(lo as int, hi as int);
    let a = skip_forward(v, lo, hi, CharClass::Whitespace);
    if a == hi {
        assert(drop_while(s, CharClass::Whitespace).len() == 0);
        return None;
    }
    let b = skip_forward(v, a, hi, CharClass::NotWhitespace);
    let ghost t = v@.subrange(a as int, hi as int);
    proof {
        lemma_drop_while(t, CharClass::NotWhitespace);
        assert(t[0] == v@[a as int]);
        assert(!is_whitespace(t[0])) by {
            lemma_drop_while(s, CharClass::Whitespace);
        }
        assert(b > a) by {
            if b == a {
                assert(drop_while(t, CharClass::NotWhitespace) == t);
                assert(in_class(CharClass::NotWhitespace, t[0]));
                assert(drop_while(t, CharClass::NotWhitespace) == drop_while(
                    t.drop_first(),
                    CharClass::NotWhitespace,
                ));
                lemma_drop_while(t.drop_first(), CharClass::NotWhitespace);
            }
        }
        assert(t.take(t.len() - v@.subrange(b as int, hi as int).len()) =~= v@.subrange(
            a as int,
            b as int,
        ));
    }
    Some((a, b))
}

// ---------------------------------------------------------------------------
// Building strings
// ---------------------------------------------------------------------------
// ---------------------------------------------------------------------------
// UTF-8 lengths
// ---------------------------------------------------------------------------
/// The number of bytes of the UTF-8 encoding of `s`.
pub open spec fn utf8_len(s: Seq<char>) -> nat {
    vstd::utf8::encode_utf8(s).len()
}

/// The number of bytes of the UTF-8 encoding of `c` (`char::len_utf8`).
pub open spec fn char_utf8_width(c: char) -> nat {
    let u = c as u32;
    if u < 0x80 {
        1
    } else if u < 0x800 {
        2
    } else if u < 0x10000 {
        3
    } else {
        4
    }
}

proof fn lemma_scalar_width(c: char)
    ensures
        vstd::utf8::encode_scalar(c as u32).len() == char_utf8_width(c),
{
    vstd::utf8::char_is_scalar(c);
}

/// Appending a character adds its width to the UTF-8 length.
pub proof fn lemma_utf8_len_push(s: Seq<char>, c: char)
    ensures
        utf8_len(s.push(c)) == utf8_len(s) + char_utf8_width(c),
    decreases s.len(),
{
    if s.len() == 0 {
        lemma_scalar_width(c);
        assert(s.push(c).drop_first() =~= Seq::<char>::empty());
        assert(vstd::utf8::encode_utf8(Seq::<char>::empty()).len() == 0);
    } else {
        lemma_utf8_len_push(s.drop_first(), c);
        assert(s.push(c).drop_first() =~= s.drop_first().push(c));
        assert(s.push(c)[0] == s[0]);
    }
}

/// A prefix is no longer in UTF-8 than the whole.
pub proof fn lemma_utf8_len_prefix(s: Seq<char>, k: int)
    requires
        0 <= k <= s.len(),
    ensures
        utf8_len(s.take(k)) <= utf8_len(s),
    decreases s.len() - k,
{
    if k < s.len() {
        lemma_utf8_len_prefix(s, k + 1);
        assert(s.take(k + 1) =~= s.take(k).push(s[k]));
        lemma_utf8_len_push(s.take(k), s[k]);
    } else {
        assert(s.take(k) =~= s);
    }
}

/// A run of `n` ASCII characters from position `i` adds `n` bytes.
pub proof fn lemma_utf8_len_ascii_run(s: Seq<char>, i: int, n: int)
    requires
        0 <= i,
        0 <= n,
        i + n <= s.len(),
        forall|k: int| i <= k < i + n ==> (#[trigger] s[k] as u32) < 0x80,
    ensures
        utf8_len(s.take(i + n)) == utf8_len(s.take(i)) + n,
    decreases n,
{
    if n > 0 {
        lemma_utf8_len_ascii_run(s, i, n - 1);
        assert(s.take(i + n) =~= s.take(i + n - 1).push(s[i + n - 1]));
        lemma_utf8_len_push(s.take(i + n - 1), s[i + n - 1]);
    }
}

/// The character index at which byte `b` of the UTF-8 encoding of `s` begins a
/// character (the end of `s` counts); `None` when `b` falls inside a character
/// or past the end.
pub open spec fn char_at_byte(s: Seq<char>, b: int) -> Option<int>
    decreases s.len(),
{
    if b == 0 {
        Some(0)
    } else if b < 0 || s.len() == 0 {
        None
    } else {
        match char_at_byte(s.drop_first(), b - char_utf8_width(s[0])) {
            Some(j) => Some(j + 1),
            None => None,
        }
    }
}

/// Where byte `b` of the UTF-8 encoding of `v[lo..hi]` begins a character, as a
/// position in `v` (see `char_at_byte`).
pub fn char_at_byte_in(v: &Vec<char>, lo: usize, hi: usize, b: usize) -> (r: Option<usize>)
    requires
        lo <= hi <= v@.len(),
    ensures
        shift(char_at_byte(v@.subrange(lo as int, hi as int), b as int), lo as int) == match r {
            Some(i) => Some(i as int),
            None => None::<int>,
        },
        r matches Some(i) ==> lo <= i <= hi,
{
    let mut i = lo;
    let mut rem = b;
    loop
        invariant
            lo <= i <= hi <= v@.len(),
            rem <= b,
            shift(char_at_byte(v@.subrange(lo as int, hi as int), b as int), lo as int) == shift(
                char_at_byte(v@.subrange(i as int, hi as int), rem as int),
                i as int,
            ),
        decreases hi - i,
    {
        let ghost t = v@.subrange(i as int, hi as int);
        if rem == 0 {
            return Some(i);
        }
        if i == hi {
            assert(t.len() == 0);
            return None;
        }
        let w = char_width(v[i]);
        assert(t[0] == v@[i as int]);
        assert(t.drop_first() =~= v@.subrange(i + 1, hi as int));
        if w > rem {
            assert(char_at_byte(t.drop_first(), rem - w) is None);
            return None;
        }
        rem = rem - w;
        i = i + 1;
    }
}

/// `char::len_utf8`.
pub fn char_width(c: char) -> (w: usize)
    ensures
        w == char_utf8_width(c),
{
    let u = c as u32;
    if u < 0x80 {
        1
    } else if u < 0x800 {
        2
    } else if u < 0x10000 {
        3
    } else {
        4
    }
}

/// The number of bytes that the first `n` characters of `s` take in UTF-8.
pub fn utf8_len_of_prefix(s: &str, v: &Vec<char>, n: usize) -> (r: usize)
    requires
        v@ == s@,
        n <= v@.len(),
    ensures
        r == utf8_len(s@.take(n as int)),
{
    let total = s.as_bytes().len();
    assert(total == utf8_len(s@));
    let mut sum: usize = 0;
    let mut i: usize = 0;
    assert(s@.take(0) =~= Seq::<char>::empty());
    assert(vstd::utf8::encode_utf8(Seq::<char>::empty()).len() == 0);
    while i < n
        invariant
            v@ == s@,
            n <= v@.len(),
            i <= n,
            total == utf8_len(s@),
            sum == utf8_len(s@.take(i as int)),
        decreases n - i,
    {
        proof {
            assert(s@.take(i + 1) =~= s@.take(i as int).push(s@[i as int]));
            lemma_utf8_len_push(s@.take(i as int), s@[i as int]);
            lemma_utf8_len_prefix(s@, i + 1);
        }
        sum = sum + char_width(v[i]);
        i = i + 1;
    }
    sum
}

/// The views of a list of strings.
pub open spec fn views(v: Seq<String>) -> Seq<Seq<char>> {
    v.map_values(|x: String| x@)
}

/// The view of an optional string.
pub open spec fn opt_view(o: Option<String>) -> Option<Seq<char>> {
    match o {
        Some(s) => Some(s@),
        None => None,
    }
}

/// The characters of `s`, in order.
pub fn chars_of(s: &str) -> (v: Vec<char>)
    ensures
        v@ == s@,
{
    let mut v: Vec<char> = Vec::new();
    for c in it: s.chars()
        invariant
            v@ == it.seq().take(it.index() as int),
            it.seq() == s@,
    {
        v.push(c);
    }
    v
}

/// A `String` holding the characters `v[lo..hi]`.
pub fn string_from(v: &Vec<char>, lo: usize, hi: usize) -> (s: String)
    requires
        lo <= hi <= v@.len(),
    ensures
        s@ == v@.subrange(lo as int, hi as int),
{
    let mut s = String::new();
    let mut i = lo;
    while i < hi
        invariant
            lo <= i <= hi <= v@.len(),
            s@ == v@.subrange(lo as int, i as int),
        decreases hi - i,
    {
        s.push(v[i]);
        i = i + 1;
        assert(s@ =~= v@.subrange(lo as int, i as int));
    }
    s
}

/// Appends the characters `v[lo..hi]` to `s`.
pub fn push_range(s: &mut String, v: &Vec<char>, lo: usize, hi: usize)
    requires
        lo <= hi <= v@.len(),
    ensures
        final(s)@ == old(s)@ + v@.subrange(lo as int, hi as int),
{
    let ghost s0 = s@;
    let mut i = lo;
    while i < hi
        invariant
            lo <= i <= hi <= v@.len(),
            s@ == s0 + v@.subrange(lo as int, i as int),
        decreases hi - i,
    {
        s.push(v[i]);
        i = i + 1;
        assert(s@ =~= s0 + v@.subrange(lo as int, i as int));
    }
}

/// `v` with every character mapped by `char::to_ascii_lowercase`.
pub fn ascii_lowercase(v: &Vec<char>) -> (r: Vec<char>)
    ensures
        r@ == ascii_lower_seq(v@),
{
    let mut r: Vec<char> = Vec::new();
    let mut i: usize = 0;
    while i < v.len()
        invariant
            i <= v@.len(),
            r@ == ascii_lower_seq(v@.take(i as int)),
        decreases v@.len() - i,
    {
        r.push(ascii_lower_char(v[i]));
        i = i + 1;
        assert(r@ =~= ascii_lower_seq(v@.take(i as int)));
    }
    assert(v@.take(v@.len() as int) =~= v@);
    r
}

} // verus!
