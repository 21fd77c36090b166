//! Operations on text, stated over sequences of characters.
//!
//! Every function here works on characters, so that a contract speaks of
//! `Seq<char>` alone. The meaning of each one is a spec function of the same
//! subject: [`trimmed`], [`split`], [`joined`], [`replaced_all`] and so on.
use vstd::prelude::*;
use vstd::string::*;

verus! {

// ---------------------------------------------------------------------------
// Strings and characters
// ---------------------------------------------------------------------------

/// `String::push`: appends one character to the end of the string.
pub assume_specification[ String::push ](s: &mut String, c: char)
    ensures
        final(s)@ == old(s)@.push(c),
;

/// The characters of a string, in order.
pub fn chars_of(s: &str) -> (out: Vec<char>)
    ensures
        out@ == s@,
{
    let mut out: Vec<char> = Vec::new();
    for c in it: s.chars()
        invariant
            out@ == it.seq().take(it.index() as int),
            it.seq() == s@,
    {
        out.push(c);
    }
    out
}

/// The characters `from..to` of `v` as a string.
pub fn string_of_range(v: &Vec<char>, from: usize, to: usize) -> (out: String)
    requires
        from <= to <= v@.len(),
    ensures
        out@ == v@.subrange(from as int, to as int),
{
    let mut out = String::new();
    let mut i: usize = from;
    while i < to
        invariant
            from <= i <= to <= v@.len(),
            out@ == v@.subrange(from as int, i as int),
        decreases to - i,
    {
        out.push(v[i]);
        i += 1;
        assert(v@.subrange(from as int, i as int) =~= v@.subrange(from as int, i - 1).push(v@[i - 1]));
    }
    out
}

/// The characters of `v` as a string.
pub fn string_of(v: &Vec<char>) -> (out: String)
    ensures
        out@ == v@,
{
    let out = string_of_range(v, 0, v.len());
    assert(v@.subrange(0, v@.len() as int) =~= v@);
    out
}

/// The characters `from..to` of `v`.
pub fn slice_of(v: &Vec<char>, from: usize, to: usize) -> (out: Vec<char>)
    requires
        from <= to <= v@.len(),
    ensures
        out@ == v@.subrange(from as int, to as int),
{
    let mut out: Vec<char> = Vec::new();
    let mut i: usize = from;
    while i < to
        invariant
            from <= i <= to <= v@.len(),
            out@ == v@.subrange(from as int, i as int),
        decreases to - i,
    {
        out.push(v[i]);
        i += 1;
        assert(v@.subrange(from as int, i as int) =~= v@.subrange(from as int, i - 1).push(v@[i - 1]));
    }
    out
}

/// Whether two character vectors hold the same characters.
pub fn same_chars(a: &Vec<char>, b: &Vec<char>) -> (r: bool)
    ensures
        r == (a@ == b@),
{
    if a.len() != b.len() {
        return false;
    }
    let mut i: usize = 0;
    while i < a.len()
        invariant
            a@.len() == b@.len(),
            i <= a@.len(),
            forall|k: int| 0 <= k < i ==> a@[k] == b@[k],
        decreases a.len() - i,
    {
        if a[i] != b[i] {
            return false;
        }
        i += 1;
    }
    assert(a@ =~= b@);
    true
}

/// Whether two strings hold the same characters.
pub fn same(a: &str, b: &str) -> (r: bool)
    ensures
        r == (a@ == b@),
{
    same_chars(&chars_of(a), &chars_of(b))
}

/// The views of a vector of strings.
pub open spec fn views(v: Seq<String>) -> Seq<Seq<char>> {
    Seq::new(v.len(), |i: int| v[i]@)
}

/// The views of a vector of character vectors.
pub open spec fn char_views(v: Seq<Vec<char>>) -> Seq<Seq<char>> {
    Seq::new(v.len(), |i: int| v[i]@)
}

/// `Some` of the view of the string, or `None`.
pub open spec fn opt_view(o: Option<String>) -> Option<Seq<char>> {
    match o {
        Some(s) => Some(s@),
        None => None,
    }
}

// ---------------------------------------------------------------------------
// Character classes and trimming
// ---------------------------------------------------------------------------

/// The characters that a trim removes.
#[derive(Clone, Copy, PartialEq, Eq, Structural, Debug)]
pub enum CharClass {
    /// Unicode white space.
    Space,
    /// The single and the double quote.
    Quote,
    /// The slash and the backslash.
    Slash,
}

impl CharClass {
    /// Whether `c` belongs to the class.
    pub open spec fn has(self, c: char) -> bool {
        match self {
            CharClass::Space => is_space(c),
            CharClass::Quote => c == '"' || c == '\'',
            CharClass::Slash => c == '/' || c == '\\',
        }
    }

    fn test(self, c: char) -> (r: bool)
        ensures
            r == self.has(c),
    {
        match self {
            CharClass::Space => space(c),
            CharClass::Quote => c == '"' || c == '\'',
            CharClass::Slash => c == '/' || c == '\\',
        }
    }
}

/// The characters with the Unicode property `White_Space`.
pub open spec fn is_space(c: char) -> bool {
    ||| '\u{9}' <= c <= '\u{d}'
    ||| c == '\u{20}'
    ||| c == '\u{85}'
    ||| c == '\u{a0}'
    ||| c == '\u{1680}'
    ||| '\u{2000}' <= c <= '\u{200a}'
    ||| c == '\u{2028}'
    ||| c == '\u{2029}'
    ||| c == '\u{202f}'
    ||| c == '\u{205f}'
    ||| c == '\u{3000}'
}

/// Whether `c` is white space.
pub fn space(c: char) -> (r: bool)
    ensures
        r == is_space(c),
{
    ('\u{9}' <= c && c <= '\u{d}') || c == '\u{20}' || c == '\u{85}' || c == '\u{a0}' || c
        == '\u{1680}' || ('\u{2000}' <= c && c <= '\u{200a}') || c == '\u{2028}' || c == '\u{2029}'
        || c == '\u{202f}' || c == '\u{205f}' || c == '\u{3000}'
}

/// `s` without its longest prefix of characters of the class.
pub open spec fn trimmed_start(s: Seq<char>, class: CharClass) -> Seq<char>
    decreases s.len(),
{
    if s.len() > 0 && class.has(s[0]) {
        trimmed_start(s.subrange(1, s.len() as int), class)
    } else {
        s
    }
}

/// `s` without its longest suffix of characters of the class.
pub open spec fn trimmed_end(s: Seq<char>, class: CharClass) -> Seq<char>
    decreases s.len(),
{
    if s.len() > 0 && class.has(s[s.len() - 1]) {
        trimmed_end(s.subrange(0, s.len() - 1), class)
    } else {
        s
    }
}

/// `s` without the characters of the class at either end.
pub open spec fn trimmed_of(s: Seq<char>, class: CharClass) -> Seq<char> {
    trimmed_end(trimmed_start(s, class), class)
}

/// `s` without the white space at either end.
pub open spec fn trimmed(s: Seq<char>) -> Seq<char> {
    trimmed_of(s, CharClass::Space)
}

/// Drops the characters of the class from the end of `v`.
pub fn trim_end_chars(v: &Vec<char>, class: CharClass) -> (out: Vec<char>)
    ensures
        out@ == trimmed_end(v@, class),
{
    let mut n: usize = v.len();
    assert(v@.subrange(0, n as int) =~= v@);
    while n > 0 && class.test(v[n - 1])
        invariant
            n <= v@.len(),
            trimmed_end(v@, class) == trimmed_end(v@.subrange(0, n as int), class),
        decreases n,
    {
        proof {
            let cur = v@.subrange(0, n as int);
            assert(cur.subrange(0, cur.len() - 1) =~= v@.subrange(0, n - 1));
        }
        n -= 1;
    }
    slice_of(v, 0, n)
}

/// Drops the characters of the class from both ends of `v`.
pub fn trim_chars(v: &Vec<char>, class: CharClass) -> (out: Vec<char>)
    ensures
        out@ == trimmed_of(v@, class),
{
    let mut i: usize = 0;
    assert(v@.subrange(0, v@.len() as int) =~= v@);
    while i < v.len() && class.test(v[i])
        invariant
            i <= v@.len(),
            trimmed_start(v@, class) == trimmed_start(v@.subrange(i as int, v@.len() as int), class),
        decreases v.len() - i,
    {
        proof {
            let cur = v@.subrange(i as int, v@.len() as int);
            assert(cur.subrange(1, cur.len() as int) =~= v@.subrange(i + 1, v@.len() as int));
        }
        i += 1;
    }
    let rest = slice_of(v, i, v.len());
    trim_end_chars(&rest, class)
}

/// `s` without the white space at either end.
pub fn trim(s: &str) -> (out: String)
    ensures
        out@ == trimmed(s@),
{
    string_of(&trim_chars(&chars_of(s), CharClass::Space))
}

// ---------------------------------------------------------------------------
// Searching and splitting
// ---------------------------------------------------------------------------

/// Whether `pat` stands in `s` at position `i`.
pub open spec fn matches_at(s: Seq<char>, pat: Seq<char>, i: int) -> bool {
    &&& 0 <= i
    &&& i + pat.len() <= s.len()
    &&& s.subrange(i, i + pat.len()) == pat
}

/// The first position from `from` on at which `pat` stands in `s`.
pub open spec fn first_match(s: Seq<char>, pat: Seq<char>, from: int) -> Option<int>
    decreases s.len() - from + 1,
{
    if from + pat.len() > s.len() {
        None
    } else if matches_at(s, pat, from) {
        Some(from)
    } else {
        first_match(s, pat, from + 1)
    }
}

/// Whether `pat` stands somewhere in `s`.
pub open spec fn has_text(s: Seq<char>, pat: Seq<char>) -> bool {
    exists|i: int| matches_at(s, pat, i)
}

/// [`first_match`] finds a position exactly where there is one, and none
/// before the one that it finds.
pub proof fn lemma_first_match(s: Seq<char>, pat: Seq<char>, from: int)
    requires
        0 <= from,
    ensures
        match first_match(s, pat, from) {
            Some(i) => from <= i && matches_at(s, pat, i) && forall|k: int|
                from <= k < i ==> !matches_at(s, pat, k),
            None => forall|k: int| from <= k ==> !matches_at(s, pat, k),
        },
    decreases s.len() - from + 1,
{
    if from + pat.len() > s.len() {
    } else if matches_at(s, pat, from) {
    } else {
        lemma_first_match(s, pat, from + 1);
    }
}

fn chars_match_at(s: &Vec<char>, pat: &Vec<char>, i: usize) -> (r: bool)
    requires
        i <= s@.len(),
    ensures
        r == matches_at(s@, pat@, i as int),
{
    if pat.len() > s.len() - i {
        return false;
    }
    let mut k: usize = 0;
    while k < pat.len()
        invariant
            k <= pat@.len(),
            i + pat.len() <= s.len(),
            forall|j: int| 0 <= j < k ==> s@[i + j] == pat@[j],
        decreases pat.len() - k,
    {
        if s[i + k] != pat[k] {
            assert(s@.subrange(i as int, i + pat@.len())[k as int] != pat@[k as int]);
            return false;
        }
        k += 1;
    }
    assert(s@.subrange(i as int, i + pat@.len()) =~= pat@);
    true
}

/// The first position from `from` on at which `pat` stands in `s`.
pub fn find_chars(s: &Vec<char>, pat: &Vec<char>, from: usize) -> (r: Option<usize>)
    requires
        from <= s@.len(),
    ensures
        first_match(s@, pat@, from as int) == (match r {
            Some(i) => Some(i as int),
            None => None::<int>,
        }),
        r matches Some(i) ==> from <= i && i + pat.len() <= s.len() && matches_at(s@, pat@, i as int),
{
    let mut i: usize = from;
    while i <= s.len() && pat.len() <= s.len() - i
        invariant
            from <= i <= s@.len() + 1,
            first_match(s@, pat@, from as int) == first_match(s@, pat@, i as int),
        decreases s.len() + 1 - i,
    {
        if chars_match_at(s, pat, i) {
            return Some(i);
        }
        if i == s.len() {
            assert(first_match(s@, pat@, i + 1) is None);
            return None;
        }
        i += 1;
    }
    None
}

/// Whether `pat` stands somewhere in `s`.
pub fn contains(s: &str, pat: &str) -> (r: bool)
    ensures
        r == has_text(s@, pat@),
{
    proof {
        lemma_first_match(s@, pat@, 0);
    }
    find_chars(&chars_of(s), &chars_of(pat), 0).is_some()
}

/// The pieces of `s` that lie between the separators from `at` on, the first
/// one starting at `start`.
pub open spec fn split_from(s: Seq<char>, sep: Seq<char>, start: int, at: int) -> Seq<Seq<char>>
    decreases s.len() - at,
{
    if sep.len() == 0 || at + sep.len() > s.len() {
        seq![s.subrange(start, s.len() as int)]
    } else if matches_at(s, sep, at) {
        seq![s.subrange(start, at)] + split_from(s, sep, at + sep.len(), at + sep.len())
    } else {
        split_from(s, sep, start, at + 1)
    }
}

/// The pieces of `s` between the separators, left to right.
pub open spec fn split(s: Seq<char>, sep: Seq<char>) -> Seq<Seq<char>> {
    split_from(s, sep, 0, 0)
}

/// The pieces of `s` between the separators, left to right.
pub fn split_chars(s: &Vec<char>, sep: &Vec<char>) -> (out: Vec<Vec<char>>)
    requires
        sep@.len() > 0,
    ensures
        char_views(out@) == split(s@, sep@),
        out@.len() > 0,
{
    let mut out: Vec<Vec<char>> = Vec::new();
    let mut start: usize = 0;
    let mut at: usize = 0;
    assert(char_views(out@) + split_from(s@, sep@, 0, 0) =~= split(s@, sep@));
    while at <= s.len() && sep.len() <= s.len() - at
        invariant
            sep@.len() > 0,
            start <= at <= s@.len(),
            char_views(out@) + split_from(s@, sep@, start as int, at as int) == split(s@, sep@),
        decreases s.len() - at,
    {
        if chars_match_at(s, sep, at) {
            let ghost before = char_views(out@);
            let piece = slice_of(s, start, at);
            out.push(piece);
            proof {
                assert(char_views(out@) =~= before.push(piece@));
                assert(before + (seq![s@.subrange(start as int, at as int)] + split_from(
                    s@,
                    sep@,
                    at + sep@.len(),
                    at + sep@.len(),
                )) =~= before.push(piece@) + split_from(
                    s@,
                    sep@,
                    at + sep@.len(),
                    at + sep@.len(),
                ));
            }
            at += sep.len();
            start = at;
        } else {
            at += 1;
        }
    }
    let ghost before = char_views(out@);
    let piece = slice_of(s, start, s.len());
    out.push(piece);
    proof {
        assert(char_views(out@) =~= before.push(piece@));
        assert(before + seq![piece@] =~= before.push(piece@));
    }
    out
}

/// The text before the first separator and the text after it.
pub open spec fn split_once(s: Seq<char>, sep: Seq<char>) -> Option<(Seq<char>, Seq<char>)> {
    match first_match(s, sep, 0) {
        Some(i) => Some((s.subrange(0, i), s.subrange(i + sep.len(), s.len() as int))),
        None => None,
    }
}

/// The text before the first separator and the text after it.
pub fn split_once_chars(s: &Vec<char>, sep: &Vec<char>) -> (r: Option<(Vec<char>, Vec<char>)>)
    ensures
        split_once(s@, sep@) == (match r {
            Some((a, b)) => Some((a@, b@)),
            None => None::<(Seq<char>, Seq<char>)>,
        }),
{
    match find_chars(s, sep, 0) {
        Some(i) => Some((slice_of(s, 0, i), slice_of(s, i + sep.len(), s.len()))),
        None => None,
    }
}

// ---------------------------------------------------------------------------
// Joining and replacing
// ---------------------------------------------------------------------------

/// The parts with `sep` between each two neighbours.
pub open spec fn joined(parts: Seq<Seq<char>>, sep: Seq<char>) -> Seq<char>
    decreases parts.len(),
{
    if parts.len() == 0 {
        Seq::empty()
    } else if parts.len() == 1 {
        parts[0]
    } else {
        joined(parts.subrange(0, parts.len() - 1), sep) + sep + parts[parts.len() - 1]
    }
}

/// The parts with `sep` between each two neighbours.
pub fn join_chars(parts: &Vec<Vec<char>>, sep: &str) -> (out: String)
    ensures
        out@ == joined(char_views(parts@), sep@),
{
    let mut out = String::new();
    let mut i: usize = 0;
    let ghost all = char_views(parts@);
    assert(all.subrange(0, 0) =~= Seq::<Seq<char>>::empty());
    while i < parts.len()
        invariant
            i <= parts@.len(),
            all == char_views(parts@),
            out@ == joined(all.subrange(0, i as int), sep@),
        decreases parts.len() - i,
    {
        if i > 0 {
            out.append(sep);
        }
        let part = string_of(&parts[i]);
        out.append(&part);
        proof {
            let next = all.subrange(0, i + 1);
            assert(next.subrange(0, next.len() - 1) =~= all.subrange(0, i as int));
            assert(next[i as int] == parts@[i as int]@);
            if i == 0 {
                assert(out@ =~= next[0]);
            } else {
                assert(out@ =~= joined(all.subrange(0, i as int), sep@) + sep@ + next[i as int]);
            }
        }
        i += 1;
    }
    assert(all.subrange(0, all.len() as int) =~= all);
    out
}

/// The parts with `sep` between each two neighbours.
pub fn join(parts: &Vec<String>, sep: &str) -> (out: String)
    ensures
        out@ == joined(views(parts@), sep@),
{
    let mut all: Vec<Vec<char>> = Vec::new();
    let mut i: usize = 0;
    while i < parts.len()
        invariant
            i <= parts@.len(),
            all@.len() == i,
            forall|k: int| 0 <= k < i ==> all@[k]@ == parts@[k]@,
        decreases parts.len() - i,
    {
        all.push(chars_of(&parts[i]));
        i += 1;
    }
    assert(char_views(all@) =~= views(parts@));
    join_chars(&all, sep)
}

/// `to` before each character of `s` and once more at the end.
pub open spec fn interleaved(s: Seq<char>, to: Seq<char>) -> Seq<char>
    decreases s.len(),
{
    if s.len() == 0 {
        to
    } else {
        interleaved(s.subrange(0, s.len() - 1), to).push(s[s.len() - 1]) + to
    }
}

/// `s` with each occurrence of `from`, left to right and without overlap,
/// replaced by `to`. The empty text stands between all characters and at both
/// ends.
pub open spec fn replaced_all(s: Seq<char>, from: Seq<char>, to: Seq<char>) -> Seq<char> {
    if from.len() == 0 {
        interleaved(s, to)
    } else {
        joined(split(s, from), to)
    }
}

/// `s` with the first occurrence of `from`, if there is one, replaced by `to`.
pub open spec fn replaced_first(s: Seq<char>, from: Seq<char>, to: Seq<char>) -> Seq<char> {
    match first_match(s, from, 0) {
        Some(i) => s.subrange(0, i) + to + s.subrange(i + from.len(), s.len() as int),
        None => s,
    }
}

/// `s` with each occurrence of `from` replaced by `to`.
pub fn replace_all(s: &str, from: &str, to: &str) -> (out: String)
    ensures
        out@ == replaced_all(s@, from@, to@),
{
    let chars = chars_of(s);
    let pat = chars_of(from);
    if pat.len() > 0 {
        return join_chars(&split_chars(&chars, &pat), to);
    }
    let mut out = String::new();
    out.append(to);
    let mut i: usize = 0;
    assert(s@.subrange(0, 0) =~= Seq::<char>::empty());
    assert(out@ =~= to@);
    while i < chars.len()
        invariant
            i <= chars@.len(),
            chars@ == s@,
            out@ == interleaved(s@.subrange(0, i as int), to@),
        decreases chars.len() - i,
    {
        out.push(chars[i]);
        out.append(to);
        proof {
            let next = s@.subrange(0, i + 1);
            assert(next.subrange(0, next.len() - 1) =~= s@.subrange(0, i as int));
        }
        i += 1;
    }
    assert(s@.subrange(0, s@.len() as int) =~= s@);
    out
}

/// `s` with the first occurrence of `from` replaced by `to`.
pub fn replace_first(s: &str, from: &str, to: &str) -> (out: String)
    ensures
        out@ == replaced_first(s@, from@, to@),
{
    let chars = chars_of(s);
    let pat = chars_of(from);
    match find_chars(&chars, &pat, 0) {
        Some(i) => {
            let mut out = string_of_range(&chars, 0, i);
            out.append(to);
            let rest = string_of_range(&chars, i + pat.len(), chars.len());
            out.append(&rest);
            out
        },
        None => string_of(&chars),
    }
}

// ---------------------------------------------------------------------------
// Lines, case and numbers
// ---------------------------------------------------------------------------

/// The number of line feeds in `s`.
pub open spec fn line_feeds(s: Seq<char>) -> nat
    decreases s.len(),
{
    if s.len() == 0 {
        0
    } else {
        line_feeds(s.subrange(0, s.len() - 1)) + (if s[s.len() - 1] == '\n' {
            1nat
        } else {
            0nat
        })
    }
}

/// The number of lines of `s`: a line ends at a line feed or at the end of the
/// text, and a text that ends with a line feed has no further, empty line.
pub open spec fn line_total(s: Seq<char>) -> nat {
    line_feeds(s) + (if s.len() > 0 && s[s.len() - 1] != '\n' {
        1nat
    } else {
        0nat
    })
}

/// The number of lines of `s`.
pub fn line_count(s: &str) -> (n: usize)
    ensures
        n == line_total(s@),
{
    let chars = chars_of(s);
    let mut n: usize = 0;
    let mut i: usize = 0;
    assert(s@.subrange(0, 0) =~= Seq::<char>::empty());
    while i < chars.len()
        invariant
            i <= chars@.len(),
            chars@ == s@,
            n == line_feeds(s@.subrange(0, i as int)),
            n <= i,
        decreases chars.len() - i,
    {
        if chars[i] == '\n' {
            n += 1;
        }
        proof {
            let next = s@.subrange(0, i + 1);
            assert(next.subrange(0, next.len() - 1) =~= s@.subrange(0, i as int));
        }
        i += 1;
    }
    assert(s@.subrange(0, s@.len() as int) =~= s@);
    if chars.len() > 0 && chars[chars.len() - 1] != '\n' {
        proof {
            assert(line_feeds(s@) == line_feeds(s@.subrange(0, s@.len() - 1)));
            lemma_line_feeds_bound(s@.subrange(0, s@.len() - 1));
        }
        n += 1;
    }
    n
}

proof fn lemma_line_feeds_bound(s: Seq<char>)
    ensures
        line_feeds(s) <= s.len(),
    decreases s.len(),
{
    if s.len() > 0 {
        lemma_line_feeds_bound(s.subrange(0, s.len() - 1));
    }
}

/// `c` with the ASCII capitals mapped to small letters.
pub open spec fn ascii_lower(c: char) -> int {
    if 'A' <= c <= 'Z' {
        c as int + 32
    } else {
        c as int
    }
}

/// Whether two texts are equal up to the case of the ASCII letters.
pub open spec fn same_ignoring_case(a: Seq<char>, b: Seq<char>) -> bool {
    &&& a.len() == b.len()
    &&& forall|i: int| 0 <= i < a.len() ==> #[trigger] ascii_lower(a[i]) == ascii_lower(b[i])
}

fn lower_code(c: char) -> (r: u32)
    ensures
        r == ascii_lower(c),
{
    if 'A' <= c && c <= 'Z' {
        c as u32 + 32
    } else {
        c as u32
    }
}

/// Whether two texts are equal up to the case of the ASCII letters.
pub fn eq_ignore_case(a: &Vec<char>, b: &Vec<char>) -> (r: bool)
    ensures
        r == same_ignoring_case(a@, b@),
{
    if a.len() != b.len() {
        return false;
    }
    let mut i: usize = 0;
    while i < a.len()
        invariant
            a@.len() == b@.len(),
            i <= a@.len(),
            forall|k: int| 0 <= k < i ==> #[trigger] ascii_lower(a@[k]) == ascii_lower(b@[k]),
        decreases a.len() - i,
    {
        if lower_code(a[i]) != lower_code(b[i]) {
            return false;
        }
        i += 1;
    }
    true
}

/// The decimal digit of `d`.
pub open spec fn digit(d: int) -> char {
    if d == 0 {
        '0'
    } else if d == 1 {
        '1'
    } else if d == 2 {
        '2'
    } else if d == 3 {
        '3'
    } else if d == 4 {
        '4'
    } else if d == 5 {
        '5'
    } else if d == 6 {
        '6'
    } else if d == 7 {
        '7'
    } else if d == 8 {
        '8'
    } else {
        '9'
    }
}

fn digit_char(d: u128) -> (c: char)
    requires
        d < 10,
    ensures
        c == digit(d as int),
{
    if d == 0 {
        '0'
    } else if d == 1 {
        '1'
    } else if d == 2 {
        '2'
    } else if d == 3 {
        '3'
    } else if d == 4 {
        '4'
    } else if d == 5 {
        '5'
    } else if d == 6 {
        '6'
    } else if d == 7 {
        '7'
    } else if d == 8 {
        '8'
    } else {
        '9'
    }
}

/// The decimal notation of `n`.
pub open spec fn decimal(n: nat) -> Seq<char>
    decreases n,
{
    if n < 10 {
        seq![digit(n as int)]
    } else {
        decimal(n / 10).push(digit((n % 10) as int))
    }
}

/// The decimal notation of `n`, with a minus sign where it is negative.
pub open spec fn decimal_signed(n: int) -> Seq<char> {
    if n < 0 {
        "-"@ + decimal((-n) as nat)
    } else {
        decimal(n as nat)
    }
}

/// The decimal notation of `n`.
pub fn number(n: u128) -> (out: String)
    ensures
        out@ == decimal(n as nat),
    decreases n,
{
    if n < 10 {
        let mut out = String::new();
        out.push(digit_char(n));
        assert(out@ =~= seq![digit(n as int)]);
        out
    } else {
        let mut out = number(n / 10);
        out.push(digit_char(n % 10));
        out
    }
}

/// The decimal notation of a count.
pub fn count(n: usize) -> (out: String)
    ensures
        out@ == decimal(n as nat),
{
    number(n as u128)
}

/// The decimal notation of `n`, with a minus sign where it is negative.
pub fn signed_number(n: i64) -> (out: String)
    ensures
        out@ == decimal_signed(n as int),
{
    if n < 0 {
        let mut out = "-".to_owned();
        let magnitude: u64 = if n == i64::MIN {
            0x8000_0000_0000_0000
        } else {
            (-n) as u64
        };
        out.append(&number(magnitude as u128));
        out
    } else {
        number(n as u128)
    }
}

} // verus!
