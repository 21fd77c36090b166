//! What searching, splitting, joining, replacing, trimming and counting come
//! to, whatever the text.
use vstd::prelude::*;
use vstd::string::*;

use crate::text::{
    ascii_lower, decimal, decimal_signed, first_match, has_text, interleaved, joined,
    lemma_first_match, line_feeds, line_total, matches_at, replaced_all, replaced_first,
    same_ignoring_case, split, split_from, split_once, trimmed_end, trimmed_of, trimmed_start,
    CharClass,
};

verus! {

/// Whether `pat` stands in `s` at `k` and nowhere before.
pub open spec fn stands_first(s: Seq<char>, pat: Seq<char>, k: int) -> bool {
    &&& 0 <= k
    &&& k + pat.len() <= s.len()
    &&& s.subrange(k, k + pat.len()) == pat
    &&& forall|j: int| 0 <= j < k ==> #[trigger] s.subrange(j, j + pat.len()) != pat
}

/// Whether `pat` stands nowhere in `s`.
pub open spec fn stands_nowhere(s: Seq<char>, pat: Seq<char>) -> bool {
    forall|j: int|
        0 <= j && j + pat.len() <= s.len() ==> #[trigger] s.subrange(j, j + pat.len()) != pat
}

// ---------------------------------------------------------------------------
// Searching
// ---------------------------------------------------------------------------

/// A search finds the first place at which the pattern stands, and nothing
/// where it stands nowhere.
pub proof fn law_search_finds_the_first(s: Seq<char>, pat: Seq<char>, k: int)
    ensures
        stands_first(s, pat, k) ==> first_match(s, pat, 0) == Some(k) && has_text(s, pat),
        stands_nowhere(s, pat) ==> first_match(s, pat, 0) is None && !has_text(s, pat),
        stands_first(s, pat, k) ==> split_once(s, pat) == Some(
            (s.subrange(0, k), s.subrange(k + pat.len(), s.len() as int)),
        ),
        stands_nowhere(s, pat) ==> split_once(s, pat) is None,
{
    lemma_first_match(s, pat, 0);
    if stands_first(s, pat, k) {
        assert(matches_at(s, pat, k));
        let i = first_match(s, pat, 0)->0;
        assert(s.subrange(i, i + pat.len()) == pat);
    }
    if stands_nowhere(s, pat) {
        if first_match(s, pat, 0) is Some {
            let i = first_match(s, pat, 0)->0;
            assert(s.subrange(i, i + pat.len()) == pat);
        }
        if has_text(s, pat) {
            let i = choose|i: int| matches_at(s, pat, i);
            assert(s.subrange(i, i + pat.len()) == pat);
        }
    }
}

/// A pattern stands either nowhere in a text or first at some place.
pub proof fn lemma_somewhere_or_nowhere(s: Seq<char>, pat: Seq<char>) -> (k: int)
    ensures
        stands_nowhere(s, pat) || stands_first(s, pat, k),
{
    lemma_first_match(s, pat, 0);
    match first_match(s, pat, 0) {
        Some(i) => {
            assert forall|j: int| 0 <= j < i implies #[trigger] s.subrange(j, j + pat.len())
                != pat by {
                assert(!matches_at(s, pat, j));
            }
            i
        },
        None => {
            assert forall|j: int|
                0 <= j && j + pat.len() <= s.len() implies #[trigger] s.subrange(j, j + pat.len())
                != pat by {
                assert(!matches_at(s, pat, j));
            }
            0
        },
    }
}

/// The first of the occurrences is replaced, by whatever text, the empty one
/// included, and the rest stays as it is.
pub proof fn law_first_occurrence_is_replaced(
    s: Seq<char>,
    from: Seq<char>,
    to: Seq<char>,
    k: int,
)
    ensures
        stands_first(s, from, k) ==> {
            &&& replaced_first(s, from, to) == s.subrange(0, k) + to + s.subrange(
                k + from.len(),
                s.len() as int,
            )
            &&& replaced_first(s, from, to).len() == s.len() - from.len() + to.len()
        },
        stands_nowhere(s, from) ==> replaced_first(s, from, to) == s,
{
    law_search_finds_the_first(s, from, k);
}

// ---------------------------------------------------------------------------
// Splitting and joining
// ---------------------------------------------------------------------------

proof fn lemma_split_shifts(s: Seq<char>, sep: Seq<char>, by: int, start: int, at: int)
    requires
        0 <= by <= start <= at <= s.len(),
    ensures
        split_from(s, sep, start, at) == split_from(
            s.subrange(by, s.len() as int),
            sep,
            start - by,
            at - by,
        ),
    decreases s.len() - at,
{
    let t = s.subrange(by, s.len() as int);
    if sep.len() == 0 || at + sep.len() > s.len() {
        assert(s.subrange(start, s.len() as int) =~= t.subrange(start - by, t.len() as int));
    } else {
        assert(s.subrange(at, at + sep.len()) =~= t.subrange(at - by, at - by + sep.len()));
        assert(matches_at(s, sep, at) == matches_at(t, sep, at - by));
        if matches_at(s, sep, at) {
            assert(s.subrange(start, at) =~= t.subrange(start - by, at - by));
            lemma_split_shifts(s, sep, by, at + sep.len(), at + sep.len());
        } else {
            lemma_split_shifts(s, sep, by, start, at + 1);
        }
    }
}

proof fn lemma_split_skips(s: Seq<char>, sep: Seq<char>, at: int, k: int)
    requires
        sep.len() > 0,
        0 <= at <= k,
        stands_first(s, sep, k),
    ensures
        split_from(s, sep, 0, at) == split_from(s, sep, 0, k),
    decreases k - at,
{
    if at < k {
        assert(s.subrange(at, at + sep.len()) != sep);
        lemma_split_skips(s, sep, at + 1, k);
    }
}

proof fn lemma_split_finds_none(s: Seq<char>, sep: Seq<char>, at: int)
    requires
        sep.len() > 0,
        0 <= at <= s.len(),
        stands_nowhere(s, sep),
    ensures
        split_from(s, sep, 0, at) == seq![s],
    decreases s.len() - at,
{
    if at + sep.len() > s.len() {
        assert(s.subrange(0, s.len() as int) =~= s);
    } else {
        assert(s.subrange(at, at + sep.len()) != sep);
        lemma_split_finds_none(s, sep, at + 1);
    }
}

/// The first piece reaches to the first separator, and the others are the
/// pieces of what follows it. A text without the separator is one piece.
pub proof fn law_pieces_lie_between_separators(s: Seq<char>, sep: Seq<char>, k: int)
    requires
        sep.len() > 0,
    ensures
        stands_first(s, sep, k) ==> split(s, sep) == seq![s.subrange(0, k)] + split(
            s.subrange(k + sep.len(), s.len() as int),
            sep,
        ),
        stands_nowhere(s, sep) ==> split(s, sep) == seq![s],
{
    if stands_first(s, sep, k) {
        lemma_split_skips(s, sep, 0, k);
        lemma_split_shifts(s, sep, k + sep.len(), k + sep.len(), k + sep.len());
    }
    if stands_nowhere(s, sep) {
        lemma_split_finds_none(s, sep, 0);
    }
}

/// Nothing joins to nothing and one part to itself; more parts join to the
/// first one, the separator and the others joined.
pub proof fn law_parts_are_joined_in_order(
    first: Seq<char>,
    others: Seq<Seq<char>>,
    sep: Seq<char>,
)
    ensures
        joined(Seq::empty(), sep) == Seq::<char>::empty(),
        joined(seq![first], sep) == first,
        others.len() > 0 ==> joined(seq![first] + others, sep) == first + sep + joined(others, sep),
    decreases others.len(),
{
    let all = seq![first] + others;
    if others.len() == 1 {
        assert(all.subrange(0, all.len() - 1) =~= seq![first]);
        assert(joined(seq![first], sep) == first);
        assert(all[all.len() - 1] == others[0]);
        assert(joined(others, sep) == others[0]);
    } else if others.len() > 1 {
        let front = others.subrange(0, others.len() - 1);
        law_parts_are_joined_in_order(first, front, sep);
        assert(all.subrange(0, all.len() - 1) =~= seq![first] + front);
        assert(all[all.len() - 1] == others[others.len() - 1]);
        assert(joined(all, sep) =~= first + sep + (joined(front, sep) + sep + others[others.len()
            - 1]));
    }
}

/// Splitting at a separator and joining with it again gives the text back.
pub proof fn law_split_then_join(s: Seq<char>, sep: Seq<char>)
    requires
        sep.len() > 0,
    ensures
        split(s, sep).len() > 0,
        joined(split(s, sep), sep) == s,
    decreases s.len(),
{
    let k = lemma_somewhere_or_nowhere(s, sep);
    law_pieces_lie_between_separators(s, sep, k);
    if stands_nowhere(s, sep) {
        law_parts_are_joined_in_order(s, Seq::empty(), sep);
    } else {
        let rest = s.subrange(k + sep.len(), s.len() as int);
        law_split_then_join(rest, sep);
        law_parts_are_joined_in_order(s.subrange(0, k), split(rest, sep), sep);
        assert(s.subrange(0, k) + sep + rest =~= s);
    }
}

/// Parts without the character that a separator starts with are what a split of
/// the joined text finds.
pub proof fn law_join_then_split(parts: Seq<Seq<char>>, sep: Seq<char>)
    requires
        parts.len() > 0,
        sep.len() > 0,
        forall|i: int| 0 <= i < parts.len() ==> !(#[trigger] parts[i]).contains(sep[0]),
    ensures
        split(joined(parts, sep), sep) == parts,
    decreases parts.len(),
{
    let first = parts[0];
    let others = parts.subrange(1, parts.len() as int);
    assert(seq![first] + others =~= parts);
    law_parts_are_joined_in_order(first, others, sep);
    if others.len() == 0 {
        assert(parts =~= seq![first]);
        assert forall|j: int|
            0 <= j && j + sep.len() <= first.len() implies #[trigger] first.subrange(
            j,
            j + sep.len(),
        ) != sep by {
            if first.subrange(j, j + sep.len()) == sep {
                assert(first.subrange(j, j + sep.len())[0] == first[j]);
                assert(first.contains(sep[0]));
            }
        }
        law_pieces_lie_between_separators(first, sep, 0);
    } else {
        assert forall|i: int| 0 <= i < others.len() implies !(#[trigger] others[i]).contains(
            sep[0],
        ) by {
            assert(others[i] == parts[i + 1]);
        }
        law_join_then_split(others, sep);
        let rest = joined(others, sep);
        let all = first + sep + rest;
        let k = first.len() as int;
        assert(all.subrange(k, k + sep.len()) =~= sep);
        assert forall|j: int| 0 <= j < k implies #[trigger] all.subrange(j, j + sep.len())
            != sep by {
            if all.subrange(j, j + sep.len()) == sep {
                assert(all.subrange(j, j + sep.len())[0] == first[j]);
                assert(first.contains(sep[0]));
            }
        }
        law_pieces_lie_between_separators(all, sep, k);
        assert(all.subrange(0, k) =~= first);
        assert(all.subrange(k + sep.len(), all.len() as int) =~= rest);
    }
}

// ---------------------------------------------------------------------------
// Replacing
// ---------------------------------------------------------------------------

/// Every occurrence is replaced, by whatever text, the empty one included: the
/// first one, and then those in what follows it. Without an occurrence the text
/// stays as it is.
pub proof fn law_every_occurrence_is_replaced(
    s: Seq<char>,
    from: Seq<char>,
    to: Seq<char>,
    k: int,
)
    requires
        from.len() > 0,
    ensures
        stands_first(s, from, k) ==> replaced_all(s, from, to) == s.subrange(0, k) + to
            + replaced_all(s.subrange(k + from.len(), s.len() as int), from, to),
        stands_nowhere(s, from) ==> replaced_all(s, from, to) == s,
{
    law_pieces_lie_between_separators(s, from, k);
    if stands_first(s, from, k) {
        let rest = s.subrange(k + from.len(), s.len() as int);
        law_split_then_join(rest, from);
        law_parts_are_joined_in_order(s.subrange(0, k), split(rest, from), to);
    }
    if stands_nowhere(s, from) {
        law_parts_are_joined_in_order(s, Seq::empty(), to);
    }
}

/// The empty text is replaced before every character and at the end.
pub proof fn law_empty_occurrences_are_replaced(s: Seq<char>, c: char, to: Seq<char>)
    ensures
        replaced_all(Seq::empty(), Seq::empty(), to) == to,
        replaced_all(seq![c] + s, Seq::empty(), to) == to + seq![c] + replaced_all(
            s,
            Seq::empty(),
            to,
        ),
    decreases s.len(),
{
    let t = seq![c] + s;
    if s.len() == 0 {
        assert(t.subrange(0, 0) =~= Seq::<char>::empty());
        assert(interleaved(t.subrange(0, 0), to) == to);
        assert(interleaved(t, to) =~= to + seq![c] + to);
    } else {
        let front = s.subrange(0, s.len() - 1);
        law_empty_occurrences_are_replaced(front, c, to);
        assert(t.subrange(0, t.len() - 1) =~= seq![c] + front);
        assert(interleaved(t, to) =~= to + seq![c] + interleaved(s, to));
    }
}

/// How many times `pat` stands in `s`, left to right and without overlap.
pub open spec fn is_tally(s: Seq<char>, pat: Seq<char>, n: nat) -> bool
    decreases n,
{
    if n == 0 {
        stands_nowhere(s, pat)
    } else {
        exists|k: int| #[trigger]
            stands_first(s, pat, k) && is_tally(
                s.subrange(k + pat.len(), s.len() as int),
                pat,
                (n - 1) as nat,
            )
    }
}

/// With each of `n` occurrences the length changes by the difference of the two
/// texts.
pub proof fn law_replacement_changes_the_length(
    s: Seq<char>,
    from: Seq<char>,
    to: Seq<char>,
    n: nat,
)
    requires
        from.len() > 0,
        is_tally(s, from, n),
    ensures
        replaced_all(s, from, to).len() == s.len() + n * (to.len() - from.len()),
    decreases n,
{
    if n == 0 {
        law_every_occurrence_is_replaced(s, from, to, 0);
    } else {
        let m = (n - 1) as nat;
        let k = choose|k: int| #[trigger]
            stands_first(s, from, k) && is_tally(
                s.subrange(k + from.len(), s.len() as int),
                from,
                m,
            );
        let rest = s.subrange(k + from.len(), s.len() as int);
        law_every_occurrence_is_replaced(s, from, to, k);
        law_replacement_changes_the_length(rest, from, to, m);
        let d = to.len() - from.len();
        assert(n * d == m * d + d) by (nonlinear_arith)
            requires
                n == m + 1,
        ;
    }
}

/// Every text has a tally of every pattern that is not empty.
pub proof fn law_occurrences_can_be_counted(s: Seq<char>, pat: Seq<char>) -> (n: nat)
    requires
        pat.len() > 0,
    ensures
        is_tally(s, pat, n),
        n * pat.len() <= s.len(),
    decreases s.len(),
{
    let k = lemma_somewhere_or_nowhere(s, pat);
    if stands_nowhere(s, pat) {
        0
    } else {
        let rest = s.subrange(k + pat.len(), s.len() as int);
        let m = law_occurrences_can_be_counted(rest, pat);
        let n = m + 1;
        assert(n * pat.len() == m * pat.len() + pat.len()) by (nonlinear_arith)
            requires
                n == m + 1,
        ;
        assert(stands_first(s, pat, k));
        n
    }
}

// ---------------------------------------------------------------------------
// Trimming
// ---------------------------------------------------------------------------

/// Whether all characters of `s` are in the class.
pub open spec fn all_in(s: Seq<char>, class: CharClass) -> bool {
    forall|i: int| 0 <= i < s.len() ==> class.has(#[trigger] s[i])
}

proof fn lemma_start_falls(pre: Seq<char>, rest: Seq<char>, class: CharClass)
    requires
        all_in(pre, class),
        rest.len() > 0 ==> !class.has(rest[0]),
    ensures
        trimmed_start(pre + rest, class) == rest,
    decreases pre.len(),
{
    let s = pre + rest;
    if pre.len() == 0 {
        assert(s =~= rest);
    } else {
        assert(s[0] == pre[0]);
        let tail = pre.subrange(1, pre.len() as int);
        assert(s.subrange(1, s.len() as int) =~= tail + rest);
        assert forall|i: int| 0 <= i < tail.len() implies class.has(#[trigger] tail[i]) by {
            assert(tail[i] == pre[i + 1]);
        }
        lemma_start_falls(tail, rest, class);
    }
}

proof fn lemma_end_falls(rest: Seq<char>, post: Seq<char>, class: CharClass)
    requires
        all_in(post, class),
        rest.len() > 0 ==> !class.has(rest[rest.len() - 1]),
    ensures
        trimmed_end(rest + post, class) == rest,
    decreases post.len(),
{
    let s = rest + post;
    if post.len() == 0 {
        assert(s =~= rest);
    } else {
        assert(s[s.len() - 1] == post[post.len() - 1]);
        let front = post.subrange(0, post.len() - 1);
        assert(s.subrange(0, s.len() - 1) =~= rest + front);
        assert forall|i: int| 0 <= i < front.len() implies class.has(#[trigger] front[i]) by {
            assert(front[i] == post[i]);
        }
        lemma_end_falls(rest, front, class);
    }
}

/// What a trim leaves of a text is the part between the characters of the class
/// at its ends, however many there are.
pub proof fn law_trim_removes_the_ends(
    pre: Seq<char>,
    mid: Seq<char>,
    post: Seq<char>,
    class: CharClass,
)
    requires
        all_in(pre, class),
        all_in(post, class),
        mid.len() > 0 ==> !class.has(mid[0]) && !class.has(mid[mid.len() - 1]),
    ensures
        trimmed_of(pre + mid + post, class) == mid,
        trimmed_end(mid + post, class) == mid,
{
    lemma_end_falls(mid, post, class);
    if mid.len() == 0 {
        let ends = pre + post;
        assert(pre + mid + post =~= ends + mid);
        assert forall|i: int| 0 <= i < ends.len() implies class.has(#[trigger] ends[i]) by {
            if i < pre.len() {
                assert(ends[i] == pre[i]);
            } else {
                assert(ends[i] == post[i - pre.len()]);
            }
        }
        lemma_start_falls(ends, mid, class);
    } else {
        assert(pre + mid + post =~= pre + (mid + post));
        lemma_start_falls(pre, mid + post, class);
    }
}

/// The characters of the three classes, by their code points.
pub proof fn law_classes_by_code_point(c: char)
    ensures
        CharClass::Space.has(c) <==> {
            let n = c as int;
            ||| 9 <= n <= 13
            ||| n == 32
            ||| n == 0x85
            ||| n == 0xa0
            ||| n == 0x1680
            ||| 0x2000 <= n <= 0x200a
            ||| n == 0x2028
            ||| n == 0x2029
            ||| n == 0x202f
            ||| n == 0x205f
            ||| n == 0x3000
        },
        CharClass::Quote.has(c) <==> c as int == 34 || c as int == 39,
        CharClass::Slash.has(c) <==> c as int == 47 || c as int == 92,
{
}

// ---------------------------------------------------------------------------
// Lines
// ---------------------------------------------------------------------------

proof fn lemma_line_feeds_add(a: Seq<char>, b: Seq<char>)
    ensures
        line_feeds(a + b) == line_feeds(a) + line_feeds(b),
    decreases b.len(),
{
    if b.len() == 0 {
        assert(a + b =~= a);
    } else {
        let front = b.subrange(0, b.len() - 1);
        lemma_line_feeds_add(a, front);
        assert((a + b).subrange(0, (a + b).len() - 1) =~= a + front);
    }
}

proof fn lemma_no_line_feeds(s: Seq<char>)
    requires
        !s.contains('\n'),
    ensures
        line_feeds(s) == 0,
    decreases s.len(),
{
    if s.len() > 0 {
        let front = s.subrange(0, s.len() - 1);
        assert(s.contains(s[s.len() - 1]));
        assert(!front.contains('\n')) by {
            if front.contains('\n') {
                let i = choose|i: int| 0 <= i < front.len() && front[i] == '\n';
                assert(s[i] == '\n');
            }
        }
        lemma_no_line_feeds(front);
    }
}

/// The empty text has no line, a text without a line feed has one, and a line
/// with its line feed is one line more than what follows it.
pub proof fn law_lines_are_counted(line: Seq<char>, rest: Seq<char>)
    requires
        !line.contains('\n'),
    ensures
        line_total(Seq::empty()) == 0,
        line.len() > 0 ==> line_total(line) == 1,
        line_total(line + seq!['\n'] + rest) == 1 + line_total(rest),
{
    lemma_no_line_feeds(line);
    if line.len() > 0 {
        assert(line.contains(line[line.len() - 1]));
    }
    let feed = seq!['\n'];
    assert(feed.subrange(0, 0) =~= Seq::<char>::empty());
    assert(line_feeds(feed.subrange(0, 0)) == 0);
    assert(line_feeds(feed) == 1);
    lemma_line_feeds_add(line, feed);
    lemma_line_feeds_add(line + feed, rest);
    let s = line + feed + rest;
    if rest.len() > 0 {
        assert(s[s.len() - 1] == rest[rest.len() - 1]);
    } else {
        assert(s[s.len() - 1] == '\n');
    }
}

// ---------------------------------------------------------------------------
// Case and numbers
// ---------------------------------------------------------------------------

/// Two texts are the same up to ASCII case exactly where they are as long as
/// each other and two characters at the same place are equal or the capital and
/// the small form of one ASCII letter.
pub proof fn law_case_is_ignored(a: Seq<char>, b: Seq<char>)
    ensures
        same_ignoring_case(a, b) <==> {
            &&& a.len() == b.len()
            &&& forall|i: int| 0 <= i < a.len() ==> {
                ||| #[trigger] a[i] == b[i]
                ||| 65 <= a[i] as int <= 90 && b[i] as int == a[i] as int + 32
                ||| 65 <= b[i] as int <= 90 && a[i] as int == b[i] as int + 32
            }
        },
{
    if same_ignoring_case(a, b) {
        assert forall|i: int| 0 <= i < a.len() implies {
            ||| #[trigger] a[i] == b[i]
            ||| 65 <= a[i] as int <= 90 && b[i] as int == a[i] as int + 32
            ||| 65 <= b[i] as int <= 90 && a[i] as int == b[i] as int + 32
        } by {
            assert(ascii_lower(a[i]) == ascii_lower(b[i]));
        }
    }
}

/// A number below ten is written with its digit, and any other as its tenth part
/// with the last digit behind it. A minus sign stands before what is negative.
pub proof fn law_numbers_are_written_in_tens(n: nat, d: nat)
    requires
        d < 10,
    ensures
        decimal(d).len() == 1,
        decimal(d)[0] as int == 48 + d,
        n > 0 ==> decimal(10 * n + d) == decimal(n) + decimal(d),
        decimal_signed(n as int) == decimal(n),
        n > 0 ==> decimal_signed(-(n as int)) == seq!['-'] + decimal(n),
{
    if n > 0 {
        let m = 10 * n + d;
        assert(m / 10 == n && m % 10 == d);
        assert(decimal(m) =~= decimal(n) + decimal(d));
    }
    reveal_strlit("-");
    assert("-"@ =~= seq!['-']);
}

} // verus!
