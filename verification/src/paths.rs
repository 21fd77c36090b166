//! Slash-separated paths, held as text.
//!
//! A path is read as its components: the root `/` where the text starts with
//! one, then each name between slashes. Empty names are passed over, and so is
//! `.` everywhere but at the front of a relative path. Two texts with the same
//! components are the same path. No function here looks at a disk.
use vstd::prelude::*;
use vstd::string::*;

use crate::text::{
    chars_of, char_views, join_chars, joined, same_chars, slice_of, string_of, string_of_range,
};

verus! {

// ---------------------------------------------------------------------------
// Components
// ---------------------------------------------------------------------------

/// The range `a..b` of `s` as a component, unless it is passed over.
pub open spec fn kept(s: Seq<char>, a: int, b: int) -> Seq<(int, int)> {
    if a >= b || (a > 0 && s.subrange(a, b) == seq!['.']) {
        Seq::empty()
    } else {
        seq![(a, b)]
    }
}

/// The names in `s` from `at` on, the first one starting at `start`.
pub open spec fn names_from(s: Seq<char>, start: int, at: int) -> Seq<(int, int)>
    decreases s.len() - at,
{
    if at >= s.len() {
        kept(s, start, s.len() as int)
    } else if s[at] == '/' {
        kept(s, start, at) + names_from(s, at + 1, at + 1)
    } else {
        names_from(s, start, at + 1)
    }
}

/// Whether the path starts at the root.
pub open spec fn absolute(s: Seq<char>) -> bool {
    s.len() > 0 && s[0] == '/'
}

/// The ranges of the components of `s`, left to right.
pub open spec fn parts(s: Seq<char>) -> Seq<(int, int)> {
    (if absolute(s) {
        seq![(0int, 1int)]
    } else {
        Seq::empty()
    }) + names_from(s, 0, 0)
}

/// The text of each range.
pub open spec fn texts(s: Seq<char>, ranges: Seq<(int, int)>) -> Seq<Seq<char>> {
    Seq::new(ranges.len(), |i: int| s.subrange(ranges[i].0, ranges[i].1))
}

/// The components of `s`, left to right. The root is the component `/`.
pub open spec fn components(s: Seq<char>) -> Seq<Seq<char>> {
    texts(s, parts(s))
}

/// Whether two texts name the same path.
pub open spec fn same_path(a: Seq<char>, b: Seq<char>) -> bool {
    components(a) == components(b)
}

/// Ranges that lie in `s` in order and do not touch.
pub open spec fn in_order(ranges: Seq<(int, int)>, from: int, to: int) -> bool {
    &&& forall|i: int| 0 <= i < ranges.len() ==> from <= #[trigger] ranges[i].0 < ranges[i].1 <= to
    &&& forall|i: int, j: int|
        0 <= i < j < ranges.len() ==> (#[trigger] ranges[i]).1 <= (#[trigger] ranges[j]).0
}

/// The names that a scan finds lie in the text, in order.
pub proof fn lemma_names_in_order(s: Seq<char>, start: int, at: int)
    requires
        0 <= start <= at <= s.len(),
    ensures
        in_order(names_from(s, start, at), start, s.len() as int),
    decreases s.len() - at,
{
    if at >= s.len() {
    } else if s[at] == '/' {
        lemma_names_in_order(s, at + 1, at + 1);
        let head = kept(s, start, at);
        let tail = names_from(s, at + 1, at + 1);
        let all = head + tail;
        assert forall|i: int| 0 <= i < all.len() implies start <= #[trigger] all[i].0 < all[i].1
            <= s.len() by {
            if i >= head.len() {
                assert(all[i] == tail[i - head.len()]);
            }
        }
        assert forall|i: int, j: int| 0 <= i < j < all.len() implies (#[trigger] all[i]).1 <= (
        #[trigger] all[j]).0 by {
            if i >= head.len() {
                assert(all[i] == tail[i - head.len()]);
                assert(all[j] == tail[j - head.len()]);
            } else if j >= head.len() {
                assert(all[j] == tail[j - head.len()]);
            }
        }
    } else {
        lemma_names_in_order(s, start, at + 1);
    }
}

/// The components of a path lie in its text, in order.
pub proof fn lemma_parts_in_order(s: Seq<char>)
    ensures
        in_order(parts(s), 0, s.len() as int),
{
    lemma_names_in_order(s, 0, 0);
    if absolute(s) {
        assert(kept(s, 0, 0) =~= Seq::empty());
        lemma_names_in_order(s, 1, 1);
        let tail = names_from(s, 1, 1);
        assert(names_from(s, 0, 0) =~= tail);
        let all = parts(s);
        assert forall|i: int| 0 <= i < all.len() implies 0 <= #[trigger] all[i].0 < all[i].1
            <= s.len() by {
            if i >= 1 {
                assert(all[i] == tail[i - 1]);
            }
        }
        assert forall|i: int, j: int| 0 <= i < j < all.len() implies (#[trigger] all[i]).1 <= (
        #[trigger] all[j]).0 by {
            assert(all[j] == tail[j - 1]);
            if i >= 1 {
                assert(all[i] == tail[i - 1]);
            }
        }
    } else {
        assert(parts(s) =~= names_from(s, 0, 0));
    }
}

/// The view of a vector of ranges.
pub open spec fn ranges_view(v: Seq<(usize, usize)>) -> Seq<(int, int)> {
    Seq::new(v.len(), |i: int| (v[i].0 as int, v[i].1 as int))
}

fn keep_range(s: &Vec<char>, a: usize, b: usize, out: &mut Vec<(usize, usize)>)
    requires
        a <= b <= s@.len(),
    ensures
        ranges_view(final(out)@) == ranges_view(old(out)@) + kept(s@, a as int, b as int),
{
    let dot = a > 0 && b - a == 1 && s[a] == '.';
    proof {
        if a < b {
            assert(dot == (a > 0 && s@.subrange(a as int, b as int) == seq!['.'])) by {
                if dot {
                    assert(s@.subrange(a as int, b as int) =~= seq!['.']);
                } else if a > 0 && s@.subrange(a as int, b as int) == seq!['.'] {
                    assert(s@.subrange(a as int, b as int).len() == 1);
                    assert(s@.subrange(a as int, b as int)[0] == s@[a as int]);
                }
            }
        }
    }
    let ghost before = ranges_view(out@);
    if a < b && !dot {
        out.push((a, b));
        assert(ranges_view(out@) =~= before + seq![(a as int, b as int)]);
    } else {
        assert(before + Seq::<(int, int)>::empty() =~= before);
    }
}

/// The ranges of the components of `s`.
pub fn part_ranges(s: &Vec<char>) -> (out: Vec<(usize, usize)>)
    ensures
        ranges_view(out@) == parts(s@),
        in_order(parts(s@), 0, s@.len() as int),
{
    let mut out: Vec<(usize, usize)> = Vec::new();
    if s.len() > 0 && s[0] == '/' {
        out.push((0, 1));
    }
    let ghost root = ranges_view(out@);
    assert(root =~= if absolute(s@) {
        seq![(0int, 1int)]
    } else {
        Seq::empty()
    });
    let mut start: usize = 0;
    let mut at: usize = 0;
    while at < s.len()
        invariant
            start <= at <= s@.len(),
            ranges_view(out@) + names_from(s@, start as int, at as int) == root + names_from(s@, 0, 0),
        decreases s.len() - at,
    {
        if s[at] == '/' {
            let ghost before = ranges_view(out@);
            keep_range(s, start, at, &mut out);
            proof {
                assert(before + (kept(s@, start as int, at as int) + names_from(
                    s@,
                    at + 1,
                    at + 1,
                )) =~= before + kept(s@, start as int, at as int) + names_from(s@, at + 1, at + 1));
            }
            start = at + 1;
        }
        at += 1;
    }
    keep_range(s, start, s.len(), &mut out);
    proof {
        lemma_parts_in_order(s@);
    }
    out
}

/// The components of a path.
pub fn components_of(s: &str) -> (out: Vec<Vec<char>>)
    ensures
        char_views(out@) == components(s@),
{
    let chars = chars_of(s);
    let ranges = part_ranges(&chars);
    let mut out: Vec<Vec<char>> = Vec::new();
    let mut i: usize = 0;
    while i < ranges.len()
        invariant
            i <= ranges@.len(),
            ranges_view(ranges@) == parts(s@),
            chars@ == s@,
            in_order(parts(s@), 0, s@.len() as int),
            out@.len() == i,
            forall|k: int| 0 <= k < i ==> #[trigger] out@[k]@ == components(s@)[k],
        decreases ranges.len() - i,
    {
        assert(parts(s@)[i as int] == (ranges@[i as int].0 as int, ranges@[i as int].1 as int));
        out.push(slice_of(&chars, ranges[i].0, ranges[i].1));
        i += 1;
    }
    assert(parts(s@).len() == ranges@.len());
    assert(char_views(out@) =~= components(s@));
    out
}

// ---------------------------------------------------------------------------
// Canonical text
// ---------------------------------------------------------------------------

/// The plainest text with the given components.
pub open spec fn rendered(c: Seq<Seq<char>>) -> Seq<char> {
    if c.len() > 0 && c[0] == seq!['/'] {
        seq!['/'] + joined(c.subrange(1, c.len() as int), seq!['/'])
    } else {
        joined(c, seq!['/'])
    }
}

/// The plainest text of the same path.
pub open spec fn canonical(s: Seq<char>) -> Seq<char> {
    rendered(components(s))
}

/// Whether `name` can be a component other than the root.
pub open spec fn is_name(name: Seq<char>) -> bool {
    name.len() > 0 && !name.contains('/')
}

/// Whether `c` can be the components of a path.
pub open spec fn is_component_list(c: Seq<Seq<char>>) -> bool {
    forall|i: int|
        0 <= i < c.len() ==> (i == 0 && #[trigger] c[i] == seq!['/']) || (is_name(c[i]) && (i == 0
            || c[i] != seq!['.']))
}

proof fn lemma_kept_name(s: Seq<char>, start: int, at: int)
    requires
        0 <= start <= at <= s.len(),
        forall|k: int| start <= k < at ==> s[k] != '/',
    ensures
        forall|i: int|
            0 <= i < kept(s, start, at).len() ==> is_name(
                #[trigger] texts(s, kept(s, start, at))[i],
            ) && (start == 0 || texts(s, kept(s, start, at))[i] != seq!['.']),
{
    if kept(s, start, at).len() > 0 {
        let t = texts(s, kept(s, start, at))[0];
        assert(t == s.subrange(start, at));
        if t.contains('/') {
            let k = choose|k: int| 0 <= k < t.len() && t[k] == '/';
            assert(s[start + k] == '/');
        }
    }
}

proof fn lemma_names_are_names(s: Seq<char>, start: int, at: int)
    requires
        0 <= start <= at <= s.len(),
        forall|k: int| start <= k < at ==> s[k] != '/',
    ensures
        forall|i: int|
            0 <= i < names_from(s, start, at).len() ==> is_name(
                #[trigger] texts(s, names_from(s, start, at))[i],
            ) && ((start == 0 && i == 0) || texts(s, names_from(s, start, at))[i] != seq!['.']),
    decreases s.len() - at,
{
    if at >= s.len() {
        lemma_kept_name(s, start, s.len() as int);
        assert(names_from(s, start, at) == kept(s, start, s.len() as int));
        assert(kept(s, start, s.len() as int).len() <= 1);
    } else if s[at] == '/' {
        lemma_kept_name(s, start, at);
        lemma_names_are_names(s, at + 1, at + 1);
        let head = kept(s, start, at);
        let tail = names_from(s, at + 1, at + 1);
        assert(names_from(s, start, at) == head + tail);
        assert forall|i: int| 0 <= i < (head + tail).len() implies is_name(
            #[trigger] texts(s, head + tail)[i],
        ) && ((start == 0 && i == 0) || texts(s, head + tail)[i] != seq!['.']) by {
            if i < head.len() {
                assert(texts(s, head + tail)[i] == texts(s, head)[i]);
            } else {
                assert(texts(s, head + tail)[i] == texts(s, tail)[i - head.len()]);
            }
        }
    } else {
        lemma_names_are_names(s, start, at + 1);
        assert(names_from(s, start, at) == names_from(s, start, at + 1));
    }
}

/// The components of a text can be the components of a path.
pub proof fn lemma_components_are_list(s: Seq<char>)
    ensures
        is_component_list(components(s)),
{
    if absolute(s) {
        assert(kept(s, 0, 0) =~= Seq::empty());
        let tail = names_from(s, 1, 1);
        assert(names_from(s, 0, 0) =~= tail);
        lemma_names_are_names(s, 1, 1);
        assert forall|i: int| 0 <= i < components(s).len() implies (i == 0
            && #[trigger] components(s)[i] == seq!['/']) || (is_name(components(s)[i]) && (i == 0
            || components(s)[i] != seq!['.'])) by {
            if i == 0 {
                assert(components(s)[0] =~= seq!['/']);
            } else {
                assert(components(s)[i] == texts(s, tail)[i - 1]);
            }
        }
    } else {
        lemma_names_are_names(s, 0, 0);
        assert(parts(s) =~= names_from(s, 0, 0));
    }
}

/// Appending `/` and a name appends the name to what a scan finds.
pub proof fn lemma_names_append(s: Seq<char>, name: Seq<char>, start: int, at: int)
    requires
        0 <= start <= at <= s.len(),
        !name.contains('/'),
    ensures
        names_from(s + (seq!['/'] + name), start, at) == names_from(s, start, at) + kept(
            s + (seq!['/'] + name),
            s.len() as int + 1,
            s.len() as int + 1 + name.len(),
        ),
    decreases s.len() - at,
{
    let t = s + (seq!['/'] + name);
    if at >= s.len() {
        assert(t[at] == '/');
        assert(t.subrange(start, at) =~= s.subrange(start, at));
        lemma_names_flat(t, s.len() as int + 1, s.len() as int + 1);
    } else {
        assert(t[at] == s[at]);
        if s[at] == '/' {
            lemma_names_append(s, name, at + 1, at + 1);
            assert(t.subrange(start, at) =~= s.subrange(start, at));
            assert(kept(t, start, at) == kept(s, start, at));
            assert(names_from(t, start, at) =~= names_from(s, start, at) + kept(
                t,
                s.len() as int + 1,
                s.len() as int + 1 + name.len(),
            ));
        } else {
            lemma_names_append(s, name, start, at + 1);
        }
    }
}

/// A scan over text without a slash finds that text.
pub proof fn lemma_names_flat(s: Seq<char>, start: int, at: int)
    requires
        0 <= start <= at <= s.len(),
        forall|k: int| start <= k < s.len() ==> s[k] != '/',
    ensures
        names_from(s, start, at) == kept(s, start, s.len() as int),
    decreases s.len() - at,
{
    if at < s.len() {
        lemma_names_flat(s, start, at + 1);
    }
}

/// The texts of ranges that lie in `s` stay as they are when text is appended.
pub proof fn lemma_texts_prefix(s: Seq<char>, more: Seq<char>, ranges: Seq<(int, int)>)
    requires
        in_order(ranges, 0, s.len() as int),
    ensures
        texts(s + more, ranges) == texts(s, ranges),
{
    assert forall|i: int| 0 <= i < ranges.len() implies texts(s + more, ranges)[i] == texts(
        s,
        ranges,
    )[i] by {
        assert((s + more).subrange(ranges[i].0, ranges[i].1) =~= s.subrange(ranges[i].0, ranges[i].1));
    }
    assert(texts(s + more, ranges) =~= texts(s, ranges));
}

/// Appending `/` and a name to a path with a component appends the name to its
/// components.
pub proof fn lemma_components_append(s: Seq<char>, name: Seq<char>)
    requires
        s.len() > 0,
        is_name(name),
        name != seq!['.'],
    ensures
        components(s + (seq!['/'] + name)) == components(s).push(name),
{
    let t = s + (seq!['/'] + name);
    lemma_names_append(s, name, 0, 0);
    let r: (int, int) = (s.len() as int + 1, s.len() as int + 1 + name.len());
    assert(t.subrange(r.0, r.1) =~= name);
    assert(kept(t, r.0, r.1) =~= seq![r]);
    assert(parts(t) =~= parts(s).push(r));
    lemma_parts_in_order(s);
    lemma_texts_prefix(s, seq!['/'] + name, parts(s));
    assert(components(t) =~= components(s).push(name)) by {
        assert(components(t).len() == components(s).len() + 1);
        assert forall|i: int| 0 <= i < components(s).push(name).len() implies components(t)[i]
            == components(s).push(name)[i] by {
            if i < components(s).len() {
                assert(parts(t)[i] == parts(s)[i]);
                assert(texts(t, parts(s))[i] == texts(s, parts(s))[i]);
            }
        }
    }
}

/// A name alone is the only component.
pub proof fn lemma_single(name: Seq<char>)
    requires
        is_name(name),
    ensures
        components(name) == seq![name],
{
    assert(!name.contains('/'));
    assert(name[0] != '/');
    lemma_names_flat(name, 0, 0);
    assert(parts(name) =~= seq![(0int, name.len() as int)]);
    assert(name.subrange(0, name.len() as int) =~= name);
    assert(components(name) =~= seq![name]);
}

/// The plainest text of a list of components has those components.
pub proof fn lemma_rendered(c: Seq<Seq<char>>)
    requires
        is_component_list(c),
    ensures
        components(rendered(c)) == c,
        c.len() > 0 ==> rendered(c).len() > 0,
    decreases c.len(),
{
    let sep = seq!['/'];
    if c.len() == 0 {
        assert(parts(Seq::<char>::empty()) =~= Seq::empty());
        assert(rendered(c) =~= Seq::<char>::empty());
        assert(components(rendered(c)) =~= c);
    } else if c.len() == 1 {
        if c[0] == sep {
            assert(c.subrange(1, 1) =~= Seq::<Seq<char>>::empty());
            assert(rendered(c) =~= sep);
            assert(names_from(sep, 0, 0) =~= kept(sep, 0, 0) + names_from(sep, 1, 1));
            assert(parts(sep) =~= seq![(0int, 1int)]);
            assert(sep.subrange(0, 1) =~= sep);
            assert(components(sep) =~= c);
        } else {
            lemma_single(c[0]);
            assert(rendered(c) =~= c[0]);
            assert(components(rendered(c)) =~= c);
        }
    } else {
        let front = c.subrange(0, c.len() - 1);
        let name = c[c.len() - 1];
        assert(is_component_list(front)) by {
            assert forall|i: int| 0 <= i < front.len() implies (i == 0 && #[trigger] front[i]
                == seq!['/']) || (is_name(front[i]) && (i == 0 || front[i] != seq!['.'])) by {
                assert(front[i] == c[i]);
            }
        }
        lemma_rendered(front);
        assert(front.push(name) =~= c);
        assert(is_name(name) && name != seq!['.']);
        if c[0] == sep {
            let rest = c.subrange(1, c.len() as int);
            assert(front.subrange(1, front.len() as int) =~= rest.subrange(0, rest.len() - 1));
            assert(rest[rest.len() - 1] == name);
            if c.len() == 2 {
                assert(rest.len() == 1);
                assert(front.subrange(1, 1) =~= Seq::<Seq<char>>::empty());
                assert(rendered(front) =~= sep);
                assert(rendered(c) =~= sep + name);
                lemma_root_child(name);
                assert(c =~= seq![sep, name]);
            } else {
                assert(joined(rest, sep) == joined(rest.subrange(0, rest.len() - 1), sep) + sep
                    + name);
                assert(rendered(c) =~= rendered(front) + (sep + name));
                lemma_components_append(rendered(front), name);
            }
        } else {
            assert(joined(c, sep) == joined(front, sep) + sep + name);
            assert(front[0] == c[0]);
            assert(rendered(c) =~= rendered(front) + (sep + name));
            lemma_components_append(rendered(front), name);
        }
    }
}

/// A name below the root is the second component.
pub proof fn lemma_root_child(name: Seq<char>)
    requires
        is_name(name),
        name != seq!['.'],
    ensures
        components(seq!['/'] + name) == seq![seq!['/'], name],
{
    let t = seq!['/'] + name;
    assert(kept(t, 0, 0) =~= Seq::empty());
    assert forall|k: int| 1 <= k < t.len() implies t[k] != '/' by {
        assert(t[k] == name[k - 1]);
        assert(name.contains(name[k - 1]));
    }
    lemma_names_flat(t, 1, 1);
    assert(t.subrange(1, t.len() as int) =~= name);
    assert(names_from(t, 0, 0) =~= seq![(1int, t.len() as int)]);
    assert(parts(t) =~= seq![(0int, 1int), (1int, t.len() as int)]);
    assert(t.subrange(0, 1) =~= seq!['/']);
    assert(components(t) =~= seq![seq!['/'], name]);
}

/// The canonical text names the same path, and two texts name the same path
/// exactly when their canonical texts are equal.
pub proof fn lemma_canonical(a: Seq<char>, b: Seq<char>)
    ensures
        same_path(canonical(a), a),
        same_path(a, b) <==> canonical(a) == canonical(b),
{
    lemma_components_are_list(a);
    lemma_rendered(components(a));
    lemma_components_are_list(b);
    lemma_rendered(components(b));
}

/// The plainest text with the given components.
pub fn render(c: &Vec<Vec<char>>) -> (out: String)
    ensures
        out@ == rendered(char_views(c@)),
{
    let ghost cv = char_views(c@);
    proof {
        reveal_strlit("/");
        assert("/"@ =~= seq!['/']);
    }
    if c.len() > 0 && c[0].len() == 1 && c[0][0] == '/' {
        assert(cv[0] =~= seq!['/']);
        let mut rest: Vec<Vec<char>> = Vec::new();
        let mut i: usize = 1;
        while i < c.len()
            invariant
                1 <= i <= c@.len(),
                rest@.len() == i - 1,
                forall|k: int| 0 <= k < rest@.len() ==> #[trigger] rest@[k]@ == c@[k + 1]@,
            decreases c.len() - i,
        {
            rest.push(slice_of(&c[i], 0, c[i].len()));
            assert(c@[i as int]@.subrange(0, c@[i as int]@.len() as int) =~= c@[i as int]@);
            i += 1;
        }
        assert(char_views(rest@) =~= cv.subrange(1, cv.len() as int));
        let mut out = "/".to_owned();
        let tail = join_chars(&rest, "/");
        out.append(&tail);
        out
    } else {
        proof {
            if cv.len() > 0 && cv[0] == seq!['/'] {
                assert(c@[0]@.len() == 1 && c@[0]@[0] == '/');
            }
        }
        join_chars(c, "/")
    }
}

/// The plainest text of the same path.
pub fn canonical_text(s: &str) -> (out: String)
    ensures
        out@ == canonical(s@),
{
    render(&components_of(s))
}

/// Whether two lists of components are equal.
pub fn same_components(a: &Vec<Vec<char>>, b: &Vec<Vec<char>>) -> (r: bool)
    ensures
        r == (char_views(a@) == char_views(b@)),
{
    if a.len() != b.len() {
        assert(char_views(a@).len() != char_views(b@).len());
        return false;
    }
    let mut i: usize = 0;
    while i < a.len()
        invariant
            a@.len() == b@.len(),
            i <= a@.len(),
            forall|k: int| 0 <= k < i ==> #[trigger] a@[k]@ == b@[k]@,
        decreases a.len() - i,
    {
        if !same_chars(&a[i], &b[i]) {
            assert(char_views(a@)[i as int] != char_views(b@)[i as int]);
            return false;
        }
        i += 1;
    }
    assert(char_views(a@) =~= char_views(b@));
    true
}

/// Whether two texts name the same path.
pub fn is_same_path(a: &str, b: &str) -> (r: bool)
    ensures
        r == same_path(a@, b@),
{
    same_components(&components_of(a), &components_of(b))
}

// ---------------------------------------------------------------------------
// Prefixes
// ---------------------------------------------------------------------------

/// Whether the components of `base` are the first components of `s`.
pub open spec fn starts_with(s: Seq<char>, base: Seq<char>) -> bool {
    components(base).is_prefix_of(components(s))
}

/// The components of `s` below `base`, or all of them where `s` is not below it.
pub open spec fn components_below(s: Seq<char>, base: Option<Seq<char>>) -> Seq<Seq<char>> {
    match base {
        Some(b) if starts_with(s, b) => components(s).subrange(
            components(b).len() as int,
            components(s).len() as int,
        ),
        _ => components(s),
    }
}

/// Whether `a` is a prefix of `b`.
pub fn is_component_prefix(a: &Vec<Vec<char>>, b: &Vec<Vec<char>>) -> (r: bool)
    ensures
        r == char_views(a@).is_prefix_of(char_views(b@)),
{
    if a.len() > b.len() {
        return false;
    }
    let ghost av = char_views(a@);
    let ghost bv = char_views(b@);
    let mut i: usize = 0;
    while i < a.len()
        invariant
            a@.len() <= b@.len(),
            i <= a@.len(),
            av == char_views(a@),
            bv == char_views(b@),
            forall|k: int| 0 <= k < i ==> #[trigger] av[k] == bv[k],
        decreases a.len() - i,
    {
        if !same_chars(&a[i], &b[i]) {
            assert(av[i as int] != bv[i as int]);
            assert(bv.subrange(0, av.len() as int)[i as int] == bv[i as int]);
            return false;
        }
        i += 1;
    }
    assert(av =~= bv.subrange(0, av.len() as int));
    true
}

/// Whether the components of `base` are the first components of `s`.
pub fn path_starts_with(s: &str, base: &str) -> (r: bool)
    ensures
        r == starts_with(s@, base@),
{
    is_component_prefix(&components_of(base), &components_of(s))
}

/// The components of `s` below `base`, or all of them where `s` is not below it.
pub fn relative_components(s: &str, base: Option<&str>) -> (out: Vec<Vec<char>>)
    ensures
        char_views(out@) == components_below(
            s@,
            match base {
                Some(b) => Some(b@),
                None => None,
            },
        ),
{
    let all = components_of(s);
    let base = match base {
        Some(b) => b,
        None => return all,
    };
    let base_components = components_of(base);
    if !is_component_prefix(&base_components, &all) {
        return all;
    }
    let ghost av = char_views(all@);
    assert(base_components@.len() == components(base@).len());
    let mut out: Vec<Vec<char>> = Vec::new();
    let mut i: usize = base_components.len();
    while i < all.len()
        invariant
            base_components@.len() <= i <= all@.len(),
            out@.len() == i - base_components@.len(),
            forall|k: int|
                0 <= k < out@.len() ==> #[trigger] out@[k]@ == all@[k + base_components@.len()]@,
        decreases all.len() - i,
    {
        out.push(slice_of(&all[i], 0, all[i].len()));
        assert(all@[i as int]@.subrange(0, all@[i as int]@.len() as int) =~= all@[i as int]@);
        i += 1;
    }
    assert(char_views(out@) =~= av.subrange(base_components@.len() as int, av.len() as int));
    out
}

// ---------------------------------------------------------------------------
// Parent, name, extension
// ---------------------------------------------------------------------------

/// The text of the path without its last component. `None` for the empty path
/// and for the root.
pub open spec fn parent(s: Seq<char>) -> Option<Seq<char>> {
    let p = parts(s);
    if p.len() == 0 || (p.len() == 1 && absolute(s)) {
        None
    } else if p.len() == 1 {
        Some(Seq::empty())
    } else {
        Some(s.subrange(0, p[p.len() - 2].1))
    }
}

/// The text of the path without its last component.
pub fn parent_of(s: &str) -> (r: Option<String>)
    ensures
        crate::text::opt_view(r) == parent(s@),
{
    let chars = chars_of(s);
    let ranges = part_ranges(&chars);
    assert(parts(s@).len() == ranges@.len());
    if ranges.len() == 0 || (ranges.len() == 1 && chars[0] == '/') {
        None
    } else if ranges.len() == 1 {
        let out = String::new();
        assert(out@ =~= Seq::<char>::empty());
        Some(out)
    } else {
        let end: usize = ranges[ranges.len() - 2].1;
        proof {
            assert(parts(s@)[ranges@.len() - 2].1 == end);
        }
        Some(string_of_range(&chars, 0, end))
    }
}

/// Whether the last component is a name: neither the root nor `.` nor `..`.
pub open spec fn has_file_name(s: Seq<char>) -> bool {
    let c = components(s);
    c.len() > 0 && c[c.len() - 1] != seq!['/'] && c[c.len() - 1] != seq!['.'] && c[c.len() - 1]
        != seq!['.', '.']
}

/// The last component where it is a name.
pub open spec fn file_name(s: Seq<char>) -> Option<Seq<char>> {
    if has_file_name(s) {
        Some(components(s)[components(s).len() - 1])
    } else {
        None
    }
}

/// The position of the last dot in `s` before `to`.
pub open spec fn last_dot(s: Seq<char>, to: int) -> Option<int>
    decreases to,
{
    if to <= 0 {
        None
    } else if s[to - 1] == '.' {
        Some(to - 1)
    } else {
        last_dot(s, to - 1)
    }
}

/// The length of a file name without its extension. A dot at the front starts
/// no extension.
pub open spec fn stem_length(name: Seq<char>) -> int {
    match last_dot(name, name.len() as int) {
        Some(i) if i > 0 => i,
        _ => name.len() as int,
    }
}

/// What follows the last dot of the file name.
pub open spec fn extension(s: Seq<char>) -> Option<Seq<char>> {
    match file_name(s) {
        Some(name) => if stem_length(name) < name.len() {
            Some(name.subrange(stem_length(name) + 1, name.len() as int))
        } else {
            None
        },
        None => None,
    }
}

/// The extension, or the empty text where there is none.
pub open spec fn extension_or_empty(s: Seq<char>) -> Seq<char> {
    match extension(s) {
        Some(e) => e,
        None => Seq::empty(),
    }
}

/// The path with the extension of its file name replaced by `ext`, or with
/// `ext` added where it has none.
pub open spec fn with_extension(s: Seq<char>, ext: Seq<char>) -> Seq<char> {
    match file_name(s) {
        Some(name) => s.subrange(0, parts(s)[parts(s).len() - 1].0 + stem_length(name)) + seq!['.'] + ext,
        None => s,
    }
}

fn stem_end(name: &Vec<char>) -> (r: usize)
    ensures
        r == stem_length(name@),
        r <= name@.len(),
{
    let mut i: usize = name.len();
    while i > 0
        invariant
            i <= name@.len(),
            last_dot(name@, name@.len() as int) == last_dot(name@, i as int),
        decreases i,
    {
        if name[i - 1] == '.' {
            if i - 1 > 0 {
                return i - 1;
            }
            return name.len();
        }
        i -= 1;
    }
    name.len()
}

/// The range of the file name, where there is one.
fn name_range(chars: &Vec<char>) -> (r: Option<(usize, usize)>)
    ensures
        match r {
            Some((a, b)) => has_file_name(chars@) && a <= b <= chars@.len() && parts(
                chars@,
            )[parts(chars@).len() - 1] == (a as int, b as int) && components(
                chars@,
            )[components(chars@).len() - 1] == chars@.subrange(a as int, b as int),
            None => !has_file_name(chars@),
        },
{
    let ranges = part_ranges(chars);
    assert(parts(chars@).len() == ranges@.len());
    if ranges.len() == 0 {
        return None;
    }
    let (a, b) = ranges[ranges.len() - 1];
    proof {
        assert(parts(chars@)[ranges@.len() - 1] == (a as int, b as int));
    }
    let ghost last = chars@.subrange(a as int, b as int);
    if b - a == 1 && (chars[a] == '/' || chars[a] == '.') {
        proof {
            if chars@[a as int] == '/' {
                assert(last =~= seq!['/']);
            } else {
                assert(last =~= seq!['.']);
            }
        }
        return None;
    }
    if b - a == 2 && chars[a] == '.' && chars[a + 1] == '.' {
        assert(last =~= seq!['.', '.']);
        return None;
    }
    proof {
        if last == seq!['/'] || last == seq!['.'] {
            assert(last.len() == 1 && last[0] == chars@[a as int]);
        }
        if last == seq!['.', '.'] {
            assert(last.len() == 2 && last[0] == chars@[a as int] && last[1] == chars@[a + 1]);
        }
    }
    Some((a, b))
}

/// The last component where it is a name.
pub fn file_name_of(s: &str) -> (r: Option<String>)
    ensures
        crate::text::opt_view(r) == file_name(s@),
{
    let chars = chars_of(s);
    match name_range(&chars) {
        Some((a, b)) => Some(string_of_range(&chars, a, b)),
        None => None,
    }
}

/// The extension, or the empty text where there is none.
pub fn extension_of(s: &str) -> (out: String)
    ensures
        out@ == extension_or_empty(s@),
{
    let chars = chars_of(s);
    match name_range(&chars) {
        Some((a, b)) => {
            let name = slice_of(&chars, a, b);
            let stem = stem_end(&name);
            if stem < name.len() {
                string_of_range(&name, stem + 1, name.len())
            } else {
                let out = String::new();
                assert(out@ =~= Seq::<char>::empty());
                out
            }
        },
        None => {
            let out = String::new();
            assert(out@ =~= Seq::<char>::empty());
            out
        },
    }
}

/// The path with the extension of its file name replaced by `ext`.
pub fn replace_extension(s: &str, ext: &str) -> (out: String)
    ensures
        out@ == with_extension(s@, ext@),
{
    let chars = chars_of(s);
    match name_range(&chars) {
        Some((a, b)) => {
            let name = slice_of(&chars, a, b);
            let stem = stem_end(&name);
            assert(name.len() == b - a);
            let mut out = string_of_range(&chars, 0, a + stem);
            out.push('.');
            assert(out@ =~= s@.subrange(0, a + stem) + seq!['.']);
            out.append(ext);
            out
        },
        None => string_of(&chars),
    }
}

// ---------------------------------------------------------------------------
// Joining and normalizing
// ---------------------------------------------------------------------------

/// `name` below `base`. An absolute `name` stands alone.
pub open spec fn join_paths(base: Seq<char>, name: Seq<char>) -> Seq<char> {
    if absolute(name) || base.len() == 0 {
        name
    } else if base[base.len() - 1] == '/' {
        base + name
    } else {
        base + seq!['/'] + name
    }
}

/// `name` below `base`.
pub fn join_path(base: &str, name: &str) -> (out: String)
    ensures
        out@ == join_paths(base@, name@),
{
    let b = chars_of(base);
    let n = chars_of(name);
    if b.len() == 0 || (n.len() > 0 && n[0] == '/') {
        return string_of(&n);
    }
    let mut out = string_of(&b);
    if b[b.len() - 1] != '/' {
        out.push('/');
        assert(out@ =~= base@ + seq!['/']);
    }
    out.append(name);
    out
}

/// The first `n` components with each `..` taken back against the component
/// before it, and without `.`. Nothing lies above the root or above the empty
/// path.
pub open spec fn collapsed(c: Seq<Seq<char>>, n: int) -> Seq<Seq<char>>
    decreases n,
{
    if n <= 0 {
        Seq::empty()
    } else {
        let before = collapsed(c, n - 1);
        let last = c[n - 1];
        if last == seq!['.'] {
            before
        } else if last == seq!['.', '.'] {
            if before.len() == 0 || before[before.len() - 1] == seq!['/'] {
                before
            } else {
                before.subrange(0, before.len() - 1)
            }
        } else {
            before.push(last)
        }
    }
}

/// The path with `.` and `..` collapsed in its text alone.
pub open spec fn normalized(s: Seq<char>) -> Seq<char> {
    rendered(collapsed(components(s), components(s).len() as int))
}

fn is_text1(v: &Vec<char>, c: char) -> (r: bool)
    ensures
        r == (v@ == seq![c]),
{
    let r = v.len() == 1 && v[0] == c;
    proof {
        if r {
            assert(v@ =~= seq![c]);
        }
    }
    r
}

fn is_dotdot(v: &Vec<char>) -> (r: bool)
    ensures
        r == (v@ == seq!['.', '.']),
{
    let r = v.len() == 2 && v[0] == '.' && v[1] == '.';
    proof {
        if r {
            assert(v@ =~= seq!['.', '.']);
        }
    }
    r
}

/// Collapses `.` and `..` in the text of a path.
pub fn normalize_path(s: &str) -> (out: String)
    ensures
        out@ == normalized(s@),
{
    let all = components_of(s);
    let ghost c = components(s@);
    let mut stack: Vec<Vec<char>> = Vec::new();
    let mut i: usize = 0;
    assert(char_views(stack@) =~= collapsed(c, 0));
    while i < all.len()
        invariant
            i <= all@.len(),
            c == char_views(all@),
            char_views(stack@) == collapsed(c, i as int),
        decreases all.len() - i,
    {
        let ghost before = char_views(stack@);
        assert(c[i as int] == all@[i as int]@);
        if is_text1(&all[i], '.') {
        } else if is_dotdot(&all[i]) {
            if stack.len() > 0 && !is_text1(&stack[stack.len() - 1], '/') {
                assert(before[before.len() - 1] == stack@[stack@.len() - 1]@);
                stack.pop();
                assert(char_views(stack@) =~= before.subrange(0, before.len() - 1));
            } else if stack.len() > 0 {
                assert(before[before.len() - 1] == stack@[stack@.len() - 1]@);
            }
        } else {
            let piece = slice_of(&all[i], 0, all[i].len());
            assert(piece@ =~= all@[i as int]@);
            stack.push(piece);
            assert(char_views(stack@) =~= before.push(c[i as int]));
        }
        i += 1;
    }
    render(&stack)
}

/// The text of a parent is shorter.
pub proof fn lemma_parent_shrinks(s: Seq<char>)
    requires
        parent(s) is Some,
    ensures
        parent(s)->0.len() < s.len(),
{
    lemma_parts_in_order(s);
    let p = parts(s);
    assert(p[p.len() - 1].0 < p[p.len() - 1].1);
    if p.len() > 1 {
        assert(p[p.len() - 2].1 <= p[p.len() - 1].0);
    }
}

/// A path with a file name has a parent, with a shorter text.
pub proof fn lemma_parent_is_shorter(s: Seq<char>)
    requires
        file_name(s) is Some,
    ensures
        parent(s) is Some,
        parent(s)->0.len() < s.len(),
{
    let p = parts(s);
    assert(components(s).len() == p.len());
    if p.len() == 1 && absolute(s) {
        assert(p[0] == (0int, 1int));
        assert(s.subrange(0, 1) =~= seq!['/']);
        assert(components(s)[0] == seq!['/']);
    }
    lemma_parent_shrinks(s);
}

proof fn lemma_joined_end(c: Seq<Seq<char>>)
    requires
        c.len() > 0,
        is_name(c[c.len() - 1]),
    ensures
        joined(c, seq!['/']).len() > 0,
        joined(c, seq!['/'])[joined(c, seq!['/']).len() - 1] != '/',
{
    let name = c[c.len() - 1];
    assert(name.contains(name[name.len() - 1]));
}

/// A name below a path with the plainest text is one more component, and the
/// text is the plainest one again.
pub proof fn lemma_join_name(base: Seq<char>, name: Seq<char>)
    requires
        base == canonical(base),
        base.len() > 0,
        is_name(name),
        name != seq!['.'],
    ensures
        components(join_paths(base, name)) == components(base).push(name),
        join_paths(base, name) == canonical(join_paths(base, name)),
{
    let sep = seq!['/'];
    let c = components(base);
    lemma_components_are_list(base);
    let d = c.push(name);
    assert(is_component_list(d)) by {
        assert forall|i: int| 0 <= i < d.len() implies (i == 0 && #[trigger] d[i] == seq!['/']) || (
        is_name(d[i]) && (i == 0 || d[i] != seq!['.'])) by {
            if i < c.len() {
                assert(d[i] == c[i]);
            }
        }
    }
    lemma_rendered(d);
    if c.len() == 0 {
        assert(rendered(c) =~= Seq::<char>::empty());
    }
    assert(!absolute(name)) by {
        if absolute(name) {
            assert(name.contains(name[0]));
        }
    }
    assert(d.drop_last() =~= c);
    assert(join_paths(base, name) =~= rendered(d)) by {
        if c[0] == sep {
            let rest = c.subrange(1, c.len() as int);
            let more = d.subrange(1, d.len() as int);
            assert(more.subrange(0, more.len() - 1) =~= rest);
            assert(more[more.len() - 1] == name);
            if c.len() == 1 {
                assert(rest.len() == 0);
                assert(base =~= sep);
            } else {
                assert(rest[rest.len() - 1] == c[c.len() - 1]);
                lemma_joined_end(rest);
            }
        } else {
            lemma_joined_end(c);
            assert(d.subrange(0, d.len() - 1) =~= c);
        }
    }
}

} // verus!
