//! Paths as `std::path::Path` reads them: components, file names,
//! component-wise prefixes and equality, for Unix and for Windows.
//!
//! On Unix `/` separates components. On Windows `\` does too. Windows
//! prefixes (a drive such as `C:`, or the `\\?\` of a verbatim path) are
//! not told apart from names here: they read as ordinary components, so two
//! paths that begin with the same prefix compare as std compares them.
use vstd::prelude::*;
use crate::text::{chars_equal, sub_chars, views};

verus! {

/// Which platform's separators a path uses.
#[derive(Clone, Copy, Debug, PartialEq, Eq)]
pub enum PathStyle {
    /// `/` only.
    Unix,
    /// `\` and `/`.
    Windows,
}

/// Whether `c` separates path components in `style`.
pub open spec fn is_separator(style: PathStyle, c: char) -> bool {
    match style {
        PathStyle::Unix => c == '/',
        PathStyle::Windows => c == '/' || c == '\\',
    }
}

/// Exec form of [`is_separator`].
pub fn is_separator_char(style: PathStyle, c: char) -> (r: bool)
    ensures
        r == is_separator(style, c),
{
    match style {
        PathStyle::Unix => c == '/',
        PathStyle::Windows => c == '/' || c == '\\',
    }
}

/// One component of a path (`std::path::Component`).
pub enum Component {
    /// The leading separator of an absolute path.
    Root,
    /// A leading `.` of a relative path.
    Current,
    /// `..`.
    Parent,
    /// Any other non-empty name.
    Normal(Seq<char>),
}

/// The index of the first separator at or after `i`, or `s.len()` when none.
pub open spec fn separator_from(style: PathStyle, s: Seq<char>, i: int) -> int
    decreases s.len() - i,
{
    if i < 0 || i >= s.len() {
        s.len() as int
    } else if is_separator(style, s[i]) {
        i
    } else {
        separator_from(style, s, i + 1)
    }
}

/// Where [`separator_from`] can land.
pub proof fn lemma_separator_from_bounds(style: PathStyle, s: Seq<char>, i: int)
    requires
        0 <= i <= s.len(),
    ensures
        i <= separator_from(style, s, i) <= s.len(),
        separator_from(style, s, i) < s.len() ==> is_separator(style, s[separator_from(style, s, i)]),
        forall|k: int| i <= k < separator_from(style, s, i) ==> !is_separator(style, s[k]),
    decreases s.len() - i,
{
    if i < s.len() && !is_separator(style, s[i]) {
        lemma_separator_from_bounds(style, s, i + 1);
    }
}

/// The text of `s` up to its first separator.
pub open spec fn first_segment(style: PathStyle, s: Seq<char>) -> Seq<char> {
    s.take(separator_from(style, s, 0))
}

/// The separator-delimited segments of `s` that are neither empty nor `.`, in order.
pub open spec fn named_segments(style: PathStyle, s: Seq<char>) -> Seq<Seq<char>>
    decreases s.len(),
{
    if s.len() == 0 {
        Seq::empty()
    } else {
        let e = separator_from(style, s, 0);
        let seg = s.take(e);
        proof {
            lemma_separator_from_bounds(style, s, 0);
        }
        let rest = if e < s.len() {
            named_segments(style, s.skip(e + 1))
        } else {
            Seq::empty()
        };
        if seg.len() == 0 || seg == seq!['.'] {
            rest
        } else {
            seq![seg] + rest
        }
    }
}

/// The component a named segment stands for.
pub open spec fn segment_component(seg: Seq<char>) -> Component {
    if seg == seq!['.', '.'] {
        Component::Parent
    } else {
        Component::Normal(seg)
    }
}

/// `Path::components`: a leading root or current-directory component, then
/// one component per named segment (empty segments and inner `.` are
/// dropped, as std normalises them away).
pub open spec fn components(style: PathStyle, p: Seq<char>) -> Seq<Component> {
    let head = if p.len() > 0 && is_separator(style, p[0]) {
        seq![Component::Root]
    } else if first_segment(style, p) == seq!['.'] {
        seq![Component::Current]
    } else {
        Seq::empty()
    };
    head + named_segments(style, p).map_values(|seg: Seq<char>| segment_component(seg))
}

/// `Path::file_name`: the last component when it is a plain name.
pub open spec fn file_name(style: PathStyle, p: Seq<char>) -> Option<Seq<char>> {
    let c = components(style, p);
    if c.len() > 0 && c.last() is Normal {
        Some(c.last()->Normal_0)
    } else {
        None
    }
}

/// `Path::starts_with`: `base`'s components are a prefix of `p`'s.
pub open spec fn path_starts_with(style: PathStyle, p: Seq<char>, base: Seq<char>) -> bool {
    components(style, base).is_prefix_of(components(style, p))
}

/// Path equality (`PathBuf == PathBuf`): equal component lists.
pub open spec fn same_path(style: PathStyle, a: Seq<char>, b: Seq<char>) -> bool {
    components(style, a) == components(style, b)
}

/// A path component as the exec code holds it.
pub enum PathComponent {
    Root,
    Current,
    Parent,
    Normal(Vec<char>),
}

impl View for PathComponent {
    type V = Component;

    open spec fn view(&self) -> Component {
        match self {
            PathComponent::Root => Component::Root,
            PathComponent::Current => Component::Current,
            PathComponent::Parent => Component::Parent,
            PathComponent::Normal(v) => Component::Normal(v@),
        }
    }
}

/// The views of a vector of components.
pub open spec fn component_views(v: Seq<PathComponent>) -> Seq<Component> {
    v.map_values(|c: PathComponent| c@)
}

/// The index of the first separator at or after `i`, or `s.len()`.
fn separator_index(style: PathStyle, s: &[char], i: usize) -> (e: usize)
    requires
        i <= s@.len(),
    ensures
        e == separator_from(style, s@, i as int),
        i <= e <= s@.len(),
{
    proof {
        lemma_separator_from_bounds(style, s@, i as int);
    }
    let mut e = i;
    while e < s.len() && !is_separator_char(style, s[e])
        invariant
            i <= e <= s@.len(),
            separator_from(style, s@, i as int) == separator_from(style, s@, e as int),
        decreases s@.len() - e,
    {
        e = e + 1;
    }
    e
}

proof fn lemma_separator_from_shift(style: PathStyle, s: Seq<char>, start: int, i: int)
    requires
        0 <= start <= i,
    ensures
        separator_from(style, s.skip(start), i - start) + start == separator_from(style, s, i) || (start > s.len()),
    decreases s.len() - i,
{
    if start <= s.len() && i < s.len() && !is_separator(style, s[i]) {
        lemma_separator_from_shift(style, s, start, i + 1);
    }
}

/// Exec form of [`named_segments`].
pub fn named_segments_of(style: PathStyle, p: &[char]) -> (r: Vec<Vec<char>>)
    ensures
        views(r@) == named_segments(style, p@),
{
    let mut r: Vec<Vec<char>> = Vec::new();
    let mut start: usize = 0;
    assert(p@.skip(0) =~= p@);
    while start < p.len()
        invariant
            start <= p@.len(),
            named_segments(style, p@) == views(r@) + named_segments(style, p@.skip(start as int)),
        decreases p@.len() - start,
    {
        let ghost rest = p@.skip(start as int);
        let e = separator_index(style, p, start);
        proof {
            lemma_separator_from_shift(style, p@, start as int, start as int);
            lemma_separator_from_bounds(style, rest, 0);
        }
        assert(separator_from(style, rest, 0) == e - start);
        let seg = sub_chars(p, start, e);
        assert(seg@ =~= rest.take(e - start));
        let dot: [char; 1] = ['.'];
        let skip = seg.len() == 0 || chars_equal(&seg, &dot);
        assert(dot@ =~= seq!['.']);
        let ghost old_r = r@;
        if !skip {
            r.push(seg);
            assert(views(r@) =~= views(old_r) + seq![rest.take(e - start)]);
        }
        if e < p.len() {
            assert(rest.skip(e - start + 1) =~= p@.skip(e + 1));
            start = e + 1;
        } else {
            start = p.len();
            assert(p@.skip(start as int) =~= Seq::<char>::empty());
        }
    }
    assert(named_segments(style, p@.skip(start as int)) =~= Seq::<Seq<char>>::empty());
    assert(views(r@) + Seq::<Seq<char>>::empty() =~= views(r@));
    r
}


/// A name that can be a path's file name: non-empty, no separator, neither `.`
/// nor `..`.
pub open spec fn is_plain_name(style: PathStyle, n: Seq<char>) -> bool {
    &&& n.len() > 0
    &&& forall|j: int| 0 <= j < n.len() ==> !is_separator(style, #[trigger] n[j])
    &&& n != seq!['.']
    &&& n != seq!['.', '.']
}

proof fn lemma_named_segments_plain(style: PathStyle, s: Seq<char>)
    ensures
        forall|k: int| 0 <= k < named_segments(style, s).len() ==> {
            let seg = #[trigger] named_segments(style, s)[k];
            &&& seg.len() > 0
            &&& seg != seq!['.']
            &&& forall|j: int| 0 <= j < seg.len() ==> !is_separator(style, seg[j])
        },
    decreases s.len(),
{
    if s.len() > 0 {
        let e = separator_from(style, s, 0);
        lemma_separator_from_bounds(style, s, 0);
        if e < s.len() {
            lemma_named_segments_plain(style, s.skip(e + 1));
        }
        let seg = s.take(e);
        assert forall|j: int| 0 <= j < seg.len() implies !is_separator(style, seg[j]) by {
            assert(seg[j] == s[j]);
        }
        let rest = if e < s.len() {
            named_segments(style, s.skip(e + 1))
        } else {
            Seq::<Seq<char>>::empty()
        };
        let all = named_segments(style, s);
        assert forall|k: int| 0 <= k < all.len() implies {
            let sg = #[trigger] all[k];
            &&& sg.len() > 0
            &&& sg != seq!['.']
            &&& forall|j: int| 0 <= j < sg.len() ==> !is_separator(style, sg[j])
        } by {
            if seg.len() == 0 || seg == seq!['.'] {
                assert(all == rest);
                assert(all[k] == rest[k]);
            } else {
                assert(all == seq![seg] + rest);
                if k > 0 {
                    assert(all[k] == rest[k - 1]);
                }
            }
        }
    }
}

/// A plain name is a single plain component.
pub proof fn lemma_plain_name_components(style: PathStyle, n: Seq<char>)
    requires
        is_plain_name(style, n),
    ensures
        components(style, n) == seq![Component::Normal(n)],
{
    lemma_separator_from_bounds(style, n, 0);
    if separator_from(style, n, 0) < n.len() {
        assert(!is_separator(style, n[separator_from(style, n, 0)]));
    }
    assert(separator_from(style, n, 0) == n.len());
    assert(n.take(n.len() as int) =~= n);
    assert(named_segments(style, n) =~= seq![n]);
    assert(first_segment(style, n) == n);
    assert(components(style, n) =~= seq![Component::Normal(n)]);
}

/// A file name is a plain name, and it is its own file name: taking the
/// file name of a path twice gives the same name.
pub proof fn lemma_file_name_is_plain(style: PathStyle, p: Seq<char>)
    requires
        file_name(style, p) is Some,
    ensures
        is_plain_name(style, file_name(style, p)->Some_0),
        file_name(style, file_name(style, p)->Some_0) == file_name(style, p),
{
    let n = file_name(style, p)->Some_0;
    let segs = named_segments(style, p);
    let mapped = segs.map_values(|seg: Seq<char>| segment_component(seg));
    lemma_named_segments_plain(style, p);
    let c = components(style, p);
    let head_len = c.len() - mapped.len();
    assert(c.len() > 0 && c.last() is Normal);
    if mapped.len() == 0 {
        assert(c.last() is Root || c.last() is Current);
    }
    assert(mapped.len() > 0);
    assert(c.last() == mapped.last());
    let seg = segs[segs.len() - 1];
    assert(mapped.last() == segment_component(seg));
    assert(seg != seq!['.', '.']);
    assert(n == seg);
    lemma_plain_name_components(style, n);
}

/// `n` is the text of `t` after its last separator: a suffix of `t` that
/// is all of `t` or follows a separator.
pub open spec fn ends_after_separator(style: PathStyle, t: Seq<char>, n: Seq<char>) -> bool {
    &&& n.is_suffix_of(t)
    &&& (n.len() == t.len() || is_separator(style, t[t.len() - n.len() - 1]))
}

proof fn lemma_last_segment_ends_with(style: PathStyle, t: Seq<char>, x: Seq<char>)
    requires
        x.len() >= 2,
        forall|j: int| 0 <= j < x.len() ==> !is_separator(style, #[trigger] x[j]),
        x.is_suffix_of(t),
    ensures
        named_segments(style, t).len() > 0,
        x.is_suffix_of(named_segments(style, t).last()),
        ends_after_separator(style, t, named_segments(style, t).last()),
    decreases t.len(),
{
    let e = separator_from(style, t, 0);
    lemma_separator_from_bounds(style, t, 0);
    let seg = t.take(e);
    if e < t.len() {
        assert(e < t.len() - x.len()) by {
            if e >= t.len() - x.len() {
                assert(t[e] == x[e - (t.len() - x.len())]);
            }
        }
        let r = t.skip(e + 1);
        assert(r.subrange(r.len() - x.len(), r.len() as int) =~= t.subrange(
            t.len() - x.len(),
            t.len() as int,
        ));
        lemma_last_segment_ends_with(style, r, x);
        let rest = named_segments(style, r);
        let last = rest.last();
        assert(last.is_suffix_of(t)) by {
            assert(t.subrange(t.len() - last.len(), t.len() as int) =~= r.subrange(
                r.len() - last.len(),
                r.len() as int,
            ));
        }
        if last.len() == r.len() {
            assert(t[t.len() - last.len() - 1] == t[e]);
        } else {
            assert(t[t.len() - last.len() - 1] == r[r.len() - last.len() - 1]);
        }
        if seg.len() == 0 || seg == seq!['.'] {
            assert(named_segments(style, t) == rest);
        } else {
            assert(named_segments(style, t) == seq![seg] + rest);
            assert((seq![seg] + rest).last() == rest.last());
        }
    } else {
        assert(seg =~= t);
        assert(seg != seq!['.']) by {
            if seg == seq!['.'] {
                assert(t.len() == 1);
            }
        }
        assert(named_segments(style, t) =~= seq![t]);
        assert(t.subrange(0, t.len() as int) =~= t);
    }
}

/// A path that ends in a name part `x` (at least three characters, no
/// separator)
/// has a file name, and that file name ends in `x`.
pub proof fn lemma_file_name_of_suffix(style: PathStyle, t: Seq<char>, x: Seq<char>)
    requires
        x.len() >= 3,
        forall|j: int| 0 <= j < x.len() ==> !is_separator(style, #[trigger] x[j]),
        x.is_suffix_of(t),
    ensures
        file_name(style, t) is Some,
        x.is_suffix_of(file_name(style, t)->Some_0),
        ends_after_separator(style, t, file_name(style, t)->Some_0),
        is_plain_name(style, file_name(style, t)->Some_0),
{
    lemma_last_segment_ends_with(style, t, x);
    let segs = named_segments(style, t);
    let last = segs.last();
    assert(last != seq!['.', '.']) by {
        if last == seq!['.', '.'] {
            assert(last.len() == 2);
        }
    }
    let mapped = segs.map_values(|seg: Seq<char>| segment_component(seg));
    assert(mapped.last() == segment_component(last));
    assert(components(style, t).last() == mapped.last());
    lemma_file_name_is_plain(style, t);
}

/// Exec form of [`segment_component`].
fn component_of_segment(seg: Vec<char>) -> (c: PathComponent)
    ensures
        c@ == segment_component(seg@),
{
    let dots: [char; 2] = ['.', '.'];
    assert(dots@ =~= seq!['.', '.']);
    if chars_equal(&seg, &dots) {
        PathComponent::Parent
    } else {
        PathComponent::Normal(seg)
    }
}

/// Exec form of [`components`].
pub fn components_of(style: PathStyle, p: &[char]) -> (r: Vec<PathComponent>)
    ensures
        component_views(r@) == components(style, p@),
{
    let mut r: Vec<PathComponent> = Vec::new();
    if p.len() > 0 && is_separator_char(style, p[0]) {
        r.push(PathComponent::Root);
    } else {
        let e = separator_index(style, p, 0);
        if e == 1 && p[0] == '.' {
            assert(first_segment(style, p@) =~= seq!['.']);
            r.push(PathComponent::Current);
        } else {
            assert(first_segment(style, p@).len() == e);
            assert(first_segment(style, p@) != seq!['.'] ) by {
                if e == 1 {
                    assert(first_segment(style, p@)[0] == p@[0]);
                }
            }
        }
    }
    let ghost head = component_views(r@);
    let segs = named_segments_of(style, p);
    let ghost all = views(segs@);
    let ghost mapped = all.map_values(|seg: Seq<char>| segment_component(seg));
    let mut i: usize = 0;
    while i < segs.len()
        invariant
            all == views(segs@),
            all == named_segments(style, p@),
            mapped == all.map_values(|seg: Seq<char>| segment_component(seg)),
            i <= segs@.len(),
            component_views(r@) == head + mapped.take(i as int),
        decreases segs@.len() - i,
    {
        let seg = sub_chars(&segs[i], 0, segs[i].len());
        assert(seg@ =~= all[i as int]);
        let c = component_of_segment(seg);
        assert(mapped[i as int] == c@);
        let ghost old_r = r@;
        r.push(c);
        assert(component_views(r@) =~= component_views(old_r).push(c@));
        assert(mapped.take(i + 1) =~= mapped.take(i as int).push(c@));
        i = i + 1;
        assert(component_views(r@) =~= head + mapped.take(i as int));
    }
    assert(mapped.take(all.len() as int) =~= mapped);
    r
}


/// Whether two components are equal.
fn component_equal(a: &PathComponent, b: &PathComponent) -> (r: bool)
    ensures
        r == (a@ == b@),
{
    match (a, b) {
        (PathComponent::Root, PathComponent::Root) => true,
        (PathComponent::Current, PathComponent::Current) => true,
        (PathComponent::Parent, PathComponent::Parent) => true,
        (PathComponent::Normal(x), PathComponent::Normal(y)) => chars_equal(x, y),
        _ => false,
    }
}

/// Whether the first `a.len()` components of `b` equal `a`.
fn components_prefix(a: &Vec<PathComponent>, b: &Vec<PathComponent>) -> (r: bool)
    ensures
        r == component_views(a@).is_prefix_of(component_views(b@)),
{
    if a.len() > b.len() {
        return false;
    }
    let mut i: usize = 0;
    while i < a.len()
        invariant
            a@.len() <= b@.len(),
            i <= a@.len(),
            forall|k: int| 0 <= k < i ==> a@[k]@ == b@[k]@,
        decreases a@.len() - i,
    {
        if !component_equal(&a[i], &b[i]) {
            assert(component_views(a@)[i as int] != component_views(b@).subrange(
                0,
                a@.len() as int,
            )[i as int]);
            return false;
        }
        i = i + 1;
    }
    assert(component_views(a@) =~= component_views(b@).subrange(0, a@.len() as int));
    true
}

/// Exec form of [`path_starts_with`].
pub fn path_starts_with_chars(style: PathStyle, p: &[char], base: &[char]) -> (r: bool)
    ensures
        r == path_starts_with(style, p@, base@),
{
    let cp = components_of(style, p);
    let cb = components_of(style, base);
    components_prefix(&cb, &cp)
}

/// Exec form of [`same_path`].
pub fn same_path_chars(style: PathStyle, a: &[char], b: &[char]) -> (r: bool)
    ensures
        r == same_path(style, a@, b@),
{
    let ca = components_of(style, a);
    let cb = components_of(style, b);
    if ca.len() != cb.len() {
        return false;
    }
    let r = components_prefix(&ca, &cb);
    assert(component_views(cb@).subrange(0, ca@.len() as int) =~= component_views(cb@));
    r
}

/// Exec form of [`file_name`].
pub fn file_name_chars(style: PathStyle, p: &[char]) -> (r: Option<Vec<char>>)
    ensures
        r matches Some(v) ==> file_name(style, p@) == Some(v@),
        r is None ==> file_name(style, p@) is None,
{
    let c = components_of(style, p);
    if c.len() == 0 {
        return None;
    }
    let last = c.len() - 1;
    assert(component_views(c@).last() == c@[last as int]@);
    match &c[last] {
        PathComponent::Normal(v) => Some(sub_chars(v, 0, v.len())),
        _ => None,
    }
}

} // verus!
