//! Slash-separated paths.
//!
//! A path is read as a sequence of components: a leading `/` is the root component, a leading
//! `.` segment is the current-directory component, and every other non-empty segment but `.` is
//! a name. Repeated and trailing slashes and inner `.` segments carry no component; `..` is an
//! ordinary component that is never resolved.
use vstd::prelude::*;

use crate::text::chars_of;

verus! {

/// The length of the first segment: the index of the first `/`, or the length of `s`.
pub open spec fn head_len(s: Seq<char>) -> int
    decreases s.len(),
{
    if s.len() == 0 || s[0] == '/' {
        0
    } else {
        1 + head_len(s.drop_first())
    }
}

/// The first segment of `s`: everything before the first `/`.
pub open spec fn head(s: Seq<char>) -> Seq<char> {
    s.take(head_len(s))
}

/// Everything after the first `/` of `s`; empty if there is none.
pub open spec fn tail(s: Seq<char>) -> Seq<char> {
    if head_len(s) < s.len() {
        s.skip(head_len(s) + 1)
    } else {
        Seq::empty()
    }
}

/// A segment that carries no name: empty or `.`.
pub open spec fn ignored(segment: Seq<char>) -> bool {
    segment.len() == 0 || segment == seq!['.']
}

/// The names of `s`: its segments, left to right, without the ignored ones.
pub open spec fn names(s: Seq<char>) -> Seq<Seq<char>>
    decreases s.len(),
    via names_decreases
{
    if s.len() == 0 {
        Seq::empty()
    } else if ignored(head(s)) {
        names(tail(s))
    } else {
        seq![head(s)] + names(tail(s))
    }
}

#[via_fn]
proof fn names_decreases(s: Seq<char>) {
    lemma_head_len(s);
}

pub open spec fn is_absolute(s: Seq<char>) -> bool {
    s.len() > 0 && s[0] == '/'
}

/// The component before the names: the root, the current directory, or none.
pub open spec fn prefix(s: Seq<char>) -> Seq<Seq<char>> {
    if is_absolute(s) {
        seq![seq!['/']]
    } else if head(s) == seq!['.'] {
        seq![seq!['.']]
    } else {
        Seq::empty()
    }
}

/// The components of a path.
pub open spec fn components(s: Seq<char>) -> Seq<Seq<char>> {
    prefix(s) + names(s)
}

/// `base` is a leading part of `path`, counted in whole components.
pub open spec fn starts_with(path: Seq<char>, base: Seq<char>) -> bool {
    &&& components(base).len() <= components(path).len()
    &&& components(path).take(components(base).len() as int) == components(base)
}

/// Two paths are the same if their components are.
pub open spec fn same_path(a: Seq<char>, b: Seq<char>) -> bool {
    components(a) == components(b)
}

/// The text of `s` from its name number `n` on, with everything before that name cut off.
pub open spec fn skip_names(s: Seq<char>, n: int) -> Seq<char>
    decreases s.len(),
    via skip_names_decreases
{
    if s.len() == 0 {
        s
    } else if ignored(head(s)) {
        skip_names(tail(s), n)
    } else if n <= 0 {
        s
    } else {
        skip_names(tail(s), n - 1)
    }
}

#[via_fn]
proof fn skip_names_decreases(s: Seq<char>, n: int) {
    lemma_head_len(s);
}

/// The text of `s` up to the end of its last name; empty if it has no name.
pub open spec fn trim_end(s: Seq<char>) -> Seq<char>
    decreases s.len(),
    via trim_end_decreases
{
    if names(s).len() == 0 {
        Seq::empty()
    } else if names(tail(s)).len() == 0 {
        head(s)
    } else {
        head(s) + seq!['/'] + trim_end(tail(s))
    }
}

#[via_fn]
proof fn trim_end_decreases(s: Seq<char>) {
    lemma_head_len(s);
}

/// The part of `path` below its first `n` components, for `n > 0`: the text from the first name
/// that is left through the last name.
pub open spec fn below(path: Seq<char>, n: int) -> Seq<char> {
    trim_end(skip_names(path, n - prefix(path).len()))
}

/// `relative` appended to `base` behind a single separator; an absolute path replaces `base`.
pub open spec fn join(base: Seq<char>, relative: Seq<char>) -> Seq<char> {
    if is_absolute(relative) {
        relative
    } else if base.len() == 0 || base.last() == '/' {
        base + relative
    } else {
        base + seq!['/'] + relative
    }
}

pub(crate) proof fn lemma_head_len(s: Seq<char>)
    ensures
        0 <= head_len(s) <= s.len(),
        head_len(s) < s.len() ==> s[head_len(s)] == '/',
        forall|i: int| 0 <= i < head_len(s) ==> s[i] != '/',
        s.len() > 0 ==> tail(s).len() < s.len(),
    decreases s.len(),
{
    if s.len() > 0 && s[0] != '/' {
        lemma_head_len(s.drop_first());
        assert forall|i: int| 0 <= i < head_len(s) implies s[i] != '/' by {
            if i > 0 {
                assert(s.drop_first()[i - 1] == s[i]);
            }
        }
    }
}

/// A position is the first separator, or the end of a text without one, only if it is the
/// length of the first segment.
pub(crate) proof fn lemma_head_len_unique(s: Seq<char>, n: int)
    requires
        0 <= n <= s.len(),
        n < s.len() ==> s[n] == '/',
        forall|i: int| 0 <= i < n ==> s[i] != '/',
    ensures
        head_len(s) == n,
{
    lemma_head_len(s);
    if head_len(s) < n {
        assert(s[head_len(s)] != '/');
    }
}

/// A text without a separator.
pub open spec fn plain(h: Seq<char>) -> bool {
    forall|i: int| 0 <= i < h.len() ==> h[i] != '/'
}

/// How a text splits at its first separator.
pub(crate) proof fn lemma_first_segment(h: Seq<char>, t: Seq<char>)
    requires
        plain(h),
    ensures
        head(h + seq!['/'] + t) == h,
        tail(h + seq!['/'] + t) == t,
        head(h) == h,
        tail(h) == Seq::<char>::empty(),
{
    let s = h + seq!['/'] + t;
    lemma_head_len_unique(s, h.len() as int);
    lemma_head_len_unique(h, h.len() as int);
    assert(s.take(h.len() as int) =~= h);
    assert(s.skip(h.len() as int + 1) =~= t);
    assert(h.take(h.len() as int) =~= h);
}

/// A text is its first segment, or that segment, a separator and the rest.
pub(crate) proof fn lemma_split(s: Seq<char>)
    ensures
        plain(head(s)),
        head_len(s) < s.len() ==> s == head(s) + seq!['/'] + tail(s),
        head_len(s) >= s.len() ==> s == head(s) && tail(s).len() == 0,
{
    lemma_head_len(s);
    if head_len(s) < s.len() {
        assert(s =~= head(s) + seq!['/'] + tail(s));
    } else {
        assert(s =~= head(s));
    }
}

/// The names of two texts joined by a separator are the names of the one and of the other.
pub(crate) proof fn lemma_names_concat(a: Seq<char>, b: Seq<char>)
    ensures
        names(a + seq!['/'] + b) == names(a) + names(b),
    decreases a.len(),
{
    let c = a + seq!['/'] + b;
    lemma_split(a);
    lemma_head_len(a);
    if head_len(a) >= a.len() {
        lemma_first_segment(a, b);
        if a.len() > 0 {
            assert(names(tail(a)) =~= Seq::<Seq<char>>::empty());
        }
        assert(names(c) =~= names(a) + names(b));
    } else {
        let h = head(a);
        let t = tail(a);
        assert(c =~= h + seq!['/'] + (t + seq!['/'] + b));
        lemma_first_segment(h, t + seq!['/'] + b);
        lemma_names_concat(t, b);
        assert(names(c) =~= names(a) + names(b));
    }
}

/// The names that `skip_names` leaves.
pub(crate) proof fn lemma_skip_names(s: Seq<char>, n: int)
    requires
        0 <= n <= names(s).len(),
    ensures
        names(skip_names(s, n)) == names(s).skip(n),
        skip_names(s, n).len() > 0 ==> !ignored(head(skip_names(s, n))),
        n == names(s).len() ==> skip_names(s, n).len() == 0,
    decreases s.len(),
{
    lemma_head_len(s);
    if s.len() == 0 {
        assert(names(s).skip(n) =~= names(s));
    } else if ignored(head(s)) {
        lemma_skip_names(tail(s), n);
    } else if n == 0 {
        assert(names(s).skip(0) =~= names(s));
    } else {
        lemma_skip_names(tail(s), n - 1);
        assert(names(s).skip(n) =~= names(tail(s)).skip(n - 1));
    }
}

/// `trim_end` keeps the names, and the first segment of a text that has a name there.
pub(crate) proof fn lemma_trim_end(s: Seq<char>)
    ensures
        names(trim_end(s)) == names(s),
        s.len() > 0 && !ignored(head(s)) ==> head(trim_end(s)) == head(s),
    decreases s.len(),
{
    lemma_head_len(s);
    lemma_split(s);
    if names(s).len() == 0 {
        assert(names(s) =~= Seq::<Seq<char>>::empty());
    } else if names(tail(s)).len() == 0 {
        lemma_first_segment(head(s), Seq::empty());
        assert(head(head(s)) == head(s));
        assert(names(tail(s)) =~= Seq::<Seq<char>>::empty());
        assert(tail(head(s)) == Seq::<char>::empty());
        assert(names(Seq::<char>::empty()) =~= Seq::<Seq<char>>::empty());
    } else {
        lemma_trim_end(tail(s));
        lemma_first_segment(head(s), trim_end(tail(s)));
    }
}

/// The part of a path below its first `n` components has exactly the components that are left,
/// and is empty exactly if none is left.
pub(crate) proof fn lemma_below(path: Seq<char>, n: int)
    requires
        0 < n <= components(path).len(),
    ensures
        components(below(path, n)) == components(path).skip(n),
        names(below(path, n)) == components(path).skip(n),
        !is_absolute(below(path, n)),
        below(path, n).len() == 0 <==> n == components(path).len(),
{
    let k = n - prefix(path).len();
    let t = skip_names(path, k);
    lemma_skip_names(path, k);
    lemma_trim_end(t);
    let r = trim_end(t);
    assert(components(path).skip(n) =~= names(path).skip(k));
    lemma_head_len(r);
    if t.len() == 0 {
        assert(head(r).len() == 0);
        assert(prefix(r) =~= Seq::<Seq<char>>::empty());
    } else {
        assert(head(r) == head(t));
        assert(head(r).len() > 0);
        assert(r.len() > 0);
        if is_absolute(r) {
            assert(head_len(r) == 0);
        }
    }
    assert(components(r) =~= names(r));
}

/// What follows a separator leaves the component before the names as it is.
pub(crate) proof fn lemma_prefix_concat(a: Seq<char>, b: Seq<char>)
    requires
        a.len() > 0,
    ensures
        prefix(a + seq!['/'] + b) == prefix(a),
{
    let c = a + seq!['/'] + b;
    lemma_head_len(a);
    assert forall|i: int| 0 <= i < head_len(a) implies c[i] != '/' by {
        assert(a[i] != '/');
    }
    lemma_head_len_unique(c, head_len(a));
    assert(head(c) =~= head(a));
}

/// A non-empty path has a component.
pub(crate) proof fn lemma_has_component(s: Seq<char>)
    requires
        s.len() > 0,
    ensures
        components(s).len() > 0,
{
    lemma_head_len(s);
    if s[0] != '/' && ignored(head(s)) {
        assert(head(s) == seq!['.']);
    }
}

/// Joining a relative path onto a non-empty one appends its names.
pub(crate) proof fn lemma_join(base: Seq<char>, relative: Seq<char>)
    requires
        base.len() > 0,
        !is_absolute(relative),
    ensures
        components(join(base, relative)) == components(base) + names(relative),
        is_absolute(join(base, relative)) == is_absolute(base),
{
    let j = join(base, relative);
    let empty = Seq::<char>::empty();
    if base == seq!['/'] {
        assert(j =~= empty + seq!['/'] + relative);
        assert(base =~= empty + seq!['/'] + empty);
        lemma_names_concat(empty, relative);
        lemma_names_concat(empty, empty);
        assert(components(j) =~= components(base) + names(relative));
    } else {
        let b = if base.last() == '/' { base.drop_last() } else { base };
        assert(b.len() > 0) by {
            if base.len() == 1 {
                assert(base =~= seq![base[0]]);
            }
        }
        assert(j =~= b + seq!['/'] + relative);
        lemma_names_concat(b, relative);
        lemma_prefix_concat(b, relative);
        if base.last() == '/' {
            assert(base =~= b + seq!['/'] + empty);
            lemma_names_concat(b, empty);
            lemma_prefix_concat(b, empty);
        }
        assert(components(j) =~= components(base) + names(relative));
    }
}

proof fn lemma_trim_end_concat(s: Seq<char>, junk: Seq<char>)
    requires
        names(junk).len() == 0,
    ensures
        trim_end(s + seq!['/'] + junk) == trim_end(s),
    decreases s.len(),
{
    lemma_names_concat(s, junk);
    lemma_split(s);
    lemma_head_len(s);
    if names(s).len() > 0 {
        if head_len(s) >= s.len() {
            lemma_first_segment(s, junk);
        } else {
            assert(s + seq!['/'] + junk =~= head(s) + seq!['/'] + (tail(s) + seq!['/'] + junk));
            lemma_first_segment(head(s), tail(s) + seq!['/'] + junk);
            lemma_names_concat(tail(s), junk);
            lemma_trim_end_concat(tail(s), junk);
        }
    }
}

proof fn lemma_skip_names_concat(s: Seq<char>, junk: Seq<char>, n: int)
    requires
        0 <= n < names(s).len(),
    ensures
        skip_names(s + seq!['/'] + junk, n) == skip_names(s, n) + seq!['/'] + junk,
    decreases s.len(),
{
    let z = s + seq!['/'] + junk;
    lemma_split(s);
    lemma_head_len(s);
    if head_len(s) >= s.len() {
        lemma_first_segment(s, junk);
        assert(names(tail(s)).len() == 0);
    } else {
        assert(z =~= head(s) + seq!['/'] + (tail(s) + seq!['/'] + junk));
        lemma_first_segment(head(s), tail(s) + seq!['/'] + junk);
        if ignored(head(s)) {
            lemma_skip_names_concat(tail(s), junk, n);
        } else if n > 0 {
            lemma_skip_names_concat(tail(s), junk, n - 1);
        }
    }
}

/// A separator at the end of a path changes neither its components nor what lies below any of
/// them.
pub proof fn law_trailing_separator(path: Seq<char>, n: int)
    requires
        path.len() > 0,
        0 < n <= components(path).len(),
    ensures
        components(path + seq!['/']) == components(path),
        below(path + seq!['/'], n) == below(path, n),
{
    let empty = Seq::<char>::empty();
    let z = path + seq!['/'];
    assert(z =~= path + seq!['/'] + empty);
    lemma_names_concat(path, empty);
    lemma_prefix_concat(path, empty);
    assert(names(z) =~= names(path));
    let k = n - prefix(path).len();
    lemma_skip_names(path, k);
    lemma_skip_names(z, k);
    if k < names(path).len() {
        lemma_skip_names_concat(path, empty, k);
        lemma_trim_end_concat(skip_names(path, k), empty);
    }
}

/// What lies below `base` in `path`, joined onto `base`, is `path` again.
pub proof fn law_join_undoes_strip(path: Seq<char>, base: Seq<char>)
    requires
        base.len() > 0,
        starts_with(path, base),
    ensures
        same_path(join(base, below(path, components(base).len() as int)), path),
{
    let n = components(base).len() as int;
    lemma_has_component(base);
    lemma_below(path, n);
    lemma_join(base, below(path, n));
    assert(components(base) + components(path).skip(n) =~= components(path));
}

/// A directory does not lie under another whose name is merely the beginning of its own name.
pub proof fn law_no_partial_name(
    dir: Seq<char>,
    name: Seq<char>,
    extra: Seq<char>,
    rest: Seq<char>,
)
    requires
        plain(name),
        !ignored(name),
        plain(extra),
        extra.len() > 0,
    ensures
        !starts_with(dir + seq!['/'] + (name + extra), dir + seq!['/'] + name),
        !starts_with(
            dir + seq!['/'] + (name + extra + seq!['/'] + rest),
            dir + seq!['/'] + name,
        ),
{
    let empty = Seq::<char>::empty();
    let longer = name + extra;
    assert(plain(longer));
    assert(!ignored(longer)) by {
        assert(longer.len() > 1);
        assert(seq!['.'].len() == 1);
    }
    assert(name != longer);
    lemma_first_segment(name, empty);
    lemma_first_segment(longer, empty);
    lemma_first_segment(longer, rest);
    assert(names(empty) =~= Seq::<Seq<char>>::empty());
    assert(names(name) =~= seq![name]);
    assert(names(longer) =~= seq![longer]);
    let deeper = longer + seq!['/'] + rest;
    assert(names(deeper) =~= seq![longer] + names(rest));
    let base = dir + seq!['/'] + name;
    let a = dir + seq!['/'] + longer;
    let b = dir + seq!['/'] + deeper;
    lemma_names_concat(dir, name);
    lemma_names_concat(dir, longer);
    lemma_names_concat(dir, deeper);
    if dir.len() > 0 {
        lemma_prefix_concat(dir, name);
        lemma_prefix_concat(dir, longer);
        lemma_prefix_concat(dir, deeper);
    } else {
        assert(base[0] == '/' && a[0] == '/' && b[0] == '/');
    }
    let at = prefix(base).len() + names(dir).len();
    assert(components(base)[at as int] == name);
    assert(components(a)[at as int] == longer);
    assert(components(b)[at as int] == longer);
    if starts_with(a, base) {
        assert(components(a).take(components(base).len() as int)[at as int] == longer);
    }
    if starts_with(b, base) {
        assert(components(b).take(components(base).len() as int)[at as int] == longer);
    }
}

/// A text without a separator is a name, and is kept as it is, unless it is empty or `.`: it is the
/// only name of the text, and the last component of every path that ends in it.
pub proof fn law_name_is_kept(dir: Seq<char>, h: Seq<char>)
    requires
        h.len() > 0,
        h != seq!['.'],
        forall|i: int| 0 <= i < h.len() ==> h[i] != '/',
    ensures
        names(h) == seq![h],
        components(h) == seq![h],
        components(seq!['/'] + h) == seq![seq!['/'], h],
        names(dir + seq!['/'] + h) == names(dir).push(h),
        dir.len() > 0 ==> components(dir + seq!['/'] + h) == components(dir).push(h),
{
    let empty = Seq::<char>::empty();
    lemma_first_segment(h, empty);
    assert(names(empty) =~= Seq::<Seq<char>>::empty());
    assert(names(h) =~= seq![h]);
    assert(components(h) =~= seq![h]);
    assert(seq!['/'] + h =~= empty + seq!['/'] + h);
    lemma_names_concat(empty, h);
    assert(components(seq!['/'] + h) =~= seq![seq!['/'], h]);
    lemma_names_concat(dir, h);
    assert(names(dir + seq!['/'] + h) =~= names(dir).push(h));
    if dir.len() > 0 {
        lemma_prefix_concat(dir, h);
        assert(components(dir + seq!['/'] + h) =~= components(dir).push(h));
    }
}

/// Of the texts without a separator, only the empty one and `.` carry no name.
pub proof fn law_only_empty_and_dot_carry_no_name(h: Seq<char>)
    requires
        forall|i: int| 0 <= i < h.len() ==> h[i] != '/',
    ensures
        names(h).len() == 0 <==> (h.len() == 0 || h == seq!['.']),
{
    lemma_first_segment(h, Seq::empty());
    if h.len() > 0 && h != seq!['.'] {
        law_name_is_kept(h, h);
    } else if h.len() > 0 {
        assert(ignored(head(h)));
        assert(names(tail(h)).len() == 0);
    }
}

/// A separator parts names: the names of two texts with one between them are the names of the
/// one and of the other, none lost and none made up.
pub proof fn law_separator_parts_names(a: Seq<char>, b: Seq<char>)
    ensures
        names(a + seq!['/'] + b) == names(a) + names(b),
{
    lemma_names_concat(a, b);
}

/// The components of a path are its names, behind a root if the path begins with a separator, or
/// behind the current directory if its first segment is `.`.
pub proof fn law_components_are_names(t: Seq<char>)
    ensures
        components(seq!['/'] + t) == seq![seq!['/']] + names(t),
        components(seq!['.', '/'] + t) == seq![seq!['.']] + names(t),
        components(seq!['.']) == seq![seq!['.']],
        is_absolute(t) <==> t.len() > 0 && t[0] == '/',
        (t.len() == 0 || t[0] != '/') && t != seq!['.'] && !(t.len() >= 2 && t[0] == '.' && t[1]
            == '/') ==> components(t) == names(t),
{
    let empty = Seq::<char>::empty();
    let dot = seq!['.'];
    assert(seq!['/'] + t =~= empty + seq!['/'] + t);
    lemma_names_concat(empty, t);
    assert(names(empty) =~= Seq::<Seq<char>>::empty());
    assert(components(seq!['/'] + t) =~= seq![seq!['/']] + names(t));
    assert(seq!['.', '/'] + t =~= dot + seq!['/'] + t);
    lemma_first_segment(dot, t);
    lemma_names_concat(dot, t);
    law_only_empty_and_dot_carry_no_name(dot);
    assert(names(dot) =~= Seq::<Seq<char>>::empty());
    assert(components(dot + seq!['/'] + t) =~= seq![dot] + names(t));
    assert(components(dot) =~= seq![dot]);
    if (t.len() == 0 || t[0] != '/') && t != dot && !(t.len() >= 2 && t[0] == '.' && t[1] == '/') {
        lemma_first_name(t);
        assert(components(t) =~= names(t));
    }
}

/// A path lies under another exactly if it begins with all of that path's components, and is the
/// same path exactly if it has no others.
pub proof fn law_leading_part(path: Seq<char>, base: Seq<char>)
    ensures
        starts_with(path, base) <==> components(base).is_prefix_of(components(path)),
        same_path(path, base) <==> components(path) == components(base),
{
    assert(components(path).take(components(base).len() as int) =~= components(path).subrange(
        0,
        components(base).len() as int,
    ));
}

/// Joining puts exactly one separator between two texts where the first does not end in one; an
/// absolute path stands alone.
pub proof fn law_join_is_text(base: Seq<char>, relative: Seq<char>)
    ensures
        relative.len() > 0 && relative[0] == '/' ==> join(base, relative) == relative,
        (relative.len() == 0 || relative[0] != '/') ==> {
            &&& base.len() == 0 ==> join(base, relative) == relative
            &&& base.len() > 0 && base.last() == '/' ==> join(base, relative) == base + relative
            &&& base.len() > 0 && base.last() != '/' ==> join(base, relative) == base + seq!['/']
                + relative
        },
{
    assert(Seq::<char>::empty() + relative =~= relative);
    if base.len() == 0 {
        assert(base + relative =~= relative);
    }
}

/// The first segment of a text that begins neither with a separator nor with a `.` segment.
proof fn lemma_first_name(t: Seq<char>)
    requires
        t.len() == 0 || t[0] != '/',
        t != seq!['.'],
        !(t.len() >= 2 && t[0] == '.' && t[1] == '/'),
    ensures
        head(t) != seq!['.'],
        t.len() > 0 ==> !ignored(head(t)),
{
    lemma_split(t);
    lemma_head_len(t);
    if head(t) == seq!['.'] {
        assert(head(t)[0] == '.');
        assert(head(t).len() == 1);
        assert(head_len(t) == 1);
    }
}

/// A text whose last segment is a name has nothing to trim.
proof fn lemma_trim_end_text(s: Seq<char>)
    requires
        s.len() > 0,
        s.last() != '/',
        s != seq!['.'],
        !(s.len() >= 2 && s[s.len() - 2] == '/' && s.last() == '.'),
    ensures
        trim_end(s) == s,
        names(s).len() > 0,
    decreases s.len(),
{
    lemma_split(s);
    lemma_head_len(s);
    if head_len(s) >= s.len() {
        law_name_is_kept(s, s);
        assert(names(tail(s)).len() == 0);
    } else {
        let t = tail(s);
        assert(t.len() > 0);
        assert(t.last() == s.last());
        if t == seq!['.'] {
            assert(s.last() == '.' && s[s.len() - 2] == '/');
        }
        if t.len() >= 2 {
            assert(t[t.len() - 2] == s[s.len() - 2]);
        }
        lemma_trim_end_text(t);
    }
}

/// Cutting off all names of the text before a separator.
proof fn lemma_skip_names_before(a: Seq<char>, t: Seq<char>)
    ensures
        skip_names(a + seq!['/'] + t, names(a).len() as int) == skip_names(t, 0),
    decreases a.len(),
{
    let z = a + seq!['/'] + t;
    lemma_split(a);
    lemma_head_len(a);
    if head_len(a) >= a.len() {
        lemma_first_segment(a, t);
        if a.len() > 0 {
            assert(names(tail(a)).len() == 0);
        }
    } else {
        assert(z =~= head(a) + seq!['/'] + (tail(a) + seq!['/'] + t));
        lemma_first_segment(head(a), tail(a) + seq!['/'] + t);
        lemma_skip_names_before(tail(a), t);
    }
}

/// What lies below a directory is the text behind it, character for character, where that text
/// begins and ends with a name.
pub proof fn law_below_keeps_text(dir: Seq<char>, rest: Seq<char>)
    requires
        dir.len() > 0,
        dir.last() == '/',
        rest.len() > 0,
        rest[0] != '/',
        rest.last() != '/',
        rest != seq!['.'],
        !(rest.len() >= 2 && rest[0] == '.' && rest[1] == '/'),
        !(rest.len() >= 2 && rest[rest.len() - 2] == '/' && rest.last() == '.'),
    ensures
        components(dir).is_prefix_of(components(dir + rest)),
        below(dir + rest, components(dir).len() as int) == rest,
{
    let empty = Seq::<char>::empty();
    let a = dir.drop_last();
    let p = dir + rest;
    assert(dir =~= a + seq!['/'] + empty);
    assert(p =~= a + seq!['/'] + rest);
    lemma_names_concat(a, rest);
    lemma_names_concat(a, empty);
    assert(names(empty) =~= Seq::<Seq<char>>::empty());
    assert(names(dir) =~= names(a));
    if a.len() > 0 {
        lemma_prefix_concat(a, rest);
        lemma_prefix_concat(a, empty);
    }
    assert(prefix(p) == prefix(dir));
    assert(components(dir) =~= components(p).subrange(0, components(dir).len() as int));
    lemma_skip_names_before(a, rest);
    lemma_first_name(rest);
    assert(skip_names(rest, 0) == rest);
    lemma_trim_end_text(rest);
}

/// What follows the last name of a path changes nothing of what lies below a directory.
pub proof fn law_below_ends_with_last_name(path: Seq<char>, end: Seq<char>, n: int)
    requires
        names(end).len() == 0,
        0 < n <= components(path).len(),
    ensures
        components(path + seq!['/'] + end) == components(path),
        below(path + seq!['/'] + end, n) == below(path, n),
{
    let z = path + seq!['/'] + end;
    if path.len() == 0 {
        assert(head(path).len() == 0);
    }
    lemma_names_concat(path, end);
    lemma_prefix_concat(path, end);
    assert(names(z) =~= names(path));
    let k = n - prefix(path).len();
    lemma_skip_names(path, k);
    lemma_skip_names(z, k);
    if k < names(path).len() {
        lemma_skip_names_concat(path, end, k);
        lemma_trim_end_concat(skip_names(path, k), end);
    }
}

/// What lies below the first components of a path has exactly the other components, and is no
/// text exactly if there are none.
pub proof fn law_below_has_other_components(path: Seq<char>, n: int)
    requires
        0 < n <= components(path).len(),
    ensures
        components(below(path, n)) == components(path).skip(n),
        below(path, n).len() == 0 <==> n == components(path).len(),
{
    lemma_below(path, n);
}

/// What lies below the first components of a path ends with the last name of the path.
pub proof fn law_last_name_lies_below(dir: Seq<char>, h: Seq<char>, n: int)
    requires
        h.len() > 0,
        h != seq!['.'],
        forall|i: int| 0 <= i < h.len() ==> h[i] != '/',
        0 < n < components(dir + seq!['/'] + h).len(),
    ensures
        h.is_suffix_of(below(dir + seq!['/'] + h, n)),
{
    let p = dir + seq!['/'] + h;
    law_name_is_kept(dir, h);
    let k = n - prefix(p).len();
    let rest = skip_names(p, k);
    lemma_skip_names(p, k);
    if k < names(dir).len() {
        lemma_skip_names_concat(dir, h, k);
    } else {
        lemma_skip_names_before(dir, h);
        lemma_first_segment(h, Seq::empty());
        assert(skip_names(h, 0) == h);
    }
    assert(rest.subrange(rest.len() - h.len(), rest.len() as int) =~= h);
    assert(rest.last() == h.last());
    if h.len() == 1 {
        assert(h =~= seq![h[0]]);
    } else {
        assert(rest[rest.len() - 2] == h[h.len() - 2]);
        assert(seq!['.'].len() == 1);
    }
    if rest == seq!['.'] {
        assert(rest =~= h);
    }
    lemma_trim_end_text(rest);
}

/// The index of the first separator at or after `from`, or the length of `s`.
fn segment_end(s: &Vec<char>, from: usize) -> (end: usize)
    requires
        from <= s@.len(),
    ensures
        from <= end <= s@.len(),
        end == from + head_len(s@.skip(from as int)),
{
    let mut i: usize = from;
    while i < s.len() && s[i] != '/'
        invariant
            from <= i <= s@.len(),
            forall|k: int| from <= k < i ==> s@[k] != '/',
        decreases s@.len() - i,
    {
        i = i + 1;
    }
    proof {
        lemma_head_len_unique(s@.skip(from as int), i - from);
    }
    i
}

/// Whether the segment of `s` between two indices carries no name.
fn is_ignored(s: &Vec<char>, from: usize, end: usize) -> (res: bool)
    requires
        from <= end <= s@.len(),
    ensures
        res == ignored(s@.subrange(from as int, end as int)),
{
    let ghost segment = s@.subrange(from as int, end as int);
    if from == end {
        return true;
    }
    let res = end - from == 1 && s[from] == '.';
    proof {
        if res {
            assert(segment =~= seq!['.']);
        } else if end - from == 1 {
            assert(segment[0] != seq!['.'][0]);
        } else {
            assert(segment.len() != seq!['.'].len());
        }
    }
    res
}

/// Where the segment after the one that ends at `end` begins.
fn segment_after(s: &Vec<char>, from: usize, end: usize) -> (next: usize)
    requires
        from < s@.len(),
        end == from + head_len(s@.skip(from as int)),
        from <= end <= s@.len(),
    ensures
        from < next <= s@.len(),
        s@.skip(next as int) == tail(s@.skip(from as int)),
        s@.subrange(from as int, end as int) == head(s@.skip(from as int)),
        end < s@.len() ==> next == end + 1 && s@[end as int] == '/',
        end == s@.len() ==> next == end,
{
    proof {
        lemma_head_len(s@.skip(from as int));
        assert(s@.subrange(from as int, end as int) =~= head(s@.skip(from as int)));
    }
    if end < s.len() {
        assert(s@.skip(end + 1) =~= tail(s@.skip(from as int)));
        end + 1
    } else {
        assert(s@.skip(end as int) =~= tail(s@.skip(from as int)));
        end
    }
}

/// The texts of a vector of strings.
pub open spec fn texts(v: Seq<String>) -> Seq<Seq<char>> {
    v.map_values(|s: String| s@)
}

/// The names of a path.
fn names_of(path: &str) -> (res: Vec<String>)
    ensures
        texts(res@) == names(path@),
{
    let s = chars_of(path);
    let mut res: Vec<String> = Vec::new();
    let mut i: usize = 0;
    assert(s@.skip(0) =~= s@);
    assert(texts(res@) + names(s@) =~= names(s@));
    while i < s.len()
        invariant
            s@ == path@,
            i <= s@.len(),
            texts(res@) + names(s@.skip(i as int)) == names(s@),
        decreases s@.len() - i,
    {
        let end = segment_end(&s, i);
        let next = segment_after(&s, i, end);
        let ghost before = texts(res@);
        let ghost rest = s@.skip(i as int);
        if !is_ignored(&s, i, end) {
            let name = path.substring_char(i, end).to_string();
            res.push(name);
            assert(texts(res@) =~= before.push(head(rest)));
            assert(texts(res@) + names(tail(rest)) =~= before + names(rest));
        }
        i = next;
    }
    assert(texts(res@) =~= names(s@));
    res
}

/// Whether a path begins with a separator.
pub fn has_root(path: &str) -> (res: bool)
    ensures
        res == is_absolute(path@),
{
    let s = chars_of(path);
    s.len() > 0 && s[0] == '/'
}

/// The components of a path.
pub fn components_of(path: &str) -> (res: Vec<String>)
    ensures
        texts(res@) == components(path@),
        res@.len() == components(path@).len(),
        forall|i: int| 0 <= i < res@.len() ==> (#[trigger] res@[i])@ == components(path@)[i],
{
    let s = chars_of(path);
    let mut res: Vec<String> = Vec::new();
    let end = segment_end(&s, 0);
    assert(s@.skip(0) =~= s@);
    proof {
        lemma_head_len(s@);
        assert(s@.subrange(0, end as int) =~= head(s@));
        assert(seq!['.'].len() == 1);
        reveal_strlit("/");
        assert("/"@ =~= seq!['/']);
        reveal_strlit(".");
        assert("."@ =~= seq!['.']);
    }
    if s.len() > 0 && end == 0 {
        res.push("/".to_string());
    } else if end > 0 && is_ignored(&s, 0, end) {
        res.push(".".to_string());
    }
    let ghost first = texts(res@);
    assert(first =~= prefix(path@));
    let mut rest = names_of(path);
    let ghost after = rest@;
    res.append(&mut rest);
    assert(texts(res@) =~= first + texts(after));
    assert forall|i: int| 0 <= i < res@.len() implies (#[trigger] res@[i])@ == components(
        path@,
    )[i] by {
        assert(texts(res@)[i] == res@[i]@);
    }
    res
}

/// Whether two lists of strings agree in their first `n` entries.
fn agree_upto(a: &Vec<String>, b: &Vec<String>, n: usize) -> (res: bool)
    requires
        n <= a@.len(),
        n <= b@.len(),
    ensures
        res == (texts(a@).take(n as int) == texts(b@).take(n as int)),
{
    let mut i: usize = 0;
    while i < n
        invariant
            i <= n,
            n <= a@.len(),
            n <= b@.len(),
            forall|k: int| 0 <= k < i ==> a@[k]@ == b@[k]@,
        decreases n - i,
    {
        if a[i] != b[i] {
            assert(texts(a@).take(n as int)[i as int] != texts(b@).take(n as int)[i as int]);
            return false;
        }
        i = i + 1;
    }
    assert(texts(a@).take(n as int) =~= texts(b@).take(n as int));
    true
}

/// Whether two paths have the same components.
pub fn paths_equal(a: &str, b: &str) -> (res: bool)
    ensures
        res == same_path(a@, b@),
{
    let x = components_of(a);
    let y = components_of(b);
    assert(texts(x@).len() == x@.len() && texts(y@).len() == y@.len());
    if x.len() != y.len() {
        return false;
    }
    assert(texts(x@).take(x@.len() as int) =~= texts(x@));
    assert(texts(y@).take(y@.len() as int) =~= texts(y@));
    agree_upto(&x, &y, x.len())
}

/// The number of components of a path.
pub fn component_count(path: &str) -> (res: usize)
    ensures
        res == components(path@).len(),
{
    let parts = components_of(path);
    assert(texts(parts@).len() == parts@.len());
    parts.len()
}

/// Whether `base` is a leading part of `path`, counted in whole components.
pub fn is_under(path: &str, base: &str) -> (res: bool)
    ensures
        res == starts_with(path@, base@),
{
    let x = components_of(path);
    let y = components_of(base);
    assert(texts(x@).len() == x@.len() && texts(y@).len() == y@.len());
    if y.len() > x.len() {
        return false;
    }
    assert(texts(y@).take(y@.len() as int) =~= texts(y@));
    agree_upto(&x, &y, y.len())
}

/// The part of `path` below its first `n` components.
fn text_below(path: &str, n: usize) -> (res: String)
    requires
        0 < n <= components(path@).len(),
    ensures
        res@ == below(path@, n as int),
{
    let s = chars_of(path);
    let mut left: usize = n;
    let mut start: usize = 0;
    let end = segment_end(&s, 0);
    assert(s@.skip(0) =~= s@);
    proof {
        lemma_head_len(s@);
        assert(s@.subrange(0, end as int) =~= head(s@));
        assert(seq!['.'].len() == 1);
    }
    if s.len() > 0 && is_ignored(&s, 0, end) {
        left = left - 1;
    }
    let ghost k = n - prefix(path@).len();
    assert(left == k);
    let ghost rest = skip_names(s@, k);
    let mut found = false;
    while start < s.len() && !found
        invariant
            start <= s@.len(),
            0 <= left,
            !found ==> rest == skip_names(s@.skip(start as int), left as int),
            found ==> rest == s@.skip(start as int),
        decreases s@.len() - start, !found as int,
    {
        let end = segment_end(&s, start);
        let next = segment_after(&s, start, end);
        if is_ignored(&s, start, end) {
            start = next;
        } else if left == 0 {
            found = true;
        } else {
            start = next;
            left = left - 1;
        }
    }
    if !found {
        assert(s@.skip(start as int).len() == 0);
    }
    assert(rest =~= s@.skip(start as int));
    let mut i: usize = start;
    let mut stop: usize = start;
    assert(s@.subrange(start as int, start as int) + trim_end(rest) =~= trim_end(rest));
    assert(s@.subrange(start as int, start as int) =~= Seq::<char>::empty());
    while i < s.len()
        invariant
            start <= stop <= i <= s@.len(),
            trim_end(rest) == if names(s@.skip(i as int)).len() == 0 {
                s@.subrange(start as int, stop as int)
            } else {
                s@.subrange(start as int, i as int) + trim_end(s@.skip(i as int))
            },
        decreases s@.len() - i,
    {
        let end = segment_end(&s, i);
        let next = segment_after(&s, i, end);
        let ghost u = s@.skip(i as int);
        if !is_ignored(&s, i, end) {
            stop = end;
        }
        proof {
            if names(u).len() > 0 {
                if names(tail(u)).len() == 0 {
                    assert(s@.subrange(start as int, i as int) + head(u)
                        =~= s@.subrange(start as int, end as int));
                } else {
                    assert(end < s@.len()) by {
                        if end == s@.len() {
                            assert(s@.skip(next as int).len() == 0);
                        }
                    }
                    assert(s@.subrange(start as int, i as int) + (head(u) + seq!['/'] + trim_end(tail(u)))
                        =~= s@.subrange(start as int, next as int) + trim_end(tail(u)));
                }
            }
        }
        i = next;
    }
    assert(s@.skip(i as int).len() == 0);
    path.substring_char(start, stop).to_string()
}

/// The part of `path` below `base`, or `None` if `path` does not lie under `base`.
pub fn strip_base(path: &str, base: &str) -> (res: Option<String>)
    requires
        base@.len() > 0,
    ensures
        res is Some <==> starts_with(path@, base@),
        res matches Some(rest) ==> rest@ == below(path@, components(base@).len() as int),
{
    if is_under(path, base) {
        proof {
            lemma_has_component(base@);
        }
        let n = component_count(base);
        Some(text_below(path, n))
    } else {
        None
    }
}

/// `relative` appended to `base`.
pub fn join_text(base: &str, relative: &str) -> (res: String)
    ensures
        res@ == join(base@, relative@),
{
    if has_root(relative) {
        return relative.to_string();
    }
    let b = chars_of(base);
    let mut res = base.to_string();
    if b.len() > 0 && b[b.len() - 1] != '/' {
        proof {
            reveal_strlit("/");
            assert("/"@ =~= seq!['/']);
        }
        res.append("/");
    }
    res.append(relative);
    res
}

} // verus!
