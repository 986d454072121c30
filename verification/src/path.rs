//! Unix paths as text: joining and comparing.
use crate::text;
use vstd::prelude::*;
use vstd::string::{StrSliceExecFns, StringExecFns};

verus! {

/// `base` with `part` adjoined. An absolute `part` replaces `base`.
pub open spec fn joined(base: Seq<char>, part: Seq<char>) -> Seq<char> {
    if part.len() > 0 && part[0] == '/' {
        part
    } else if base.len() == 0 || base.last() == '/' {
        base + part
    } else {
        base.push('/') + part
    }
}

/// The names among the `/`-separated parts of a path: empty parts do not count, nor does a `.`
/// that is not the very first part.
pub open spec fn names(parts: Seq<Seq<char>>) -> Seq<Seq<char>>
    decreases parts.len(),
{
    if parts.len() == 0 {
        Seq::empty()
    } else if parts.last().len() == 0 || (parts.last() == seq!['.'] && parts.len() > 1) {
        names(parts.drop_last())
    } else {
        names(parts.drop_last()).push(parts.last())
    }
}

/// Whether a path is absolute.
pub open spec fn is_rooted(path: Seq<char>) -> bool {
    path.len() > 0 && path[0] == '/'
}

/// Whether two paths have the same components, so that repeated and trailing separators and
/// inner `.` parts make no difference.
pub open spec fn same_components(a: Seq<char>, b: Seq<char>) -> bool {
    &&& is_rooted(a) == is_rooted(b)
    &&& names(text::split(a, '/')) == names(text::split(b, '/'))
}

/// Adjoins `part` to `base`.
pub fn join(base: &str, part: &str) -> (r: String)
    ensures
        r@ == joined(base@, part@),
{
    let p = text::chars(part);
    if p.len() > 0 && p[0] == '/' {
        return part.to_owned();
    }
    let b = text::chars(base);
    let mut r = base.to_owned();
    if b.len() > 0 && b[b.len() - 1] != '/' {
        r.push('/');
    }
    r.append(part);
    r
}

fn name_list(path: &str) -> (r: Vec<String>)
    ensures
        text::texts(r@) == names(text::split(path@, '/')),
{
    let parts = text::split_on(path, '/');
    let ghost all = text::split(path@, '/');
    let mut r: Vec<String> = Vec::new();
    let mut i: usize = 0;
    proof {
        reveal_strlit(".");
        assert("."@ == seq!['.']);
        assert(text::texts(r@) == names(all.take(0)));
    }
    while i < parts.len()
        invariant
            all == text::texts(parts@),
            i <= parts.len(),
            "."@ == seq!['.'],
            text::texts(r@) == names(all.take(i as int)),
        decreases parts.len() - i,
    {
        assert(all.take(i + 1).drop_last() == all.take(i as int));
        assert(all[i as int] == parts@[i as int]@);
        let skip = parts[i].as_str().is_empty() || (i > 0 && text::same(parts[i].as_str(), "."));
        if !skip {
            let ghost before = text::texts(r@);
            r.push(parts[i].clone());
            assert(text::texts(r@) == before.push(all[i as int]));
        }
        i += 1;
    }
    assert(all.take(all.len() as int) == all);
    r
}

fn rooted(path: &str) -> (r: bool)
    ensures
        r == is_rooted(path@),
{
    let v = text::chars(path);
    v.len() > 0 && v[0] == '/'
}

/// Whether two paths have the same components.
pub fn same_path(a: &str, b: &str) -> (r: bool)
    ensures
        r == same_components(a@, b@),
{
    let x = name_list(a);
    let y = name_list(b);
    if rooted(a) != rooted(b) || x.len() != y.len() {
        proof {
            if x.len() != y.len() {
                assert(text::texts(x@).len() != text::texts(y@).len());
            }
        }
        return false;
    }
    let mut i: usize = 0;
    while i < x.len()
        invariant
            i <= x.len(),
            x.len() == y.len(),
            text::texts(x@) == names(text::split(a@, '/')),
            text::texts(y@) == names(text::split(b@, '/')),
            forall|j: int| 0 <= j < i ==> (#[trigger] x@[j])@ == y@[j]@,
        decreases x.len() - i,
    {
        if x[i] != y[i] {
            proof {
                assert(text::texts(x@)[i as int] != text::texts(y@)[i as int]);
            }
            return false;
        }
        i += 1;
    }
    assert(text::texts(x@) == text::texts(y@));
    true
}

/// A path without what follows the end of its last component: separators and `.` parts.
pub open spec fn without_tail(s: Seq<char>) -> Seq<char>
    decreases s.len(),
{
    if s.len() > 0 && s.last() == '/' {
        without_tail(s.drop_last())
    } else if s.len() > 1 && s.last() == '.' && s[s.len() - 2] == '/' {
        without_tail(s.drop_last())
    } else {
        s
    }
}

/// Where the last part of a path starts: behind its last separator.
pub open spec fn name_start(s: Seq<char>) -> int
    decreases s.len(),
{
    if s.len() == 0 || s.last() == '/' {
        s.len() as int
    } else {
        name_start(s.drop_last())
    }
}

/// The position of the last dot before `end` in a name that starts at `start`. A dot at the very
/// start of the name does not count.
pub open spec fn last_dot(s: Seq<char>, start: int, end: int) -> Option<int>
    decreases end - start,
{
    if end <= start + 1 {
        None
    } else if s[end - 1] == '.' {
        Some(end - 1)
    } else {
        last_dot(s, start, end - 1)
    }
}

/// Whether a part of a path stands for no file of its own: it is empty, `.` or `..`.
pub open spec fn is_no_name(part: Seq<char>) -> bool {
    part.len() == 0 || part == seq!['.'] || part == seq!['.', '.']
}

/// A path with another extension on its file name. The extension of a name is what follows its last
/// dot, unless that dot starts the name; a name without one gets one. A path without a file name
/// stays as it is.
pub open spec fn with_extension(s: Seq<char>, extension: Seq<char>) -> Seq<char> {
    let t = without_tail(s);
    let start = name_start(t);
    if is_no_name(t.skip(start)) {
        s
    } else {
        match last_dot(t, start, t.len() as int) {
            Some(dot) => t.take(dot).push('.') + extension,
            None => t.push('.') + extension,
        }
    }
}

/// The last part of a path starts behind a separator that no other separator follows.
pub proof fn name_starts_after(s: Seq<char>, start: int)
    requires
        0 < start <= s.len(),
        s[start - 1] == '/',
        forall|i: int| start <= i < s.len() ==> #[trigger] s[i] != '/',
    ensures
        name_start(s) == start,
    decreases s.len(),
{
    if s.len() > start {
        assert(s.last() == s[s.len() - 1]);
        name_starts_after(s.drop_last(), start);
    }
}

/// Puts another extension on the file name of a path.
pub fn replace_extension(s: &str, extension: &str) -> (r: String)
    ensures
        r@ == with_extension(s@, extension@),
{
    let v = text::chars(s);
    let mut end: usize = v.len();
    assert(s@.take(end as int) == s@);
    while end > 0 && (v[end - 1] == '/' || (end > 1 && v[end - 1] == '.' && v[end - 2] == '/'))
        invariant
            v@ == s@,
            end <= v.len(),
            without_tail(s@) == without_tail(s@.take(end as int)),
        decreases end,
    {
        assert(s@.take(end as int).drop_last() == s@.take(end - 1));
        end -= 1;
    }
    let ghost t = s@.take(end as int);
    assert(without_tail(s@) == t);
    let mut start: usize = end;
    assert(t.take(start as int) == t);
    while start > 0 && v[start - 1] != '/'
        invariant
            v@ == s@,
            end <= v.len(),
            t == s@.take(end as int),
            start <= end,
            name_start(t) == name_start(t.take(start as int)),
        decreases start,
    {
        assert(t.take(start as int).drop_last() == t.take(start - 1));
        start -= 1;
    }
    assert(name_start(t) == start);
    let ghost name = t.skip(start as int);
    let n: usize = end - start;
    if n == 0 || (n == 1 && v[start] == '.') || (n == 2 && v[start] == '.' && v[start + 1] == '.') {
        proof {
            if n == 1 {
                assert(name == seq!['.']);
            } else if n == 2 {
                assert(name == seq!['.', '.']);
            }
        }
        return s.to_owned();
    }
    proof {
        assert(name.len() == n);
        assert(name[0] == v@[start as int]);
        if n == 2 {
            assert(name[1] == v@[start + 1]);
        }
        assert(!is_no_name(name));
    }
    let mut dot: usize = end;
    while dot > start + 1 && v[dot - 1] != '.'
        invariant
            v@ == s@,
            end <= v.len(),
            t == s@.take(end as int),
            start < dot <= end,
            last_dot(t, start as int, end as int) == last_dot(t, start as int, dot as int),
        decreases dot,
    {
        dot -= 1;
    }
    let stem_end: usize = if dot > start + 1 {
        dot - 1
    } else {
        end
    };
    assert(t.take(stem_end as int) == s@.subrange(0, stem_end as int));
    let mut r = s.substring_char(0, stem_end).to_owned();
    assert(r@ == t.take(stem_end as int));
    assert(t.take(end as int) == t);
    r.push('.');
    r.append(extension);
    r
}

proof fn split_at_last_separator(a: Seq<char>, m: Seq<char>)
    requires
        !m.contains('/'),
    ensures
        text::split(a.push('/') + m, '/') == text::split(a, '/').push(m),
    decreases m.len(),
{
    let s = a.push('/') + m;
    if m.len() == 0 {
        assert(s == a.push('/'));
        assert(a.push('/').drop_last() == a);
        assert(m == Seq::<char>::empty());
    } else {
        let front = m.drop_last();
        assert forall|i: int| 0 <= i < front.len() implies #[trigger] front[i] != '/' by {
            assert(m[i] == front[i]);
        }
        split_at_last_separator(a, front);
        assert(s.drop_last() == a.push('/') + front);
        assert(m[m.len() - 1] != '/');
        assert(s.last() == m.last());
        let parts = text::split(a, '/').push(front);
        assert(parts.drop_last() == text::split(a, '/'));
        assert(front.push(m.last()) == m);
    }
}

proof fn split_of_a_name(m: Seq<char>)
    requires
        !m.contains('/'),
    ensures
        text::split(m, '/') == seq![m],
    decreases m.len(),
{
    if m.len() > 0 {
        let front = m.drop_last();
        assert forall|i: int| 0 <= i < front.len() implies #[trigger] front[i] != '/' by {
            assert(m[i] == front[i]);
        }
        split_of_a_name(front);
        assert(m[m.len() - 1] != '/');
        assert(seq![front].drop_last() == Seq::<Seq<char>>::empty());
        assert(front.push(m.last()) == m);
        assert(text::split(m, '/') == seq![m]);
    } else {
        assert(m == Seq::<char>::empty());
    }
}

/// Whether a text can be the name of a file: it is not empty, not `.`, and holds no separator.
pub open spec fn is_file_name(m: Seq<char>) -> bool {
    m.len() > 0 && m != seq!['.'] && !m.contains('/')
}

/// Two files count as the same exactly if their names are equal and their directories count as the
/// same.
pub proof fn files_are_told_apart(a: Seq<char>, m: Seq<char>, b: Seq<char>, n: Seq<char>)
    requires
        is_file_name(m),
        is_file_name(n),
    ensures
        same_components(a.push('/') + m, b.push('/') + n) <==> m == n && same_components(
            a.push('/'),
            b.push('/'),
        ),
{
    let none = Seq::<char>::empty();
    split_at_last_separator(a, m);
    split_at_last_separator(b, n);
    split_at_last_separator(a, none);
    split_at_last_separator(b, none);
    assert(a.push('/') + none == a.push('/'));
    assert(b.push('/') + none == b.push('/'));
    text::split_loses_nothing(a, '/');
    text::split_loses_nothing(b, '/');
    let p = text::split(a, '/');
    let q = text::split(b, '/');
    assert(p.push(m).drop_last() == p);
    assert(q.push(n).drop_last() == q);
    assert(p.push(none).drop_last() == p);
    assert(q.push(none).drop_last() == q);
    assert((a.push('/') + m)[0] == a.push('/')[0]);
    assert((b.push('/') + n)[0] == b.push('/')[0]);
    let x = names(p);
    let y = names(q);
    assert(names(p.push(m)) == x.push(m));
    assert(names(q.push(n)) == y.push(n));
    if x.push(m) == y.push(n) {
        assert(x.push(m).drop_last() == x);
        assert(y.push(n).drop_last() == y);
        assert(x.push(m).last() == m);
        assert(y.push(n).last() == n);
    }
}

/// Two files in one directory count as the same exactly if their names are equal, whatever the
/// directory is.
pub proof fn siblings_are_told_apart(dir: Seq<char>, m: Seq<char>, n: Seq<char>)
    requires
        is_file_name(m),
        is_file_name(n),
    ensures
        same_components(dir.push('/') + m, dir.push('/') + n) <==> m == n,
        same_components(joined(dir, m), joined(dir, n)) <==> m == n,
{
    files_are_told_apart(dir, m, dir, n);
    assert(m[0] != '/') by {
        assert(m.contains(m[0]));
    }
    assert(n[0] != '/') by {
        assert(n.contains(n[0]));
    }
    if dir.len() == 0 {
        assert(dir + m == m);
        assert(dir + n == n);
        split_of_a_name(m);
        split_of_a_name(n);
        assert(seq![m].drop_last() == Seq::<Seq<char>>::empty());
        assert(seq![n].drop_last() == Seq::<Seq<char>>::empty());
        reveal_with_fuel(names, 2);
        assert(names(seq![m]) == seq![m]);
        assert(names(seq![n]) == seq![n]);
        if seq![m] == seq![n] {
            assert(seq![m][0] == seq![n][0]);
        }
    } else if dir.last() == '/' {
        let d = dir.drop_last();
        assert(d.push('/') == dir);
        files_are_told_apart(d, m, d, n);
    }
}

/// To count as the same path is an equivalence. A path that starts at the root never counts as the
/// same as one that does not, and what counts as the same stays so when a separator is added at the
/// end.
pub proof fn sameness_is_an_equivalence(a: Seq<char>, b: Seq<char>, c: Seq<char>)
    ensures
        same_components(a, a),
        same_components(a, b) ==> same_components(b, a),
        same_components(a, b) && same_components(b, c) ==> same_components(a, c),
        a.len() > 0 && a[0] == '/' && (b.len() == 0 || b[0] != '/') ==> !same_components(a, b),
        a.len() > 0 ==> same_components(a, a.push('/')),
{
    let none = Seq::<char>::empty();
    split_at_last_separator(a, none);
    assert(a.push('/') + none == a.push('/'));
    let p = text::split(a, '/');
    assert(p.push(none).drop_last() == p);
    if a.len() > 0 {
        assert(a.push('/')[0] == a[0]);
    }
}

/// Joining: an absolute part stands for itself. A relative one comes right behind the base, with
/// exactly one separator in between unless the base is empty; nothing of either is lost.
pub proof fn joining_keeps_both(base: Seq<char>, part: Seq<char>)
    ensures
        part.len() > 0 && part[0] == '/' ==> joined(base, part) == part,
        !(part.len() > 0 && part[0] == '/') ==> {
            let n = (joined(base, part).len() - part.len()) as int;
            &&& joined(base, part).skip(n) == part
            &&& joined(base, part).take(base.len() as int) == base
            &&& base.len() <= n <= base.len() + 1
            &&& base.len() == 0 <==> n == 0
            &&& n > 0 ==> joined(base, part)[n - 1] == '/'
            &&& n > base.len() ==> base.last() != '/'
        },
{
    if !(part.len() > 0 && part[0] == '/') {
        let j = joined(base, part);
        let n = (j.len() - part.len()) as int;
        assert(j.skip(n) =~= part);
        assert(j.take(base.len() as int) =~= base);
    }
}

/// Joining is associative.
pub proof fn joining_is_associative(a: Seq<char>, b: Seq<char>, c: Seq<char>)
    ensures
        joined(joined(a, b), c) == joined(a, joined(b, c)),
{
    assert(joined(joined(a, b), c) =~= joined(a, joined(b, c)));
}

/// Another extension leaves the directory of a file alone, and the new name is the stem of the old
/// one, a dot and the extension.
pub proof fn extension_is_replaced(
    dir: Seq<char>,
    stem: Seq<char>,
    before: Seq<char>,
    after: Seq<char>,
)
    requires
        stem.len() > 0,
        !stem.contains('/'),
        before.len() > 0,
        !before.contains('/'),
        !before.contains('.'),
    ensures
        with_extension(dir.push('/') + stem.push('.') + before, after) == dir.push('/')
            + stem.push('.') + after,
{
    let s = dir.push('/') + stem.push('.') + before;
    let start = (dir.len() + 1) as int;
    let dot = (start + stem.len()) as int;
    assert(s.last() == before.last());
    assert(before.contains(before.last()));
    assert(without_tail(s) == s);
    assert forall|i: int| start <= i < s.len() implies #[trigger] s[i] != '/' by {
        if i < dot {
            assert(stem.contains(stem[i - start]));
        } else if i > dot {
            assert(before.contains(before[i - dot - 1]));
        }
    }
    name_starts_after(s, start);
    assert forall|i: int| dot < i < s.len() implies #[trigger] s[i] != '.' by {
        assert(before.contains(before[i - dot - 1]));
    }
    no_later_dot(s, start, dot, s.len() as int);
    assert(s.skip(start).last() == before.last());
    assert(!is_no_name(s.skip(start)));
    assert(s.take(dot).push('.') + after =~= dir.push('/') + stem.push('.') + after);
}

proof fn no_later_dot(s: Seq<char>, start: int, dot: int, end: int)
    requires
        0 <= start < dot < end <= s.len(),
        s[dot] == '.',
        forall|i: int| dot < i < end ==> #[trigger] s[i] != '.',
    ensures
        last_dot(s, start, end) == Some(dot),
    decreases end - dot,
{
    if end - 1 > dot {
        assert(s[end - 1] != '.');
        no_later_dot(s, start, dot, end - 1);
    }
}

} // verus!
