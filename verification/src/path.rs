//! Paths of files in a torrent, written with `/` between their components.

use vstd::prelude::*;
use vstd::string::*;

verus! {

/// A path.
#[derive(Debug, Clone, PartialEq, Eq)]
pub struct FilePath {
    pub text: String,
}

/// The path that results when a component is put behind a path: an absolute component stands
/// alone, any other is set off by a slash.
pub open spec fn pushed(path: Seq<char>, component: Seq<char>) -> Seq<char> {
    if component.len() > 0 && component[0] == '/' {
        component
    } else if path.len() > 0 && path.last() != '/' {
        path + seq!['/'] + component
    } else {
        path + component
    }
}

/// Whether what stands from `start` up to `end` counts as a component: it is not empty, and no
/// single dot, unless the path starts with that dot.
pub open spec fn counts(path: Seq<char>, start: int, end: int) -> bool {
    start < end && (start == 0 || !(end == start + 1 && path[start] == '.'))
}

/// The components from `i` on, of which the current one starts at `start`.
pub open spec fn spans_from(path: Seq<char>, start: int, i: int) -> Seq<(int, int)>
    decreases path.len() - i,
{
    if i < 0 || i >= path.len() {
        if counts(path, start, i) {
            seq![(start, i)]
        } else {
            Seq::empty()
        }
    } else if path[i] == '/' {
        (if counts(path, start, i) {
            seq![(start, i)]
        } else {
            Seq::empty()
        }) + spans_from(path, i + 1, i + 1)
    } else {
        spans_from(path, start, i + 1)
    }
}

/// Where the components of a path start and end, the root not counted.
pub open spec fn spans(path: Seq<char>) -> Seq<(int, int)> {
    spans_from(path, 0, 0)
}

/// Whether a path starts at the root.
pub open spec fn is_absolute(path: Seq<char>) -> bool {
    path.len() > 0 && path[0] == '/'
}

/// The components of a path, a leading slash being the first.
pub open spec fn components(path: Seq<char>) -> Seq<Seq<char>> {
    (if is_absolute(path) {
        seq![seq!['/']]
    } else {
        Seq::empty()
    }) + spans(path).map_values(|p: (int, int)| path.subrange(p.0, p.1))
}

/// The last component, unless it is the root, a dot or two dots.
pub open spec fn file_name(path: Seq<char>) -> Option<Seq<char>> {
    if spans(path).len() == 0 {
        None
    } else {
        let name = path.subrange(spans(path).last().0, spans(path).last().1);
        if name == seq!['.'] || name == seq!['.', '.'] {
            None
        } else {
            Some(name)
        }
    }
}

/// The path without its last component, where it has one.
pub open spec fn parent(path: Seq<char>) -> Option<Seq<char>> {
    let s = spans(path);
    if s.len() == 0 {
        None
    } else if s.len() > 1 {
        Some(path.subrange(0, s[s.len() - 2].1))
    } else if is_absolute(path) {
        Some(seq!['/'])
    } else {
        Some(Seq::empty())
    }
}

/// The position of the last dot before `n`.
pub open spec fn last_dot(name: Seq<char>, n: int) -> Option<int>
    decreases n,
{
    if n <= 0 || n > name.len() {
        None
    } else if name[n - 1] == '.' {
        Some(n - 1)
    } else {
        last_dot(name, n - 1)
    }
}

/// What stands behind the last dot of the file name, where a dot stands behind its first
/// character.
pub open spec fn extension(path: Seq<char>) -> Option<Seq<char>> {
    match file_name(path) {
        None => None,
        Some(name) => match last_dot(name, name.len() as int) {
            None => None,
            Some(k) => if k == 0 {
                None
            } else {
                Some(name.subrange(k + 1, name.len() as int))
            },
        },
    }
}

spec fn in_range(s: Seq<(int, int)>, len: int) -> bool {
    forall|k: int| 0 <= k < s.len() ==> 0 <= (#[trigger] s[k]).0 < s[k].1 <= len
}

proof fn spans_in_range(path: Seq<char>, start: int, i: int)
    requires
        0 <= start <= i <= path.len(),
    ensures
        in_range(spans_from(path, start, i), path.len() as int),
    decreases path.len() - i,
{
    let all = spans_from(path, start, i);
    if i < path.len() {
        if path[i] == '/' {
            spans_in_range(path, i + 1, i + 1);
            let rest = spans_from(path, i + 1, i + 1);
            let n: int = if counts(path, start, i) {
                1
            } else {
                0
            };
            assert forall|k: int| 0 <= k < all.len() implies 0 <= (#[trigger] all[k]).0 < all[k].1
                <= path.len() by {
                if k >= n {
                    assert(all[k] == rest[k - n]);
                }
            }
        } else {
            spans_in_range(path, start, i + 1);
            assert(all == spans_from(path, start, i + 1));
        }
    } else {
        assert(all.len() <= 1);
    }
}

/// Where the components of a path start and end.
fn find_spans(path: &str) -> (r: Vec<(usize, usize)>)
    ensures
        r.len() == spans(path@).len(),
        forall|k: int|
            0 <= k < r.len() ==> (#[trigger] r[k]).0 == spans(path@)[k].0 && r[k].1 == spans(
                path@,
            )[k].1 && r[k].0 < r[k].1 <= path@.len(),
{
    let ghost p = path@;
    let n: usize = path.unicode_len();
    let mut r: Vec<(usize, usize)> = Vec::new();
    let ghost mut done: Seq<(int, int)> = Seq::empty();
    let mut start: usize = 0;
    let mut i: usize = 0;
    assert(done + spans_from(p, 0, 0) =~= spans(p));
    while i < n
        invariant
            start <= i <= n,
            p == path@,
            n == p.len(),
            done + spans_from(p, start as int, i as int) == spans(p),
            done.len() == r.len(),
            forall|k: int|
                0 <= k < r.len() ==> (#[trigger] r[k]).0 == done[k].0 && r[k].1 == done[k].1,
        decreases n - i,
    {
        if path.get_char(i) == '/' {
            if start < i && (start == 0 || !(i == start + 1 && path.get_char(start) == '.')) {
                r.push((start, i));
                proof {
                    let rest = spans_from(p, i + 1, i + 1);
                    assert(done + (seq![(start as int, i as int)] + rest) =~= done.push(
                        (start as int, i as int),
                    ) + rest);
                    done = done.push((start as int, i as int));
                }
            } else {
                proof {
                    let rest = spans_from(p, i + 1, i + 1);
                    assert(done + (Seq::<(int, int)>::empty() + rest) =~= done + rest);
                }
            }
            start = i + 1;
        }
        i = i + 1;
    }
    if start < n && (start == 0 || !(n == start + 1 && path.get_char(start) == '.')) {
        r.push((start, n));
        proof {
            assert(done + seq![(start as int, n as int)] =~= done.push((start as int, n as int)));
            done = done.push((start as int, n as int));
        }
    } else {
        assert(done + Seq::<(int, int)>::empty() =~= done);
    }
    proof {
        assert(done == spans_from(p, 0, 0));
        spans_in_range(p, 0, 0);
        assert forall|k: int| 0 <= k < r.len() implies (#[trigger] r[k]).0 == spans(path@)[k].0
            && r[k].1 == spans(path@)[k].1 && r[k].0 < r[k].1 <= path@.len() by {
            assert(done[k] == spans_from(p, 0, 0)[k]);
        }
    }
    r
}

impl View for FilePath {
    type V = Seq<char>;

    open spec fn view(&self) -> Seq<char> {
        self.text@
    }
}

impl FilePath {
    /// The empty path.
    pub fn new() -> (r: Self)
        ensures
            r@ == Seq::<char>::empty(),
    {
        FilePath { text: String::new() }
    }

    /// The path that a text writes.
    pub fn from_text(text: &str) -> (r: Self)
        ensures
            r@ == text@,
    {
        FilePath { text: String::from_str(text) }
    }

    /// Puts a component behind the path.
    pub fn push(&mut self, component: &str)
        ensures
            final(self)@ == pushed(old(self)@, component@),
    {
        if component.unicode_len() > 0 && component.get_char(0) == '/' {
            self.text = String::from_str(component);
        } else {
            let n: usize = self.text.as_str().unicode_len();
            if n > 0 && self.text.as_str().get_char(n - 1) != '/' {
                proof {
                    reveal_strlit("/");
                    assert("/"@ =~= seq!['/']);
                }
                self.text.append("/");
            }
            self.text.append(component);
        }
    }

    /// The path with another behind it.
    pub fn join(&self, other: &str) -> (r: Self)
        ensures
            r@ == pushed(self@, other@),
    {
        let mut r = FilePath { text: self.text.clone() };
        r.push(other);
        r
    }

    /// The path as a text.
    pub fn as_str(&self) -> (r: &str)
        ensures
            r@ == self@,
    {
        self.text.as_str()
    }

    /// The last component, unless it is the root, a dot or two dots.
    pub fn file_name(&self) -> (r: Option<&str>)
        ensures
            match r {
                Some(s) => file_name(self@) == Some(s@),
                None => file_name(self@) is None,
            },
    {
        let text = self.text.as_str();
        let s = find_spans(text);
        if s.len() == 0 {
            return None;
        }
        let (a, b) = s[s.len() - 1];
        proof {
            assert(spans(text@).last() == spans(text@)[s.len() - 1]);
        }
        let name = text.substring_char(a, b);
        let len: usize = name.unicode_len();
        if len == 1 && name.get_char(0) == '.' {
            assert(name@ =~= seq!['.']);
            return None;
        }
        if len == 2 && name.get_char(0) == '.' && name.get_char(1) == '.' {
            assert(name@ =~= seq!['.', '.']);
            return None;
        }
        Some(name)
    }

    /// The path without its last component, where it has one.
    pub fn parent(&self) -> (r: Option<FilePath>)
        ensures
            match r {
                Some(p) => parent(self@) == Some(p@),
                None => parent(self@) is None,
            },
    {
        let text = self.text.as_str();
        let s = find_spans(text);
        if s.len() == 0 {
            return None;
        }
        if s.len() > 1 {
            let end: usize = s[s.len() - 2].1;
            return Some(FilePath::from_text(text.substring_char(0, end)));
        }
        proof {
            reveal_strlit("/");
            assert("/"@ =~= seq!['/']);
        }
        if text.unicode_len() > 0 && text.get_char(0) == '/' {
            return Some(FilePath::from_text("/"));
        }
        Some(FilePath::new())
    }

    /// What stands behind the last dot of the file name.
    pub fn extension(&self) -> (r: Option<&str>)
        ensures
            match r {
                Some(s) => extension(self@) == Some(s@),
                None => extension(self@) is None,
            },
    {
        let name = match self.file_name() {
            None => return None,
            Some(name) => name,
        };
        let len: usize = name.unicode_len();
        let mut n: usize = len;
        while n > 0 && name.get_char(n - 1) != '.'
            invariant
                n <= len,
                len == name@.len(),
                last_dot(name@, len as int) == last_dot(name@, n as int),
            decreases n,
        {
            n = n - 1;
        }
        if n <= 1 {
            None
        } else {
            Some(name.substring_char(n, len))
        }
    }

    /// The components of the path, a leading slash being the first.
    pub fn components(&self) -> (r: Vec<String>)
        ensures
            r.len() == components(self@).len(),
            forall|i: int| 0 <= i < r.len() ==> (#[trigger] r[i])@ == components(self@)[i],
    {
        let text = self.text.as_str();
        let s = find_spans(text);
        let mut r: Vec<String> = Vec::new();
        let ghost first: Seq<Seq<char>> = if is_absolute(text@) {
            seq![seq!['/']]
        } else {
            Seq::empty()
        };
        if text.unicode_len() > 0 && text.get_char(0) == '/' {
            proof {
                reveal_strlit("/");
                assert("/"@ =~= seq!['/']);
            }
            r.push(String::from_str("/"));
        }
        let mut i: usize = 0;
        while i < s.len()
            invariant
                i <= s.len(),
                text@ == self@,
                s.len() == spans(text@).len(),
                forall|k: int|
                    0 <= k < s.len() ==> (#[trigger] s[k]).0 == spans(text@)[k].0 && s[k].1 == spans(
                        text@,
                    )[k].1 && s[k].0 < s[k].1 <= text@.len(),
                components(self@) == first + spans(text@).map_values(
                    |p: (int, int)| text@.subrange(p.0, p.1),
                ),
                r.len() == first.len() + i,
                forall|k: int| 0 <= k < r.len() ==> (#[trigger] r[k])@ == components(self@)[k],
            decreases s.len() - i,
        {
            let (a, b) = s[i];
            r.push(String::from_str(text.substring_char(a, b)));
            proof {
                assert(components(self@)[first.len() + i] == spans(text@).map_values(
                    |p: (int, int)| text@.subrange(p.0, p.1),
                )[i as int]);
            }
            i = i + 1;
        }
        r
    }
}

// ---------------------------------------------------------------------------------------------
// Laws

/// The path that components lead to, one behind the other.
pub open spec fn path_of(l: Seq<Seq<char>>) -> Seq<char>
    decreases l.len(),
{
    if l.len() == 0 {
        Seq::empty()
    } else {
        pushed(path_of(l.drop_last()), l.last())
    }
}

/// A component that is a name: it is not empty, no single dot, and holds no slash.
pub open spec fn is_name(c: Seq<char>) -> bool {
    &&& c.len() > 0
    &&& c != seq!['.']
    &&& !c.contains('/')
}

proof fn spans_behind(p: Seq<char>, c: Seq<char>, start: int, i: int)
    requires
        0 <= start <= i <= p.len(),
    ensures
        ({
            let q = p + seq!['/'] + c;
            spans_from(q, start, i) == spans_from(p, start, i) + spans_from(
                q,
                p.len() as int + 1,
                p.len() as int + 1,
            )
        }),
    decreases p.len() - i,
{
    let q = p + seq!['/'] + c;
    let tail = spans_from(q, p.len() as int + 1, p.len() as int + 1);
    assert(start < p.len() ==> q[start] == p[start]);
    if i < p.len() {
        assert(q[i] == p[i]);
        if p[i] == '/' {
            spans_behind(p, c, i + 1, i + 1);
            let first: Seq<(int, int)> = if counts(p, start, i) {
                seq![(start, i)]
            } else {
                Seq::empty()
            };
            let rest = spans_from(p, i + 1, i + 1);
            assert(first + (rest + tail) =~= (first + rest) + tail);
        } else {
            spans_behind(p, c, start, i + 1);
        }
    } else {
        assert(q[i] == '/');
    }
}

proof fn spans_of_name(q: Seq<char>, start: int, i: int)
    requires
        0 <= start <= i <= q.len(),
        forall|k: int| i <= k < q.len() ==> #[trigger] q[k] != '/',
        counts(q, start, q.len() as int),
    ensures
        spans_from(q, start, i) == seq![(start, q.len() as int)],
    decreases q.len() - i,
{
    if i < q.len() {
        spans_of_name(q, start, i + 1);
    }
}

proof fn path_of_names_ends(l: Seq<Seq<char>>)
    requires
        l.len() > 0,
        forall|k: int| 0 <= k < l.len() ==> is_name(#[trigger] l[k]),
    ensures
        path_of(l).len() > 0,
        path_of(l).last() != '/',
        path_of(l)[0] != '/',
    decreases l.len(),
{
    let front = l.drop_last();
    let c = l.last();
    assert(c == l[l.len() - 1]);
    assert(c.contains(c[0]) && c.contains(c.last()));
    if front.len() > 0 {
        assert forall|k: int| 0 <= k < front.len() implies is_name(#[trigger] front[k]) by {
            assert(front[k] == l[k]);
        }
        path_of_names_ends(front);
    }
}

/// The components of a path that is made of names are those names.
pub proof fn names_are_the_components(l: Seq<Seq<char>>)
    requires
        forall|k: int| 0 <= k < l.len() ==> is_name(#[trigger] l[k]),
    ensures
        components(path_of(l)) == l,
    decreases l.len(),
{
    let path = path_of(l);
    if l.len() > 0 {
        let front = l.drop_last();
        let c = l.last();
        assert(c == l[l.len() - 1]);
        path_of_names_ends(l);
        assert(!is_absolute(path));
        assert(c.contains(c[0]));
        assert forall|k: int| 0 <= k < c.len() implies #[trigger] c[k] != '/' by {
            assert(c.contains(c[k]));
        }
        if front.len() == 0 {
            assert(path_of(front) =~= Seq::<char>::empty());
            assert(path =~= c);
            spans_of_name(path, 0, 0);
            assert(path.subrange(0, path.len() as int) =~= c);
        } else {
            assert forall|k: int| 0 <= k < front.len() implies is_name(#[trigger] front[k]) by {
                assert(front[k] == l[k]);
            }
            path_of_names_ends(front);
            names_are_the_components(front);
            let p = path_of(front);
            assert(path == p + seq!['/'] + c);
            spans_behind(p, c, 0, 0);
            let at = p.len() as int + 1;
            assert(path.subrange(at, path.len() as int) =~= c);
            assert(counts(path, at, path.len() as int)) by {
                if path.len() == at + 1 && path[at] == '.' {
                    assert(c =~= seq!['.']);
                }
            }
            assert forall|k: int| at <= k < path.len() implies #[trigger] path[k] != '/' by {
                assert(path[k] == c[k - at]);
            }
            spans_of_name(path, at, at);
            spans_in_range(p, 0, 0);
            let f = spans(p);
            assert forall|k: int| 0 <= k < l.len() implies #[trigger] components(path)[k] == l[k] by {
                if k < front.len() {
                    assert(spans(path)[k] == f[k]);
                    assert(front[k] == components(p)[k]);
                    assert(path.subrange(f[k].0, f[k].1) =~= p.subrange(f[k].0, f[k].1));
                } else {
                    assert(spans(path)[k] == (at, path.len() as int));
                }
            }
        }
    }
    assert(components(path) =~= l);
}

proof fn last_name_ends_the_path(l: Seq<Seq<char>>)
    requires
        l.len() > 0,
        forall|k: int| 0 <= k < l.len() ==> is_name(#[trigger] l[k]),
    ensures
        spans(path_of(l)).len() > 0,
        spans(path_of(l)).last().1 == path_of(l).len(),
        l.len() > 1 ==> spans(path_of(l)).drop_last() == spans(path_of(l.drop_last())),
        l.len() == 1 ==> spans(path_of(l)).len() == 1,
{
    let path = path_of(l);
    let front = l.drop_last();
    let c = l.last();
    assert(c == l[l.len() - 1]);
    path_of_names_ends(l);
    assert(c.contains(c[0]));
    assert forall|k: int| 0 <= k < c.len() implies #[trigger] c[k] != '/' by {
        assert(c.contains(c[k]));
    }
    if front.len() == 0 {
        assert(path_of(front) =~= Seq::<char>::empty());
        assert(path =~= c);
        spans_of_name(path, 0, 0);
    } else {
        assert forall|k: int| 0 <= k < front.len() implies is_name(#[trigger] front[k]) by {
            assert(front[k] == l[k]);
        }
        path_of_names_ends(front);
        let p = path_of(front);
        assert(path == p + seq!['/'] + c);
        spans_behind(p, c, 0, 0);
        let at = p.len() as int + 1;
        assert(path.subrange(at, path.len() as int) =~= c);
        assert(counts(path, at, path.len() as int)) by {
            if path.len() == at + 1 && path[at] == '.' {
                assert(c =~= seq!['.']);
            }
        }
        assert forall|k: int| at <= k < path.len() implies #[trigger] path[k] != '/' by {
            assert(path[k] == c[k - at]);
        }
        spans_of_name(path, at, at);
        assert(spans(path).drop_last() =~= spans(p));
    }
}

/// The parent of a path that is made of names is the path that the names but the last lead to.
pub proof fn parent_lacks_the_last_name(l: Seq<Seq<char>>)
    requires
        l.len() > 0,
        forall|k: int| 0 <= k < l.len() ==> is_name(#[trigger] l[k]),
    ensures
        parent(path_of(l)) == Some(path_of(l.drop_last())),
{
    let path = path_of(l);
    let front = l.drop_last();
    path_of_names_ends(l);
    last_name_ends_the_path(l);
    if l.len() == 1 {
        assert(path_of(front) =~= Seq::<char>::empty());
    } else {
        assert forall|k: int| 0 <= k < front.len() implies is_name(#[trigger] front[k]) by {
            assert(front[k] == l[k]);
        }
        last_name_ends_the_path(front);
        path_of_names_ends(front);
        let s = spans(path);
        let p = path_of(front);
        assert(l.last() == l[l.len() - 1]);
        assert(l.last().contains(l.last()[0]));
        assert(path == p + seq!['/'] + l.last());
        assert(s[s.len() - 2] == s.drop_last().last());
        assert(path.subrange(0, p.len() as int) =~= p);
    }
}

} // verus!
