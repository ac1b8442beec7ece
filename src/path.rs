//! Host paths confined to an exported root, and the resolution of one walk step.
use vstd::prelude::*;
use vstd::string::*;
use crate::error::{P9Error, EINVAL};

verus! {

/// An absolute host path, held as its components ("/a/b" is `["a", "b"]`).
#[derive(Clone, Debug, PartialEq, Eq)]
pub struct HostPath {
    comps: Vec<String>,
}

impl View for HostPath {
    type V = Seq<Seq<char>>;

    closed spec fn view(&self) -> Seq<Seq<char>> {
        self.comps@.map_values(|c: String| c@)
    }
}

/// A path component as `HostPath::parse` keeps it: not empty, not `.`,
/// without a separator.
pub open spec fn valid_component(c: Seq<char>) -> bool {
    c.len() > 0 && !is_dot(c) && !has_separator(c)
}

/// The text of a path: `/` alone for the root, else each component after a `/`.
pub open spec fn path_text(p: Seq<Seq<char>>) -> Seq<char>
    decreases p.len(),
{
    if p.len() == 0 {
        seq!['/']
    } else if p.len() == 1 {
        seq!['/'] + p[0]
    } else {
        path_text(p.drop_last()) + seq!['/'] + p.last()
    }
}

/// `p` is `root` or lies below it.
pub open spec fn within(p: Seq<Seq<char>>, root: Seq<Seq<char>>) -> bool {
    root.len() <= p.len() && p.subrange(0, root.len() as int) == root
}

/// The name `..`.
pub open spec fn is_dot_dot(s: Seq<char>) -> bool {
    s =~= seq!['.', '.']
}

/// The name `.`.
pub open spec fn is_dot(s: Seq<char>) -> bool {
    s =~= seq!['.']
}

/// Whether `s` holds a path separator.
pub open spec fn has_separator(s: Seq<char>) -> bool {
    exists|i: int| 0 <= i < s.len() && s[i] == '/'
}

/// A walk step that names nothing or more than one component: `.`, the
/// empty name, or one with a separator (which includes absolute names).
pub open spec fn bad_segment(s: Seq<char>) -> bool {
    s.len() == 0 || is_dot(s) || has_separator(s)
}

/// The path that one valid walk step from `p` names: the parent for `..`
/// (but `root` stays `root`), the child otherwise.
pub open spec fn join_spec(p: Seq<Seq<char>>, name: Seq<char>, root: Seq<Seq<char>>) -> Seq<Seq<char>> {
    if is_dot_dot(name) {
        if p == root || p.len() == 0 {
            p
        } else {
            p.drop_last()
        }
    } else {
        p.push(name)
    }
}

/// The path that a sequence of walk steps from `p` names, or `None` when a
/// step is not a valid walk step.
pub open spec fn walk_spec(p: Seq<Seq<char>>, names: Seq<Seq<char>>, root: Seq<Seq<char>>) -> Option<
    Seq<Seq<char>>,
>
    decreases names.len(),
{
    if names.len() == 0 {
        Some(p)
    } else if bad_segment(names[0]) {
        None
    } else {
        walk_spec(join_spec(p, names[0], root), names.drop_first(), root)
    }
}

/// One walk step never leaves the root.
pub proof fn lemma_join_within(p: Seq<Seq<char>>, name: Seq<char>, root: Seq<Seq<char>>)
    requires
        within(p, root),
    ensures
        within(join_spec(p, name, root), root),
{
    let r = join_spec(p, name, root);
    if is_dot_dot(name) {
        if !(p == root || p.len() == 0) {
            if p.len() == root.len() {
                assert(p =~= p.subrange(0, root.len() as int));
            }
            assert(r.subrange(0, root.len() as int) =~= p.subrange(0, root.len() as int));
        }
    } else {
        assert(r.subrange(0, root.len() as int) =~= p.subrange(0, root.len() as int));
    }
}

/// Whatever the walk steps, a path reached from the root or below it by a
/// walk is the root or lies below it: `..` never escapes, and steps that are
/// `.`, empty or hold a separator are refused.
pub proof fn lemma_walk_confined(p: Seq<Seq<char>>, names: Seq<Seq<char>>, root: Seq<Seq<char>>)
    requires
        within(p, root),
    ensures
        walk_spec(p, names, root) matches Some(q) ==> within(q, root),
    decreases names.len(),
{
    if names.len() > 0 && !bad_segment(names[0]) {
        lemma_join_within(p, names[0], root);
        lemma_walk_confined(join_spec(p, names[0], root), names.drop_first(), root);
    }
}

/// `n` steps of `..`.
pub open spec fn dot_dots(n: nat) -> Seq<Seq<char>> {
    Seq::new(n, |i: int| seq!['.', '.'])
}

/// Any number of `..` steps taken at the root leave the root unchanged.
pub proof fn lemma_root_parent_is_root(root: Seq<Seq<char>>, n: nat)
    ensures
        walk_spec(root, dot_dots(n), root) == Some(root),
    decreases n,
{
    if n > 0 {
        assert(dot_dots(n)[0] =~= seq!['.', '.']);
        assert(!has_separator(dot_dots(n)[0]));
        assert(dot_dots(n).drop_first() =~= dot_dots((n - 1) as nat));
        lemma_root_parent_is_root(root, (n - 1) as nat);
    }
}

impl HostPath {
    /// The path of `s`, split at each `/`; empty components and `.` are dropped.
    pub fn parse(s: &str) -> (r: HostPath)
        ensures
            forall|k: int| 0 <= k < r@.len() ==> valid_component(#[trigger] r@[k]),
    {
        let n = s.unicode_len();
        let mut comps: Vec<String> = Vec::new();
        let mut start: usize = 0;
        let mut i: usize = 0;
        while i < n
            invariant
                n == s@.len(),
                start <= i,
                i <= n,
                forall|j: int| start <= j < i ==> s@[j] != '/',
                forall|k: int| 0 <= k < comps@.len() ==> valid_component(#[trigger] comps@[k]@),
            decreases n - i,
        {
            if s.get_char(i) == '/' {
                if i > start && !(i == start + 1 && s.get_char(start) == '.') {
                    let part = s.substring_char(start, i);
                    proof {
                        assert(part@.len() > 0);
                        assert forall|j: int| 0 <= j < part@.len() implies part@[j] != '/' by {
                            assert(part@[j] == s@[start + j]);
                        }
                        assert(!is_dot(part@)) by {
                            if part@.len() == 1 {
                                assert(part@[0] == s@[start as int]);
                            }
                        }
                    }
                    comps.push(part.to_owned());
                }
                start = i + 1;
            }
            i = i + 1;
        }
        if n > start && !(n == start + 1 && s.get_char(start) == '.') {
            let part = s.substring_char(start, n);
            proof {
                assert forall|j: int| 0 <= j < part@.len() implies part@[j] != '/' by {
                    assert(part@[j] == s@[start + j]);
                }
                assert(!is_dot(part@)) by {
                    if part@.len() == 1 {
                        assert(part@[0] == s@[start as int]);
                    }
                }
            }
            comps.push(part.to_owned());
        }
        let r = HostPath { comps };
        assert forall|k: int| 0 <= k < r@.len() implies valid_component(#[trigger] r@[k]) by {
            assert(r@[k] == r.comps@[k]@);
        }
        r
    }

    /// A copy of this path.
    pub fn copy(&self) -> (r: HostPath)
        ensures
            r@ == self@,
    {
        let mut comps: Vec<String> = Vec::new();
        let mut i: usize = 0;
        while i < self.comps.len()
            invariant
                i <= self.comps.len(),
                comps@.len() == i,
                forall|j: int| 0 <= j < i ==> comps@[j]@ == self.comps@[j]@,
            decreases self.comps.len() - i,
        {
            comps.push(self.comps[i].clone());
            i = i + 1;
        }
        let r = HostPath { comps };
        assert(r@ =~= self@);
        r
    }

    /// The number of components.
    pub fn depth(&self) -> (r: usize)
        ensures
            r == self@.len(),
    {
        self.comps.len()
    }

    /// The path as text: `/` followed by the components joined with `/`.
    pub fn to_text(&self) -> (r: String)
        ensures
            r@ == path_text(self@),
    {
        let mut out = String::from_str("/");
        let mut i: usize = 0;
        proof {
            reveal_strlit("/");
            assert(self@.take(0) =~= Seq::<Seq<char>>::empty());
        }
        while i < self.comps.len()
            invariant
                i <= self.comps@.len(),
                out@ == path_text(self@.take(i as int)),
            decreases self.comps.len() - i,
        {
            proof {
                reveal_strlit("/");
                assert(self@.take(i + 1).drop_last() =~= self@.take(i as int));
                assert(self@.take(i + 1).last() == self.comps@[i as int]@);
            }
            if i > 0 {
                out.append("/");
            }
            out.append(self.comps[i].as_str());
            i = i + 1;
        }
        assert(self@.take(i as int) =~= self@);
        out
    }

    /// Whether two paths have the same components.
    pub fn same_as(&self, other: &HostPath) -> (r: bool)
        ensures
            r == (self@ == other@),
    {
        if self.comps.len() != other.comps.len() {
            proof {
                assert(self@.len() != other@.len());
            }
            return false;
        }
        let mut i: usize = 0;
        while i < self.comps.len()
            invariant
                self.comps.len() == other.comps.len(),
                i <= self.comps.len(),
                forall|j: int| 0 <= j < i ==> self@[j] == other@[j],
            decreases self.comps.len() - i,
        {
            if self.comps[i] != other.comps[i] {
                proof {
                    assert(self@[i as int] != other@[i as int]);
                }
                return false;
            }
            i = i + 1;
        }
        assert(self@ =~= other@);
        true
    }

    /// The path with `name` appended.
    fn child(self, name: &str) -> (r: HostPath)
        ensures
            r@ == self@.push(name@),
    {
        let mut comps = self.comps;
        comps.push(name.to_owned());
        let r = HostPath { comps };
        assert(r@ =~= self@.push(name@));
        r
    }

    /// The path with its last component removed, if it has one.
    fn parent(self) -> (r: HostPath)
        ensures
            self@.len() == 0 ==> r@ == self@,
            self@.len() > 0 ==> r@ == self@.drop_last(),
    {
        let mut comps = self.comps;
        if comps.len() > 0 {
            comps.pop();
        }
        let r = HostPath { comps };
        assert(self@.len() > 0 ==> r@ =~= self@.drop_last());
        r
    }
}

/// Whether two strings hold the same characters.
pub fn str_eq(a: &str, b: &str) -> (r: bool)
    ensures
        r == (a@ == b@),
{
    let n = a.unicode_len();
    if n != b.unicode_len() {
        return false;
    }
    let mut i: usize = 0;
    while i < n
        invariant
            n == a@.len(),
            n == b@.len(),
            i <= n,
            forall|j: int| 0 <= j < i ==> a@[j] == b@[j],
        decreases n - i,
    {
        if a.get_char(i) != b.get_char(i) {
            return false;
        }
        i = i + 1;
    }
    assert(a@ =~= b@);
    true
}

/// Whether `name` is `.` or `..`, checked character by character.
fn is_name(name: &str, dots: usize) -> (r: bool)
    requires
        dots == 1 || dots == 2,
    ensures
        dots == 1 ==> (r == is_dot(name@)),
        dots == 2 ==> (r == is_dot_dot(name@)),
{
    let n = name.unicode_len();
    if n != dots {
        return false;
    }
    let mut i: usize = 0;
    while i < n
        invariant
            n == name@.len(),
            n == dots,
            i <= n,
            forall|j: int| 0 <= j < i ==> name@[j] == '.',
        decreases n - i,
    {
        if name.get_char(i) != '.' {
            return false;
        }
        i = i + 1;
    }
    proof {
        if dots == 1 {
            assert(name@ =~= seq!['.']);
        } else {
            assert(name@ =~= seq!['.', '.']);
        }
    }
    true
}

/// Whether `name` holds a `/`.
fn holds_separator(name: &str) -> (r: bool)
    ensures
        r == has_separator(name@),
{
    let n = name.unicode_len();
    let mut i: usize = 0;
    while i < n
        invariant
            n == name@.len(),
            i <= n,
            forall|j: int| 0 <= j < i ==> name@[j] != '/',
        decreases n - i,
    {
        if name.get_char(i) == '/' {
            return true;
        }
        i = i + 1;
    }
    false
}

/// Resolves one walk step `name` from `path`, confined to `root`.
///
/// `.`, the empty name and names holding a separator (so also absolute
/// names) are refused with `EINVAL`. `..` moves to the parent, except at
/// the root, which has no visible parent and stays where it is. Any other
/// name is appended as a child. From the root or below it, the result is
/// never outside the root.
pub fn join_path(path: HostPath, name: &str, root: &HostPath) -> (r: Result<HostPath, P9Error>)
    ensures
        bad_segment(name@) ==> r == Err::<HostPath, P9Error>(P9Error { errno: EINVAL }),
        !bad_segment(name@) ==> (r matches Ok(p) && p@ == join_spec(path@, name@, root@)),
        within(path@, root@) ==> (r matches Ok(p) ==> within(p@, root@)),
{
    proof {
        if within(path@, root@) {
            lemma_join_within(path@, name@, root@);
        }
    }
    if name.unicode_len() == 0 || is_name(name, 1) || holds_separator(name) {
        return Err(P9Error::from_errno(EINVAL));
    }
    if is_name(name, 2) {
        if path.same_as(root) {
            Ok(path)
        } else {
            Ok(path.parent())
        }
    } else {
        Ok(path.child(name))
    }
}

} // verus!
