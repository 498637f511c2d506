//! File-system paths as the library holds them: the text a path starts
//! from, then the components joined onto it in order.
use vstd::prelude::*;

use crate::text::string_views;

verus! {

/// A component that every platform joins as a plain name: not empty, not
/// `.` or `..`, and without separators, drive colons or `?`.
pub open spec fn plain_component(s: Seq<char>) -> bool {
    &&& s.len() > 0
    &&& s != "."@ && s != ".."@
    &&& !s.contains('/') && !s.contains('\\') && !s.contains(':') && !s.contains('?')
}

/// Every one of `parts` is a plain component.
pub open spec fn all_plain(parts: Seq<Seq<char>>) -> bool {
    forall|i: int| 0 <= i < parts.len() ==> plain_component(#[trigger] parts[i])
}

/// `t` ends with `s`.
pub open spec fn ends_with(t: Seq<char>, s: Seq<char>) -> bool {
    t.len() >= s.len() && t.skip(t.len() - s.len()) == s
}

/// `t` starts with `s`.
pub open spec fn starts_with(t: Seq<char>, s: Seq<char>) -> bool {
    t.len() >= s.len() && t.take(s.len() as int) == s
}

/// `Path::join` of `part` onto the path whose text is `base`, given back
/// as text by `Path::to_string_lossy` (both texts are valid, so nothing is
/// replaced). Claimed, on every platform: when `part` is a plain
/// component, the text ends with it; when moreover `base` holds no `?`
/// (so it has no verbatim prefix, the one case in which Windows rebuilds
/// the joined path), the text starts with `base` and, as neither `part`
/// nor a separator is a `?`, holds none. Whether a separator comes between,
/// and which, depends on the platform and is not stated.
#[verifier::external_body]
fn join_text(base: &str, part: &str) -> (r: String)
    ensures
        plain_component(part@) ==> ends_with(r@, part@),
        plain_component(part@) && !base@.contains('?') ==> starts_with(r@, base@) && !r@.contains(
            '?',
        ),
{
    std::path::Path::new(base).join(part).to_string_lossy().into_owned()
}

/// A path: `base`, as the user or the system gave it, with each of `parts`
/// joined onto it in order, as `Path::join` joins a component.
#[derive(Debug, Clone, PartialEq, Eq)]
pub struct ModPath {
    pub base: String,
    pub parts: Vec<String>,
}

/// A path as values: its base text and the joined components.
pub type PathView = (Seq<char>, Seq<Seq<char>>);

impl View for ModPath {
    type V = PathView;

    open spec fn view(&self) -> PathView {
        (self.base@, string_views(self.parts@))
    }
}

/// `p` with `part` joined onto it.
pub open spec fn joined_path(p: PathView, part: Seq<char>) -> PathView {
    (p.0, p.1.push(part))
}

/// The path is empty: no text and only empty components.
pub open spec fn blank_path(p: PathView) -> bool {
    p.0.len() == 0 && forall|i: int| 0 <= i < p.1.len() ==> (#[trigger] p.1[i]).len() == 0
}

impl ModPath {
    /// The path given by `base`.
    pub fn new(base: String) -> (r: Self)
        ensures
            r@ == (base@, Seq::<Seq<char>>::empty()),
    {
        ModPath { base, parts: Vec::new() }
    }

    /// A copy of the path.
    pub fn copy(&self) -> (r: Self)
        ensures
            r@ == self@,
    {
        let mut parts: Vec<String> = Vec::new();
        let mut i: usize = 0;
        while i < self.parts.len()
            invariant
                i <= self.parts@.len(),
                string_views(parts@) == string_views(self.parts@.take(i as int)),
            decreases self.parts@.len() - i,
        {
            let ghost before = parts@;
            parts.push(self.parts[i].clone());
            assert(self.parts@.take(i + 1) == self.parts@.take(i as int).push(self.parts@[i as int]));
            assert(string_views(parts@) == string_views(before).push(self.parts@[i as int]@));
            assert(string_views(self.parts@.take(i + 1)) == string_views(self.parts@.take(i as int)).push(
                self.parts@[i as int]@,
            ));
            i = i + 1;
        }
        assert(self.parts@.take(self.parts@.len() as int) == self.parts@);
        ModPath { base: self.base.clone(), parts }
    }

    /// The path with `part` joined onto it.
    pub fn join(&self, part: &str) -> (r: Self)
        ensures
            r@ == joined_path(self@, part@),
    {
        let mut r = self.copy();
        let ghost before = r.parts@;
        r.parts.push(part.to_owned());
        assert(string_views(r.parts@) == string_views(before).push(part@));
        r
    }

    /// Whether the path is empty.
    pub fn is_empty(&self) -> (r: bool)
        ensures
            r == blank_path(self@),
    {
        if !self.base.as_str().is_empty() {
            return false;
        }
        let mut i: usize = 0;
        while i < self.parts.len()
            invariant
                i <= self.parts@.len(),
                forall|j: int| 0 <= j < i ==> (#[trigger] self.parts@[j])@.len() == 0,
            decreases self.parts@.len() - i,
        {
            if !self.parts[i].as_str().is_empty() {
                assert(self@.1[i as int] == self.parts@[i as int]@);
                assert(self@.1[i as int].len() != 0);
                return false;
            }
            i = i + 1;
        }
        assert forall|j: int| 0 <= j < self@.1.len() implies (#[trigger] self@.1[j]).len() == 0 by {
            assert(self@.1[j] == self.parts@[j]@);
        }
        true
    }

    /// The path's text: the base text with each component joined on by
    /// `Path::join`. Without components it is the base text; with them it
    /// ends with the last one when that one is plain, and starts with the
    /// base when every component is plain and the base holds no `?`.
    pub fn text(&self) -> (r: String)
        ensures
            path_text_fits(self@, r@),
    {
        let ghost b = self@.0;
        let ghost ps = self@.1;
        let mut t = self.base.clone();
        assert(t@.take(b.len() as int) == t@);
        let mut i: usize = 0;
        while i < self.parts.len()
            invariant
                i <= self.parts@.len(),
                b == self@.0,
                ps == self@.1,
                ps.len() == self.parts@.len(),
                i == 0 ==> t@ == b,
                i > 0 && plain_component(ps[i - 1]) ==> ends_with(t@, ps[i - 1]),
                all_plain(ps.take(i as int)) && !b.contains('?') ==> starts_with(t@, b) && !t@.contains('?'),
            decreases self.parts@.len() - i,
        {
            let ghost before = t@;
            assert(ps[i as int] == self.parts@[i as int]@);
            t = join_text(t.as_str(), self.parts[i].as_str());
            proof {
                if all_plain(ps.take(i + 1)) && !b.contains('?') {
                    assert(ps.take(i + 1)[i as int] == ps[i as int]);
                    assert(plain_component(ps[i as int]));
                    assert forall|k: int| 0 <= k < i implies plain_component(#[trigger] ps.take(i as int)[k]) by {
                        assert(ps.take(i as int)[k] == ps.take(i + 1)[k]);
                    }
                    if i == 0 {
                        assert(!before.contains('?'));
                    }
                    assert(starts_with(before, b) && !before.contains('?'));
                    assert(t@.take(b.len() as int) == t@.take(before.len() as int).take(b.len() as int));
                }
            }
            i = i + 1;
        }
        assert(ps.take(ps.len() as int) == ps);
        t
    }
}

/// What holds of the text `t` of path `p` on every platform: without
/// components it is the base text; with them it ends with the last one
/// when that one is plain, and starts with the base when every component
/// is plain and the base holds no `?`.
pub open spec fn path_text_fits(p: PathView, t: Seq<char>) -> bool {
    &&& p.1.len() == 0 ==> t == p.0
    &&& p.1.len() > 0 && plain_component(p.1.last()) ==> ends_with(t, p.1.last())
    &&& all_plain(p.1) && !p.0.contains('?') ==> starts_with(t, p.0)
}

} // verus!
