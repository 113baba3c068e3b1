//! Module identity: a `ModulePath` is a non-empty list of path segments (no
//! slashes or colons inside a segment), and a `QualifiedName` addresses one
//! top-level declaration of a module.

use vstd::prelude::*;
use crate::position::Range;

verus! {

use vstd::string::StrSliceExecFns;
use vstd::string::StringExecFns;

/// The views of a sequence of owned segments.
pub open spec fn seg_views(v: Seq<String>) -> Seq<Seq<char>> {
    v.map_values(|s: String| s@)
}

/// A list of path segments. These cannot contain forward or backward slashes,
/// or colons.
#[derive(Debug)]
pub struct ModulePath(pub Vec<String>);

/// Holds when a segment contains none of the characters reserved as
/// separators: forward slash, backslash, colon.
pub open spec fn valid_segment(s: Seq<char>) -> bool {
    forall|i: int| 0 <= i < s.len() ==> s[i] != '/' && s[i] != '\\' && s[i] != ':'
}

impl View for ModulePath {
    type V = Seq<Seq<char>>;

    open spec fn view(&self) -> Seq<Seq<char>> {
        seg_views(self.0@)
    }
}

impl ModulePath {
    /// A well-formed module path is non-empty and has no separator character
    /// inside any segment.
    pub open spec fn wf(self) -> bool {
        self@.len() > 0 && forall|i: int| 0 <= i < self@.len() ==> valid_segment(#[trigger] self@[i])
    }

    /// The segments joined with the given separator, which must be a single
    /// character (for a filesystem path, the platform's separator).
    pub fn to_path_string(&self, separator: &str) -> (r: String)
        requires
            separator@.len() == 1,
        ensures
            r@ == join_view(self@, separator@[0]),
    {
        let ghost sep = separator@[0];
        let mut out = String::new();
        let n = self.0.len();
        for i in 0..n
            invariant
                n == self.0.len(),
                separator@.len() == 1,
                sep == separator@[0],
                out@ == join_view(self@.take(i as int), sep),
        {
            if i != 0 {
                out.append(separator);
            }
            out.append(self.0[i].as_str());
            proof {
                let t = self@.take(i + 1);
                assert(t.drop_last() =~= self@.take(i as int));
                assert(t.last() == self@[i as int]);
                if i == 0 {
                    assert(out@ =~= join_view(t, sep));
                } else {
                    assert(separator@ =~= seq![sep]);
                    assert(out@ =~= join_view(self@.take(i as int), sep) + seq![sep] + self@[i as int]);
                }
            }
        }
        proof {
            assert(self@.take(n as int) =~= self@);
        }
        out
    }

    /// The display form of the path: segments joined by `/`.
    pub fn display_string(&self) -> (r: String)
        ensures
            r@ == join_view(self@, '/'),
    {
        proof {
            reveal_strlit("/");
        }
        self.to_path_string("/")
    }

    /// Rebuilds a module path from a joined form by splitting on the given
    /// separator character.
    pub fn from_path_string(s: &str, separator: char) -> (r: ModulePath)
        ensures
            r@ == split_view(s@, separator),
    {
        let n = s.unicode_len();
        let mut segments: Vec<String> = Vec::new();
        let mut start: usize = 0;
        proof {
            assert(s@.take(0) =~= Seq::<char>::empty());
            assert(s@.subrange(0, 0) =~= Seq::<char>::empty());
            assert(seg_views(segments@).push(s@.subrange(0, 0)) =~~= split_view(
                s@.take(0),
                separator,
            ));
        }
        for i in 0..n
            invariant
                n == s@.len(),
                start <= i,
                seg_views(segments@).push(s@.subrange(start as int, i as int)) == split_view(
                    s@.take(i as int),
                    separator,
                ),
        {
            let c = s.get_char(i);
            let ghost pre = seg_views(segments@);
            let ghost pending = s@.subrange(start as int, i as int);
            if c == separator {
                segments.push(String::from_str(s.substring_char(start, i)));
                start = i + 1;
            }
            proof {
                let t = s@.take(i + 1);
                assert(t.drop_last() =~= s@.take(i as int));
                assert(t.last() == s@[i as int]);
                let prev = split_view(s@.take(i as int), separator);
                assert(prev == pre.push(pending));
                if c == separator {
                    assert(split_view(t, separator) == prev.push(Seq::empty()));
                    assert(seg_views(segments@) =~~= pre.push(pending));
                    assert(s@.subrange(start as int, i + 1) =~= Seq::<char>::empty());
                    assert(seg_views(segments@).push(s@.subrange(start as int, i + 1)) =~~= split_view(
                        t,
                        separator,
                    ));
                } else {
                    assert(split_view(t, separator) == prev.update(
                        prev.len() - 1,
                        prev.last().push(s@[i as int]),
                    ));
                    assert(prev.last() == pending);
                    assert(pending.push(s@[i as int]) =~= s@.subrange(start as int, i + 1));
                    assert(seg_views(segments@).push(s@.subrange(start as int, i + 1)) =~~= split_view(
                        t,
                        separator,
                    ));
                }
            }
        }
        segments.push(String::from_str(s.substring_char(start, n)));
        let r = ModulePath(segments);
        proof {
            assert(s@.take(n as int) =~= s@);
            assert(r@ =~~= split_view(s@, separator));
        }
        r
    }
}

impl Clone for ModulePath {
    fn clone(&self) -> (r: Self)
        ensures
            r@ == self@,
    {
        let mut segments: Vec<String> = Vec::new();
        let n = self.0.len();
        for i in 0..n
            invariant
                n == self.0.len(),
                segments.len() == i,
                forall|j: int| 0 <= j < i ==> segments@[j]@ == self@[j],
        {
            segments.push(self.0[i].clone());
        }
        let r = ModulePath(segments);
        assert(r@ =~= self@);
        r
    }
}

impl PartialEq for ModulePath {
    /// Two module paths are equal exactly when their segment sequences are.
    fn eq(&self, other: &Self) -> (r: bool) {
        if self.0.len() != other.0.len() {
            assert(self@.len() != other@.len());
            return false;
        }
        let n = self.0.len();
        for i in 0..n
            invariant
                n == self.0.len() == other.0.len(),
                forall|j: int| 0 <= j < i ==> self@[j] == other@[j],
        {
            if !(self.0[i] == other.0[i]) {
                assert(self@[i as int] != other@[i as int]);
                return false;
            }
        }
        assert(self@ =~= other@);
        true
    }
}

impl vstd::std_specs::cmp::PartialEqSpecImpl for ModulePath {
    open spec fn obeys_eq_spec() -> bool {
        true
    }

    open spec fn eq_spec(&self, other: &Self) -> bool {
        self@ == other@
    }
}

/// A fully qualified name referring to a top-level item declared in a module.
#[derive(Debug, Clone, PartialEq)]
pub struct QualifiedName {
    pub path: ModulePath,
    pub name: String,
    pub range: Range,
}

/// Holds when `sep` occurs somewhere in `s`.
pub open spec fn has_char(s: Seq<char>, sep: char) -> bool {
    exists|i: int| 0 <= i < s.len() && s[i] == sep
}

/// The segments joined into one character sequence, with `sep` between
/// consecutive segments.
pub open spec fn join_view(segs: Seq<Seq<char>>, sep: char) -> Seq<char>
    decreases segs.len(),
{
    if segs.len() == 0 {
        Seq::empty()
    } else if segs.len() == 1 {
        segs[0]
    } else {
        join_view(segs.drop_last(), sep) + seq![sep] + segs.last()
    }
}

/// The character sequence split on every occurrence of `sep`. The result
/// always holds at least one segment; an empty input yields one empty segment.
pub open spec fn split_view(s: Seq<char>, sep: char) -> Seq<Seq<char>>
    decreases s.len(),
{
    if s.len() == 0 {
        seq![Seq::<char>::empty()]
    } else if s.last() == sep {
        split_view(s.drop_last(), sep).push(Seq::empty())
    } else {
        let rest = split_view(s.drop_last(), sep);
        rest.update(rest.len() - 1, rest.last().push(s.last()))
    }
}

proof fn lemma_split_len_pos(s: Seq<char>, sep: char)
    ensures
        split_view(s, sep).len() >= 1,
    decreases s.len(),
{
    if s.len() != 0 {
        lemma_split_len_pos(s.drop_last(), sep);
    }
}

/// Appending a separator-free tail extends the final segment of the split.
proof fn lemma_split_append_free(a: Seq<char>, t: Seq<char>, sep: char)
    requires
        !has_char(t, sep),
    ensures
        split_view(a + t, sep) == ({
            let r = split_view(a, sep);
            r.update(r.len() - 1, r.last() + t)
        }),
    decreases t.len(),
{
    lemma_split_len_pos(a, sep);
    let r = split_view(a, sep);
    if t.len() == 0 {
        assert(a + t =~= a);
        assert(r.update(r.len() - 1, r.last() + t) =~= r);
    } else {
        let t0 = t.drop_last();
        let c = t.last();
        assert(!has_char(t0, sep)) by {
            assert(forall|i: int| 0 <= i < t0.len() ==> t0[i] == t[i]);
        }
        assert(t[t.len() - 1] == c);
        assert(c != sep);
        lemma_split_append_free(a, t0, sep);
        let r0 = split_view(a + t0, sep);
        lemma_split_len_pos(a + t0, sep);
        assert((a + t).drop_last() =~= a + t0);
        assert((a + t).last() == c);
        assert(split_view(a + t, sep) == r0.update(r0.len() - 1, r0.last().push(c)));
        assert(r0 == r.update(r.len() - 1, r.last() + t0));
        assert(r0.last() == r.last() + t0);
        assert((r.last() + t0).push(c) =~= r.last() + t);
        assert(r0.update(r0.len() - 1, r0.last().push(c)) =~= r.update(r.len() - 1, r.last() + t));
    }
}

/// Splitting undoes joining: joining separator-free segments with `sep` and
/// splitting the result on `sep` gives back exactly the original segments.
pub proof fn lemma_split_of_join(segs: Seq<Seq<char>>, sep: char)
    requires
        segs.len() > 0,
        forall|i: int| 0 <= i < segs.len() ==> !has_char(#[trigger] segs[i], sep),
    ensures
        split_view(join_view(segs, sep), sep) == segs,
    decreases segs.len(),
{
    if segs.len() == 1 {
        let t = segs[0];
        assert(join_view(segs, sep) == t);
        lemma_split_append_free(Seq::empty(), t, sep);
        assert(Seq::empty() + t =~= t);
        let r = split_view(Seq::<char>::empty(), sep);
        assert(r =~= seq![Seq::<char>::empty()]);
        assert(r.update(0, r.last() + t) =~= seq![t]);
        assert(seq![t] =~= segs);
    } else {
        let front = segs.drop_last();
        let t = segs.last();
        assert(forall|i: int| 0 <= i < front.len() ==> front[i] == segs[i]);
        lemma_split_of_join(front, sep);
        let j = join_view(front, sep);
        assert(join_view(segs, sep) == j + seq![sep] + t);
        // First peel the separator-free tail `t`.
        lemma_split_append_free(j + seq![sep], t, sep);
        // The join up to and including the separator splits as the front
        // segments followed by one empty segment.
        let js = j + seq![sep];
        assert(js.last() == sep);
        assert(js.drop_last() =~= j);
        assert(split_view(js, sep) == split_view(j, sep).push(Seq::empty()));
        let r = front.push(Seq::<char>::empty());
        assert(split_view(js, sep) == r);
        lemma_split_len_pos(js, sep);
        assert(r.last() + t =~= t);
        assert(r.update(r.len() - 1, r.last() + t) =~= segs);
    }
}

/// Splitting a well-formed module path's joined form on any of the reserved
/// separator characters reproduces the original segment sequence.
pub proof fn lemma_module_path_round_trip(p: ModulePath, sep: char)
    requires
        p.wf(),
        sep == '/' || sep == '\\' || sep == ':',
    ensures
        split_view(join_view(p@, sep), sep) == p@,
{
    assert(forall|i: int| 0 <= i < p@.len() ==> !has_char(#[trigger] p@[i], sep));
    lemma_split_of_join(p@, sep);
}

} // verus!
