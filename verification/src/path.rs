//! Interned paths: a slash-separated text as the sequence of its segments'
//! codes. An empty first segment marks the path as absolute.

use crate::intern::{ident_ok, intern, intern_spec, is_ident, Interned};
use vstd::prelude::*;
use vstd::slice::slice_subrange;
use vstd::string::StringSliceAdditionalSpecFns;

verus! {

/// The byte that separates the segments of a path.
pub const SEPARATOR: u8 = 0x2f;

/// The segments of a path: the stretches of text between separators. A text
/// with `k` separators has `k + 1` segments, some of which may be empty.
pub open spec fn split_spec(s: Seq<u8>) -> Seq<Seq<u8>>
    decreases s.len(),
{
    if s.len() == 0 {
        seq![Seq::empty()]
    } else {
        let p = split_spec(s.drop_last());
        if s.last() == SEPARATOR {
            p.push(Seq::empty())
        } else {
            p.update(p.len() - 1, p.last().push(s.last()))
        }
    }
}

/// A path whose every segment is an identifier (or empty).
pub open spec fn is_path(s: Seq<u8>) -> bool {
    forall|k: int| 0 <= k < split_spec(s).len() ==> is_ident(#[trigger] split_spec(s)[k])
}

/// The codes of a path's segments, in order.
pub open spec fn path_spec(s: Seq<u8>) -> Seq<Interned> {
    Seq::new(split_spec(s).len(), |k: int| Interned(intern_spec(split_spec(s)[k]) as u64))
}

/// The segments joined again, with a separator between neighbours.
pub open spec fn join_spec(p: Seq<Seq<u8>>) -> Seq<u8>
    decreases p.len(),
{
    if p.len() == 0 {
        Seq::empty()
    } else if p.len() == 1 {
        p[0]
    } else {
        join_spec(p.drop_last()).push(SEPARATOR) + p.last()
    }
}

/// A text always has at least one segment.
pub proof fn lemma_split_nonempty(s: Seq<u8>)
    ensures
        split_spec(s).len() >= 1,
    decreases s.len(),
{
    if s.len() > 0 {
        lemma_split_nonempty(s.drop_last());
    }
}

/// Splitting loses nothing: no segment holds a separator, and joining the
/// segments gives the text back.
pub proof fn lemma_split_join(s: Seq<u8>)
    ensures
        join_spec(split_spec(s)) == s,
        forall|k: int, i: int|
            0 <= k < split_spec(s).len() && 0 <= i < split_spec(s)[k].len() ==> (
            #[trigger] split_spec(s)[k][i]) != SEPARATOR,
    decreases s.len(),
{
    if s.len() > 0 {
        let t = s.drop_last();
        let p = split_spec(t);
        let q = split_spec(s);
        lemma_split_join(t);
        lemma_split_nonempty(t);
        if s.last() == SEPARATOR {
            assert(q.drop_last() =~= p);
            assert(join_spec(q) =~= t.push(SEPARATOR) + Seq::<u8>::empty());
            assert(t.push(SEPARATOR) =~= s);
        } else {
            if p.len() == 1 {
                assert(join_spec(q) =~= p[0].push(s.last()));
            } else {
                assert(q.drop_last() =~= p.drop_last());
                assert(join_spec(q) =~= (join_spec(p.drop_last()).push(SEPARATOR) + p.last()).push(
                    s.last(),
                ));
            }
            assert(t.push(s.last()) =~= s);
        }
        assert forall|k: int, i: int|
            0 <= k < q.len() && 0 <= i < q[k].len() implies (#[trigger] q[k][i]) != SEPARATOR by {
            if k < p.len() && i < p[k].len() {
                assert(q[k][i] == p[k][i]);
            }
        }
    } else {
        assert(split_spec(s) =~= seq![Seq::<u8>::empty()]);
        assert(join_spec(split_spec(s)) =~= s);
    }
}

/// How the segments of a prefix relate to those of the whole text: all but
/// the last are segments of the whole, and the last is the start of one; it is
/// the whole of one where a separator follows the prefix.
pub proof fn lemma_split_prefix(s: Seq<u8>, i: int)
    requires
        0 <= i <= s.len(),
    ensures
        1 <= split_spec(s.take(i)).len() <= split_spec(s).len(),
        forall|k: int|
            0 <= k < split_spec(s.take(i)).len() - 1 ==> #[trigger] split_spec(s.take(i))[k]
                == split_spec(s)[k],
        split_spec(s.take(i)).last().is_prefix_of(
            split_spec(s)[split_spec(s.take(i)).len() - 1],
        ),
        i < s.len() && s[i] == SEPARATOR ==> split_spec(s.take(i)).last() == split_spec(
            s,
        )[split_spec(s.take(i)).len() - 1] && split_spec(s.take(i)).len() < split_spec(s).len(),
        i == s.len() ==> split_spec(s.take(i)) == split_spec(s),
    decreases s.len(),
{
    lemma_split_nonempty(s);
    lemma_split_nonempty(s.take(i));
    if i == s.len() {
        assert(s.take(i) =~= s);
    } else {
        let t = s.drop_last();
        let p = split_spec(s.take(i));
        let q1 = split_spec(t);
        let q = split_spec(s);
        assert(s.take(i) =~= t.take(i));
        lemma_split_prefix(t, i);
        lemma_split_nonempty(t);
        if i < t.len() && s[i] == SEPARATOR {
            lemma_split_prefix(t, i + 1);
            assert(t.take(i + 1).drop_last() =~= t.take(i));
            assert(t.take(i + 1).last() == SEPARATOR);
            assert(split_spec(t.take(i + 1)).len() == p.len() + 1);
        }
        if i == t.len() {
            assert(t.take(i) =~= t);
        }
    }
}

/// An owned interned path.
#[derive(Clone, Debug, PartialEq, Eq, Hash, PartialOrd, Ord)]
pub struct InternedPathBuf(Vec<Interned>);

impl View for InternedPathBuf {
    type V = Seq<Interned>;

    closed spec fn view(&self) -> Seq<Interned> {
        self.0@
    }
}

/// Hands a vector's buffer over as a boxed slice, by `Vec::into_boxed_slice`:
/// the same elements in the same order.
#[verifier::external_body]
fn vec_into_boxed_slice(v: Vec<Interned>) -> (b: Box<[Interned]>)
    ensures
        b@ == v@,
{
    v.into_boxed_slice()
}

impl InternedPathBuf {
    /// The path made of the given codes.
    pub fn from_iter(iter: Vec<Interned>) -> (path: Self)
        ensures
            path@ == iter@,
    {
        InternedPathBuf(iter)
    }

    /// Splits a text at its separators and interns each segment.
    pub fn from(s: &str) -> (path: Self)
        requires
            is_path(s.spec_bytes()),
        ensures
            path@ == path_spec(s.spec_bytes()),
    {
        Self::from_bytes(s.as_bytes())
    }

    /// Splits a text at its separators and interns each segment.
    pub fn from_str(s: &str) -> (path: Self)
        requires
            is_path(s.spec_bytes()),
        ensures
            path@ == path_spec(s.spec_bytes()),
    {
        Self::from_bytes(s.as_bytes())
    }

    /// Splits a text, given as bytes, at its separators and interns each segment.
    pub fn from_bytes(bytes: &[u8]) -> (path: Self)
        requires
            is_path(bytes@),
        ensures
            path@ == path_spec(bytes@),
    {
        let ghost whole = split_spec(bytes@);
        let mut segs: Vec<Interned> = Vec::new();
        let mut start: usize = 0;
        let mut i: usize = 0;
        proof {
            assert(bytes@.take(0) =~= Seq::<u8>::empty());
            assert(bytes@.subrange(0, 0) =~= Seq::<u8>::empty());
        }
        while i < bytes.len()
            invariant
                start <= i <= bytes.len(),
                whole == split_spec(bytes@),
                is_path(bytes@),
                split_spec(bytes@.take(i as int)).len() == segs.len() + 1,
                split_spec(bytes@.take(i as int)).last() == bytes@.subrange(start as int, i as int),
                forall|k: int|
                    0 <= k < segs.len() ==> (#[trigger] segs@[k]).0 == intern_spec(whole[k]),
            decreases bytes.len() - i,
        {
            proof {
                lemma_split_prefix(bytes@, i as int);
                lemma_split_prefix(bytes@, i + 1);
                assert(bytes@.take(i + 1).drop_last() =~= bytes@.take(i as int));
                assert(bytes@.take(i + 1).last() == bytes@[i as int]);
            }
            if bytes[i] == SEPARATOR {
                let seg = slice_subrange(bytes, start, i);
                proof {
                    assert(is_ident(whole[segs.len() as int]));
                }
                segs.push(Interned(intern(seg)));
                start = i + 1;
                proof {
                    assert(bytes@.subrange(start as int, start as int) =~= Seq::<u8>::empty());
                }
            } else {
                proof {
                    assert(bytes@.subrange(start as int, i + 1) =~= bytes@.subrange(
                        start as int,
                        i as int,
                    ).push(bytes@[i as int]));
                }
            }
            i += 1;
        }
        proof {
            lemma_split_prefix(bytes@, i as int);
            assert(is_ident(whole[segs.len() as int]));
        }
        let seg = slice_subrange(bytes, start, i);
        segs.push(Interned(intern(seg)));
        proof {
            lemma_intern_fits(bytes@);
            assert(segs@ =~= path_spec(bytes@));
        }
        InternedPathBuf(segs)
    }

    /// Gives the codes up as a vector.
    pub fn into_vec(self) -> (codes: Vec<Interned>)
        ensures
            codes@ == self@,
    {
        self.0
    }

    /// Gives the codes up as a boxed slice.
    pub fn into_boxed_slice(self) -> (b: Box<[Interned]>)
        ensures
            b@ == self@,
    {
        vec_into_boxed_slice(self.0)
    }

    /// Takes the codes over from a boxed slice.
    pub fn from_boxed_slice(slice: Box<[Interned]>) -> (path: Self)
        ensures
            path@ == slice@,
    {
        InternedPathBuf(slice.into_vec())
    }

    /// Whether the path starts at the root: whether its first segment is empty.
    pub fn is_absolute(&self) -> (absolute: bool)
        ensures
            absolute == (self@.len() > 0 && self@[0].0 == 0),
    {
        self.0.len() > 0 && self.0[0].is_empty()
    }

    /// The codes of the path, borrowed.
    pub fn path(&self) -> (codes: &[Interned])
        ensures
            codes@ == self@,
    {
        self.0.as_slice()
    }

    /// Takes the last segment off the path.
    pub fn pop(&mut self) -> (last: Option<Interned>)
        ensures
            old(self)@.len() == 0 ==> last.is_none() && final(self)@ == old(self)@,
            old(self)@.len() > 0 ==> last == Some(old(self)@.last()) && final(self)@ == old(
                self,
            )@.drop_last(),
    {
        self.0.pop()
    }
}

/// The code of every segment of a path fits the 64 bits of a code.
pub proof fn lemma_intern_fits(s: Seq<u8>)
    requires
        is_path(s),
    ensures
        forall|k: int|
            0 <= k < split_spec(s).len() ==> 0 <= #[trigger] intern_spec(split_spec(s)[k])
                < 0x1000_0000_0000_0000,
{
    assert forall|k: int| 0 <= k < split_spec(s).len() implies 0 <= #[trigger] intern_spec(
        split_spec(s)[k],
    ) < 0x1000_0000_0000_0000 by {
        assert(is_ident(split_spec(s)[k]));
        crate::intern::lemma_intern_bound(split_spec(s)[k]);
        crate::intern::lemma_pow64(split_spec(s)[k].len());
        crate::intern::lemma_pow64_mono(split_spec(s)[k].len(), 10);
    }
}

/// Tells whether every segment of a path is an identifier.
pub fn path_ok(bytes: &[u8]) -> (ok: bool)
    ensures
        ok == is_path(bytes@),
{
    let ghost whole = split_spec(bytes@);
    let mut start: usize = 0;
    let mut i: usize = 0;
    let ghost mut count: int = 0;
    proof {
        assert(bytes@.take(0) =~= Seq::<u8>::empty());
        assert(bytes@.subrange(0, 0) =~= Seq::<u8>::empty());
        lemma_split_nonempty(bytes@);
    }
    while i < bytes.len()
        invariant
            start <= i <= bytes.len(),
            whole == split_spec(bytes@),
            split_spec(bytes@.take(i as int)).len() == count + 1,
            count < whole.len(),
            split_spec(bytes@.take(i as int)).last() == bytes@.subrange(start as int, i as int),
            forall|k: int| 0 <= k < count ==> is_ident(#[trigger] whole[k]),
        decreases bytes.len() - i,
    {
        proof {
            lemma_split_prefix(bytes@, i as int);
            lemma_split_prefix(bytes@, i + 1);
            assert(bytes@.take(i + 1).drop_last() =~= bytes@.take(i as int));
            assert(bytes@.take(i + 1).last() == bytes@[i as int]);
        }
        if bytes[i] == SEPARATOR {
            if !ident_ok(slice_subrange(bytes, start, i)) {
                proof {
                    assert(!is_ident(whole[count]));
                }
                return false;
            }
            start = i + 1;
            proof {
                count = count + 1;
                assert(bytes@.subrange(start as int, start as int) =~= Seq::<u8>::empty());
            }
        } else {
            proof {
                assert(bytes@.subrange(start as int, i + 1) =~= bytes@.subrange(
                    start as int,
                    i as int,
                ).push(bytes@[i as int]));
            }
        }
        i += 1;
    }
    proof {
        lemma_split_prefix(bytes@, i as int);
    }
    if !ident_ok(slice_subrange(bytes, start, i)) {
        proof {
            assert(!is_ident(whole[count]));
        }
        return false;
    }
    true
}

} // verus!
