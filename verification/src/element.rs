//! The parsed element: an identifier plus the raw name/value pairs.
//!
//! Equality is insensitive to parameter order but does demand the same
//! multiset of pairs: an element with extra or repeated pairs is not equal
//! to one holding only a subset of them.  Rendering reproduces the
//! canonical bracket text from the raw stored pairs; decoding of values
//! happens only on demand, through `params` or `decoded_params`.

use vstd::prelude::*;

use crate::decode::decode_value;
use crate::decode::decoded;
use crate::grammar::SpecElement;

verus! {

broadcast use {vstd::seq_lib::group_to_multiset_ensures, vstd::multiset::group_multiset_axioms};

/// One structured-data element: identifier and raw (still-escaped)
/// name/value pairs, in source order, duplicates kept.
#[derive(Clone, Debug)]
pub struct StructuredElement {
    pub id: Vec<char>,
    pub params: Vec<(Vec<char>, Vec<char>)>,
}

/// The mathematical content of a stored pair list.
pub open spec fn pairs_view(ps: Seq<(Vec<char>, Vec<char>)>) -> Seq<(Seq<char>, Seq<char>)> {
    ps.map_values(|p: (Vec<char>, Vec<char>)| (p.0@, p.1@))
}

impl View for StructuredElement {
    type V = SpecElement;

    open spec fn view(&self) -> SpecElement {
        SpecElement { id: self.id@, params: pairs_view(self.params@) }
    }
}

/// What element equality means: same identifier, same multiset of raw
/// pairs; the order of the pairs does not matter.
pub open spec fn elements_equal(a: SpecElement, b: SpecElement) -> bool {
    a.id == b.id && a.params.to_multiset() == b.params.to_multiset()
}

/// How often `x` occurs in `s`.
pub open spec fn pair_count(s: Seq<(Seq<char>, Seq<char>)>, x: (Seq<char>, Seq<char>)) -> nat
    decreases s.len(),
{
    if s.len() == 0 {
        0
    } else {
        pair_count(s.drop_last(), x) + (if s.last() == x {
            1nat
        } else {
            0nat
        })
    }
}

proof fn lemma_pair_count_is_multiset_count(
    s: Seq<(Seq<char>, Seq<char>)>,
    x: (Seq<char>, Seq<char>),
)
    ensures
        pair_count(s, x) == s.to_multiset().count(x),
    decreases s.len(),
{
    if s.len() == 0 {
        assert(s.to_multiset().len() == 0);
        assert(s.to_multiset().count(x) <= s.to_multiset().len());
    } else {
        let d = s.drop_last();
        lemma_pair_count_is_multiset_count(d, x);
        assert(s =~= d.push(s.last()));
        assert(d.push(s.last()).to_multiset() =~= d.to_multiset().insert(s.last()));
    }
}

/// Character-by-character equality of two stored texts.
fn chars_eq(a: &Vec<char>, b: &Vec<char>) -> (r: bool)
    ensures
        r == (a@ == b@),
{
    if a.len() != b.len() {
        return false;
    }
    let mut i: usize = 0;
    while i < a.len()
        invariant
            i <= a@.len(),
            a@.len() == b@.len(),
            forall|k: int| 0 <= k < i ==> a@[k] == b@[k],
        decreases a@.len() - i,
    {
        if a[i] != b[i] {
            return false;
        }
        i = i + 1;
    }
    proof {
        assert(a@ =~= b@);
    }
    true
}

fn pair_eq(a: &(Vec<char>, Vec<char>), b: &(Vec<char>, Vec<char>)) -> (r: bool)
    ensures
        r == ((a.0@, a.1@) == (b.0@, b.1@)),
{
    let r = chars_eq(&a.0, &b.0) && chars_eq(&a.1, &b.1);
    proof {
        if a.0@ == b.0@ && a.1@ == b.1@ {
            assert((a.0@, a.1@) == (b.0@, b.1@));
        }
    }
    r
}

/// How often `key` occurs among the stored pairs.
fn count_pair(ps: &Vec<(Vec<char>, Vec<char>)>, key: &(Vec<char>, Vec<char>)) -> (r: usize)
    ensures
        r as nat == pair_count(pairs_view(ps@), (key.0@, key.1@)),
{
    let ghost whole = pairs_view(ps@);
    let mut n: usize = 0;
    let mut i: usize = 0;
    while i < ps.len()
        invariant
            i <= ps@.len(),
            whole == pairs_view(ps@),
            whole.len() == ps@.len(),
            n <= i,
            n as nat == pair_count(whole.take(i as int), (key.0@, key.1@)),
        decreases ps@.len() - i,
    {
        proof {
            assert(whole.take(i + 1).drop_last() =~= whole.take(i as int));
            assert(whole[i as int] == (ps@[i as int].0@, ps@[i as int].1@));
        }
        if pair_eq(&ps[i], key) {
            n = n + 1;
        }
        i = i + 1;
    }
    proof {
        assert(whole.take(i as int) =~= whole);
    }
    n
}

/// Whether the two pair lists hold the same pairs, each the same number
/// of times, in whatever order.
fn params_multiset_eq(a: &Vec<(Vec<char>, Vec<char>)>, b: &Vec<(Vec<char>, Vec<char>)>) -> (r:
    bool)
    ensures
        r == (pairs_view(a@).to_multiset() == pairs_view(b@).to_multiset()),
{
    let ghost va = pairs_view(a@);
    let ghost vb = pairs_view(b@);
    let mut i: usize = 0;
    while i < a.len()
        invariant
            i <= a@.len(),
            va == pairs_view(a@),
            vb == pairs_view(b@),
            va.len() == a@.len(),
            forall|k: int| 0 <= k < i ==> pair_count(va, #[trigger] va[k]) == pair_count(
                vb,
                va[k],
            ),
        decreases a@.len() - i,
    {
        let ca = count_pair(a, &a[i]);
        let cb = count_pair(b, &a[i]);
        proof {
            assert(va[i as int] == (a@[i as int].0@, a@[i as int].1@));
        }
        if ca != cb {
            proof {
                let x = va[i as int];
                lemma_pair_count_is_multiset_count(va, x);
                lemma_pair_count_is_multiset_count(vb, x);
            }
            return false;
        }
        i = i + 1;
    }
    let mut j: usize = 0;
    while j < b.len()
        invariant
            j <= b@.len(),
            va == pairs_view(a@),
            vb == pairs_view(b@),
            va.len() == a@.len(),
            vb.len() == b@.len(),
            forall|k: int| 0 <= k < va.len() ==> pair_count(va, #[trigger] va[k]) == pair_count(
                vb,
                va[k],
            ),
            forall|k: int| 0 <= k < j ==> pair_count(va, #[trigger] vb[k]) == pair_count(
                vb,
                vb[k],
            ),
        decreases b@.len() - j,
    {
        let ca = count_pair(a, &b[j]);
        let cb = count_pair(b, &b[j]);
        proof {
            assert(vb[j as int] == (b@[j as int].0@, b@[j as int].1@));
        }
        if ca != cb {
            proof {
                let x = vb[j as int];
                lemma_pair_count_is_multiset_count(va, x);
                lemma_pair_count_is_multiset_count(vb, x);
            }
            return false;
        }
        j = j + 1;
    }
    proof {
        assert forall|x: (Seq<char>, Seq<char>)|
            va.to_multiset().count(x) == vb.to_multiset().count(x) by {
            lemma_pair_count_is_multiset_count(va, x);
            lemma_pair_count_is_multiset_count(vb, x);
            if va.to_multiset().count(x) > 0 {
                assert(va.contains(x));
                let k = choose|k: int| 0 <= k < va.len() && va[k] == x;
                assert(pair_count(va, va[k]) == pair_count(vb, va[k]));
            } else if vb.to_multiset().count(x) > 0 {
                assert(vb.contains(x));
                let k = choose|k: int| 0 <= k < vb.len() && vb[k] == x;
                assert(pair_count(va, vb[k]) == pair_count(vb, vb[k]));
            }
        }
        assert(va.to_multiset() =~= vb.to_multiset());
    }
    true
}

impl PartialEq for StructuredElement {
    /// Order-insensitive equality: same identifier, same multiset of raw
    /// pairs.
    fn eq(&self, other: &Self) -> (r: bool) {
        if chars_eq(&self.id, &other.id) {
            params_multiset_eq(&self.params, &other.params)
        } else {
            false
        }
    }
}

impl vstd::std_specs::cmp::PartialEqSpecImpl for StructuredElement {
    open spec fn obeys_eq_spec() -> bool {
        true
    }

    open spec fn eq_spec(&self, other: &Self) -> bool {
        elements_equal(self@, other@)
    }
}

/// Canonical text of one pair, without its leading space.
pub open spec fn render_pair(p: (Seq<char>, Seq<char>)) -> Seq<char> {
    p.0 + seq!['=', '"'] + p.1 + seq!['"']
}

/// Canonical text of the pairs from index `i` on, each preceded by one
/// space.
pub open spec fn render_params_from(ps: Seq<(Seq<char>, Seq<char>)>, i: int) -> Seq<char>
    decreases ps.len() - i,
{
    if 0 <= i < ps.len() {
        seq![' '] + render_pair(ps[i]) + render_params_from(ps, i + 1)
    } else {
        seq![]
    }
}

/// Canonical text of a whole element.
pub open spec fn spec_render(e: SpecElement) -> Seq<char> {
    seq!['['] + e.id + render_params_from(e.params, 0) + seq![']']
}

/// The decoded pairs of an element, in stored order: names untouched,
/// values with their escape sequences resolved.
pub open spec fn decoded_view(e: SpecElement) -> Seq<(Seq<char>, Seq<char>)> {
    e.params.map_values(|p: (Seq<char>, Seq<char>)| (p.0, decoded(p.1)))
}

fn push_chars(out: &mut Vec<char>, src: &Vec<char>)
    ensures
        final(out)@ == old(out)@ + src@,
{
    let mut i: usize = 0;
    while i < src.len()
        invariant
            i <= src@.len(),
            out@ == old(out)@ + src@.take(i as int),
        decreases src@.len() - i,
    {
        out.push(src[i]);
        proof {
            assert(old(out)@ + src@.take(i + 1) =~= (old(out)@ + src@.take(i as int)).push(
                src@[i as int],
            ));
        }
        i = i + 1;
    }
    proof {
        assert(src@.take(src@.len() as int) =~= src@);
    }
}

/// An exact copy of a stored text.
fn copy_chars(src: &Vec<char>) -> (r: Vec<char>)
    ensures
        r@ == src@,
{
    let mut out: Vec<char> = Vec::new();
    push_chars(&mut out, src);
    proof {
        assert(out@ =~= src@);
    }
    out
}

impl StructuredElement {
    /// The canonical bracket text: `[` + id + one ` name="raw value"` per
    /// pair in stored order + `]`.  Values are rendered raw, so an element
    /// parsed from canonical text renders back to it exactly.
    pub fn render(&self) -> (r: Vec<char>)
        ensures
            r@ == spec_render(self@),
    {
        let ghost ps = pairs_view(self.params@);
        let mut out: Vec<char> = Vec::new();
        out.push('[');
        push_chars(&mut out, &self.id);
        let mut i: usize = 0;
        while i < self.params.len()
            invariant
                i <= self.params@.len(),
                ps == pairs_view(self.params@),
                ps.len() == self.params@.len(),
                seq!['['] + self@.id + render_params_from(ps, 0) == out@ + render_params_from(
                    ps,
                    i as int,
                ),
            decreases self.params@.len() - i,
        {
            let ghost before = out@;
            out.push(' ');
            push_chars(&mut out, &self.params[i].0);
            out.push('=');
            out.push('"');
            push_chars(&mut out, &self.params[i].1);
            out.push('"');
            proof {
                assert(ps[i as int] == (self.params@[i as int].0@, self.params@[i as int].1@));
                assert(out@ =~= before + seq![' '] + render_pair(ps[i as int]));
                assert(before + render_params_from(ps, i as int) =~= out@ + render_params_from(
                    ps,
                    i + 1,
                ));
            }
            i = i + 1;
        }
        out.push(']');
        proof {
            assert(spec_render(self@) =~= out@);
        }
        out
    }

    /// All pairs decoded at once: names kept raw, values with their
    /// escapes resolved, in stored order.  The result is a pure function
    /// of the element, so repeated calls yield the same pairs.
    pub fn decoded_params(&self) -> (r: Vec<(Vec<char>, Vec<char>)>)
        ensures
            pairs_view(r@) == decoded_view(self@),
    {
        let mut out: Vec<(Vec<char>, Vec<char>)> = Vec::new();
        let mut i: usize = 0;
        while i < self.params.len()
            invariant
                i <= self.params@.len(),
                out@.len() == i,
                pairs_view(out@) =~= decoded_view(self@).take(i as int),
            decreases self.params@.len() - i,
        {
            let name = copy_chars(&self.params[i].0);
            let value = decode_value(&self.params[i].1);
            out.push((name, value));
            proof {
                assert(self@.params[i as int] == (self.params@[i as int].0@,
                self.params@[i as int].1@));
                assert(decoded_view(self@)[i as int] == (self@.params[i as int].0, decoded(
                    self@.params[i as int].1,
                )));
                assert(pairs_view(out@)[i as int] == (out@[i as int].0@, out@[i as int].1@));
                assert(pairs_view(out@) =~= decoded_view(self@).take(i + 1));
            }
            i = i + 1;
        }
        proof {
            assert(decoded_view(self@).take(self.params@.len() as int) =~= decoded_view(self@));
        }
        out
    }

    /// An independent deep copy of the element: same identifier and the
    /// same raw pairs, sharing no storage with `self`.
    pub fn to_owned(&self) -> (r: StructuredElement)
        ensures
            r@ == self@,
    {
        let mut params: Vec<(Vec<char>, Vec<char>)> = Vec::new();
        let mut i: usize = 0;
        while i < self.params.len()
            invariant
                i <= self.params@.len(),
                params@.len() == i,
                pairs_view(params@) =~= pairs_view(self.params@).take(i as int),
            decreases self.params@.len() - i,
        {
            let name = copy_chars(&self.params[i].0);
            let value = copy_chars(&self.params[i].1);
            params.push((name, value));
            proof {
                assert(pairs_view(params@)[i as int] == (params@[i as int].0@,
                params@[i as int].1@));
                assert(pairs_view(params@) =~= pairs_view(self.params@).take(i + 1));
            }
            i = i + 1;
        }
        let r = StructuredElement { id: copy_chars(&self.id), params };
        proof {
            assert(pairs_view(self.params@).take(self.params@.len() as int) =~= pairs_view(
                self.params@,
            ));
            assert(r@ =~= self@);
        }
        r
    }

    /// A lazy view over the pairs: each call of `next` decodes one value.
    /// Parameters never visited are never decoded.
    pub fn params(&self) -> (it: ParamsIter<'_>)
        ensures
            it.pos == 0,
            it.params@ == self.params@,
    {
        ParamsIter { pos: 0, params: &self.params }
    }
}

/// Walks an element's pairs, decoding one value per step.
pub struct ParamsIter<'a> {
    pub pos: usize,
    pub params: &'a Vec<(Vec<char>, Vec<char>)>,
}

impl<'a> ParamsIter<'a> {
    /// The next pair: the raw name and the decoded value.  `None` once
    /// all pairs have been visited.
    pub fn next(&mut self) -> (r: Option<(Vec<char>, Vec<char>)>)
        ensures
            final(self).params@ == old(self).params@,
            old(self).pos < old(self).params@.len() ==> {
                &&& final(self).pos == old(self).pos + 1
                &&& r matches Some(p) && p.0@ == pairs_view(old(self).params@)[old(
                    self,
                ).pos as int].0 && p.1@ == decoded(pairs_view(old(self).params@)[old(
                    self,
                ).pos as int].1)
            },
            old(self).pos >= old(self).params@.len() ==> r is None && final(self).pos == old(
                self,
            ).pos,
    {
        if self.pos < self.params.len() {
            let name = copy_chars(&self.params[self.pos].0);
            let value = decode_value(&self.params[self.pos].1);
            self.pos = self.pos + 1;
            Some((name, value))
        } else {
            None
        }
    }
}

} // verus!
