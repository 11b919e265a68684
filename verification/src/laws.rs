//! The library's laws: statements that relate several functions, proved
//! here once and for all inputs.
//!
//! The main one is the round trip between rendering and parsing: the
//! canonical text of any well-formed element parses back, under the
//! strict grammar, to exactly that element, consuming the whole text.
//! (The converse — that parsing and re-rendering reproduces the consumed
//! text — holds only for canonical input: the grammar also accepts extra
//! padding around parameters, as in `[id  a="1"]` or `a= "1"`, which the
//! canonical form writes with single spaces and no padding.)

use vstd::prelude::*;

use crate::element::decoded_view;
use crate::element::elements_equal;
use crate::element::render_pair;
use crate::element::render_params_from;
use crate::element::spec_render;
use crate::grammar::id_end;
use crate::grammar::is_id_char;
use crate::grammar::is_name_char;
use crate::grammar::is_space_char;
use crate::grammar::name_end;
use crate::grammar::space_end;
use crate::grammar::spec_element_strict_at;
use crate::grammar::spec_param_at;
use crate::grammar::spec_params_at;
use crate::grammar::spec_params_tail;
use crate::grammar::spec_value_at;
use crate::grammar::value_end;
use crate::grammar::SpecElement;

verus! {

/// A text the grammar accepts as an element identifier.
pub open spec fn wf_id(id: Seq<char>) -> bool {
    id.len() > 0 && forall|k: int| 0 <= k < id.len() ==> is_id_char(#[trigger] id[k])
}

/// A text the grammar reads back as a parameter name from its canonical
/// rendering.  The first character may not be padding: padding after the
/// identifier would swallow it.
pub open spec fn wf_name(n: Seq<char>) -> bool {
    &&& n.len() > 0
    &&& forall|k: int| 0 <= k < n.len() ==> is_name_char(#[trigger] n[k])
    &&& !is_space_char(n[0])
}

/// A raw value whose scan from position `i` ends exactly at its end: no
/// unescaped quote inside, no trailing lone backslash.
pub open spec fn wf_value_from(v: Seq<char>, i: int) -> bool
    decreases v.len() - i,
{
    if i < 0 {
        false
    } else if i >= v.len() {
        i == v.len()
    } else if v[i] == '"' {
        false
    } else if v[i] == '\\' {
        if i + 2 <= v.len() {
            wf_value_from(v, i + 2)
        } else {
            false
        }
    } else {
        wf_value_from(v, i + 1)
    }
}

/// A raw value the grammar reads back intact from its canonical
/// rendering.
pub open spec fn wf_value(v: Seq<char>) -> bool {
    wf_value_from(v, 0)
}

pub open spec fn wf_pair(p: (Seq<char>, Seq<char>)) -> bool {
    wf_name(p.0) && wf_value(p.1)
}

/// An element whose canonical text the grammar reads back intact.
pub open spec fn wf_element(e: SpecElement) -> bool {
    &&& wf_id(e.id)
    &&& forall|k: int| 0 <= k < e.params.len() ==> wf_pair(#[trigger] e.params[k])
}

proof fn lemma_id_end_is(s: Seq<char>, i: int, j: int)
    requires
        0 <= i <= j <= s.len(),
        forall|k: int| i <= k < j ==> is_id_char(#[trigger] s[k]),
        j == s.len() || !is_id_char(s[j]),
    ensures
        id_end(s, i) == j,
    decreases j - i,
{
    if i < j {
        lemma_id_end_is(s, i + 1, j);
    }
}

proof fn lemma_name_end_is(s: Seq<char>, i: int, j: int)
    requires
        0 <= i <= j <= s.len(),
        forall|k: int| i <= k < j ==> is_name_char(#[trigger] s[k]),
        j == s.len() || !is_name_char(s[j]),
    ensures
        name_end(s, i) == j,
    decreases j - i,
{
    if i < j {
        lemma_name_end_is(s, i + 1, j);
    }
}

proof fn lemma_value_end_is(s: Seq<char>, off: int, v: Seq<char>, i: int)
    requires
        0 <= off,
        off + v.len() < s.len(),
        forall|k: int| 0 <= k < v.len() ==> s[off + k] == #[trigger] v[k],
        s[off + v.len()] == '"',
        wf_value_from(v, i),
        0 <= i <= v.len(),
    ensures
        value_end(s, off + i) == Some(off + v.len()),
    decreases v.len() - i,
{
    if i == v.len() {
    } else if v[i] == '\\' {
        lemma_value_end_is(s, off, v, i + 2);
    } else {
        lemma_value_end_is(s, off, v, i + 1);
    }
}

/// The canonical text of one pair, placed anywhere in a larger text,
/// parses back to exactly that pair.
proof fn lemma_param_parse(s: Seq<char>, i: int, p: (Seq<char>, Seq<char>))
    requires
        0 <= i,
        i + render_pair(p).len() < s.len(),
        s.subrange(i, i + render_pair(p).len()) == render_pair(p),
        wf_pair(p),
    ensures
        spec_param_at(s, i) == Some((p, i + render_pair(p).len())),
{
    let rp = render_pair(p);
    let n = p.0.len() as int;
    let vl = p.1.len() as int;
    assert(rp.len() == n + vl + 3);
    assert forall|k: int| 0 <= k < rp.len() implies s[i + k] == rp[k] by {
        assert(s.subrange(i, i + rp.len())[k] == s[i + k]);
    }
    assert forall|k: int| 0 <= k < n implies rp[k] == p.0[k] by {}
    assert(rp[n] == '=');
    assert(rp[n + 1] == '"');
    assert forall|k: int| 0 <= k < vl implies rp[n + 2 + k] == p.1[k] by {}
    assert(rp[n + 2 + vl] == '"');
    assert forall|k: int| i <= k < i + n implies is_name_char(#[trigger] s[k]) by {
        assert(s[i + (k - i)] == rp[k - i]);
        assert(rp[k - i] == p.0[k - i]);
    }
    lemma_name_end_is(s, i, i + n);
    assert(name_end(s, i) == i + n);
    assert(s[i + n] == '=');
    assert(space_end(s, i + n + 1) == i + n + 1);
    assert forall|k: int| 0 <= k < vl implies s[(i + n + 2) + k] == p.1[k] by {
        assert(s[i + (n + 2 + k)] == rp[n + 2 + k]);
    }
    assert(s[(i + n + 2) + vl] == '"');
    lemma_value_end_is(s, i + n + 2, p.1, 0);
    assert(value_end(s, i + n + 2) == Some(i + n + 2 + vl));
    assert(spec_value_at(s, i + n + 1) matches Some(r) && r.0 == p.1 && r.1 == i + rp.len()) by {
        assert(s.subrange(i + n + 2, i + n + 2 + vl) =~= p.1);
    }
    assert(s.subrange(i, i + n) =~= p.0);
}

/// The canonical text of the pairs from `idx` on, followed by `]`,
/// parses back to exactly those pairs, stopping at the `]`.
proof fn lemma_params_tail_parse(s: Seq<char>, i: int, ps: Seq<(Seq<char>, Seq<char>)>, idx: int)
    requires
        0 <= idx <= ps.len(),
        0 <= i,
        i + render_params_from(ps, idx).len() < s.len(),
        s.subrange(i, i + render_params_from(ps, idx).len()) == render_params_from(ps, idx),
        s[i + render_params_from(ps, idx).len()] == ']',
        forall|k: int| 0 <= k < ps.len() ==> wf_pair(#[trigger] ps[k]),
    ensures
        spec_params_tail(s, i) == (
            ps.subrange(idx, ps.len() as int),
            i + render_params_from(ps, idx).len(),
        ),
    decreases ps.len() - idx,
{
    let rpf = render_params_from(ps, idx);
    assert forall|k: int| 0 <= k < rpf.len() implies s[i + k] == rpf[k] by {
        assert(s.subrange(i, i + rpf.len())[k] == s[i + k]);
    }
    if idx == ps.len() {
        assert(rpf =~= Seq::<char>::empty());
        assert(s[i] == ']');
        assert(ps.subrange(idx, ps.len() as int) =~= Seq::<(Seq<char>, Seq<char>)>::empty());
        assert(spec_params_tail(s, i) == (ps.subrange(idx, ps.len() as int), i + rpf.len()));
    } else {
        let rp = render_pair(ps[idx]);
        let rest = render_params_from(ps, idx + 1);
        assert(rpf == seq![' '] + rp + rest);
        assert(s[i + 0] == rpf[0]);
        assert(s[i] == ' ');
        assert(s.subrange(i + 1, i + 1 + rp.len()) =~= rp) by {
            assert forall|k: int| 0 <= k < rp.len() implies s.subrange(
                i + 1,
                i + 1 + rp.len(),
            )[k] == rp[k] by {
                assert(s[i + (1 + k)] == rpf[1 + k]);
                assert(rpf[1 + k] == rp[k]);
            }
        }
        lemma_param_parse(s, i + 1, ps[idx]);
        let j = i + 1 + rp.len();
        assert(spec_param_at(s, i + 1) == Some((ps[idx], j)));
        assert(s.subrange(j, j + rest.len()) =~= rest) by {
            assert forall|k: int| 0 <= k < rest.len() implies s.subrange(
                j,
                j + rest.len(),
            )[k] == rest[k] by {
                assert(s[i + (1 + rp.len() + k)] == rpf[1 + rp.len() + k]);
                assert(rpf[1 + rp.len() + k] == rest[k]);
            }
        }
        assert(j + rest.len() == i + rpf.len());
        lemma_params_tail_parse(s, j, ps, idx + 1);
        assert(seq![ps[idx]] + ps.subrange(idx + 1, ps.len() as int) =~= ps.subrange(
            idx,
            ps.len() as int,
        ));
    }
}

/// The round trip: the canonical text of any well-formed element parses
/// back, under the strict grammar, to exactly that element, consuming
/// the whole text.
pub proof fn lemma_render_parse_round_trip(e: SpecElement)
    requires
        wf_element(e),
    ensures
        spec_element_strict_at(spec_render(e), 0) == Some((e, spec_render(e).len() as int)),
{
    let s = spec_render(e);
    let idl = e.id.len() as int;
    let rpf = render_params_from(e.params, 0);
    let ie = 1 + idl;
    assert(s == seq!['['] + e.id + rpf + seq![']']);
    assert(s.len() == 1 + idl + rpf.len() + 1);
    assert(s[0] == '[');
    assert forall|k: int| 1 <= k < ie implies is_id_char(#[trigger] s[k]) by {
        assert(s[k] == e.id[k - 1]);
    }
    assert(s[s.len() - 1] == ']');
    if e.params.len() == 0 {
        assert(rpf =~= Seq::<char>::empty());
        assert(s[ie] == ']');
        lemma_id_end_is(s, 1, ie);
        assert(space_end(s, ie) == ie);
        assert(name_end(s, ie) == ie);
        assert(spec_param_at(s, ie) is None);
        assert(spec_params_at(s, ie) == (Seq::<(Seq<char>, Seq<char>)>::empty(), ie));
        assert(s.subrange(1, ie) =~= e.id);
        assert(Seq::<(Seq<char>, Seq<char>)>::empty() =~= e.params);
        let r = spec_element_strict_at(s, 0);
        assert(r matches Some(v) && v.0 =~= e && v.1 == s.len());
        assert(spec_element_strict_at(s, 0) == Some((e, s.len() as int)));
    } else {
        let rp0 = render_pair(e.params[0]);
        let rest = render_params_from(e.params, 1);
        assert(rpf == seq![' '] + rp0 + rest);
        assert(s[ie + 0] == rpf[0]);
        assert(s[ie] == ' ');
        lemma_id_end_is(s, 1, ie);
        assert(s[ie + 1] == rpf[1]);
        assert(rpf[1] == rp0[0]);
        assert(rp0[0] == e.params[0].0[0]);
        assert(!is_space_char(s[ie + 1]));
        assert(space_end(s, ie + 1) == ie + 1);
        assert(space_end(s, ie) == ie + 1);
        assert(s.subrange(ie + 1, ie + 1 + rp0.len()) =~= rp0) by {
            assert forall|k: int| 0 <= k < rp0.len() implies s.subrange(
                ie + 1,
                ie + 1 + rp0.len(),
            )[k] == rp0[k] by {
                assert(s[ie + (1 + k)] == rpf[1 + k]);
                assert(rpf[1 + k] == rp0[k]);
            }
        }
        lemma_param_parse(s, ie + 1, e.params[0]);
        let j = ie + 1 + rp0.len();
        assert(spec_param_at(s, ie + 1) == Some((e.params[0], j)));
        assert(s.subrange(j, j + rest.len()) =~= rest) by {
            assert forall|k: int| 0 <= k < rest.len() implies s.subrange(
                j,
                j + rest.len(),
            )[k] == rest[k] by {
                assert(s[ie + (1 + rp0.len() + k)] == rpf[1 + rp0.len() + k]);
                assert(rpf[1 + rp0.len() + k] == rest[k]);
            }
        }
        assert(j + rest.len() == s.len() - 1);
        lemma_params_tail_parse(s, j, e.params, 1);
        assert(seq![e.params[0]] + e.params.subrange(1, e.params.len() as int) =~= e.params);
        assert(spec_params_at(s, ie + 1) == (e.params, s.len() - 1));
        assert(s[s.len() - 1] == ']');
        assert(s.subrange(1, ie) =~= e.id);
        let r = spec_element_strict_at(s, 0);
        assert(r matches Some(v) && v.0 =~= e && v.1 == s.len());
        assert(spec_element_strict_at(s, 0) == Some((e, s.len() as int)));
    }
}

/// `perm` rearranges the indices of `p` into `q`: same length, every
/// index of `p` used exactly once, and `q` reads `p` through it.
pub open spec fn reordering_of(
    q: Seq<(Seq<char>, Seq<char>)>,
    p: Seq<(Seq<char>, Seq<char>)>,
    perm: Seq<int>,
) -> bool {
    &&& q.len() == p.len()
    &&& perm.len() == p.len()
    &&& forall|k: int| 0 <= k < perm.len() ==> 0 <= #[trigger] perm[k] < p.len()
    &&& forall|k1: int, k2: int| 0 <= k1 < k2 < perm.len() ==> perm[k1] != perm[k2]
    &&& forall|k: int| 0 <= k < q.len() ==> #[trigger] q[k] == p[perm[k]]
}

proof fn lemma_reordering_multiset(
    q: Seq<(Seq<char>, Seq<char>)>,
    p: Seq<(Seq<char>, Seq<char>)>,
    perm: Seq<int>,
)
    requires
        reordering_of(q, p, perm),
    ensures
        q.to_multiset() == p.to_multiset(),
    decreases q.len(),
{
    broadcast use {vstd::seq_lib::group_to_multiset_ensures, vstd::multiset::group_multiset_axioms};

    if q.len() == 0 {
        assert(q.to_multiset().len() == 0);
        assert(p.to_multiset().len() == 0);
        assert(q.to_multiset() =~= p.to_multiset());
    } else {
        let m = q.len() - 1;
        let t = perm[m];
        let q2 = q.drop_last();
        let p2 = p.remove(t);
        let perm2 = Seq::new(m as nat, |k: int| if perm[k] < t {
            perm[k]
        } else {
            perm[k] - 1
        });
        p.remove_ensures(t);
        assert(reordering_of(q2, p2, perm2)) by {
            assert forall|k: int| 0 <= k < q2.len() implies #[trigger] q2[k] == p2[perm2[k]] by {
                assert(perm[k] != t);
                if perm[k] < t {
                    assert(p2[perm[k]] == p[perm[k]]);
                } else {
                    assert(p2[perm[k] - 1] == p[perm[k]]);
                }
            }
        }
        lemma_reordering_multiset(q2, p2, perm2);
        assert(q =~= q2.push(q.last()));
        assert(q.to_multiset() =~= q2.to_multiset().insert(q.last()));
        assert(p2.to_multiset() =~= p.to_multiset().remove(p[t]));
        assert(p.contains(p[t]));
        assert(p.to_multiset().count(p[t]) > 0);
        assert(q.last() == p[t]);
        assert(p.to_multiset().remove(p[t]).insert(p[t]) =~= p.to_multiset());
        assert(q.to_multiset() =~= p.to_multiset());
    }
}

/// Equality is insensitive to parameter order: two elements with the
/// same identifier whose pair lists are rearrangements of one another
/// are equal, both ways round.
pub proof fn lemma_eq_order_insensitive(a: SpecElement, b: SpecElement, perm: Seq<int>)
    requires
        a.id == b.id,
        reordering_of(b.params, a.params, perm),
    ensures
        elements_equal(a, b),
        elements_equal(b, a),
{
    lemma_reordering_multiset(b.params, a.params, perm);
}

/// Elements with different identifiers are never equal, whatever their
/// parameters.
pub proof fn lemma_eq_different_id(a: SpecElement, b: SpecElement)
    requires
        a.id != b.id,
    ensures
        !elements_equal(a, b),
{
}

/// Decoding is deterministic and repeatable: every run of
/// `decoded_params`, and every fresh walk of `params`, returns
/// `decoded_view` of the element, so any two of them agree pair for
/// pair.
pub proof fn lemma_decoding_deterministic(
    e: SpecElement,
    r1: Seq<(Seq<char>, Seq<char>)>,
    r2: Seq<(Seq<char>, Seq<char>)>,
)
    requires
        r1 == decoded_view(e),
        r2 == decoded_view(e),
    ensures
        r1 == r2,
{
}

} // verus!
