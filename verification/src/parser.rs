//! The executable parser, proved to compute the grammar of `grammar`.
//!
//! All functions work on a shared character buffer and positions into it;
//! the public entry points return the unconsumed remainder alongside the
//! parsed elements, so a caller can go on parsing the rest of a message.

use vstd::prelude::*;

use crate::element::pairs_view;
use crate::element::StructuredElement;
use crate::grammar::bracket_end;
use crate::grammar::id_end;
use crate::grammar::is_id_char;
use crate::grammar::is_whitespace_char;
use crate::grammar::lemma_datum_at_bounds;
use crate::grammar::lemma_param_at_bounds;
use crate::grammar::lemma_value_end;
use crate::grammar::name_end;
use crate::grammar::space_end;
use crate::grammar::spec_datum_at;
use crate::grammar::spec_element_permissive_at;
use crate::grammar::spec_element_strict_at;
use crate::grammar::spec_param_at;
use crate::grammar::spec_params_at;
use crate::grammar::spec_params_tail;
use crate::grammar::spec_parse;
use crate::grammar::spec_value_at;
use crate::grammar::spec_data_tail;
use crate::grammar::value_end;
use crate::grammar::SpecElement;

verus! {

/// A structural parse failure: the input does not match the active
/// grammar, or a well-formed element with no parameters was rejected by
/// the active profile.  The two are deliberately indistinguishable.
#[derive(Clone, Copy, Debug, PartialEq, Eq, Structural)]
pub struct ParseFailure;

/// The mathematical content of a list of parsed elements.
pub open spec fn elements_view(v: Seq<StructuredElement>) -> Seq<SpecElement> {
    v.map_values(|e: StructuredElement| e@)
}

fn is_whitespace_exec(c: char) -> (r: bool)
    ensures
        r == is_whitespace_char(c),
{
    c == ' ' || c == '\t' || c == '\n' || c == '\u{b}' || c == '\u{c}' || c == '\r' || c == '\u{85}'
        || c == '\u{a0}' || c == '\u{1680}' || (0x2000 <= c as u32 && c as u32 <= 0x200a) || c
        == '\u{2028}' || c == '\u{2029}' || c == '\u{202f}' || c == '\u{205f}' || c == '\u{3000}'
}

fn is_id_char_exec(c: char) -> (r: bool)
    ensures
        r == is_id_char(c),
{
    !is_whitespace_exec(c) && c != ']' && c != '='
}

fn scan_id_end(s: &Vec<char>, from: usize) -> (r: usize)
    requires
        from <= s@.len(),
    ensures
        r as int == id_end(s@, from as int),
        from <= r <= s@.len(),
{
    let mut i = from;
    while i < s.len() && is_id_char_exec(s[i])
        invariant
            from <= i <= s@.len(),
            id_end(s@, from as int) == id_end(s@, i as int),
        decreases s@.len() - i,
    {
        i = i + 1;
    }
    i
}

fn scan_name_end(s: &Vec<char>, from: usize) -> (r: usize)
    requires
        from <= s@.len(),
    ensures
        r as int == name_end(s@, from as int),
        from <= r <= s@.len(),
{
    let mut i = from;
    while i < s.len() && s[i] != ']' && s[i] != '='
        invariant
            from <= i <= s@.len(),
            name_end(s@, from as int) == name_end(s@, i as int),
        decreases s@.len() - i,
    {
        i = i + 1;
    }
    i
}

fn scan_space_end(s: &Vec<char>, from: usize) -> (r: usize)
    requires
        from <= s@.len(),
    ensures
        r as int == space_end(s@, from as int),
        from <= r <= s@.len(),
{
    let mut i = from;
    while i < s.len() && (s[i] == ' ' || s[i] == '\t')
        invariant
            from <= i <= s@.len(),
            space_end(s@, from as int) == space_end(s@, i as int),
        decreases s@.len() - i,
    {
        i = i + 1;
    }
    i
}

fn scan_bracket_end(s: &Vec<char>, from: usize) -> (r: usize)
    requires
        from <= s@.len(),
    ensures
        r as int == bracket_end(s@, from as int),
        from <= r <= s@.len(),
{
    let mut i = from;
    while i < s.len() && s[i] != ']'
        invariant
            from <= i <= s@.len(),
            bracket_end(s@, from as int) == bracket_end(s@, i as int),
        decreases s@.len() - i,
    {
        i = i + 1;
    }
    i
}

fn scan_value_end(s: &Vec<char>, from: usize) -> (r: Option<usize>)
    requires
        from <= s@.len(),
    ensures
        value_end(s@, from as int) matches Some(e) ==> r matches Some(u) && u as int == e,
        value_end(s@, from as int) is None ==> r is None,
{
    let mut i = from;
    loop
        invariant
            from <= i <= s@.len(),
            value_end(s@, from as int) == value_end(s@, i as int),
        decreases s@.len() - i,
    {
        if i >= s.len() {
            return None;
        }
        let c = s[i];
        if c == '"' {
            return Some(i);
        }
        if c == '\\' {
            if s.len() - i >= 2 {
                i = i + 2;
            } else {
                return None;
            }
        } else {
            i = i + 1;
        }
    }
}

/// The characters of `s` from `from` up to (excluding) `to`.
fn subvec(s: &Vec<char>, from: usize, to: usize) -> (r: Vec<char>)
    requires
        from <= to <= s@.len(),
    ensures
        r@ == s@.subrange(from as int, to as int),
{
    let mut out: Vec<char> = Vec::new();
    let mut i = from;
    while i < to
        invariant
            from <= i <= to <= s@.len(),
            out@ == s@.subrange(from as int, i as int),
        decreases to - i,
    {
        out.push(s[i]);
        proof {
            assert(s@.subrange(from as int, i + 1) =~= s@.subrange(from as int, i as int).push(
                s@[i as int],
            ));
        }
        i = i + 1;
    }
    out
}

fn parse_value_at(s: &Vec<char>, pos: usize) -> (r: Option<(Vec<char>, usize)>)
    requires
        pos <= s@.len(),
    ensures
        spec_value_at(s@, pos as int) matches Some(sv) ==> r matches Some(rv) && rv.0@ == sv.0
            && rv.1 as int == sv.1,
        spec_value_at(s@, pos as int) is None ==> r is None,
{
    if pos < s.len() && s[pos] == '"' {
        match scan_value_end(s, pos + 1) {
            Some(e) => {
                proof {
                    lemma_value_end(s@, pos + 1);
                }
                let v = subvec(s, pos + 1, e);
                Some((v, e + 1))
            },
            None => None,
        }
    } else {
        None
    }
}

fn parse_param_at(s: &Vec<char>, pos: usize) -> (r: Option<((Vec<char>, Vec<char>), usize)>)
    requires
        pos <= s@.len(),
    ensures
        spec_param_at(s@, pos as int) matches Some(sp) ==> r matches Some(rp) && rp.0.0@ == sp.0.0
            && rp.0.1@ == sp.0.1 && rp.1 as int == sp.1 && pos < rp.1 <= s@.len(),
        spec_param_at(s@, pos as int) is None ==> r is None,
{
    proof {
        lemma_param_at_bounds(s@, pos as int);
    }
    let ne = scan_name_end(s, pos);
    if ne == pos {
        return None;
    }
    if !(ne < s.len() && s[ne] == '=') {
        return None;
    }
    let sp = scan_space_end(s, ne + 1);
    match parse_value_at(s, sp) {
        Some((v, j)) => {
            let name = subvec(s, pos, ne);
            Some(((name, v), j))
        },
        None => None,
    }
}

fn parse_params_at(s: &Vec<char>, pos: usize) -> (r: (Vec<(Vec<char>, Vec<char>)>, usize))
    requires
        pos <= s@.len(),
    ensures
        pairs_view(r.0@) == spec_params_at(s@, pos as int).0,
        r.1 as int == spec_params_at(s@, pos as int).1,
        pos <= r.1 <= s@.len(),
{
    let ghost goal = spec_params_at(s@, pos as int);
    let mut acc: Vec<(Vec<char>, Vec<char>)> = Vec::new();
    let mut cur: usize = pos;
    match parse_param_at(s, pos) {
        None => {
            proof {
                assert(pairs_view(acc@) =~= goal.0);
            }
            return (acc, pos);
        },
        Some((p, j)) => {
            proof {
                assert(pairs_view(acc@.push(p)) =~= seq![(p.0@, p.1@)]);
            }
            acc.push(p);
            cur = j;
        },
    }
    let mut done = false;
    while !done
        invariant
            pos <= cur <= s@.len(),
            goal == spec_params_at(s@, pos as int),
            goal.0 == pairs_view(acc@) + spec_params_tail(s@, cur as int).0,
            goal.1 == spec_params_tail(s@, cur as int).1,
            done ==> spec_params_tail(s@, cur as int).0 == Seq::<(Seq<char>, Seq<char>)>::empty()
                && spec_params_tail(s@, cur as int).1 == cur as int,
        decreases s@.len() - cur + (if done {
            0int
        } else {
            1int
        }),
    {
        if !(cur < s.len() && s[cur] == ' ') {
            done = true;
        } else {
            match parse_param_at(s, cur + 1) {
                None => {
                    done = true;
                },
                Some((p, j)) => {
                    let ghost pv = (p.0@, p.1@);
                    proof {
                        assert(spec_params_tail(s@, cur as int).0 == seq![pv] + spec_params_tail(
                            s@,
                            j as int,
                        ).0);
                        assert(pairs_view(acc@.push(p)) =~= pairs_view(acc@) + seq![pv]);
                        assert(pairs_view(acc@) + (seq![pv] + spec_params_tail(s@, j as int).0)
                            =~= (pairs_view(acc@) + seq![pv]) + spec_params_tail(s@, j as int).0);
                    }
                    acc.push(p);
                    cur = j;
                },
            }
        }
    }
    proof {
        assert(pairs_view(acc@) =~= pairs_view(acc@) + Seq::<(Seq<char>, Seq<char>)>::empty());
    }
    (acc, cur)
}

fn parse_element_strict_at(s: &Vec<char>, pos: usize) -> (r: Option<(StructuredElement, usize)>)
    requires
        pos <= s@.len(),
    ensures
        spec_element_strict_at(s@, pos as int) matches Some(se) ==> r matches Some(re) && re.0@
            == se.0 && re.1 as int == se.1 && pos < re.1 <= s@.len(),
        spec_element_strict_at(s@, pos as int) is None ==> r is None,
{
    if !(pos < s.len() && s[pos] == '[') {
        return None;
    }
    let ie = scan_id_end(s, pos + 1);
    if ie == pos + 1 {
        return None;
    }
    let sp = scan_space_end(s, ie);
    let (params, j) = parse_params_at(s, sp);
    if j < s.len() && s[j] == ']' {
        let id = subvec(s, pos + 1, ie);
        let e = StructuredElement { id, params };
        proof {
            assert(e@ =~= spec_element_strict_at(s@, pos as int).unwrap().0);
        }
        Some((e, j + 1))
    } else {
        None
    }
}

fn parse_element_permissive_at(s: &Vec<char>, pos: usize) -> (r: Option<
    (Option<StructuredElement>, usize),
>)
    requires
        pos <= s@.len(),
    ensures
        spec_element_permissive_at(s@, pos as int) matches Some(sv) ==> r matches Some(rv)
            && rv.1 as int == sv.1 && pos < rv.1 <= s@.len() && (sv.0 is Some <==> rv.0 is Some)
            && (sv.0 matches Some(e) ==> rv.0 matches Some(re) && re@ == e),
        spec_element_permissive_at(s@, pos as int) is None ==> r is None,
{
    match parse_element_strict_at(s, pos) {
        Some((e, j)) => Some((Some(e), j)),
        None => {
            if pos < s.len() && s[pos] == '[' {
                let k = scan_bracket_end(s, pos + 1);
                if k < s.len() {
                    Some((None, k + 1))
                } else {
                    None
                }
            } else {
                None
            }
        },
    }
}

fn parse_datum_at(s: &Vec<char>, pos: usize, allow_failure: bool, allow_empty: bool) -> (r: Option<
    (Option<StructuredElement>, usize),
>)
    requires
        pos <= s@.len(),
    ensures
        spec_datum_at(s@, pos as int, allow_failure, allow_empty) matches Some(sv) ==> r matches Some(
            rv,
        ) && rv.1 as int == sv.1 && pos < rv.1 <= s@.len() && (sv.0 is Some <==> rv.0 is Some) && (
        sv.0 matches Some(e) ==> rv.0 matches Some(re) && re@ == e),
        spec_datum_at(s@, pos as int, allow_failure, allow_empty) is None ==> r is None,
{
    let parsed = if allow_failure {
        parse_element_permissive_at(s, pos)
    } else {
        match parse_element_strict_at(s, pos) {
            Some((e, j)) => Some((Some(e), j)),
            None => None,
        }
    };
    match parsed {
        Some((o, j)) => {
            if !allow_empty {
                let empty = match &o {
                    Some(e) => e.params.len() == 0,
                    None => false,
                };
                if empty {
                    return None;
                }
            }
            Some((o, j))
        },
        None => None,
    }
}

/// One recognizer step, configured by the two compatibility flags.
///
/// `allow_failure` selects the permissive bracket grammar, under which a
/// bracketed run of text that is not a well-formed element is consumed
/// and reported as `None`; `allow_empty` decides whether a well-formed
/// element with no parameters is a result or a failure.
pub struct StructuredDatumParser {
    pub allow_failure: bool,
    pub allow_empty: bool,
}

impl StructuredDatumParser {
    /// Parse a single structured-data record at the start of `input`.
    ///
    /// `Ok` carries the unconsumed remainder and the three-way outcome:
    /// `Some` element, or `None` for a recognized but discarded bracket.
    pub fn parse(&self, input: &Vec<char>) -> (r: Result<
        (Vec<char>, Option<StructuredElement>),
        ParseFailure,
    >)
        ensures
            spec_datum_at(input@, 0, self.allow_failure, self.allow_empty) matches Some(sv)
                ==> r matches Ok(ok) && ok.0@ == input@.subrange(sv.1, input@.len() as int) && (
            sv.0 is Some <==> ok.1 is Some) && (sv.0 matches Some(e) ==> ok.1 matches Some(re)
                && re@ == e),
            spec_datum_at(input@, 0, self.allow_failure, self.allow_empty) is None ==> r is Err,
    {
        match parse_datum_at(input, 0, self.allow_failure, self.allow_empty) {
            Some((o, j)) => {
                let rest = subvec(input, j, input.len());
                Ok((rest, o))
            },
            None => Err(ParseFailure),
        }
    }
}

/// Parse a quoted parameter value at the start of `input`.
///
/// Returns the unconsumed remainder and the raw value, the text between
/// the quotes with escape sequences untouched; `None` when `input` does
/// not begin with a quote or the value is unterminated.
pub fn param_value(input: &Vec<char>) -> (r: Option<(Vec<char>, Vec<char>)>)
    ensures
        spec_value_at(input@, 0) matches Some(sv) ==> r matches Some(rv) && rv.0@ == input@.subrange(
            sv.1,
            input@.len() as int,
        ) && rv.1@ == sv.0,
        spec_value_at(input@, 0) is None ==> r is None,
{
    proof {
        crate::grammar::lemma_value_at_bounds(input@, 0);
    }
    match parse_value_at(input, 0) {
        Some((v, j)) => {
            let rest = subvec(input, j, input.len());
            Some((rest, v))
        },
        None => None,
    }
}

/// Parse one `name="value"` pair at the start of `input`.
///
/// Returns the unconsumed remainder and the pair; the value is raw.
pub fn param(input: &Vec<char>) -> (r: Option<(Vec<char>, (Vec<char>, Vec<char>))>)
    ensures
        spec_param_at(input@, 0) matches Some(sp) ==> r matches Some(rp) && rp.0@
            == input@.subrange(sp.1, input@.len() as int) && rp.1.0@ == sp.0.0 && rp.1.1@ == sp.0.1,
        spec_param_at(input@, 0) is None ==> r is None,
{
    match parse_param_at(input, 0) {
        Some((p, j)) => {
            let rest = subvec(input, j, input.len());
            Some((rest, p))
        },
        None => None,
    }
}

fn parse_structured_data(s: &Vec<char>, allow_failure: bool, allow_empty: bool) -> (r: Option<
    (Vec<StructuredElement>, usize),
>)
    ensures
        spec_parse(s@, allow_failure, allow_empty) matches Some(sv) ==> r matches Some(rv)
            && elements_view(rv.0@) == sv.0 && rv.1 as int == sv.1 && rv.1 <= s@.len(),
        spec_parse(s@, allow_failure, allow_empty) is None ==> r is None,
{
    if s.len() > 0 {
        let c = s[0];
        if c == '-' {
            let empty: Vec<StructuredElement> = Vec::new();
            proof {
                assert(elements_view(empty@) =~= Seq::<SpecElement>::empty());
            }
            return Some((empty, 1));
        }
    }
    let ghost goal = spec_parse(s@, allow_failure, allow_empty);
    let mut acc: Vec<StructuredElement> = Vec::new();
    let mut cur: usize;
    match parse_datum_at(s, 0, allow_failure, allow_empty) {
        None => {
            return None;
        },
        Some((o, j)) => {
            match o {
                Some(e) => {
                    proof {
                        assert(elements_view(acc@.push(e)) =~= seq![e@]);
                    }
                    acc.push(e);
                },
                None => {
                },
            }
            cur = j;
        },
    }
    proof {
        assert(goal matches Some(g) && g.0 == elements_view(acc@) + spec_data_tail(
            s@,
            cur as int,
            allow_failure,
            allow_empty,
        ).0 && g.1 == spec_data_tail(s@, cur as int, allow_failure, allow_empty).1) by {
            assert(elements_view(acc@) + spec_data_tail(
                s@,
                cur as int,
                allow_failure,
                allow_empty,
            ).0 =~= goal.unwrap().0);
        }
    }
    let mut done = false;
    while !done
        invariant
            cur <= s@.len(),
            goal == spec_parse(s@, allow_failure, allow_empty),
            goal matches Some(g) && g.0 == elements_view(acc@) + spec_data_tail(
                s@,
                cur as int,
                allow_failure,
                allow_empty,
            ).0 && g.1 == spec_data_tail(s@, cur as int, allow_failure, allow_empty).1,
            done ==> spec_data_tail(s@, cur as int, allow_failure, allow_empty).0
                == Seq::<SpecElement>::empty() && spec_data_tail(
                s@,
                cur as int,
                allow_failure,
                allow_empty,
            ).1 == cur as int,
        decreases s@.len() - cur + (if done {
            0int
        } else {
            1int
        }),
    {
        match parse_datum_at(s, cur, allow_failure, allow_empty) {
            None => {
                done = true;
            },
            Some((o, j)) => {
                proof {
                    lemma_datum_at_bounds(s@, cur as int, allow_failure, allow_empty);
                }
                match o {
                    Some(e) => {
                        proof {
                            assert(elements_view(acc@.push(e)) =~= elements_view(acc@) + seq![e@]);
                            assert(elements_view(acc@) + (seq![e@] + spec_data_tail(
                                s@,
                                j as int,
                                allow_failure,
                                allow_empty,
                            ).0) =~= (elements_view(acc@) + seq![e@]) + spec_data_tail(
                                s@,
                                j as int,
                                allow_failure,
                                allow_empty,
                            ).0);
                        }
                        acc.push(e);
                    },
                    None => {
                    },
                }
                cur = j;
            },
        }
    }
    proof {
        assert(elements_view(acc@) =~= elements_view(acc@) + Seq::<SpecElement>::empty());
    }
    Some((acc, cur))
}

/// Parse a structured-data field under the lenient profile: bracketed
/// text that is not a well-formed element is consumed and dropped, and
/// elements without parameters are accepted.  A single `-` means no
/// structured data.  Returns the unconsumed remainder and the elements.
pub fn parse_lenient(input: &Vec<char>) -> (r: Result<
    (Vec<char>, Vec<StructuredElement>),
    ParseFailure,
>)
    ensures
        spec_parse(input@, true, true) matches Some(sv) ==> r matches Ok(ok) && ok.0@
            == input@.subrange(sv.1, input@.len() as int) && elements_view(ok.1@) == sv.0,
        spec_parse(input@, true, true) is None ==> r is Err,
{
    match parse_structured_data(input, true, true) {
        Some((elems, j)) => {
            let rest = subvec(input, j, input.len());
            Ok((rest, elems))
        },
        None => Err(ParseFailure),
    }
}

/// Parse a structured-data field under the strict profile: every bracket
/// group must be a well-formed element with at least one parameter.  A
/// single `-` means no structured data.  Returns the unconsumed remainder
/// and the elements.
pub fn parse_strict(input: &Vec<char>) -> (r: Result<
    (Vec<char>, Vec<StructuredElement>),
    ParseFailure,
>)
    ensures
        spec_parse(input@, false, false) matches Some(sv) ==> r matches Ok(ok) && ok.0@
            == input@.subrange(sv.1, input@.len() as int) && elements_view(ok.1@) == sv.0,
        spec_parse(input@, false, false) is None ==> r is Err,
{
    match parse_structured_data(input, false, false) {
        Some((elems, j)) => {
            let rest = subvec(input, j, input.len());
            Ok((rest, elems))
        },
        None => Err(ParseFailure),
    }
}

} // verus!
