//! The structured-data grammar, stated over sequences of characters.
//!
//! Everything here is specification: a mathematical description of what a
//! parse of the field returns.  The executable parser in `parser` is proved
//! to compute exactly these functions.
//!
//! The grammar, informally:
//!
//! ```text
//! sd-field    = "-" | 1*sd-element
//! sd-element  = "[" sd-id *( SP sd-param ) "]"
//! sd-id       = 1*(any char except whitespace, "]", "=")
//! sd-param    = param-name "=" *SP param-value
//! param-name  = 1*(any char except "]", "=")
//! param-value = DQUOTE *( escaped-pair | safe-char ) DQUOTE
//! escaped-pair = "\" any-char
//! ```

use vstd::prelude::*;

verus! {

/// One parsed bracket group: an identifier and the raw (still-escaped)
/// name/value pairs, in source order.
#[verifier::ext_equal]
pub struct SpecElement {
    pub id: Seq<char>,
    pub params: Seq<(Seq<char>, Seq<char>)>,
}

/// The Unicode white-space characters (the White_Space property).
pub open spec fn is_whitespace_char(c: char) -> bool {
    ||| c == ' '
    ||| c == '\t'
    ||| c == '\n'
    ||| c == '\u{b}'
    ||| c == '\u{c}'
    ||| c == '\r'
    ||| c == '\u{85}'
    ||| c == '\u{a0}'
    ||| c == '\u{1680}'
    ||| (0x2000 <= c as u32 && c as u32 <= 0x200a)
    ||| c == '\u{2028}'
    ||| c == '\u{2029}'
    ||| c == '\u{202f}'
    ||| c == '\u{205f}'
    ||| c == '\u{3000}'
}

/// Characters an element identifier may contain.
pub open spec fn is_id_char(c: char) -> bool {
    !is_whitespace_char(c) && c != ']' && c != '='
}

/// Characters a parameter name may contain.
pub open spec fn is_name_char(c: char) -> bool {
    c != ']' && c != '='
}

/// The padding accepted between `=` and the opening quote of a value.
pub open spec fn is_space_char(c: char) -> bool {
    c == ' ' || c == '\t'
}

/// First position at or after `i` whose character cannot belong to an
/// identifier, or the end of the input.
pub open spec fn id_end(s: Seq<char>, i: int) -> int
    decreases s.len() - i,
{
    if i < 0 || i >= s.len() {
        i
    } else if !is_id_char(s[i]) {
        i
    } else {
        id_end(s, i + 1)
    }
}

/// First position at or after `i` whose character cannot belong to a
/// parameter name, or the end of the input.
pub open spec fn name_end(s: Seq<char>, i: int) -> int
    decreases s.len() - i,
{
    if i < 0 || i >= s.len() {
        i
    } else if !is_name_char(s[i]) {
        i
    } else {
        name_end(s, i + 1)
    }
}

/// First position at or after `i` that is not padding.
pub open spec fn space_end(s: Seq<char>, i: int) -> int
    decreases s.len() - i,
{
    if i < 0 || i >= s.len() {
        i
    } else if !is_space_char(s[i]) {
        i
    } else {
        space_end(s, i + 1)
    }
}

/// First `]` at or after `i`, or the end of the input.
pub open spec fn bracket_end(s: Seq<char>, i: int) -> int
    decreases s.len() - i,
{
    if i < 0 || i >= s.len() {
        i
    } else if s[i] == ']' {
        i
    } else {
        bracket_end(s, i + 1)
    }
}

/// Position of the quote closing a value whose content starts at `i`.
/// A backslash together with the character after it is an opaque
/// two-character unit; no closing quote means no value.
pub open spec fn value_end(s: Seq<char>, i: int) -> Option<int>
    decreases s.len() - i,
{
    if i < 0 || i >= s.len() {
        None
    } else if s[i] == '"' {
        Some(i)
    } else if s[i] == '\\' {
        if i + 2 <= s.len() {
            value_end(s, i + 2)
        } else {
            None
        }
    } else {
        value_end(s, i + 1)
    }
}

pub proof fn lemma_id_end(s: Seq<char>, i: int)
    requires
        0 <= i <= s.len(),
    ensures
        i <= id_end(s, i) <= s.len(),
        forall|k: int| i <= k < id_end(s, i) ==> is_id_char(s[k]),
        id_end(s, i) < s.len() ==> !is_id_char(s[id_end(s, i)]),
    decreases s.len() - i,
{
    if i < s.len() && is_id_char(s[i]) {
        lemma_id_end(s, i + 1);
    }
}

pub proof fn lemma_name_end(s: Seq<char>, i: int)
    requires
        0 <= i <= s.len(),
    ensures
        i <= name_end(s, i) <= s.len(),
        forall|k: int| i <= k < name_end(s, i) ==> is_name_char(s[k]),
        name_end(s, i) < s.len() ==> !is_name_char(s[name_end(s, i)]),
    decreases s.len() - i,
{
    if i < s.len() && is_name_char(s[i]) {
        lemma_name_end(s, i + 1);
    }
}

pub proof fn lemma_space_end(s: Seq<char>, i: int)
    requires
        0 <= i <= s.len(),
    ensures
        i <= space_end(s, i) <= s.len(),
        forall|k: int| i <= k < space_end(s, i) ==> is_space_char(s[k]),
        space_end(s, i) < s.len() ==> !is_space_char(s[space_end(s, i)]),
    decreases s.len() - i,
{
    if i < s.len() && is_space_char(s[i]) {
        lemma_space_end(s, i + 1);
    }
}

pub proof fn lemma_bracket_end(s: Seq<char>, i: int)
    requires
        0 <= i <= s.len(),
    ensures
        i <= bracket_end(s, i) <= s.len(),
        forall|k: int| i <= k < bracket_end(s, i) ==> s[k] != ']',
        bracket_end(s, i) < s.len() ==> s[bracket_end(s, i)] == ']',
    decreases s.len() - i,
{
    if i < s.len() && s[i] != ']' {
        lemma_bracket_end(s, i + 1);
    }
}

pub proof fn lemma_value_end(s: Seq<char>, i: int)
    requires
        0 <= i <= s.len(),
    ensures
        value_end(s, i) matches Some(e) ==> i <= e < s.len() && s[e] == '"',
    decreases s.len() - i,
{
    if 0 <= i < s.len() && s[i] != '"' {
        if s[i] == '\\' {
            if i + 2 <= s.len() {
                lemma_value_end(s, i + 2);
            }
        } else {
            lemma_value_end(s, i + 1);
        }
    }
}

/// A quoted value starting at `i`: opening quote, raw content, closing
/// quote.  Returns the raw content and the position after the closing
/// quote.
pub open spec fn spec_value_at(s: Seq<char>, i: int) -> Option<(Seq<char>, int)> {
    if 0 <= i < s.len() && s[i] == '"' {
        match value_end(s, i + 1) {
            Some(e) => Some((s.subrange(i + 1, e), e + 1)),
            None => None,
        }
    } else {
        None
    }
}

pub proof fn lemma_value_at_bounds(s: Seq<char>, i: int)
    ensures
        spec_value_at(s, i) matches Some(r) ==> 0 <= i && i + 2 <= r.1 <= s.len(),
{
    if 0 <= i < s.len() && s[i] == '"' {
        lemma_value_end(s, i + 1);
    }
}

/// One `name="value"` pair starting at `i`: a non-empty name, `=`,
/// optional padding, then a quoted value.  Returns the name, the raw
/// value, and the position after the closing quote.
pub open spec fn spec_param_at(s: Seq<char>, i: int) -> Option<((Seq<char>, Seq<char>), int)> {
    if 0 <= i <= s.len() {
        let ne = name_end(s, i);
        if ne == i {
            None
        } else if ne < s.len() && s[ne] == '=' {
            let sp = space_end(s, ne + 1);
            match spec_value_at(s, sp) {
                Some((v, j)) => Some(((s.subrange(i, ne), v), j)),
                None => None,
            }
        } else {
            None
        }
    } else {
        None
    }
}

pub proof fn lemma_param_at_bounds(s: Seq<char>, i: int)
    ensures
        spec_param_at(s, i) matches Some(r) ==> 0 <= i < r.1 <= s.len(),
{
    if 0 <= i <= s.len() {
        let ne = name_end(s, i);
        lemma_name_end(s, i);
        if ne != i && ne < s.len() && s[ne] == '=' {
            lemma_space_end(s, ne + 1);
            lemma_value_at_bounds(s, space_end(s, ne + 1));
        }
    }
}

/// The parameters after the first one: each preceded by a single space.
/// Stops, consuming nothing further, at the first position where a space
/// followed by a parameter cannot be parsed.
pub open spec fn spec_params_tail(s: Seq<char>, i: int) -> (Seq<(Seq<char>, Seq<char>)>, int)
    decreases s.len() - i,
{
    if 0 <= i < s.len() && s[i] == ' ' {
        match spec_param_at(s, i + 1) {
            Some((p, j)) => {
                proof {
                    lemma_param_at_bounds(s, i + 1);
                }
                let (more, k) = spec_params_tail(s, j);
                (seq![p] + more, k)
            },
            None => (seq![], i),
        }
    } else {
        (seq![], i)
    }
}

/// Zero or more parameters separated by single spaces, starting at `i`.
pub open spec fn spec_params_at(s: Seq<char>, i: int) -> (Seq<(Seq<char>, Seq<char>)>, int) {
    match spec_param_at(s, i) {
        Some((p, j)) => {
            let (more, k) = spec_params_tail(s, j);
            (seq![p] + more, k)
        },
        None => (seq![], i),
    }
}

pub proof fn lemma_params_tail_bounds(s: Seq<char>, i: int)
    requires
        0 <= i <= s.len(),
    ensures
        i <= spec_params_tail(s, i).1 <= s.len(),
    decreases s.len() - i,
{
    if 0 <= i < s.len() && s[i] == ' ' {
        match spec_param_at(s, i + 1) {
            Some((p, j)) => {
                lemma_param_at_bounds(s, i + 1);
                lemma_params_tail_bounds(s, j);
            },
            None => {},
        }
    }
}

pub proof fn lemma_params_at_bounds(s: Seq<char>, i: int)
    requires
        0 <= i <= s.len(),
    ensures
        i <= spec_params_at(s, i).1 <= s.len(),
{
    match spec_param_at(s, i) {
        Some((p, j)) => {
            lemma_param_at_bounds(s, i);
            lemma_params_tail_bounds(s, j);
        },
        None => {},
    }
}

/// One well-formed element starting at `i`: `[`, a non-empty identifier,
/// optional padding, parameters, `]`.  Returns the element and the
/// position after the closing bracket.
pub open spec fn spec_element_strict_at(s: Seq<char>, i: int) -> Option<(SpecElement, int)> {
    if 0 <= i < s.len() && s[i] == '[' {
        let ie = id_end(s, i + 1);
        if ie == i + 1 {
            None
        } else {
            let sp = space_end(s, ie);
            let (params, j) = spec_params_at(s, sp);
            if j < s.len() && s[j] == ']' {
                Some((SpecElement { id: s.subrange(i + 1, ie), params }, j + 1))
            } else {
                None
            }
        }
    } else {
        None
    }
}

/// The permissive grammar: a well-formed element, or otherwise any
/// bracketed run of text up to the next `]`, recognized and discarded
/// (`None` in the first component).
pub open spec fn spec_element_permissive_at(s: Seq<char>, i: int) -> Option<
    (Option<SpecElement>, int),
> {
    match spec_element_strict_at(s, i) {
        Some((e, j)) => Some((Some(e), j)),
        None => {
            if 0 <= i < s.len() && s[i] == '[' {
                let k = bracket_end(s, i + 1);
                if k < s.len() {
                    Some((None, k + 1))
                } else {
                    None
                }
            } else {
                None
            }
        },
    }
}

/// One recognizer step under the two compatibility flags.
///
/// `allow_failure` selects the permissive grammar; `allow_empty` decides
/// whether a well-formed element with no parameters is a result or a
/// failure.  The outcome is three-way: a genuine element, a recognized
/// but discarded bracket (`Some((None, _))`), or a failure (`None`).
pub open spec fn spec_datum_at(s: Seq<char>, i: int, allow_failure: bool, allow_empty: bool) -> Option<
    (Option<SpecElement>, int),
> {
    let parsed = if allow_failure {
        spec_element_permissive_at(s, i)
    } else {
        match spec_element_strict_at(s, i) {
            Some((e, j)) => Some((Some(e), j)),
            None => None,
        }
    };
    match parsed {
        Some((o, j)) => {
            if !allow_empty && (o matches Some(e) && e.params.len() == 0) {
                None
            } else {
                Some((o, j))
            }
        },
        None => None,
    }
}

pub proof fn lemma_element_strict_at_bounds(s: Seq<char>, i: int)
    ensures
        spec_element_strict_at(s, i) matches Some(r) ==> 0 <= i < r.1 <= s.len(),
{
    if 0 <= i < s.len() && s[i] == '[' {
        lemma_id_end(s, i + 1);
        let ie = id_end(s, i + 1);
        if ie != i + 1 {
            lemma_space_end(s, ie);
            lemma_params_at_bounds(s, space_end(s, ie));
        }
    }
}

pub proof fn lemma_datum_at_bounds(s: Seq<char>, i: int, allow_failure: bool, allow_empty: bool)
    ensures
        spec_datum_at(s, i, allow_failure, allow_empty) matches Some(r) ==> 0 <= i < r.1
            <= s.len(),
{
    lemma_element_strict_at_bounds(s, i);
    if 0 <= i < s.len() && s[i] == '[' {
        lemma_bracket_end(s, i + 1);
    }
}

/// The elements gathered by repeating the recognizer from `i` until a
/// step fails; discarded brackets are dropped.  Returns the elements kept
/// and the position after the last consumed bracket.
pub open spec fn spec_data_tail(s: Seq<char>, i: int, allow_failure: bool, allow_empty: bool) -> (
    Seq<SpecElement>,
    int,
)
    decreases s.len() - i,
{
    if 0 <= i <= s.len() {
        match spec_datum_at(s, i, allow_failure, allow_empty) {
            Some((o, j)) => {
                proof {
                    lemma_datum_at_bounds(s, i, allow_failure, allow_empty);
                }
                let (more, k) = spec_data_tail(s, j, allow_failure, allow_empty);
                match o {
                    Some(e) => (seq![e] + more, k),
                    None => (more, k),
                }
            },
            None => (seq![], i),
        }
    } else {
        (seq![], i)
    }
}

pub proof fn lemma_data_tail_bounds(s: Seq<char>, i: int, allow_failure: bool, allow_empty: bool)
    requires
        0 <= i <= s.len(),
    ensures
        i <= spec_data_tail(s, i, allow_failure, allow_empty).1 <= s.len(),
    decreases s.len() - i,
{
    match spec_datum_at(s, i, allow_failure, allow_empty) {
        Some((o, j)) => {
            lemma_datum_at_bounds(s, i, allow_failure, allow_empty);
            lemma_data_tail_bounds(s, j, allow_failure, allow_empty);
        },
        None => {},
    }
}

/// A whole structured-data field.
///
/// A leading `-` means "no structured data": the empty element list, one
/// character consumed.  Otherwise at least one recognizer step must
/// succeed; further steps are applied greedily, and discarded brackets do
/// not appear in the result.  Failure of the first step fails the field.
pub open spec fn spec_parse(s: Seq<char>, allow_failure: bool, allow_empty: bool) -> Option<
    (Seq<SpecElement>, int),
> {
    if s.len() > 0 && s[0] == '-' {
        Some((seq![], 1))
    } else {
        match spec_datum_at(s, 0, allow_failure, allow_empty) {
            Some((o, j)) => {
                let (more, k) = spec_data_tail(s, j, allow_failure, allow_empty);
                match o {
                    Some(e) => Some((seq![e] + more, k)),
                    None => Some((more, k)),
                }
            },
            None => None,
        }
    }
}

} // verus!
