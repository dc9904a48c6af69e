//! Expression checking: the binary-operator tables and dunder order, the
//! literal and tuple-context queries, generator element typing, and the
//! parsing and classification of `%` and `str.format()` format strings.

use vstd::prelude::*;
use crate::text::{owned, str_eq};
use crate::typeinfo::{find_in_mro, mro_lookup, TypeResolver};
use crate::wire::{
    clone_opt_string, clone_type, opt_str_model, opt_type_model, type_model, types_model, Type, TypeModel, FROM_ERROR,
    SPECIAL_FORM,
};

verus! {

/// Whether `c` is a decimal digit.
pub open spec fn is_digit(c: char) -> bool {
    '0' <= c && c <= '9'
}

fn digit(c: char) -> (r: bool)
    ensures
        r == is_digit(c),
{
    '0' <= c && c <= '9'
}

/// The end of the run of digits starting at `q`.
pub open spec fn digits_end(s: Seq<char>, q: int) -> int
    decreases s.len() - q,
{
    if 0 <= q < s.len() && is_digit(s[q]) {
        digits_end(s, q + 1)
    } else {
        q
    }
}

pub proof fn lemma_digits_end(s: Seq<char>, q: int)
    requires
        0 <= q <= s.len(),
    ensures
        q <= digits_end(s, q) <= s.len(),
        forall|k: int| q <= k < digits_end(s, q) ==> is_digit(#[trigger] s[k]),
        digits_end(s, q) < s.len() ==> !is_digit(s[digits_end(s, q)]),
    decreases s.len() - q,
{
    if q < s.len() && is_digit(s[q]) {
        lemma_digits_end(s, q + 1);
    }
}

fn digits_end_exec(s: &str, q: usize) -> (r: usize)
    requires
        q <= s@.len(),
    ensures
        r == digits_end(s@, q as int),
{
    let n = s.unicode_len();
    let mut k = q;
    while k < n && digit(s.get_char(k))
        invariant
            n == s@.len(),
            q <= k <= n,
            digits_end(s@, q as int) == digits_end(s@, k as int),
        decreases n - k,
    {
        k = k + 1;
    }
    k
}

/// A `%`-format flag character.
pub open spec fn is_printf_flag(c: char) -> bool {
    c == '#' || c == '0' || c == '-' || c == '+' || c == ' '
}

/// The end of the run of `%`-format flags starting at `q`.
pub open spec fn flags_end(s: Seq<char>, q: int) -> int
    decreases s.len() - q,
{
    if 0 <= q < s.len() && is_printf_flag(s[q]) {
        flags_end(s, q + 1)
    } else {
        q
    }
}

pub proof fn lemma_flags_end(s: Seq<char>, q: int)
    requires
        0 <= q <= s.len(),
    ensures
        q <= flags_end(s, q) <= s.len(),
    decreases s.len() - q,
{
    if q < s.len() && is_printf_flag(s[q]) {
        lemma_flags_end(s, q + 1);
    }
}

fn printf_flag(c: char) -> (r: bool)
    ensures
        r == is_printf_flag(c),
{
    c == '#' || c == '0' || c == '-' || c == '+' || c == ' '
}

fn flags_end_exec(s: &str, q: usize) -> (r: usize)
    requires
        q <= s@.len(),
    ensures
        r == flags_end(s@, q as int),
{
    let n = s.unicode_len();
    let mut k = q;
    while k < n && printf_flag(s.get_char(k))
        invariant
            n == s@.len(),
            q <= k <= n,
            flags_end(s@, q as int) == flags_end(s@, k as int),
        decreases n - k,
    {
        k = k + 1;
    }
    k
}

/// The first index from `i` holding `c`.
pub open spec fn next_char_from(s: Seq<char>, i: int, c: char) -> Option<int>
    decreases s.len() - i,
{
    if i < 0 || i >= s.len() {
        None
    } else if s[i] == c {
        Some(i)
    } else {
        next_char_from(s, i + 1, c)
    }
}

pub proof fn lemma_next_char_from(s: Seq<char>, i: int, c: char)
    requires
        0 <= i,
    ensures
        match next_char_from(s, i, c) {
            Some(j) => i <= j < s.len() && s[j] == c && forall|k: int| i <= k < j ==> s[k] != c,
            None => forall|k: int| i <= k < s.len() ==> s[k] != c,
        },
    decreases s.len() - i,
{
    if i < s.len() && s[i] != c {
        lemma_next_char_from(s, i + 1, c);
    }
}

fn next_char_exec(s: &str, i: usize, c: char) -> (r: Option<usize>)
    requires
        i <= s@.len(),
    ensures
        match r {
            Some(j) => next_char_from(s@, i as int, c) == Some(j as int),
            None => next_char_from(s@, i as int, c).is_none(),
        },
{
    let n = s.unicode_len();
    let mut k = i;
    while k < n
        invariant
            n == s@.len(),
            i <= k <= n,
            next_char_from(s@, i as int, c) == next_char_from(s@, k as int, c),
        decreases n - k,
    {
        if s.get_char(k) == c {
            return Some(k);
        }
        k = k + 1;
    }
    None
}

/// One `%` conversion specifier of a printf-style format string.
#[derive(Debug, Clone, PartialEq, Eq)]
pub struct PrintfSpecifier {
    /// The whole specifier as written, for example `"%-10.2f"`.
    pub whole_seq: String,
    /// Character offset of the `%` in the format string.
    pub start_pos: usize,
    /// The mapping key of `"%(name)s"`; an empty key `"%()s"` is
    /// `Some("")`, which counts as a key.
    pub key: Option<String>,
    /// The conversion character, `"%"` for a literal percent, empty when
    /// the string ends first.
    pub conv_type: String,
    pub flags: String,
    /// `"*"` when the width comes from an argument.
    pub width: String,
    /// The digits after the `.`, or `"*"`.
    pub precision: String,
}

/// The model of a `PrintfSpecifier`.
pub struct PrintfModel {
    pub whole_seq: Seq<char>,
    pub start_pos: int,
    pub key: Option<Seq<char>>,
    pub conv_type: Seq<char>,
    pub flags: Seq<char>,
    pub width: Seq<char>,
    pub precision: Seq<char>,
}

impl View for PrintfSpecifier {
    type V = PrintfModel;

    open spec fn view(&self) -> PrintfModel {
        PrintfModel {
            whole_seq: self.whole_seq@,
            start_pos: self.start_pos as int,
            key: match self.key {
                Some(k) => Some(k@),
                None => None,
            },
            conv_type: self.conv_type@,
            flags: self.flags@,
            width: self.width@,
            precision: self.precision@,
        }
    }
}

/// The mapping key of a specifier whose `%` is at `p`: the text between
/// `(` and the first `)` after it, and the index after the `)`.
pub open spec fn printf_key(s: Seq<char>, p: int) -> (Option<Seq<char>>, int) {
    let q = p + 1;
    if q < s.len() && s[q] == '(' {
        match next_char_from(s, q + 1, ')') {
            Some(k) => (Some(s.subrange(q + 1, k)), k + 1),
            None => (None, q),
        }
    } else {
        (None, q)
    }
}

/// The end of the width field starting at `q`: `*`, or a run of digits
/// not starting with `0`.
pub open spec fn width_end(s: Seq<char>, q: int) -> int {
    if q < s.len() && s[q] == '*' {
        q + 1
    } else if q < s.len() && '1' <= s[q] && s[q] <= '9' {
        digits_end(s, q + 1)
    } else {
        q
    }
}

/// The precision starting at `q`: after a `.`, a `*` or a run of digits
/// (possibly empty); and the index after it.
pub open spec fn precision_at(s: Seq<char>, q: int) -> (Seq<char>, int) {
    if q < s.len() && s[q] == '.' {
        if q + 1 < s.len() && s[q + 1] == '*' {
            (seq!['*'], q + 2)
        } else {
            (s.subrange(q + 1, digits_end(s, q + 1)), digits_end(s, q + 1))
        }
    } else {
        (Seq::empty(), q)
    }
}

/// The end of the optional length modifier `h`, `l` or `L` at `q`.
pub open spec fn length_end(s: Seq<char>, q: int) -> int {
    if q < s.len() && (s[q] == 'h' || s[q] == 'l' || s[q] == 'L') {
        q + 1
    } else {
        q
    }
}

/// The end of the conversion character at `q`: any character but a line
/// break, when there is one.
pub open spec fn conv_end(s: Seq<char>, q: int) -> int {
    if q < s.len() && s[q] != '\n' {
        q + 1
    } else {
        q
    }
}

/// The specifier whose `%` is at `p`, read as `%`, an optional `(key)`,
/// flags from `#0-+ `, a width, an optional `.` precision, a length
/// modifier and a conversion character; and the index after it.
pub open spec fn printf_at(s: Seq<char>, p: int) -> (PrintfModel, int) {
    let q1 = printf_key(s, p).1;
    let q2 = flags_end(s, q1);
    let q3 = width_end(s, q2);
    let q4 = precision_at(s, q3).1;
    let q5 = length_end(s, q4);
    let q6 = conv_end(s, q5);
    (
        PrintfModel {
            whole_seq: s.subrange(p, q6),
            start_pos: p,
            key: printf_key(s, p).0,
            conv_type: s.subrange(q5, q6),
            flags: s.subrange(q1, q2),
            width: s.subrange(q2, q3),
            precision: precision_at(s, q3).0,
        },
        q6,
    )
}

pub proof fn lemma_printf_at(s: Seq<char>, p: int)
    requires
        0 <= p < s.len(),
    ensures
        p < printf_at(s, p).1 <= s.len(),
{
    let q1 = printf_key(s, p).1;
    match next_char_from(s, p + 2, ')') {
        Some(k) => {
            if p + 1 < s.len() && s[p + 1] == '(' {
                lemma_next_char_from(s, p + 2, ')');
            }
        },
        None => {},
    }
    lemma_flags_end(s, q1);
    let q2 = flags_end(s, q1);
    if q2 < s.len() && '1' <= s[q2] && s[q2] <= '9' {
        lemma_digits_end(s, q2 + 1);
    }
    let q3 = width_end(s, q2);
    if q3 + 1 <= s.len() {
        lemma_digits_end(s, q3 + 1);
    }
}

/// The specifiers of `s` from index `i` on: each `%` starts one, and the
/// scan resumes after it.
pub open spec fn printf_from(s: Seq<char>, i: int) -> Seq<PrintfModel>
    decreases s.len() - i,
{
    if i < 0 || i >= s.len() {
        Seq::empty()
    } else {
        match next_char_from(s, i, '%') {
            None => Seq::empty(),
            Some(j) => {
                let e = printf_at(s, j).1;
                if i <= j && j < e && e <= s.len() {
                    seq![printf_at(s, j).0] + printf_from(s, e)
                } else {
                    Seq::empty()
                }
            },
        }
    }
}

fn printf_parse_at(s: &str, p: usize) -> (r: (PrintfSpecifier, usize))
    requires
        p < s@.len(),
    ensures
        r.0@ == printf_at(s@, p as int).0,
        r.1 == printf_at(s@, p as int).1,
{
    let ghost sv = s@;
    proof {
        lemma_printf_at(sv, p as int);
    }
    let n = s.unicode_len();
    let mut q = p + 1;
    let mut key: Option<String> = None;
    if q < n && s.get_char(q) == '(' {
        match next_char_exec(s, q + 1, ')') {
            Some(k) => {
                proof {
                    lemma_next_char_from(sv, q + 1, ')');
                }
                key = Some(owned(s.substring_char(q + 1, k)));
                q = k + 1;
            },
            None => {},
        }
    }
    let q1 = q;
    proof {
        lemma_flags_end(sv, q1 as int);
    }
    let q2 = flags_end_exec(s, q1);
    let q3 = if q2 < n && s.get_char(q2) == '*' {
        q2 + 1
    } else if q2 < n && '1' <= s.get_char(q2) && s.get_char(q2) <= '9' {
        proof {
            lemma_digits_end(sv, q2 + 1);
        }
        digits_end_exec(s, q2 + 1)
    } else {
        q2
    };
    let mut precision = String::new();
    let mut q4 = q3;
    if q3 < n && s.get_char(q3) == '.' {
        if q3 + 1 < n && s.get_char(q3 + 1) == '*' {
            precision = owned("*");
            proof {
                reveal_strlit("*");
            }
            q4 = q3 + 2;
        } else {
            proof {
                lemma_digits_end(sv, q3 + 1);
            }
            let e = digits_end_exec(s, q3 + 1);
            precision = owned(s.substring_char(q3 + 1, e));
            q4 = e;
        }
    } else {
        proof {
            assert(precision@ =~= Seq::<char>::empty());
        }
    }
    let q5 = if q4 < n && (s.get_char(q4) == 'h' || s.get_char(q4) == 'l' || s.get_char(q4) == 'L') {
        q4 + 1
    } else {
        q4
    };
    let q6 = if q5 < n && s.get_char(q5) != '\n' {
        q5 + 1
    } else {
        q5
    };
    let spec = PrintfSpecifier {
        whole_seq: owned(s.substring_char(p, q6)),
        start_pos: p,
        key,
        conv_type: owned(s.substring_char(q5, q6)),
        flags: owned(s.substring_char(q1, q2)),
        width: owned(s.substring_char(q2, q3)),
        precision,
    };
    proof {
        assert(spec@.key == printf_key(sv, p as int).0);
        assert(q1 == printf_key(sv, p as int).1);
        assert(spec@.precision =~= precision_at(sv, q3 as int).0);
    }
    (spec, q6)
}

/// The `%` conversion specifiers of a printf-style format string, in
/// order. A string without one yields none.
pub fn parse_conversion_specifiers(format_str: &str) -> (r: Vec<PrintfSpecifier>)
    ensures
        r@.map_values(|x: PrintfSpecifier| x@) == printf_from(format_str@, 0),
{
    let ghost sv = format_str@;
    let n = format_str.unicode_len();
    let mut out: Vec<PrintfSpecifier> = Vec::new();
    let mut i: usize = 0;
    while i < n
        invariant
            n == sv.len(),
            sv == format_str@,
            i <= n,
            printf_from(sv, 0) == out@.map_values(|x: PrintfSpecifier| x@) + printf_from(sv, i as int),
        decreases n - i,
    {
        proof {
            lemma_next_char_from(sv, i as int, '%');
        }
        match next_char_exec(format_str, i, '%') {
            None => {
                proof {
                    assert(printf_from(sv, i as int) =~= Seq::<PrintfModel>::empty());
                    assert(out@.map_values(|x: PrintfSpecifier| x@) + Seq::<PrintfModel>::empty() =~= out@.map_values(|x: PrintfSpecifier| x@));
                }
                return out;
            },
            Some(j) => {
                let (spec, e) = printf_parse_at(format_str, j);
                proof {
                    lemma_printf_at(sv, j as int);
                    let old_m = out@.map_values(|x: PrintfSpecifier| x@);
                    assert(out@.push(spec).map_values(|x: PrintfSpecifier| x@) =~= old_m.push(spec@));
                    assert(printf_from(sv, i as int) == seq![spec@] + printf_from(sv, e as int));
                    assert(old_m + (seq![spec@] + printf_from(sv, e as int)) =~= old_m.push(spec@) + printf_from(sv, e as int));
                }
                out.push(spec);
                i = e;
            },
        }
    }
    proof {
        assert(printf_from(sv, i as int) =~= Seq::<PrintfModel>::empty());
        assert(out@.map_values(|x: PrintfSpecifier| x@) + Seq::<PrintfModel>::empty() =~= out@.map_values(|x: PrintfSpecifier| x@));
    }
    out
}


/// A malformed format string, one variant per refusal.
#[derive(Debug, Clone, Copy, PartialEq, Eq)]
pub enum FormatStringError {
    /// A `}` that closes nothing.
    UnexpectedCloseBrace,
    /// A `{` that is never closed.
    UnmatchedOpenBrace,
    /// A replacement field that matches neither field grammar.
    InvalidSpecifier,
    /// A field key holding `{` or `}`.
    KeyContainsBrace,
    /// A replacement field nested more than two levels deep.
    NestingTooDeep,
}

/// The error codes the format-string scanners report, in variant order.
pub const ERR_UNEXPECTED_CLOSE: i32 = 1;
pub const ERR_UNMATCHED_OPEN: i32 = 2;
pub const ERR_INVALID_SPECIFIER: i32 = 3;
pub const ERR_KEY_HAS_BRACE: i32 = 4;
pub const ERR_NESTING_TOO_DEEP: i32 = 5;

/// The error an error code names; `None` for any other code, 0 (success)
/// among them.
pub open spec fn format_error_of(code: i32) -> Option<FormatStringError> {
    if code == ERR_UNEXPECTED_CLOSE {
        Some(FormatStringError::UnexpectedCloseBrace)
    } else if code == ERR_UNMATCHED_OPEN {
        Some(FormatStringError::UnmatchedOpenBrace)
    } else if code == ERR_INVALID_SPECIFIER {
        Some(FormatStringError::InvalidSpecifier)
    } else if code == ERR_KEY_HAS_BRACE {
        Some(FormatStringError::KeyContainsBrace)
    } else if code == ERR_NESTING_TOO_DEEP {
        Some(FormatStringError::NestingTooDeep)
    } else {
        None
    }
}

/// The error an error code names.
pub fn format_string_error(code: i32) -> (r: Option<FormatStringError>)
    ensures
        r == format_error_of(code),
{
    if code == ERR_UNEXPECTED_CLOSE {
        Some(FormatStringError::UnexpectedCloseBrace)
    } else if code == ERR_UNMATCHED_OPEN {
        Some(FormatStringError::UnmatchedOpenBrace)
    } else if code == ERR_INVALID_SPECIFIER {
        Some(FormatStringError::InvalidSpecifier)
    } else if code == ERR_KEY_HAS_BRACE {
        Some(FormatStringError::KeyContainsBrace)
    } else if code == ERR_NESTING_TOO_DEEP {
        Some(FormatStringError::NestingTooDeep)
    } else {
        None
    }
}

/// The error for a nonzero code: the one it names, or the generic invalid
/// specifier for a code outside the five.
pub fn unknown_format_code(code: i32) -> (r: FormatStringError)
    ensures
        r == match format_error_of(code) {
            Some(e) => e,
            None => FormatStringError::InvalidSpecifier,
        },
{
    match format_string_error(code) {
        Some(e) => e,
        None => FormatStringError::InvalidSpecifier,
    }
}

/// The raw replacement fields of a `str.format()` template from `pos` on,
/// scanning with brace depth `nesting`; a field at depth one started at
/// `start`. Paired `{{` and `}}` outside a field are escapes. Each field
/// is its text between the outer braces and the offset of that text.
pub open spec fn targets_from(
    s: Seq<char>,
    pos: int,
    nesting: int,
    start: int,
    acc: Seq<(Seq<char>, int)>,
) -> Result<Seq<(Seq<char>, int)>, FormatStringError>
    decreases s.len() - pos,
{
    if pos < 0 || pos >= s.len() {
        if nesting != 0 {
            Err(FormatStringError::UnmatchedOpenBrace)
        } else {
            Ok(acc)
        }
    } else if nesting == 0 {
        if s[pos] == '{' {
            if pos + 1 < s.len() && s[pos + 1] == '{' {
                targets_from(s, pos + 2, 0, start, acc)
            } else {
                targets_from(s, pos + 1, 1, pos + 1, acc)
            }
        } else if s[pos] == '}' {
            if pos + 1 < s.len() && s[pos + 1] == '}' {
                targets_from(s, pos + 2, 0, start, acc)
            } else {
                Err(FormatStringError::UnexpectedCloseBrace)
            }
        } else {
            targets_from(s, pos + 1, 0, start, acc)
        }
    } else {
        let depth = if s[pos] == '{' {
            nesting + 1
        } else if s[pos] == '}' {
            nesting - 1
        } else {
            nesting
        };
        if depth != 0 {
            targets_from(s, pos + 1, depth, start, acc)
        } else {
            targets_from(s, pos + 1, 0, start, acc.push((s.subrange(start, pos), start)))
        }
    }
}

/// The model of a list of raw fields.
pub open spec fn raw_fields_model(v: Seq<(String, usize)>) -> Seq<(Seq<char>, int)> {
    v.map_values(|x: (String, usize)| (x.0@, x.1 as int))
}

/// The raw, unparsed replacement fields of a `str.format()` template: the
/// text inside each pair of outer braces and its character offset.
pub fn find_non_escaped_targets(format_value: &str) -> (r: Result<Vec<(String, usize)>, FormatStringError>)
    ensures
        match r {
            Ok(v) => targets_from(format_value@, 0, 0, 0, Seq::empty()) == Ok::<Seq<(Seq<char>, int)>, FormatStringError>(
                raw_fields_model(v@),
            ),
            Err(e) => targets_from(format_value@, 0, 0, 0, Seq::empty()) == Err::<Seq<(Seq<char>, int)>, FormatStringError>(e),
        },
{
    let ghost sv = format_value@;
    let n = format_value.unicode_len();
    let mut out: Vec<(String, usize)> = Vec::new();
    let mut pos: usize = 0;
    let mut nesting: usize = 0;
    let mut start: usize = 0;
    proof {
        assert(raw_fields_model(out@) =~= Seq::<(Seq<char>, int)>::empty());
    }
    while pos < n
        invariant
            n == sv.len(),
            sv == format_value@,
            pos <= n,
            nesting <= pos,
            nesting > 0 ==> start <= pos,
            targets_from(sv, 0, 0, 0, Seq::empty()) == targets_from(sv, pos as int, nesting as int, start as int, raw_fields_model(out@)),
        decreases n - pos,
    {
        let c = format_value.get_char(pos);
        if nesting == 0 {
            if c == '{' {
                if pos + 1 < n && format_value.get_char(pos + 1) == '{' {
                    pos = pos + 2;
                } else {
                    nesting = 1;
                    start = pos + 1;
                    pos = pos + 1;
                }
            } else if c == '}' {
                if pos + 1 < n && format_value.get_char(pos + 1) == '}' {
                    pos = pos + 2;
                } else {
                    return Err(FormatStringError::UnexpectedCloseBrace);
                }
            } else {
                pos = pos + 1;
            }
        } else {
            if c == '{' {
                nesting = nesting + 1;
            } else if c == '}' {
                nesting = nesting - 1;
            }
            if nesting == 0 {
                let field = owned(format_value.substring_char(start, pos));
                let ghost before = out@;
                out.push((field, start));
                proof {
                    assert(raw_fields_model(out@) =~= raw_fields_model(before).push((sv.subrange(start as int, pos as int), start as int)));
                }
            }
            pos = pos + 1;
        }
    }
    if nesting != 0 {
        return Err(FormatStringError::UnmatchedOpenBrace);
    }
    Ok(out)
}


/// An alignment character of the format-spec mini-language.
pub open spec fn is_align(c: char) -> bool {
    c == '<' || c == '>' || c == '=' || c == '^'
}

/// A sign character of the format-spec mini-language.
pub open spec fn is_sign(c: char) -> bool {
    c == '+' || c == '-' || c == ' '
}

fn align_char(c: char) -> (r: bool)
    ensures
        r == is_align(c),
{
    c == '<' || c == '>' || c == '=' || c == '^'
}

/// Where each piece of the numeric part of a format spec that starts at
/// `q` ends: sign, `#`, `0`, width, grouping, `.` precision and type.
pub struct NumSpecEnds {
    pub sign_end: int,
    pub alt_end: int,
    pub zero_end: int,
    pub width_end: int,
    pub group_end: int,
    pub prec_end: int,
    pub type_end: int,
}

/// The numeric part of a format spec from `q`, each piece taken when
/// present: a sign from `+- `, `#`, `0`, width digits, a `_` or `,`
/// grouping, a `.` with digits, then any one character but a line break.
pub open spec fn num_spec_at(r: Seq<char>, q: int) -> NumSpecEnds {
    let q1 = if q < r.len() && is_sign(r[q]) { q + 1 } else { q };
    let q2 = if q1 < r.len() && r[q1] == '#' { q1 + 1 } else { q1 };
    let q3 = if q2 < r.len() && r[q2] == '0' { q2 + 1 } else { q2 };
    let q4 = digits_end(r, q3);
    let q5 = if q4 < r.len() && (r[q4] == '_' || r[q4] == ',') { q4 + 1 } else { q4 };
    let q6 = if q5 + 1 < r.len() && r[q5] == '.' && is_digit(r[q5 + 1]) { digits_end(r, q5 + 1) } else { q5 };
    let q7 = conv_end(r, q6);
    NumSpecEnds { sign_end: q1, alt_end: q2, zero_end: q3, width_end: q4, group_end: q5, prec_end: q6, type_end: q7 }
}

/// The length of the fill-and-align prefix under which a whole format spec
/// matches the built-in grammar: a fill character with an alignment, an
/// alignment alone, or none, tried in that order. `None` when none of the
/// three leaves a numeric part that reaches the end.
pub open spec fn std_fill_align(r: Seq<char>) -> Option<int> {
    if r.len() >= 2 && r[0] != '\n' && is_align(r[1]) && num_spec_at(r, 2).type_end == r.len() {
        Some(2)
    } else if r.len() >= 1 && is_align(r[0]) && num_spec_at(r, 1).type_end == r.len() {
        Some(1)
    } else if num_spec_at(r, 0).type_end == r.len() {
        Some(0)
    } else {
        None
    }
}

pub proof fn lemma_num_spec_at(r: Seq<char>, q: int)
    requires
        0 <= q <= r.len(),
    ensures
        q <= num_spec_at(r, q).sign_end <= num_spec_at(r, q).alt_end <= num_spec_at(r, q).zero_end
            <= num_spec_at(r, q).width_end <= num_spec_at(r, q).group_end <= num_spec_at(r, q).prec_end
            <= num_spec_at(r, q).type_end <= r.len(),
{
    let m = num_spec_at(r, q);
    lemma_digits_end(r, m.zero_end);
    if m.group_end + 1 < r.len() {
        lemma_digits_end(r, m.group_end + 1);
    }
}

fn num_spec_exec(r: &str, q: usize) -> (e: (usize, usize, usize, usize, usize, usize, usize))
    requires
        q <= r@.len(),
    ensures
        e.0 == num_spec_at(r@, q as int).sign_end,
        e.1 == num_spec_at(r@, q as int).alt_end,
        e.2 == num_spec_at(r@, q as int).zero_end,
        e.3 == num_spec_at(r@, q as int).width_end,
        e.4 == num_spec_at(r@, q as int).group_end,
        e.5 == num_spec_at(r@, q as int).prec_end,
        e.6 == num_spec_at(r@, q as int).type_end,
{
    proof {
        lemma_num_spec_at(r@, q as int);
    }
    let n = r.unicode_len();
    let q1 = if q < n && (r.get_char(q) == '+' || r.get_char(q) == '-' || r.get_char(q) == ' ') { q + 1 } else { q };
    let q2 = if q1 < n && r.get_char(q1) == '#' { q1 + 1 } else { q1 };
    let q3 = if q2 < n && r.get_char(q2) == '0' { q2 + 1 } else { q2 };
    let q4 = digits_end_exec(r, q3);
    let q5 = if q4 < n && (r.get_char(q4) == '_' || r.get_char(q4) == ',') { q4 + 1 } else { q4 };
    let q6 = if q5 < n && q5 + 1 < n && r.get_char(q5) == '.' && digit(r.get_char(q5 + 1)) {
        digits_end_exec(r, q5 + 1)
    } else {
        q5
    };
    let q7 = if q6 < n && r.get_char(q6) != '\n' { q6 + 1 } else { q6 };
    (q1, q2, q3, q4, q5, q6, q7)
}

fn std_fill_align_exec(r: &str) -> (res: Option<usize>)
    ensures
        match res {
            Some(fa) => std_fill_align(r@) == Some(fa as int),
            None => std_fill_align(r@).is_none(),
        },
{
    let n = r.unicode_len();
    if n >= 2 && r.get_char(0) != '\n' && align_char(r.get_char(1)) && num_spec_exec(r, 2).6 == n {
        Some(2)
    } else if n >= 1 && align_char(r.get_char(0)) && num_spec_exec(r, 1).6 == n {
        Some(1)
    } else if num_spec_exec(r, 0).6 == n {
        Some(0)
    } else {
        None
    }
}

/// The decomposed format spec of one replacement field.
#[derive(Debug, Clone, PartialEq, Eq)]
pub struct PlaceholderFormat {
    pub fill: Option<String>,
    pub align: Option<String>,
    pub sign: Option<String>,
    /// The `#` flag was present.
    pub alternate: bool,
    /// The `0` flag was present after any `#`.
    pub zero_pad: bool,
    pub width: String,
    /// The `_` or `,` thousands separator.
    pub grouping: Option<String>,
    /// `".NN"` including the dot.
    pub precision: String,
    pub conv_type: String,
}

/// The model of a `PlaceholderFormat`.
pub struct PlaceholderModel {
    pub fill: Option<Seq<char>>,
    pub align: Option<Seq<char>>,
    pub sign: Option<Seq<char>>,
    pub alternate: bool,
    pub zero_pad: bool,
    pub width: Seq<char>,
    pub grouping: Option<Seq<char>>,
    pub precision: Seq<char>,
    pub conv_type: Seq<char>,
}

/// The model of an optional string.
pub open spec fn opt_text(s: Option<String>) -> Option<Seq<char>> {
    match s {
        Some(x) => Some(x@),
        None => None,
    }
}

impl View for PlaceholderFormat {
    type V = PlaceholderModel;

    open spec fn view(&self) -> PlaceholderModel {
        PlaceholderModel {
            fill: opt_text(self.fill),
            align: opt_text(self.align),
            sign: opt_text(self.sign),
            alternate: self.alternate,
            zero_pad: self.zero_pad,
            width: self.width@,
            grouping: opt_text(self.grouping),
            precision: self.precision@,
            conv_type: self.conv_type@,
        }
    }
}

/// The piece `r[a..b)` when it is non-empty.
pub open spec fn piece(r: Seq<char>, a: int, b: int) -> Option<Seq<char>> {
    if a < b {
        Some(r.subrange(a, b))
    } else {
        None
    }
}

/// A format spec (the text after `:`) decomposed by the built-in grammar;
/// `None` when it does not match it.
pub open spec fn placeholder_spec(r: Seq<char>) -> Option<PlaceholderModel> {
    match std_fill_align(r) {
        None => None,
        Some(fa) => {
            let m = num_spec_at(r, fa);
            Some(PlaceholderModel {
                fill: if fa == 2 { Some(r.subrange(0, 1)) } else { None },
                align: if fa >= 1 { Some(r.subrange(fa - 1, fa)) } else { None },
                sign: piece(r, fa, m.sign_end),
                alternate: m.alt_end > m.sign_end,
                zero_pad: m.zero_end > m.alt_end,
                width: r.subrange(m.zero_end, m.width_end),
                grouping: piece(r, m.width_end, m.group_end),
                precision: r.subrange(m.group_end, m.prec_end),
                conv_type: r.subrange(m.prec_end, m.type_end),
            })
        },
    }
}

fn piece_exec(r: &str, a: usize, b: usize) -> (res: Option<String>)
    requires
        a <= b <= r@.len(),
    ensures
        opt_text(res) == piece(r@, a as int, b as int),
{
    if a < b {
        Some(owned(r.substring_char(a, b)))
    } else {
        None
    }
}

/// The decomposed format spec of one replacement field: `format_spec` is
/// the text after the `:`. `None` when it does not match the built-in
/// grammar, which leaves the field to a custom `__format__`.
pub fn parse_placeholder_format(format_spec: &str) -> (r: Option<PlaceholderFormat>)
    ensures
        match r {
            Some(p) => placeholder_spec(format_spec@) == Some(p@),
            None => placeholder_spec(format_spec@).is_none(),
        },
{
    let fa = match std_fill_align_exec(format_spec) {
        None => {
            return None;
        },
        Some(fa) => fa,
    };
    proof {
        lemma_num_spec_at(format_spec@, fa as int);
    }
    let m = num_spec_exec(format_spec, fa);
    let fill = if fa == 2 { Some(owned(format_spec.substring_char(0, 1))) } else { None };
    let align = if fa >= 1 { Some(owned(format_spec.substring_char(fa - 1, fa))) } else { None };
    let p = PlaceholderFormat {
        fill,
        align,
        sign: piece_exec(format_spec, fa, m.0),
        alternate: m.1 > m.0,
        zero_pad: m.2 > m.1,
        width: owned(format_spec.substring_char(m.2, m.3)),
        grouping: piece_exec(format_spec, m.3, m.4),
        precision: owned(format_spec.substring_char(m.4, m.5)),
        conv_type: owned(format_spec.substring_char(m.5, m.6)),
    };
    Some(p)
}


/// One `str.format()` or f-string replacement field.
#[derive(Debug, Clone, PartialEq, Eq)]
pub struct FormatSpecifier {
    /// The raw field text between the braces, for example `"name:d"`.
    pub whole_seq: String,
    /// Character offset of the field text in the string it was found in.
    pub start_pos: usize,
    /// The field name or index; empty for an automatic field.
    pub key: Option<String>,
    pub conv_type: String,
    /// Sign, `#` and `0` of the built-in grammar.
    pub flags: String,
    pub width: String,
    /// `".NN"` including the dot.
    pub precision: String,
    /// Everything after the `:` in the field, when there is one.
    pub format_spec: Option<String>,
    /// The format spec is outside the built-in grammar: unchecked text for
    /// a custom `__format__`.
    pub non_standard_format_spec: bool,
    /// The `!r` / `!s` / `!a` conversion, with its leading `!`.
    pub conversion: Option<String>,
    /// The key plus any following attribute or index accesses.
    pub field: Option<String>,
}

/// The model of a `FormatSpecifier`.
pub struct FormatModel {
    pub whole_seq: Seq<char>,
    pub start_pos: int,
    pub key: Option<Seq<char>>,
    pub conv_type: Seq<char>,
    pub flags: Seq<char>,
    pub width: Seq<char>,
    pub precision: Seq<char>,
    pub format_spec: Option<Seq<char>>,
    pub non_standard_format_spec: bool,
    pub conversion: Option<Seq<char>>,
    pub field: Option<Seq<char>>,
}

impl View for FormatSpecifier {
    type V = FormatModel;

    open spec fn view(&self) -> FormatModel {
        FormatModel {
            whole_seq: self.whole_seq@,
            start_pos: self.start_pos as int,
            key: opt_text(self.key),
            conv_type: self.conv_type@,
            flags: self.flags@,
            width: self.width@,
            precision: self.precision@,
            format_spec: opt_text(self.format_spec),
            non_standard_format_spec: self.non_standard_format_spec,
            conversion: opt_text(self.conversion),
            field: opt_text(self.field),
        }
    }
}

/// The first index from `i` holding one of the characters `stops` lists.
pub open spec fn first_stop(t: Seq<char>, i: int, stops: Seq<char>) -> int
    decreases t.len() - i,
{
    if 0 <= i < t.len() && !stops.contains(t[i]) {
        first_stop(t, i + 1, stops)
    } else {
        i
    }
}

pub proof fn lemma_first_stop(t: Seq<char>, i: int, stops: Seq<char>)
    requires
        0 <= i <= t.len(),
    ensures
        i <= first_stop(t, i, stops) <= t.len(),
        first_stop(t, i, stops) < t.len() ==> stops.contains(t[first_stop(t, i, stops)]),
    decreases t.len() - i,
{
    if i < t.len() && !stops.contains(t[i]) {
        lemma_first_stop(t, i + 1, stops);
    }
}

fn first_stop_exec(t: &str, stops: &[char]) -> (r: usize)
    ensures
        r == first_stop(t@, 0, stops@),
{
    let n = t.unicode_len();
    let mut k: usize = 0;
    while k < n
        invariant
            n == t@.len(),
            k <= n,
            first_stop(t@, 0, stops@) == first_stop(t@, k as int, stops@),
        decreases n - k,
    {
        let c = t.get_char(k);
        let mut j: usize = 0;
        let mut hit = false;
        while j < stops.len()
            invariant
                j <= stops@.len(),
                hit == exists|x: int| 0 <= x < j && stops@[x] == c,
            decreases stops@.len() - j,
        {
            if stops[j] == c {
                hit = true;
            }
            j = j + 1;
        }
        if hit {
            return k;
        }
        k = k + 1;
    }
    k
}

/// The characters that end a field: `:` or `!`.
pub open spec fn field_stops() -> Seq<char> {
    seq![':', '!']
}

/// The characters that end a key: `.`, `[`, `!` or `:`.
pub open spec fn key_stops() -> Seq<char> {
    seq!['.', '[', '!', ':']
}

/// A field with a key, a field, an optional conversion and no format spec.
pub open spec fn bare_field(t: Seq<char>, start: int, key: Seq<char>, field: Seq<char>, conversion: Option<Seq<char>>) -> FormatModel {
    FormatModel {
        whole_seq: t,
        start_pos: start,
        key: Some(key),
        conv_type: Seq::empty(),
        flags: Seq::empty(),
        width: Seq::empty(),
        precision: Seq::empty(),
        format_spec: None,
        non_standard_format_spec: false,
        conversion,
        field: Some(field),
    }
}

/// A raw replacement field `t` found at `start`, read as a field (a key up
/// to the first `.`, `[`, `!` or `:`, then accesses up to the first `!` or
/// `:`), an optional `!` conversion of one character other than `:`, and
/// an optional `:` format spec: by the built-in grammar when it matches,
/// otherwise as custom text without a line break. `None` when it matches
/// neither.
pub open spec fn field_model(t: Seq<char>, start: int) -> Option<FormatModel> {
    let fe = first_stop(t, 0, field_stops());
    let ke = first_stop(t, 0, key_stops());
    let key = t.subrange(0, ke);
    let field = t.subrange(0, fe);
    let bang = fe < t.len() && t[fe] == '!';
    if bang && !(fe + 1 < t.len() && t[fe + 1] != ':') {
        None
    } else {
        let conversion = if bang { Some(t.subrange(fe, fe + 2)) } else { None };
        let ce = if bang { fe + 2 } else { fe };
        if ce == t.len() {
            Some(bare_field(t, start, key, field, conversion))
        } else if t[ce] != ':' {
            None
        } else {
            let r = t.subrange(ce + 1, t.len() as int);
            match std_fill_align(r) {
                Some(fa) => {
                    let m = num_spec_at(r, fa);
                    Some(FormatModel {
                        conv_type: r.subrange(m.prec_end, m.type_end),
                        flags: r.subrange(fa, m.zero_end),
                        width: r.subrange(m.zero_end, m.width_end),
                        precision: r.subrange(m.group_end, m.prec_end),
                        format_spec: Some(r),
                        ..bare_field(t, start, key, field, conversion)
                    })
                },
                None => if r.contains('\n') {
                    None
                } else {
                    Some(FormatModel {
                        format_spec: Some(r),
                        non_standard_format_spec: true,
                        ..bare_field(t, start, key, field, conversion)
                    })
                },
            }
        }
    }
}

fn contains_char(s: &str, c: char) -> (r: bool)
    ensures
        r == s@.contains(c),
{
    let n = s.unicode_len();
    let mut k: usize = 0;
    while k < n
        invariant
            n == s@.len(),
            k <= n,
            forall|x: int| 0 <= x < k ==> s@[x] != c,
        decreases n - k,
    {
        if s.get_char(k) == c {
            return true;
        }
        k = k + 1;
    }
    false
}

fn field_model_exec(t: &str, start: usize) -> (r: Option<FormatSpecifier>)
    ensures
        match r {
            Some(f) => field_model(t@, start as int) == Some(f@),
            None => field_model(t@, start as int).is_none(),
        },
{
    let ghost tv = t@;
    let n = t.unicode_len();
    let fstops = [':', '!'];
    let kstops = ['.', '[', '!', ':'];
    proof {
        assert(fstops@ =~= field_stops());
        assert(kstops@ =~= key_stops());
        lemma_first_stop(tv, 0, field_stops());
        lemma_first_stop(tv, 0, key_stops());
    }
    let fe = first_stop_exec(t, &fstops);
    let ke = first_stop_exec(t, &kstops);
    let bang = fe < n && t.get_char(fe) == '!';
    if bang && !(fe + 1 < n && t.get_char(fe + 1) != ':') {
        return None;
    }
    let conversion = if bang { Some(owned(t.substring_char(fe, fe + 2))) } else { None };
    let ce = if bang { fe + 2 } else { fe };
    let key = owned(t.substring_char(0, ke));
    let field = owned(t.substring_char(0, fe));
    if ce == n {
        let e1 = String::new();
        let e2 = String::new();
        let e3 = String::new();
        let e4 = String::new();
        proof {
            assert(e1@ =~= Seq::<char>::empty());
            assert(e2@ =~= Seq::<char>::empty());
            assert(e3@ =~= Seq::<char>::empty());
            assert(e4@ =~= Seq::<char>::empty());
        }
        return Some(FormatSpecifier {
            whole_seq: owned(t),
            start_pos: start,
            key: Some(key),
            conv_type: e1,
            flags: e2,
            width: e3,
            precision: e4,
            format_spec: None,
            non_standard_format_spec: false,
            conversion,
            field: Some(field),
        });
    }
    if t.get_char(ce) != ':' {
        return None;
    }
    let r = t.substring_char(ce + 1, n);
    match std_fill_align_exec(r) {
        Some(fa) => {
            proof {
                lemma_num_spec_at(r@, fa as int);
            }
            let m = num_spec_exec(r, fa);
            Some(FormatSpecifier {
                whole_seq: owned(t),
                start_pos: start,
                key: Some(key),
                conv_type: owned(r.substring_char(m.5, m.6)),
                flags: owned(r.substring_char(fa, m.2)),
                width: owned(r.substring_char(m.2, m.3)),
                precision: owned(r.substring_char(m.4, m.5)),
                format_spec: Some(owned(r)),
                non_standard_format_spec: false,
                conversion,
                field: Some(field),
            })
        },
        None => {
            if contains_char(r, '\n') {
                return None;
            }
            let e1 = String::new();
            let e2 = String::new();
            let e3 = String::new();
            let e4 = String::new();
            proof {
                assert(e1@ =~= Seq::<char>::empty());
                assert(e2@ =~= Seq::<char>::empty());
                assert(e3@ =~= Seq::<char>::empty());
                assert(e4@ =~= Seq::<char>::empty());
            }
            Some(FormatSpecifier {
                whole_seq: owned(t),
                start_pos: start,
                key: Some(key),
                conv_type: e1,
                flags: e2,
                width: e3,
                precision: e4,
                format_spec: Some(owned(r)),
                non_standard_format_spec: true,
                conversion,
                field: Some(field),
            })
        },
    }
}


/// Whether `s` holds a brace.
pub open spec fn has_brace(s: Seq<char>) -> bool {
    s.contains('{') || s.contains('}')
}

/// The parsed fields `ts[i..]` of one nesting level: each field that
/// parses, followed by the fields of its custom format spec when that
/// holds braces, which is an error below the top level. The first
/// refusal in this order wins.
pub open spec fn parse_fields(ts: Seq<(Seq<char>, int)>, i: int, nested: bool) -> Result<Seq<FormatModel>, FormatStringError>
    decreases (if nested { 0int } else { 1int }), 0int, ts.len() - i,
{
    if i < 0 || i >= ts.len() {
        Ok(Seq::empty())
    } else {
        match field_model(ts[i].0, ts[i].1) {
            None => Err(FormatStringError::InvalidSpecifier),
            Some(m) => if m.key matches Some(k) && has_brace(k) {
                Err(FormatStringError::KeyContainsBrace)
            } else {
                let sub = match m.format_spec {
                    Some(fs) => if m.non_standard_format_spec && has_brace(fs) {
                        if nested {
                            Err(FormatStringError::NestingTooDeep)
                        } else {
                            parse_format_level(fs, true)
                        }
                    } else {
                        Ok(Seq::empty())
                    },
                    None => Ok(Seq::empty()),
                };
                match sub {
                    Err(e) => Err(e),
                    Ok(subs) => match parse_fields(ts, i + 1, nested) {
                        Err(e) => Err(e),
                        Ok(rest) => Ok(seq![m] + subs + rest),
                    },
                }
            },
        }
    }
}

/// The parsed replacement fields of a template at one nesting level.
pub open spec fn parse_format_level(s: Seq<char>, nested: bool) -> Result<Seq<FormatModel>, FormatStringError>
    decreases (if nested { 0int } else { 1int }), 1int, 0int,
{
    match targets_from(s, 0, 0, 0, Seq::empty()) {
        Err(e) => Err(e),
        Ok(ts) => parse_fields(ts, 0, nested),
    }
}

/// The fields `pre` followed by the outcome `r`.
pub open spec fn prepend_fields(pre: Seq<FormatModel>, r: Result<Seq<FormatModel>, FormatStringError>) -> Result<Seq<FormatModel>, FormatStringError> {
    match r {
        Ok(rest) => Ok(pre + rest),
        Err(e) => Err(e),
    }
}

/// The models of a list of format specifiers.
pub open spec fn fields_model(v: Seq<FormatSpecifier>) -> Seq<FormatModel> {
    v.map_values(|x: FormatSpecifier| x@)
}

fn has_brace_exec(s: &str) -> (r: bool)
    ensures
        r == has_brace(s@),
{
    contains_char(s, '{') || contains_char(s, '}')
}

fn parse_fields_exec(ts: &Vec<(String, usize)>, nested: bool) -> (r: Result<Vec<FormatSpecifier>, FormatStringError>)
    ensures
        match r {
            Ok(v) => parse_fields(raw_fields_model(ts@), 0, nested) == Ok::<Seq<FormatModel>, FormatStringError>(fields_model(v@)),
            Err(e) => parse_fields(raw_fields_model(ts@), 0, nested) == Err::<Seq<FormatModel>, FormatStringError>(e),
        },
    decreases (if nested { 0int } else { 1int }), 0int,
{
    let ghost tm = raw_fields_model(ts@);
    let mut out: Vec<FormatSpecifier> = Vec::new();
    let mut i: usize = 0;
    proof {
        assert(fields_model(out@) =~= Seq::<FormatModel>::empty());
        assert(Seq::<FormatModel>::empty() + Seq::<FormatModel>::empty() =~= Seq::<FormatModel>::empty());
    }
    while i < ts.len()
        invariant
            i <= ts@.len(),
            tm == raw_fields_model(ts@),
            parse_fields(tm, 0, nested) == prepend_fields(fields_model(out@), parse_fields(tm, i as int, nested)),
        decreases ts@.len() - i,
    {
        let ghost before = fields_model(out@);
        proof {
            assert(tm[i as int] == (ts@[i as int].0@, ts@[i as int].1 as int));
        }
        let m = match field_model_exec(ts[i].0.as_str(), ts[i].1) {
            None => {
                return Err(FormatStringError::InvalidSpecifier);
            },
            Some(m) => m,
        };
        match &m.key {
            Some(k) => {
                if has_brace_exec(k.as_str()) {
                    return Err(FormatStringError::KeyContainsBrace);
                }
            },
            None => {},
        }
        let mut subs: Vec<FormatSpecifier> = match &m.format_spec {
            Some(fs) => {
                if m.non_standard_format_spec && has_brace_exec(fs.as_str()) {
                    if nested {
                        return Err(FormatStringError::NestingTooDeep);
                    }
                    match parse_level_exec(fs.as_str(), true) {
                        Err(e) => {
                            return Err(e);
                        },
                        Ok(v) => v,
                    }
                } else {
                    Vec::new()
                }
            },
            None => Vec::new(),
        };
        let ghost mm = m@;
        let ghost sm = fields_model(subs@);
        proof {
            assert(sm =~= fields_model(subs@));
            if m.format_spec.is_none() || !(m.non_standard_format_spec && has_brace(m@.format_spec.unwrap())) {
                assert(sm =~= Seq::<FormatModel>::empty());
            }
        }
        let ghost o = out@;
        out.push(m);
        out.append(&mut subs);
        proof {
            assert(fields_model(out@) =~= before.push(mm) + sm);
        }
        proof {
            match parse_fields(tm, i + 1, nested) {
                Ok(rest) => {
                    assert(before + (seq![mm] + sm + rest) =~= (before.push(mm) + sm) + rest);
                },
                Err(_) => {},
            }
        }
        i = i + 1;
    }
    proof {
        assert(fields_model(out@) + Seq::<FormatModel>::empty() =~= fields_model(out@));
    }
    Ok(out)
}

fn parse_level_exec(s: &str, nested: bool) -> (r: Result<Vec<FormatSpecifier>, FormatStringError>)
    ensures
        match r {
            Ok(v) => parse_format_level(s@, nested) == Ok::<Seq<FormatModel>, FormatStringError>(fields_model(v@)),
            Err(e) => parse_format_level(s@, nested) == Err::<Seq<FormatModel>, FormatStringError>(e),
        },
    decreases (if nested { 0int } else { 1int }), 1int,
{
    let ts = find_non_escaped_targets(s)?;
    parse_fields_exec(&ts, nested)
}

/// The parsed replacement fields of a `str.format()` template or
/// f-string: the fields of a custom format spec that holds braces follow
/// their field, at most two levels deep.
pub fn parse_format_value(format_value: &str) -> (r: Result<Vec<FormatSpecifier>, FormatStringError>)
    ensures
        match r {
            Ok(v) => parse_format_level(format_value@, false) == Ok::<Seq<FormatModel>, FormatStringError>(fields_model(v@)),
            Err(e) => parse_format_level(format_value@, false) == Err::<Seq<FormatModel>, FormatStringError>(e),
        },
{
    parse_level_exec(format_value, false)
}


/// The three flags a `%` format string's specifiers carry.
#[derive(Debug, Clone, Copy, PartialEq, Eq)]
pub struct SpecifierAnalysis {
    /// Some specifier takes its width or precision from a `*` argument.
    pub has_star: bool,
    /// Some specifier has a mapping key: keyed rather than positional
    /// replacement checking.
    pub has_key: bool,
    /// Every specifier either has a key or is a literal `%%`.
    pub all_have_keys: bool,
}

/// Why a `%` format string's specifier list is rejected outright.
#[derive(Debug, Clone, Copy, PartialEq, Eq)]
pub enum SpecifierAnalysisError {
    /// A mapping key and a `*` width or precision in the same string.
    StarWithKey,
    /// Some specifiers have a key and some do not.
    MixedKeys,
}

/// Whether a specifier takes a width or precision from an argument.
pub open spec fn spec_has_star(m: PrintfModel) -> bool {
    m.width == seq!['*'] || m.precision == seq!['*']
}

/// Whether a specifier has a key, or is a literal `%%`.
pub open spec fn keyed_or_percent(m: PrintfModel) -> bool {
    m.key.is_some() || m.conv_type == seq!['%']
}

/// The analysis of a specifier list: a key beside a star is refused
/// first, then a mix of keyed and unkeyed specifiers.
pub open spec fn analysis_spec(v: Seq<PrintfModel>) -> Result<SpecifierAnalysis, SpecifierAnalysisError> {
    let has_star = exists|i: int| 0 <= i < v.len() && spec_has_star(#[trigger] v[i]);
    let has_key = exists|i: int| 0 <= i < v.len() && (#[trigger] v[i]).key.is_some();
    let all_have_keys = forall|i: int| 0 <= i < v.len() ==> keyed_or_percent(#[trigger] v[i]);
    if has_key && has_star {
        Err(SpecifierAnalysisError::StarWithKey)
    } else if has_key && !all_have_keys {
        Err(SpecifierAnalysisError::MixedKeys)
    } else {
        Ok(SpecifierAnalysis { has_star, has_key, all_have_keys })
    }
}

/// Whether a `%` format string's specifiers are usable, and how; the
/// success value's `has_key` picks keyed over positional checking.
pub fn analyze_conversion_specifiers(specifiers: &[PrintfSpecifier]) -> (r: Result<SpecifierAnalysis, SpecifierAnalysisError>)
    ensures
        r == analysis_spec(specifiers@.map_values(|x: PrintfSpecifier| x@)),
{
    let ghost v = specifiers@.map_values(|x: PrintfSpecifier| x@);
    let mut has_star = false;
    let mut has_key = false;
    let mut all_have_keys = true;
    let mut i: usize = 0;
    while i < specifiers.len()
        invariant
            i <= specifiers@.len(),
            v == specifiers@.map_values(|x: PrintfSpecifier| x@),
            has_star == exists|j: int| 0 <= j < i && spec_has_star(#[trigger] v[j]),
            has_key == exists|j: int| 0 <= j < i && (#[trigger] v[j]).key.is_some(),
            all_have_keys == forall|j: int| 0 <= j < i ==> keyed_or_percent(#[trigger] v[j]),
        decreases specifiers@.len() - i,
    {
        let sp = &specifiers[i];
        proof {
            reveal_strlit("*");
            reveal_strlit("%");
            assert(v[i as int] == sp@);
        }
        let star = str_eq(sp.width.as_str(), "*") || str_eq(sp.precision.as_str(), "*");
        let keyed = sp.key.is_some();
        let ok = keyed || str_eq(sp.conv_type.as_str(), "%");
        proof {
            assert("*"@ =~= seq!['*']);
            assert("%"@ =~= seq!['%']);
        }
        has_star = has_star || star;
        has_key = has_key || keyed;
        all_have_keys = all_have_keys && ok;
        i = i + 1;
    }
    if has_key && has_star {
        return Err(SpecifierAnalysisError::StarWithKey);
    }
    if has_key && !all_have_keys {
        return Err(SpecifierAnalysisError::MixedKeys);
    }
    Ok(SpecifierAnalysis { has_star, has_key, all_have_keys })
}

/// The numeric conversion characters of `%` formats.
pub open spec fn numeric_old(c: Seq<char>) -> bool {
    ||| c == "d"@
    ||| c == "i"@
    ||| c == "o"@
    ||| c == "u"@
    ||| c == "x"@
    ||| c == "X"@
    ||| c == "e"@
    ||| c == "E"@
    ||| c == "f"@
    ||| c == "F"@
    ||| c == "g"@
    ||| c == "G"@
}

/// The numeric conversion characters of `str.format()`.
pub open spec fn numeric_new(c: Seq<char>) -> bool {
    ||| c == "b"@
    ||| c == "d"@
    ||| c == "o"@
    ||| c == "e"@
    ||| c == "E"@
    ||| c == "f"@
    ||| c == "F"@
    ||| c == "g"@
    ||| c == "G"@
    ||| c == "n"@
    ||| c == "x"@
    ||| c == "X"@
    ||| c == "%"@
}

/// Whether a conversion character is numeric, by the `str.format()` table
/// when `is_new_style` and by the `%` table otherwise.
pub fn is_numeric_format_type(conv_type: &str, is_new_style: bool) -> (r: bool)
    ensures
        r == if is_new_style { numeric_new(conv_type@) } else { numeric_old(conv_type@) },
{
    let c = conv_type;
    if is_new_style {
        str_eq(c, "b") || str_eq(c, "d") || str_eq(c, "o") || str_eq(c, "e") || str_eq(c, "E") || str_eq(c, "f")
            || str_eq(c, "F") || str_eq(c, "g") || str_eq(c, "G") || str_eq(c, "n") || str_eq(c, "x") || str_eq(c, "X")
            || str_eq(c, "%")
    } else {
        str_eq(c, "d") || str_eq(c, "i") || str_eq(c, "o") || str_eq(c, "u") || str_eq(c, "x") || str_eq(c, "X")
            || str_eq(c, "e") || str_eq(c, "E") || str_eq(c, "f") || str_eq(c, "F") || str_eq(c, "g") || str_eq(c, "G")
    }
}


/// The reflected dunder of a binary-operator dunder: arithmetic pairs with
/// its `__r` partner, comparisons with their mirror, `__eq__` and `__ne__`
/// with themselves.
pub open spec fn reverse_op_spec(op: Seq<char>) -> Option<Seq<char>> {
    if op == "__add__"@ { Some("__radd__"@) }
    else if op == "__sub__"@ { Some("__rsub__"@) }
    else if op == "__mul__"@ { Some("__rmul__"@) }
    else if op == "__truediv__"@ { Some("__rtruediv__"@) }
    else if op == "__mod__"@ { Some("__rmod__"@) }
    else if op == "__divmod__"@ { Some("__rdivmod__"@) }
    else if op == "__floordiv__"@ { Some("__rfloordiv__"@) }
    else if op == "__pow__"@ { Some("__rpow__"@) }
    else if op == "__matmul__"@ { Some("__rmatmul__"@) }
    else if op == "__and__"@ { Some("__rand__"@) }
    else if op == "__or__"@ { Some("__ror__"@) }
    else if op == "__xor__"@ { Some("__rxor__"@) }
    else if op == "__lshift__"@ { Some("__rlshift__"@) }
    else if op == "__rshift__"@ { Some("__rrshift__"@) }
    else if op == "__eq__"@ { Some("__eq__"@) }
    else if op == "__ne__"@ { Some("__ne__"@) }
    else if op == "__lt__"@ { Some("__gt__"@) }
    else if op == "__ge__"@ { Some("__le__"@) }
    else if op == "__gt__"@ { Some("__lt__"@) }
    else if op == "__le__"@ { Some("__ge__"@) }
    else { None }
}

/// The reflected dunder `op_name` pairs with; `None` when it has none.
pub fn reverse_op_method(op_name: &str) -> (r: Option<&'static str>)
    ensures
        match r {
            Some(x) => reverse_op_spec(op_name@) == Some(x@),
            None => reverse_op_spec(op_name@).is_none(),
        },
{
    let o = op_name;
    if str_eq(o, "__add__") { Some("__radd__") }
    else if str_eq(o, "__sub__") { Some("__rsub__") }
    else if str_eq(o, "__mul__") { Some("__rmul__") }
    else if str_eq(o, "__truediv__") { Some("__rtruediv__") }
    else if str_eq(o, "__mod__") { Some("__rmod__") }
    else if str_eq(o, "__divmod__") { Some("__rdivmod__") }
    else if str_eq(o, "__floordiv__") { Some("__rfloordiv__") }
    else if str_eq(o, "__pow__") { Some("__rpow__") }
    else if str_eq(o, "__matmul__") { Some("__rmatmul__") }
    else if str_eq(o, "__and__") { Some("__rand__") }
    else if str_eq(o, "__or__") { Some("__ror__") }
    else if str_eq(o, "__xor__") { Some("__rxor__") }
    else if str_eq(o, "__lshift__") { Some("__rlshift__") }
    else if str_eq(o, "__rshift__") { Some("__rrshift__") }
    else if str_eq(o, "__eq__") { Some("__eq__") }
    else if str_eq(o, "__ne__") { Some("__ne__") }
    else if str_eq(o, "__lt__") { Some("__gt__") }
    else if str_eq(o, "__ge__") { Some("__le__") }
    else if str_eq(o, "__gt__") { Some("__lt__") }
    else if str_eq(o, "__le__") { Some("__ge__") }
    else { None }
}

/// The forward dunders whose reflected variant is skipped when both
/// operands are the same type.
pub open spec fn shortcut_op(op: Seq<char>) -> bool {
    ||| op == "__add__"@
    ||| op == "__sub__"@
    ||| op == "__mul__"@
    ||| op == "__div__"@
    ||| op == "__truediv__"@
    ||| op == "__mod__"@
    ||| op == "__divmod__"@
    ||| op == "__floordiv__"@
    ||| op == "__pow__"@
    ||| op == "__matmul__"@
    ||| op == "__and__"@
    ||| op == "__or__"@
    ||| op == "__xor__"@
    ||| op == "__lshift__"@
    ||| op == "__rshift__"@
}

/// Whether a binary operator's dunder skips the reflected variant when
/// both operands are the same type.
pub fn op_method_shortcuts(op_name: &str) -> (r: bool)
    ensures
        r == shortcut_op(op_name@),
{
    let o = op_name;
    str_eq(o, "__add__") || str_eq(o, "__sub__") || str_eq(o, "__mul__") || str_eq(o, "__div__")
        || str_eq(o, "__truediv__") || str_eq(o, "__mod__") || str_eq(o, "__divmod__") || str_eq(o, "__floordiv__")
        || str_eq(o, "__pow__") || str_eq(o, "__matmul__") || str_eq(o, "__and__") || str_eq(o, "__or__")
        || str_eq(o, "__xor__") || str_eq(o, "__lshift__") || str_eq(o, "__rshift__")
}

/// The six rich-comparison dunders, which fall back to the reflected
/// comparison.
pub open spec fn cmp_fallback_op(op: Seq<char>) -> bool {
    ||| op == "__ne__"@
    ||| op == "__eq__"@
    ||| op == "__lt__"@
    ||| op == "__le__"@
    ||| op == "__gt__"@
    ||| op == "__ge__"@
}

/// Whether a comparison dunder falls back to the reflected comparison.
pub fn op_falls_back_to_cmp(op_name: &str) -> (r: bool)
    ensures
        r == cmp_fallback_op(op_name@),
{
    let o = op_name;
    str_eq(o, "__ne__") || str_eq(o, "__eq__") || str_eq(o, "__lt__") || str_eq(o, "__le__") || str_eq(o, "__gt__")
        || str_eq(o, "__ge__")
}

/// Where a binary operator's dunder is defined along a class's MRO.
#[derive(Debug, Clone, PartialEq, Eq)]
pub enum OperatorDefiner {
    /// The fullname of the first MRO class that defines the dunder.
    Found(String),
    /// No class in the MRO defines it.
    Absent,
}

/// The model of a definer: the defining class, or none.
pub open spec fn definer_view(d: OperatorDefiner) -> Option<Seq<char>> {
    match d {
        OperatorDefiner::Found(f) => Some(f@),
        OperatorDefiner::Absent => None,
    }
}

/// The first class of `type_ref`'s MRO that defines `attr`: `Some(None)`
/// when none does, `None` when `type_ref` or a class walked has no
/// snapshot.
pub open spec fn definer_spec(r: TypeResolver, type_ref: Seq<char>, attr: Seq<char>) -> Option<Option<Seq<char>>> {
    match r.class_of(type_ref) {
        None => None,
        Some(s) => match mro_lookup(r, s.mro@, attr, 0) {
            None => None,
            Some(None) => Some(None),
            Some(Some(i)) => Some(Some(s.mro@[i]@)),
        },
    }
}

/// The class that defines one dunder along a type's MRO; `None` when a
/// snapshot is missing.
pub fn lookup_operator_definer(resolver: &TypeResolver, type_ref: &str, attr_name: &str) -> (r: Option<OperatorDefiner>)
    ensures
        match r {
            Some(d) => definer_spec(*resolver, type_ref@, attr_name@) == Some(definer_view(d)),
            None => definer_spec(*resolver, type_ref@, attr_name@).is_none(),
        },
{
    let s = match resolver.get(type_ref) {
        None => {
            return None;
        },
        Some(s) => s,
    };
    match find_in_mro(resolver, &s.mro, attr_name, 0) {
        None => None,
        Some(None) => Some(OperatorDefiner::Absent),
        Some(Some(i)) => Some(OperatorDefiner::Found(s.mro[i].clone())),
    }
}

/// The order in which Python calls a binary operator's dunder methods.
#[derive(Debug, Clone, Copy, PartialEq, Eq)]
pub enum OperatorVariantOrder {
    /// Both operands are the same type and the dunder shortcuts: only
    /// `__op__` is called.
    ShortcutSingle,
    /// The right operand's class is a subclass of the left's that defines
    /// the reflected dunder elsewhere: `__rop__` first.
    ReverseFirst,
    /// `__op__` first, then `__rop__`.
    Normal,
}

/// The class of a bare instance: no type arguments, no last known value,
/// no extra attributes.
pub open spec fn plain_instance(t: TypeModel) -> Option<Seq<char>> {
    match t {
        TypeModel::Instance { type_ref, args, last_known_value, extra_attrs } => if args.len() == 0
            && last_known_value.is_none() && extra_attrs.is_none() {
            Some(type_ref)
        } else {
            None
        },
        _ => None,
    }
}

/// Whether `t` declines every operator question: `Any` or an alias.
pub open spec fn opaque_operand(t: TypeModel) -> bool {
    t is AnyType || t is TypeAliasType
}

/// Whether the right class is nominally a subclass of the left one;
/// `None` where a promotion, an `Any` base or a protocol could make it one
/// without a base.
pub open spec fn nominal_sub(r: TypeResolver, lt: Seq<char>, rt: Seq<char>) -> Option<bool> {
    match (r.class_of(lt), r.class_of(rt)) {
        (Some(ls), Some(rs)) => if rs.has_base.has(lt) {
            Some(true)
        } else if rs.promote@.len() > 0 || rs.fallback_to_any || ls.is_protocol {
            None
        } else {
            Some(false)
        },
        _ => None,
    }
}

/// The dunder order for `left op right`. `None` where it is not decided
/// here: an `Any` or alias operand, a shortcut dunder over operands whose
/// sameness is not plain, instances with arguments or a last known value,
/// a promotion, `Any` base or protocol in the subclass question, or a
/// missing snapshot.
pub open spec fn variant_order_spec(op: Seq<char>, left: TypeModel, right: TypeModel, r: TypeResolver) -> Option<OperatorVariantOrder> {
    if opaque_operand(left) || opaque_operand(right) {
        None
    } else {
        match (plain_instance(left), plain_instance(right)) {
            (Some(lt), Some(rt)) => if shortcut_op(op) && lt == rt {
                Some(OperatorVariantOrder::ShortcutSingle)
            } else if shortcut_op(op) && (r.class_of(lt).is_none() || r.class_of(rt).is_none()
                || r.class_of(lt).unwrap().fallback_to_any || r.class_of(rt).unwrap().fallback_to_any) {
                None
            } else {
                match nominal_sub(r, lt, rt) {
                    None => None,
                    Some(false) => Some(OperatorVariantOrder::Normal),
                    Some(true) => match reverse_op_spec(op) {
                        None => None,
                        Some(rev) => match (definer_spec(r, lt, op), definer_spec(r, rt, rev)) {
                            (Some(dl), Some(dr)) => if opt_text(r.class_of(lt).unwrap().alt_promote_fullname) == Some(rt) || dl == dr {
                                Some(OperatorVariantOrder::Normal)
                            } else {
                                Some(OperatorVariantOrder::ReverseFirst)
                            },
                            _ => None,
                        },
                    },
                }
            },
            _ => if !shortcut_op(op) && (!(left is Instance) || !(right is Instance)) {
                Some(OperatorVariantOrder::Normal)
            } else {
                None
            },
        }
    }
}

fn plain_instance_exec(t: &Type) -> (r: Option<&String>)
    ensures
        match r {
            Some(x) => plain_instance(t@) == Some(x@),
            None => plain_instance(t@).is_none(),
        },
{
    match t {
        Type::Instance { type_ref, args, last_known_value, extra_attrs } => {
            proof {
                crate::wire::lemma_types_model(args@);
                assert(opt_type_model(None) == None::<Box<TypeModel>>);
                assert(crate::wire::extra_model(None) == None::<crate::wire::ExtraAttrsModel>);
                assert(t@ matches TypeModel::Instance { type_ref: tr, args: a, last_known_value: l, extra_attrs: e }
                    && tr == type_ref@ && a == crate::wire::types_model(args@) && l == opt_type_model(*last_known_value)
                    && e == crate::wire::extra_model(*extra_attrs));
            }
            if args.len() == 0 && last_known_value.is_none() && extra_attrs.is_none() {
                Some(type_ref)
            } else {
                None
            }
        },
        _ => None,
    }
}

fn is_opaque_operand(t: &Type) -> (r: bool)
    ensures
        r == opaque_operand(t@),
{
    match t {
        Type::AnyType { .. } => true,
        Type::TypeAliasType { .. } => true,
        _ => false,
    }
}

fn nominal_sub_exec(r: &TypeResolver, lt: &str, rt: &str) -> (res: Option<bool>)
    ensures
        res == nominal_sub(*r, lt@, rt@),
{
    match (r.get(lt), r.get(rt)) {
        (Some(ls), Some(rs)) => {
            if rs.has_base.contains(lt) {
                Some(true)
            } else if rs.promote.len() > 0 || rs.fallback_to_any || ls.is_protocol {
                None
            } else {
                Some(false)
            }
        },
        _ => None,
    }
}

fn opt_str_eq(a: &Option<String>, b: &str) -> (r: bool)
    ensures
        r == (match a {
            Some(x) => x@ == b@,
            None => false,
        }),
{
    match a {
        Some(x) => str_eq(x.as_str(), b),
        None => false,
    }
}

/// The dunder calling order for one binary operator application.
/// `op_name` is the forward dunder; `None` means it is not decided here.
pub fn check_op_reversible_variant_order(
    op_name: &str,
    left: &Type,
    right: &Type,
    resolver: &TypeResolver,
    strict_optional: bool,
) -> (r: Option<OperatorVariantOrder>)
    ensures
        r == variant_order_spec(op_name@, left@, right@, *resolver),
{
    if is_opaque_operand(left) || is_opaque_operand(right) {
        return None;
    }
    let shortcut = op_method_shortcuts(op_name);
    match (plain_instance_exec(left), plain_instance_exec(right)) {
        (Some(lt), Some(rt)) => {
            if shortcut && str_eq(lt.as_str(), rt.as_str()) {
                return Some(OperatorVariantOrder::ShortcutSingle);
            }
            let ls = match resolver.get(lt.as_str()) {
                None => {
                    return None;
                },
                Some(s) => s,
            };
            let rs = match resolver.get(rt.as_str()) {
                None => {
                    return None;
                },
                Some(s) => s,
            };
            if shortcut && (ls.fallback_to_any || rs.fallback_to_any) {
                return None;
            }
            match nominal_sub_exec(resolver, lt.as_str(), rt.as_str()) {
                None => None,
                Some(false) => Some(OperatorVariantOrder::Normal),
                Some(true) => {
                    let rev = match reverse_op_method(op_name) {
                        None => {
                            return None;
                        },
                        Some(x) => x,
                    };
                    let dl = match lookup_operator_definer(resolver, lt.as_str(), op_name) {
                        None => {
                            return None;
                        },
                        Some(d) => d,
                    };
                    let dr = match lookup_operator_definer(resolver, rt.as_str(), rev) {
                        None => {
                            return None;
                        },
                        Some(d) => d,
                    };
                    let same = match (&dl, &dr) {
                        (OperatorDefiner::Found(a), OperatorDefiner::Found(b)) => str_eq(a.as_str(), b.as_str()),
                        (OperatorDefiner::Absent, OperatorDefiner::Absent) => true,
                        _ => false,
                    };
                    if opt_str_eq(&ls.alt_promote_fullname, rt.as_str()) || same {
                        Some(OperatorVariantOrder::Normal)
                    } else {
                        Some(OperatorVariantOrder::ReverseFirst)
                    }
                },
            }
        },
        _ => {
            let both_instances = match (left, right) {
                (Type::Instance { .. }, Type::Instance { .. }) => true,
                _ => false,
            };
            if !shortcut && !both_instances {
                Some(OperatorVariantOrder::Normal)
            } else {
                None
            }
        },
    }
}


/// The last known value of an instance that carries one.
fn lkv_of(t: &Type) -> (r: Option<&Type>)
    ensures
        match r {
            Some(x) => t@ matches TypeModel::Instance { last_known_value: Some(l), .. } && *l == x@,
            None => !(t@ matches TypeModel::Instance { last_known_value: Some(_), .. }),
        },
{
    match t {
        Type::Instance { last_known_value, .. } => {
            proof {
                assert(t@ matches TypeModel::Instance { last_known_value: l, .. } && l == opt_type_model(*last_known_value));
            }
            match last_known_value {
                Some(lkv) => {
                    proof {
                        assert(opt_type_model(*last_known_value) == Some(Box::new(type_model(**lkv))));
                    }
                    Some(&**lkv)
                },
                None => None,
            }
        },
        _ => None,
    }
}

/// The literal type a type stands for: the last known value of an
/// instance carrying one, the type itself otherwise; `None` on an alias.
pub open spec fn literal_spec(t: TypeModel) -> Option<TypeModel> {
    match t {
        TypeModel::TypeAliasType { .. } => None,
        TypeModel::Instance { last_known_value: Some(l), .. } => Some(*l),
        _ => Some(t),
    }
}

/// The literal type an expression's type stands for.
pub fn try_getting_literal(typ: &Type) -> (r: Option<Type>)
    ensures
        match r {
            Some(x) => literal_spec(typ@) == Some(x@),
            None => literal_spec(typ@).is_none(),
        },
{
    if let Type::TypeAliasType { .. } = typ {
        return None;
    }
    match lkv_of(typ) {
        Some(l) => Some(clone_type(l)),
        None => Some(clone_type(typ)),
    }
}

/// The int value of a `Literal[int]`.
pub open spec fn int_literal(t: TypeModel) -> Option<int> {
    match t {
        TypeModel::LiteralType { value: crate::wire::LiteralModel::Int(i), .. } => Some(i),
        _ => None,
    }
}

/// The int values a union's items stand for, in order: every item must be
/// a `Literal[int]`.
pub open spec fn int_literal_items(items: Seq<TypeModel>) -> Option<Seq<int>>
    decreases items.len(),
{
    if items.len() == 0 {
        Some(Seq::empty())
    } else {
        match (int_literal(items[0]), int_literal_items(items.drop_first())) {
            (Some(v), Some(rest)) => Some(seq![v] + rest),
            _ => None,
        }
    }
}

/// The int literal values a type stands for: a `Literal[int]` (directly
/// or as an instance's last known value), or a union of `Literal[int]`
/// items; `None` for any other shape.
pub open spec fn int_literals_spec(t: TypeModel) -> Option<Seq<int>> {
    let u = match t {
        TypeModel::Instance { last_known_value: Some(l), .. } => *l,
        _ => t,
    };
    match u {
        TypeModel::LiteralType { value: crate::wire::LiteralModel::Int(i), .. } => Some(seq![i]),
        TypeModel::UnionType { items, .. } => int_literal_items(items),
        _ => None,
    }
}

proof fn lemma_int_literal_items(items: Seq<TypeModel>, k: int)
    requires
        0 <= k <= items.len(),
        forall|j: int| 0 <= j < k ==> (#[trigger] int_literal(items[j])).is_some(),
    ensures
        int_literal_items(items) == match int_literal_items(items.skip(k)) {
            Some(rest) => Some(Seq::new(k as nat, |j: int| int_literal(items[j]).unwrap()) + rest),
            None => None::<Seq<int>>,
        },
    decreases k,
{
    if k == 0 {
        assert(items.skip(0) =~= items);
        match int_literal_items(items) {
            Some(rest) => {
                assert(Seq::new(0, |j: int| int_literal(items[j]).unwrap()) + rest =~= rest);
            },
            None => {},
        }
    } else {
        let d = items.drop_first();
        assert forall|j: int| 0 <= j < k - 1 implies (#[trigger] int_literal(d[j])).is_some() by {
            assert(d[j] == items[j + 1]);
        }
        lemma_int_literal_items(d, k - 1);
        assert(d.skip(k - 1) =~= items.skip(k));
        assert(int_literal(items[0]).is_some());
        match int_literal_items(items.skip(k)) {
            Some(rest) => {
                assert(seq![int_literal(items[0]).unwrap()] + (Seq::new((k - 1) as nat, |j: int| int_literal(d[j]).unwrap()) + rest)
                    =~= Seq::new(k as nat, |j: int| int_literal(items[j]).unwrap()) + rest);
            },
            None => {},
        }
    }
}

fn int_literal_exec(t: &Type) -> (r: Option<i64>)
    ensures
        match r {
            Some(v) => int_literal(t@) == Some(v as int),
            None => int_literal(t@).is_none(),
        },
{
    match t {
        Type::LiteralType { value: crate::wire::LiteralValue::Int(i), .. } => {
            proof {
                assert(t@ matches TypeModel::LiteralType { value: crate::wire::LiteralModel::Int(j), .. } && j == *i as int);
            }
            Some(*i)
        },
        _ => None,
    }
}

/// The int literal values a type stands for, in operand order.
pub fn try_getting_int_literals(typ: &Type) -> (r: Option<Vec<i64>>)
    ensures
        match r {
            Some(v) => int_literals_spec(typ@) == Some(v@.map_values(|x: i64| x as int)),
            None => int_literals_spec(typ@).is_none(),
        },
{
    let u: &Type = match lkv_of(typ) {
        Some(l) => l,
        None => typ,
    };
    match u {
        Type::LiteralType { value: crate::wire::LiteralValue::Int(i), .. } => {
            proof {
                assert(u@ matches TypeModel::LiteralType { value: crate::wire::LiteralModel::Int(j), .. } && j == *i as int);
            }
            let v = vec![*i];
            proof {
                assert(v@.map_values(|x: i64| x as int) =~= seq![*i as int]);
            }
            Some(v)
        },
        Type::UnionType { items, .. } => {
            proof {
                crate::wire::lemma_types_model(items@);
                assert(u@ matches TypeModel::UnionType { items: it, .. } && it == crate::wire::types_model(items@));
            }
            let ghost im = crate::wire::types_model(items@);
            let mut out: Vec<i64> = Vec::new();
            let mut k: usize = 0;
            while k < items.len()
                invariant
                    k <= items@.len(),
                    im == crate::wire::types_model(items@),
                    im.len() == items@.len(),
                    forall|j: int| 0 <= j < items@.len() ==> #[trigger] im[j] == items@[j]@,
                    out@.len() == k,
                    int_literals_spec(typ@) == int_literal_items(im),
                    forall|j: int| 0 <= j < k ==> (#[trigger] int_literal(im[j])).is_some(),
                    forall|j: int| 0 <= j < k ==> out@[j] as int == int_literal(#[trigger] im[j]).unwrap(),
                decreases items@.len() - k,
            {
                match int_literal_exec(&items[k]) {
                    None => {
                        proof {
                            lemma_int_literal_items(im, k as int);
                            assert(im.skip(k as int)[0] == im[k as int]);
                            assert(int_literal_items(im.skip(k as int)).is_none());
                        }
                        return None;
                    },
                    Some(v) => {
                        out.push(v);
                    },
                }
                k = k + 1;
            }
            proof {
                lemma_int_literal_items(im, k as int);
                assert(im.skip(k as int) =~= Seq::<TypeModel>::empty());
                assert(int_literal_items(Seq::<TypeModel>::empty()) == Some(Seq::<int>::empty()));
                assert(out@.map_values(|x: i64| x as int) =~= Seq::new(k as nat, |j: int| int_literal(im[j]).unwrap()) + Seq::<int>::empty());
            }
            Some(out)
        },
        _ => None,
    }
}

/// Whether one item is a `str` literal: `Some(true)` for a literal over
/// `builtins.str` holding a string, `Some(false)` for any other proper
/// type, `None` for an alias.
pub open spec fn str_literal_item(t: TypeModel) -> Option<bool> {
    match t {
        TypeModel::TypeAliasType { .. } => None,
        TypeModel::LiteralType { fallback, value } => Some(
            (match *fallback {
                TypeModel::Instance { type_ref, .. } => type_ref == "builtins.str"@,
                _ => false,
            }) && value is Str,
        ),
        _ => Some(false),
    }
}

/// Whether every item is a `str` literal, scanning in order: the first
/// item that is not one decides `false`, an alias met first declines.
pub open spec fn all_str_literals(items: Seq<TypeModel>) -> Option<bool>
    decreases items.len(),
{
    if items.len() == 0 {
        Some(true)
    } else {
        match str_literal_item(items[0]) {
            None => None,
            Some(false) => Some(false),
            Some(true) => all_str_literals(items.drop_first()),
        }
    }
}

/// Whether a type is exactly one string literal: a `str` literal, an
/// instance whose last known value is one, or a union whose items are all
/// `str` literals and number exactly one. `None` on an alias.
pub open spec fn string_literal_spec(t: TypeModel) -> Option<bool> {
    match t {
        TypeModel::TypeAliasType { .. } => None,
        TypeModel::Instance { last_known_value: Some(l), .. } => str_literal_item(*l),
        TypeModel::UnionType { items, .. } => match all_str_literals(items) {
            None => None,
            Some(all) => Some(all && items.len() == 1),
        },
        _ => str_literal_item(t),
    }
}

fn str_literal_item_exec(t: &Type) -> (r: Option<bool>)
    ensures
        r == str_literal_item(t@),
{
    match t {
        Type::TypeAliasType { .. } => None,
        Type::LiteralType { fallback, value } => {
            proof {
                assert(t@ matches TypeModel::LiteralType { fallback: f, value: v, .. } && *f == type_model(**fallback)
                    && v == crate::wire::literal_model(*value));
            }
            let over_str = match &**fallback {
                Type::Instance { type_ref, .. } => {
                    proof {
                        assert(type_model(**fallback) matches TypeModel::Instance { type_ref: tr, .. } && tr == type_ref@);
                    }
                    str_eq(type_ref.as_str(), "builtins.str")
                },
                _ => false,
            };
            let is_str = match value {
                crate::wire::LiteralValue::Str(_) => true,
                _ => false,
            };
            Some(over_str && is_str)
        },
        _ => Some(false),
    }
}

/// Whether a type is exactly one string literal.
pub fn is_string_literal(typ: &Type) -> (r: Option<bool>)
    ensures
        r == string_literal_spec(typ@),
{
    if let Type::TypeAliasType { .. } = typ {
        return None;
    }
    if let Some(l) = lkv_of(typ) {
        return str_literal_item_exec(l);
    }
    match typ {
        Type::UnionType { items, .. } => {
            proof {
                crate::wire::lemma_types_model(items@);
                assert(typ@ matches TypeModel::UnionType { items: it, .. } && it == crate::wire::types_model(items@));
            }
            let ghost im = crate::wire::types_model(items@);
            let mut k: usize = 0;
            proof {
                assert(im.skip(0) =~= im);
            }
            while k < items.len()
                invariant
                    k <= items@.len(),
                    im == crate::wire::types_model(items@),
                    im.len() == items@.len(),
                    forall|j: int| 0 <= j < items@.len() ==> #[trigger] im[j] == items@[j]@,
                    all_str_literals(im) == all_str_literals(im.skip(k as int)),
                    string_literal_spec(typ@) == match all_str_literals(im) {
                        None => None,
                        Some(all) => Some(all && im.len() == 1),
                    },
                decreases items@.len() - k,
            {
                proof {
                    assert(im.skip(k as int)[0] == im[k as int]);
                    assert(im.skip(k as int).drop_first() =~= im.skip(k + 1));
                    assert(im.skip(k as int).len() > 0);
                }
                match str_literal_item_exec(&items[k]) {
                    None => {
                        return None;
                    },
                    Some(false) => {
                        return Some(false);
                    },
                    Some(true) => {},
                }
                k = k + 1;
            }
            proof {
                assert(im.skip(k as int) =~= Seq::<TypeModel>::empty());
            }
            Some(items.len() == 1)
        },
        _ => str_literal_item_exec(typ),
    }
}

/// The index of the first unpacked item.
pub open spec fn first_unpack(items: Seq<TypeModel>, i: int) -> Option<int>
    decreases items.len() - i,
{
    if i < 0 || i >= items.len() {
        None
    } else if items[i] is UnpackType {
        Some(i)
    } else {
        first_unpack(items, i + 1)
    }
}

/// How many of `tags` mark a starred element (tag 1).
pub open spec fn star_count(tags: Seq<i64>) -> nat
    decreases tags.len(),
{
    if tags.len() == 0 {
        0
    } else {
        star_count(tags.drop_last()) + if tags.last() == 1 { 1nat } else { 0nat }
    }
}

/// The index of the first starred element.
pub open spec fn first_star(tags: Seq<i64>, i: int) -> Option<int>
    decreases tags.len() - i,
{
    if i < 0 || i >= tags.len() {
        None
    } else if tags[i] == 1 {
        Some(i)
    } else {
        first_star(tags, i + 1)
    }
}

/// Whether a tuple display with element `tags` (0 plain, 1 starred) fits
/// a tuple context: against a fixed tuple the plain elements must not
/// outnumber the items; against a variadic one exactly one star must sit
/// where the context's unpacked item sits, with as many elements as
/// items. `Some(false)` for a context that is not a tuple, `None` for an
/// alias.
pub open spec fn tuple_context_spec(tags: Seq<i64>, ctx: TypeModel) -> Option<bool> {
    match ctx {
        TypeModel::TypeAliasType { .. } => None,
        TypeModel::TupleType { items, .. } => match first_unpack(items, 0) {
            None => Some(tags.len() - star_count(tags) <= items.len()),
            Some(u) => Some(star_count(tags) == 1 && tags.len() == items.len() && first_star(tags, 0) == Some(u)),
        },
        _ => Some(false),
    }
}

fn is_unpack_item(t: &Type) -> (r: bool)
    ensures
        r == (t@ is UnpackType),
{
    match t {
        Type::UnpackType { .. } => true,
        _ => false,
    }
}

/// Whether a tuple display's elements fit a tuple type context.
pub fn tuple_context_matches(elements_tags: &[i64], ctx: &Type) -> (r: Option<bool>)
    ensures
        r == tuple_context_spec(elements_tags@, ctx@),
{
    let tags = elements_tags;
    match ctx {
        Type::TypeAliasType { .. } => None,
        Type::TupleType { items, .. } => {
            proof {
                crate::wire::lemma_types_model(items@);
                assert(ctx@ matches TypeModel::TupleType { items: it, .. } && it == crate::wire::types_model(items@));
            }
            let ghost im = crate::wire::types_model(items@);
            let mut u: usize = 0;
            while u < items.len() && !is_unpack_item(&items[u])
                invariant
                    u <= items@.len(),
                    im == crate::wire::types_model(items@),
                    im.len() == items@.len(),
                    forall|j: int| 0 <= j < items@.len() ==> #[trigger] im[j] == items@[j]@,
                    first_unpack(im, 0) == first_unpack(im, u as int),
                decreases items@.len() - u,
            {
                u = u + 1;
            }
            let mut stars: usize = 0;
            let mut first: Option<usize> = None;
            let mut i: usize = 0;
            while i < tags.len()
                invariant
                    i <= tags@.len(),
                    stars == star_count(tags@.take(i as int)),
                    stars <= i,
                    match first {
                        None => first_star(tags@, 0) == first_star(tags@, i as int),
                        Some(f) => first_star(tags@, 0) == Some(f as int),
                    },
                decreases tags@.len() - i,
            {
                proof {
                    assert(tags@.take(i + 1).drop_last() =~= tags@.take(i as int));
                }
                if tags[i] == 1 {
                    stars = stars + 1;
                    if first.is_none() {
                        first = Some(i);
                    }
                }
                i = i + 1;
            }
            proof {
                assert(tags@.take(tags@.len() as int) =~= tags@);
            }
            if u == items.len() {
                proof {
                    assert(first_unpack(im, u as int).is_none());
                }
                Some(tags.len() - stars <= items.len())
            } else {
                proof {
                    assert(first_unpack(im, u as int) == Some(u as int)) by {
                        assert(im[u as int] is UnpackType);
                    }
                }
                Some(stars == 1 && tags.len() == items.len() && first == Some(u))
            }
        },
        _ => Some(false),
    }
}


/// `TypeOfAny.from_another_any`: an `Any` produced from another `Any`.
pub const FROM_ANOTHER_ANY: i64 = 7;

/// An `Any` of the given kind with no source.
pub open spec fn plain_any(kind: int) -> TypeModel {
    TypeModel::AnyType { type_of_any: kind, source_any: None, missing_import_name: None }
}

/// The `Any` derived from the `Any` `t`: its source is `t`'s own source
/// when it has one, else `t`; the missing import name is `t`'s.
pub open spec fn any_from_another(t: TypeModel) -> TypeModel {
    match t {
        TypeModel::AnyType { source_any, missing_import_name, .. } => TypeModel::AnyType {
            type_of_any: FROM_ANOTHER_ANY as int,
            source_any: if source_any.is_some() { source_any } else { Some(Box::new(t)) },
            missing_import_name,
        },
        _ => t,
    }
}

fn make_any(kind: i64) -> (r: Type)
    ensures
        r@ == plain_any(kind as int),
{
    let r = Type::AnyType { type_of_any: kind, source_any: None, missing_import_name: None };
    proof {
        assert(opt_type_model(None) == None::<Box<TypeModel>>);
        assert(opt_str_model(None) == None::<Seq<char>>);
    }
    r
}

pub(crate) fn any_from_another_exec(t: &Type) -> (r: Type)
    requires
        t@ is AnyType,
    ensures
        r@ == any_from_another(t@),
{
    match t {
        Type::AnyType { source_any, missing_import_name, .. } => {
            proof {
                assert(t@ matches TypeModel::AnyType { source_any: sa, missing_import_name: mi, .. }
                    && sa == opt_type_model(*source_any) && mi == opt_str_model(*missing_import_name));
            }
            let src: Box<Type> = match source_any {
                Some(b) => {
                    proof {
                        assert(opt_type_model(*source_any) == Some(Box::new(type_model(**b))));
                    }
                    Box::new(clone_type(b))
                },
                None => Box::new(clone_type(t)),
            };
            let mi = clone_opt_string(missing_import_name);
            let ghost srcm = type_model(*src);
            let ghost gs: Option<Box<Type>> = Some(src);
            proof {
                assert(opt_type_model(gs) == Some(Box::new(srcm)));
            }
            let r = Type::AnyType { type_of_any: FROM_ANOTHER_ANY, source_any: Some(src), missing_import_name: mi };
            proof {
                assert(r@ == TypeModel::AnyType {
                    type_of_any: FROM_ANOTHER_ANY as int,
                    source_any: Some(Box::new(srcm)),
                    missing_import_name: opt_str_model(mi),
                });
            }
            r
        },
        _ => clone_type(t),
    }
}

/// Whether `probe[Any, ...]` is a subtype of a non-union item `t`: an
/// `Any` accepts it; an instance accepts it when its class is the probe's
/// or, with no type arguments, a base of it; `None`, a literal and `Never`
/// reject it. `None` where this is not decided: an alias, a base with type
/// arguments, a protocol that could accept it structurally, a probe with an
/// `Any` base, another shape, or a missing snapshot.
pub open spec fn probe_item(r: TypeResolver, probe: Seq<char>, t: TypeModel) -> Option<bool> {
    match t {
        TypeModel::AnyType { .. } => Some(true),
        TypeModel::Instance { type_ref, args, .. } => match r.class_of(probe) {
            None => None,
            Some(ps) => if ps.fallback_to_any {
                None
            } else if type_ref == probe {
                Some(true)
            } else if ps.has_base.has(type_ref) {
                if args.len() == 0 { Some(true) } else { None }
            } else {
                match r.class_of(type_ref) {
                    None => None,
                    Some(ts) => if ts.is_protocol { None } else { Some(false) },
                }
            },
        },
        TypeModel::NoneType => Some(false),
        TypeModel::LiteralType { .. } => Some(false),
        TypeModel::UninhabitedType { .. } => Some(false),
        _ => None,
    }
}

/// `probe[Any, ...]` against the items of a union: accepted by one item
/// suffices, rejected by every item rejects.
pub open spec fn probe_items(r: TypeResolver, probe: Seq<char>, items: Seq<TypeModel>) -> Option<bool>
    decreases items.len(),
{
    if items.len() == 0 {
        Some(false)
    } else {
        match (probe_item(r, probe, items[0]), probe_items(r, probe, items.drop_first())) {
            (Some(true), _) => Some(true),
            (_, Some(true)) => Some(true),
            (Some(false), Some(false)) => Some(false),
            _ => None,
        }
    }
}

/// Whether `probe[Any, ...]` is a subtype of `t`.
pub open spec fn probe_sub(r: TypeResolver, probe: Seq<char>, t: TypeModel) -> Option<bool> {
    match t {
        TypeModel::UnionType { items, .. } => probe_items(r, probe, items),
        _ => probe_item(r, probe, t),
    }
}

fn probe_item_exec(r: &TypeResolver, probe: &str, t: &Type) -> (res: Option<bool>)
    ensures
        res == probe_item(*r, probe@, t@),
{
    match t {
        Type::AnyType { .. } => Some(true),
        Type::Instance { type_ref, args, .. } => {
            proof {
                crate::wire::lemma_types_model(args@);
                assert(t@ matches TypeModel::Instance { type_ref: tr, args: a, .. } && tr == type_ref@ && a == types_model(args@));
            }
            let ps = match r.get(probe) {
                None => {
                    return None;
                },
                Some(ps) => ps,
            };
            if ps.fallback_to_any {
                None
            } else if str_eq(type_ref.as_str(), probe) {
                Some(true)
            } else if ps.has_base.contains(type_ref.as_str()) {
                if args.len() == 0 { Some(true) } else { None }
            } else {
                match r.get(type_ref.as_str()) {
                    None => None,
                    Some(ts) => if ts.is_protocol { None } else { Some(false) },
                }
            }
        },
        Type::NoneType => Some(false),
        Type::LiteralType { .. } => Some(false),
        Type::UninhabitedType { .. } => Some(false),
        _ => None,
    }
}

fn probe_sub_exec(r: &TypeResolver, probe: &str, t: &Type) -> (res: Option<bool>)
    ensures
        res == probe_sub(*r, probe@, t@),
{
    match t {
        Type::UnionType { items, .. } => {
            proof {
                crate::wire::lemma_types_model(items@);
                assert(t@ matches TypeModel::UnionType { items: it, .. } && it == types_model(items@));
            }
            let ghost im = types_model(items@);
            let mut k: usize = items.len();
            let mut acc: Option<bool> = Some(false);
            proof {
                assert(im.skip(k as int) =~= Seq::<TypeModel>::empty());
            }
            while k > 0
                invariant
                    k <= items@.len(),
                    im == types_model(items@),
                    im.len() == items@.len(),
                    forall|j: int| 0 <= j < items@.len() ==> #[trigger] im[j] == items@[j]@,
                    acc == probe_items(*r, probe@, im.skip(k as int)),
                    probe_sub(*r, probe@, t@) == probe_items(*r, probe@, im),
                decreases k,
            {
                let item = probe_item_exec(r, probe, &items[k - 1]);
                proof {
                    assert(im.skip(k - 1)[0] == im[k - 1]);
                    assert(im.skip(k - 1).drop_first() =~= im.skip(k as int));
                }
                acc = match (item, acc) {
                    (Some(true), _) => Some(true),
                    (_, Some(true)) => Some(true),
                    (Some(false), Some(false)) => Some(false),
                    _ => None,
                };
                k = k - 1;
            }
            proof {
                assert(im.skip(0) =~= im);
            }
            acc
        },
        _ => probe_item_exec(r, probe, t),
    }
}

/// Whether `t` is an instance of the class `name`.
pub open spec fn instance_of(t: TypeModel, name: Seq<char>) -> bool {
    t matches TypeModel::Instance { type_ref, .. } && type_ref == name
}

/// Whether a declared return type is a generator return: a supertype of
/// `Generator[Any, Any, Any]`, or with `is_coroutine` of `Awaitable[Any]`
/// or an `AwaitableGenerator` instance.
pub open spec fn generator_return_spec(r: TypeResolver, t: TypeModel, is_coroutine: bool) -> Option<bool> {
    if t is TypeAliasType {
        None
    } else if is_coroutine && instance_of(t, "typing.AwaitableGenerator"@) {
        Some(true)
    } else if is_coroutine {
        probe_sub(r, "typing.Awaitable"@, t)
    } else {
        probe_sub(r, "typing.Generator"@, t)
    }
}

/// Whether a declared return type is a supertype of
/// `AsyncGenerator[Any, Any]`.
pub open spec fn async_generator_return_spec(r: TypeResolver, t: TypeModel) -> Option<bool> {
    if t is TypeAliasType {
        None
    } else {
        probe_sub(r, "typing.AsyncGenerator"@, t)
    }
}

fn instance_named(t: &Type, name: &str) -> (r: bool)
    ensures
        r == instance_of(t@, name@),
{
    match t {
        Type::Instance { type_ref, .. } => {
            proof {
                assert(t@ matches TypeModel::Instance { type_ref: tr, .. } && tr == type_ref@);
            }
            str_eq(type_ref.as_str(), name)
        },
        _ => false,
    }
}

/// Whether a declared return type is a generator or coroutine return;
/// `None` where the subtype question is not decided.
pub fn is_generator_return_type(typ: &Type, is_coroutine: bool, strict_optional: bool, resolver: &TypeResolver) -> (r: Option<bool>)
    ensures
        r == generator_return_spec(*resolver, typ@, is_coroutine),
{
    if let Type::TypeAliasType { .. } = typ {
        return None;
    }
    if is_coroutine && instance_named(typ, "typing.AwaitableGenerator") {
        return Some(true);
    }
    if is_coroutine {
        probe_sub_exec(resolver, "typing.Awaitable", typ)
    } else {
        probe_sub_exec(resolver, "typing.Generator", typ)
    }
}

/// Whether a declared return type is an async generator return; `None`
/// where the subtype question is not decided.
pub fn is_async_generator_return_type(typ: &Type, strict_optional: bool, resolver: &TypeResolver) -> (r: Option<bool>)
    ensures
        r == async_generator_return_spec(*resolver, typ@),
{
    if let Type::TypeAliasType { .. } = typ {
        return None;
    }
    probe_sub_exec(resolver, "typing.AsyncGenerator", typ)
}

/// The guard of the yield and receive extractions: a generator return, or
/// failing that an async generator return. `Some(false)` when it is
/// neither.
pub open spec fn any_generator_spec(r: TypeResolver, t: TypeModel, is_coroutine: bool) -> Option<bool> {
    match generator_return_spec(r, t, is_coroutine) {
        None => None,
        Some(true) => Some(true),
        Some(false) => async_generator_return_spec(r, t),
    }
}

/// The type arguments of an instance of class `name`.
pub open spec fn args_of(t: TypeModel, name: Seq<char>) -> Option<Seq<TypeModel>> {
    match t {
        TypeModel::Instance { type_ref, args, .. } => if type_ref == name { Some(args) } else { None },
        _ => None,
    }
}

/// The yield type of a generator or coroutine return type: `Any` derived
/// from an `Any`; an error `Any` for a type that is not a generator return;
/// `Any` for `Awaitable` or an instance without arguments; else the first
/// argument. `None` on an alias, a union, or an undecided guard.
pub open spec fn yield_spec(r: TypeResolver, t: TypeModel, is_coroutine: bool) -> Option<TypeModel> {
    match t {
        TypeModel::TypeAliasType { .. } => None,
        TypeModel::UnionType { .. } => None,
        TypeModel::AnyType { .. } => Some(any_from_another(t)),
        _ => match any_generator_spec(r, t, is_coroutine) {
            None => None,
            Some(false) => Some(plain_any(FROM_ERROR as int)),
            Some(true) => match t {
                TypeModel::Instance { type_ref, args, .. } => if type_ref == "typing.Awaitable"@ {
                    Some(plain_any(SPECIAL_FORM as int))
                } else if args.len() > 0 {
                    Some(args[0])
                } else {
                    Some(plain_any(SPECIAL_FORM as int))
                },
                _ => Some(plain_any(FROM_ERROR as int)),
            },
        },
    }
}

/// The receive type: `Any` for `Awaitable`; the second argument of a
/// `Generator` or `AwaitableGenerator` with three, or of an
/// `AsyncGenerator` with two; `None` otherwise; the other cases as the
/// yield type has them.
pub open spec fn receive_spec(r: TypeResolver, t: TypeModel, is_coroutine: bool) -> Option<TypeModel> {
    match t {
        TypeModel::TypeAliasType { .. } => None,
        TypeModel::UnionType { .. } => None,
        TypeModel::AnyType { .. } => Some(any_from_another(t)),
        _ => match any_generator_spec(r, t, is_coroutine) {
            None => None,
            Some(false) => Some(plain_any(FROM_ERROR as int)),
            Some(true) => match t {
                TypeModel::Instance { type_ref, args, .. } => if type_ref == "typing.Awaitable"@ {
                    Some(plain_any(SPECIAL_FORM as int))
                } else if (type_ref == "typing.Generator"@ || type_ref == "typing.AwaitableGenerator"@) && args.len() >= 3 {
                    Some(args[1])
                } else if type_ref == "typing.AsyncGenerator"@ && args.len() >= 2 {
                    Some(args[1])
                } else {
                    Some(TypeModel::NoneType)
                },
                _ => Some(plain_any(FROM_ERROR as int)),
            },
        },
    }
}

/// The return type: guarded by the generator test alone; the argument of
/// an `Awaitable` with one; the third argument of a `Generator` or
/// `AwaitableGenerator` with three; `None` otherwise.
pub open spec fn return_spec(r: TypeResolver, t: TypeModel, is_coroutine: bool) -> Option<TypeModel> {
    match t {
        TypeModel::TypeAliasType { .. } => None,
        TypeModel::UnionType { .. } => None,
        TypeModel::AnyType { .. } => Some(any_from_another(t)),
        _ => match generator_return_spec(r, t, is_coroutine) {
            None => None,
            Some(false) => Some(plain_any(FROM_ERROR as int)),
            Some(true) => match t {
                TypeModel::Instance { type_ref, args, .. } => if type_ref == "typing.Awaitable"@ && args.len() == 1 {
                    Some(args[0])
                } else if (type_ref == "typing.Generator"@ || type_ref == "typing.AwaitableGenerator"@) && args.len() >= 3 {
                    Some(args[2])
                } else {
                    Some(TypeModel::NoneType)
                },
                _ => Some(plain_any(FROM_ERROR as int)),
            },
        },
    }
}

fn any_generator_exec(typ: &Type, is_coroutine: bool, strict_optional: bool, resolver: &TypeResolver) -> (r: Option<bool>)
    ensures
        r == any_generator_spec(*resolver, typ@, is_coroutine),
{
    match is_generator_return_type(typ, is_coroutine, strict_optional, resolver) {
        None => None,
        Some(true) => Some(true),
        Some(false) => is_async_generator_return_type(typ, strict_optional, resolver),
    }
}

/// The instance's class and arguments, when `t` is an instance.
fn instance_parts(t: &Type) -> (r: Option<(&String, &Vec<Type>)>)
    ensures
        match r {
            Some((tr, a)) => t@ matches TypeModel::Instance { type_ref, args, .. } && type_ref == tr@ && args == types_model(a@)
                && args.len() == a@.len() && forall|j: int| 0 <= j < a@.len() ==> #[trigger] args[j] == a@[j]@,
            None => !(t@ is Instance),
        },
{
    match t {
        Type::Instance { type_ref, args, .. } => {
            proof {
                crate::wire::lemma_types_model(args@);
            }
            Some((type_ref, args))
        },
        _ => None,
    }
}

/// The yield type (`ty`) of a generator or coroutine return type.
pub fn get_generator_yield_type(return_type: &Type, is_coroutine: bool, strict_optional: bool, resolver: &TypeResolver) -> (r: Option<Type>)
    ensures
        match r {
            Some(x) => yield_spec(*resolver, return_type@, is_coroutine) == Some(x@),
            None => yield_spec(*resolver, return_type@, is_coroutine).is_none(),
        },
{
    match return_type {
        Type::TypeAliasType { .. } => {
            return None;
        },
        Type::UnionType { .. } => {
            return None;
        },
        Type::AnyType { .. } => {
            return Some(any_from_another_exec(return_type));
        },
        _ => {},
    }
    match any_generator_exec(return_type, is_coroutine, strict_optional, resolver) {
        None => None,
        Some(false) => Some(make_any(FROM_ERROR)),
        Some(true) => match instance_parts(return_type) {
            Some((tr, args)) => if str_eq(tr.as_str(), "typing.Awaitable") {
                Some(make_any(SPECIAL_FORM))
            } else if args.len() > 0 {
                Some(clone_type(&args[0]))
            } else {
                Some(make_any(SPECIAL_FORM))
            },
            None => Some(make_any(FROM_ERROR)),
        },
    }
}

/// The receive type (`tc`) of a generator or coroutine return type.
pub fn get_generator_receive_type(return_type: &Type, is_coroutine: bool, strict_optional: bool, resolver: &TypeResolver) -> (r: Option<Type>)
    ensures
        match r {
            Some(x) => receive_spec(*resolver, return_type@, is_coroutine) == Some(x@),
            None => receive_spec(*resolver, return_type@, is_coroutine).is_none(),
        },
{
    match return_type {
        Type::TypeAliasType { .. } => {
            return None;
        },
        Type::UnionType { .. } => {
            return None;
        },
        Type::AnyType { .. } => {
            return Some(any_from_another_exec(return_type));
        },
        _ => {},
    }
    match any_generator_exec(return_type, is_coroutine, strict_optional, resolver) {
        None => None,
        Some(false) => Some(make_any(FROM_ERROR)),
        Some(true) => match instance_parts(return_type) {
            Some((tr, args)) => if str_eq(tr.as_str(), "typing.Awaitable") {
                Some(make_any(SPECIAL_FORM))
            } else if (str_eq(tr.as_str(), "typing.Generator") || str_eq(tr.as_str(), "typing.AwaitableGenerator")) && args.len() >= 3 {
                Some(clone_type(&args[1]))
            } else if str_eq(tr.as_str(), "typing.AsyncGenerator") && args.len() >= 2 {
                Some(clone_type(&args[1]))
            } else {
                Some(Type::NoneType)
            },
            None => Some(make_any(FROM_ERROR)),
        },
    }
}

/// The return type (`tr`) of a generator or coroutine return type.
pub fn get_generator_return_type(return_type: &Type, is_coroutine: bool, strict_optional: bool, resolver: &TypeResolver) -> (r: Option<Type>)
    ensures
        match r {
            Some(x) => return_spec(*resolver, return_type@, is_coroutine) == Some(x@),
            None => return_spec(*resolver, return_type@, is_coroutine).is_none(),
        },
{
    match return_type {
        Type::TypeAliasType { .. } => {
            return None;
        },
        Type::UnionType { .. } => {
            return None;
        },
        Type::AnyType { .. } => {
            return Some(any_from_another_exec(return_type));
        },
        _ => {},
    }
    match is_generator_return_type(return_type, is_coroutine, strict_optional, resolver) {
        None => None,
        Some(false) => Some(make_any(FROM_ERROR)),
        Some(true) => match instance_parts(return_type) {
            Some((tr, args)) => if str_eq(tr.as_str(), "typing.Awaitable") && args.len() == 1 {
                Some(clone_type(&args[0]))
            } else if (str_eq(tr.as_str(), "typing.Generator") || str_eq(tr.as_str(), "typing.AwaitableGenerator")) && args.len() >= 3 {
                Some(clone_type(&args[2]))
            } else {
                Some(Type::NoneType)
            },
            None => Some(make_any(FROM_ERROR)),
        },
    }
}

/// The return type of a `Coroutine` instance: its third argument; `Any`
/// derived from an `Any`. `None` on an alias, another shape, or an
/// instance with fewer than three arguments.
pub open spec fn coroutine_return_spec(t: TypeModel) -> Option<TypeModel> {
    match t {
        TypeModel::AnyType { .. } => Some(any_from_another(t)),
        TypeModel::Instance { args, .. } => if args.len() >= 3 { Some(args[2]) } else { None },
        _ => None,
    }
}

/// The return type of a `Coroutine` instance.
pub fn get_coroutine_return_type(return_type: &Type) -> (r: Option<Type>)
    ensures
        match r {
            Some(x) => coroutine_return_spec(return_type@) == Some(x@),
            None => coroutine_return_spec(return_type@).is_none(),
        },
{
    if let Type::AnyType { .. } = return_type {
        return Some(any_from_another_exec(return_type));
    }
    match instance_parts(return_type) {
        Some((_, args)) => if args.len() >= 3 { Some(clone_type(&args[2])) } else { None },
        None => None,
    }
}


proof fn lemma_printf_from_located(s: Seq<char>, i: int)
    requires
        0 <= i,
    ensures
        forall|k: int| 0 <= k < printf_from(s, i).len() ==> {
            let m = #[trigger] printf_from(s, i)[k];
            &&& 0 <= m.start_pos < s.len()
            &&& m.start_pos + m.whole_seq.len() <= s.len()
            &&& s.subrange(m.start_pos, m.start_pos + m.whole_seq.len()) == m.whole_seq
            &&& m.whole_seq[0] == '%'
        },
    decreases s.len() - i,
{
    if i < s.len() {
        lemma_next_char_from(s, i, '%');
        match next_char_from(s, i, '%') {
            None => {},
            Some(j) => {
                lemma_printf_at(s, j);
                let e = printf_at(s, j).1;
                lemma_printf_from_located(s, e);
                let head = printf_at(s, j).0;
                assert(head.whole_seq == s.subrange(j, e));
                assert(head.whole_seq[0] == s[j]);
                let all = printf_from(s, i);
                assert(all == seq![head] + printf_from(s, e));
                assert forall|k: int| 0 <= k < all.len() implies {
                    let m = #[trigger] all[k];
                    &&& 0 <= m.start_pos < s.len()
                    &&& m.start_pos + m.whole_seq.len() <= s.len()
                    &&& s.subrange(m.start_pos, m.start_pos + m.whole_seq.len()) == m.whole_seq
                    &&& m.whole_seq[0] == '%'
                } by {
                    if k > 0 {
                        assert(all[k] == printf_from(s, e)[k - 1]);
                    }
                }
            },
        }
    }
}

/// Each `%` specifier found in a format string is the text of that string
/// at its `start_pos`, and begins with the `%`.
pub proof fn law_printf_specifiers_locate_their_text(s: Seq<char>, k: int)
    requires
        0 <= k < printf_from(s, 0).len(),
    ensures
        0 <= printf_from(s, 0)[k].start_pos < s.len(),
        s.subrange(printf_from(s, 0)[k].start_pos, printf_from(s, 0)[k].start_pos + printf_from(s, 0)[k].whole_seq.len())
            == printf_from(s, 0)[k].whole_seq,
        printf_from(s, 0)[k].whole_seq[0] == '%',
{
    lemma_printf_from_located(s, 0);
    let m = printf_from(s, 0)[k];
}

/// What the raw fields collected so far, and the field being read, say
/// about the template: each is the text right after a `{` at its offset,
/// and a finished one is followed by its `}`.
pub open spec fn fields_located(s: Seq<char>, acc: Seq<(Seq<char>, int)>) -> bool {
    forall|k: int| 0 <= k < acc.len() ==> {
        let (t, p) = #[trigger] acc[k];
        &&& 1 <= p
        &&& p + t.len() < s.len()
        &&& s[p - 1] == '{'
        &&& s.subrange(p, p + t.len()) == t
        &&& s[p + t.len()] == '}'
    }
}

proof fn lemma_targets_located(s: Seq<char>, pos: int, nesting: int, start: int, acc: Seq<(Seq<char>, int)>)
    requires
        0 <= pos,
        0 <= nesting,
        fields_located(s, acc),
        nesting > 0 ==> 1 <= start <= pos && s[start - 1] == '{',
    ensures
        targets_from(s, pos, nesting, start, acc) matches Ok(ts) ==> fields_located(s, ts),
    decreases s.len() - pos,
{
    if pos < s.len() {
        if nesting == 0 {
            if s[pos] == '{' {
                if pos + 1 < s.len() && s[pos + 1] == '{' {
                    lemma_targets_located(s, pos + 2, 0, start, acc);
                } else {
                    lemma_targets_located(s, pos + 1, 1, pos + 1, acc);
                }
            } else if s[pos] == '}' {
                if pos + 1 < s.len() && s[pos + 1] == '}' {
                    lemma_targets_located(s, pos + 2, 0, start, acc);
                }
            } else {
                lemma_targets_located(s, pos + 1, 0, start, acc);
            }
        } else {
            let depth = if s[pos] == '{' {
                nesting + 1
            } else if s[pos] == '}' {
                nesting - 1
            } else {
                nesting
            };
            if depth != 0 {
                lemma_targets_located(s, pos + 1, depth, start, acc);
            } else {
                let t = s.subrange(start, pos);
                let acc2 = acc.push((t, start));
                assert(s[pos] == '}');
                assert forall|k: int| 0 <= k < acc2.len() implies {
                    let (t2, p) = #[trigger] acc2[k];
                    &&& 1 <= p
                    &&& p + t2.len() < s.len()
                    &&& s[p - 1] == '{'
                    &&& s.subrange(p, p + t2.len()) == t2
                    &&& s[p + t2.len()] == '}'
                } by {
                    if k < acc.len() {
                        assert(acc2[k] == acc[k]);
                    } else {
                        assert(acc2[k] == (t, start));
                        assert(start + t.len() == pos);
                    }
                }
                lemma_targets_located(s, pos + 1, 0, start, acc2);
            }
        }
    }
}

/// Each raw field of a template is the text between a `{` and its
/// matching `}`, found at its offset: the offset points at the first
/// character inside the braces.
pub proof fn law_raw_fields_locate_their_text(s: Seq<char>, k: int)
    requires
        targets_from(s, 0, 0, 0, Seq::empty()) is Ok,
        0 <= k < (targets_from(s, 0, 0, 0, Seq::empty())->Ok_0).len(),
    ensures
        ({
            let (t, p) = (targets_from(s, 0, 0, 0, Seq::empty())->Ok_0)[k];
            &&& 1 <= p
            &&& p + t.len() < s.len()
            &&& s[p - 1] == '{'
            &&& s.subrange(p, p + t.len()) == t
            &&& s[p + t.len()] == '}'
        }),
{
    lemma_targets_located(s, 0, 0, 0, Seq::empty());
    let ts = targets_from(s, 0, 0, 0, Seq::empty())->Ok_0;
    assert(fields_located(s, ts));
    let e = ts[k];
}

/// A keyed analysis is a consistent one: when the specifiers are accepted
/// and some has a key, every specifier has a key (or is `%%`) and none
/// takes a `*` argument.
pub proof fn law_keyed_analysis_is_all_keyed(v: Seq<PrintfModel>)
    requires
        analysis_spec(v) matches Ok(a) && a.has_key,
    ensures
        forall|i: int| 0 <= i < v.len() ==> keyed_or_percent(#[trigger] v[i]) && !spec_has_star(v[i]),
{
}

} // verus!
