//! The structured-document syntax that workspace-history files use.
//!
//! The grammar is given by the spec functions ([`spec_parse_document`] and
//! what it calls); the executable parser is proved to return exactly what
//! the grammar says, for every input. A document is one value: `null`, a
//! boolean, a number, a double-quoted string with backslash escapes, an
//! array of values, or an object of string-keyed members. Numbers are kept
//! as their raw text; nothing in the history format reads them.

use vstd::prelude::*;
use vstd::string::StrSliceExecFns;

verus! {

broadcast use vstd::std_specs::vec::group_vec_axioms, vstd::seq::group_seq_axioms;

/// A structured-document value, at the specification level.
#[verifier::ext_equal]
pub enum JsonSpec {
    /// The null literal.
    Null,
    /// A boolean literal.
    Bool(bool),
    /// A number, kept as its raw text.
    Num(Seq<char>),
    /// A string, with escapes decoded.
    Str(Seq<char>),
    /// An array of values, in order.
    Arr(Seq<JsonSpec>),
    /// An object: key-value members, in order.
    Obj(Seq<(Seq<char>, JsonSpec)>),
}

/// A structured-document value, as the executable parser returns it.
pub enum JsonValue {
    /// The null literal.
    Null,
    /// A boolean literal.
    Bool(bool),
    /// A number, kept as its raw text.
    Num(String),
    /// A string, with escapes decoded.
    Str(String),
    /// An array of values, in order.
    Arr(Vec<JsonValue>),
    /// An object: key-value members, in order.
    Obj(Vec<(String, JsonValue)>),
}

/// The specification-level value that an executable value stands for.
pub open spec fn json_view(v: JsonValue) -> JsonSpec
    decreases v,
{
    match v {
        JsonValue::Null => JsonSpec::Null,
        JsonValue::Bool(b) => JsonSpec::Bool(b),
        JsonValue::Num(t) => JsonSpec::Num(t@),
        JsonValue::Str(t) => JsonSpec::Str(t@),
        JsonValue::Arr(items) => JsonSpec::Arr(
            Seq::new(
                items@.len(),
                |k: int|
                    if 0 <= k < items@.len() {
                        json_view(items@[k])
                    } else {
                        JsonSpec::Null
                    },
            ),
        ),
        JsonValue::Obj(members) => JsonSpec::Obj(
            Seq::new(
                members@.len(),
                |k: int|
                    if 0 <= k < members@.len() {
                        (members@[k].0@, json_view(members@[k].1))
                    } else {
                        (Seq::empty(), JsonSpec::Null)
                    },
            ),
        ),
    }
}

impl View for JsonValue {
    type V = JsonSpec;

    open spec fn view(&self) -> JsonSpec {
        json_view(*self)
    }
}

/// Whitespace accepted between tokens.
pub open spec fn is_ws(c: char) -> bool {
    c == ' ' || c == '\t' || c == '\n' || c == '\r'
}

/// A decimal digit.
pub open spec fn is_digit(c: char) -> bool {
    '0' <= c && c <= '9'
}

/// The first index at or after `i` that does not hold whitespace.
pub open spec fn skip_ws(s: Seq<char>, i: int) -> int
    decreases s.len() - i,
{
    if 0 <= i < s.len() && is_ws(s[i]) {
        skip_ws(s, i + 1)
    } else {
        i
    }
}

/// The first index at or after `i` that does not hold a digit.
pub open spec fn skip_digits(s: Seq<char>, i: int) -> int
    decreases s.len() - i,
{
    if 0 <= i < s.len() && is_digit(s[i]) {
        skip_digits(s, i + 1)
    } else {
        i
    }
}

/// The character that a single-character escape stands for, if the escape
/// is recognized.
pub open spec fn unescape(c: char) -> Option<char> {
    if c == '"' {
        Some('"')
    } else if c == '\\' {
        Some('\\')
    } else if c == '/' {
        Some('/')
    } else if c == 'b' {
        Some('\u{8}')
    } else if c == 'f' {
        Some('\u{c}')
    } else if c == 'n' {
        Some('\n')
    } else if c == 'r' {
        Some('\r')
    } else if c == 't' {
        Some('\t')
    } else {
        None
    }
}

/// The value of a hexadecimal digit, or one below zero.
pub open spec fn hex_val(c: char) -> int {
    if '0' <= c && c <= '9' {
        c as u32 - '0' as u32
    } else if 'a' <= c && c <= 'f' {
        10 + c as u32 - 'a' as u32
    } else if 'A' <= c && c <= 'F' {
        10 + c as u32 - 'A' as u32
    } else {
        -1
    }
}

/// The code point of a four-digit escape that starts after its `\u`.
pub open spec fn escape_code_point(s: Seq<char>, i: int) -> int {
    hex_val(s[i]) * 0x1000 + hex_val(s[i + 1]) * 0x100 + hex_val(s[i + 2]) * 0x10 + hex_val(
        s[i + 3],
    )
}

/// Whether a four-digit escape that starts after its `\u` is well formed:
/// four hexadecimal digits that name no surrogate.
pub open spec fn valid_code_point_escape(s: Seq<char>, i: int) -> bool {
    &&& i + 4 <= s.len()
    &&& hex_val(s[i]) >= 0
    &&& hex_val(s[i + 1]) >= 0
    &&& hex_val(s[i + 2]) >= 0
    &&& hex_val(s[i + 3]) >= 0
    &&& !(0xD800 <= escape_code_point(s, i) < 0xE000)
}

/// Parse the rest of a string whose opening quote stands before `i`:
/// the decoded content and the index after the closing quote.
pub open spec fn parse_string_rest(s: Seq<char>, i: int) -> Option<(Seq<char>, int)>
    decreases s.len() - i,
{
    if i < 0 || i >= s.len() {
        None
    } else if s[i] == '"' {
        Some((Seq::empty(), i + 1))
    } else if s[i] == '\\' {
        if i + 1 >= s.len() {
            None
        } else if s[i + 1] == 'u' {
            if valid_code_point_escape(s, i + 2) {
                match parse_string_rest(s, i + 6) {
                    None => None,
                    Some((t, j)) => Some(
                        (seq![(escape_code_point(s, i + 2) as u32) as char] + t, j),
                    ),
                }
            } else {
                None
            }
        } else {
            match unescape(s[i + 1]) {
                None => None,
                Some(c) => match parse_string_rest(s, i + 2) {
                    None => None,
                    Some((t, j)) => Some((seq![c] + t, j)),
                },
            }
        }
    } else if (s[i] as u32) < 0x20 {
        None
    } else {
        match parse_string_rest(s, i + 1) {
            None => None,
            Some((t, j)) => Some((seq![s[i]] + t, j)),
        }
    }
}

/// Scan a number token that starts at `i`: the index after its last
/// character, if the token is well formed.
pub open spec fn scan_number(s: Seq<char>, i: int) -> Option<int> {
    let a = if i < s.len() && s[i] == '-' {
        i + 1
    } else {
        i
    };
    if a >= s.len() || !is_digit(s[a]) {
        None
    } else {
        let b = if s[a] == '0' {
            a + 1
        } else {
            skip_digits(s, a)
        };
        let c = if b < s.len() && s[b] == '.' {
            if b + 1 < s.len() && is_digit(s[b + 1]) {
                skip_digits(s, b + 1)
            } else {
                -1
            }
        } else {
            b
        };
        if c < 0 {
            None
        } else {
            let d = if c < s.len() && (s[c] == 'e' || s[c] == 'E') {
                let e = if c + 1 < s.len() && (s[c + 1] == '+' || s[c + 1] == '-') {
                    c + 2
                } else {
                    c + 1
                };
                if e < s.len() && is_digit(s[e]) {
                    skip_digits(s, e)
                } else {
                    -1
                }
            } else {
                c
            };
            if d < 0 {
                None
            } else {
                Some(d)
            }
        }
    }
}

/// Parse one value that starts at `i` (no leading whitespace): the value
/// and the index after it.
pub open spec fn parse_value(s: Seq<char>, i: int) -> Option<(JsonSpec, int)>
    decreases s.len() - i, 0int,
{
    if i < 0 || i >= s.len() {
        None
    } else if s[i] == '"' {
        match parse_string_rest(s, i + 1) {
            None => None,
            Some((t, j)) => Some((JsonSpec::Str(t), j)),
        }
    } else if s[i] == '[' {
        let j = skip_ws(s, i + 1);
        if j == s.len() {
            None
        } else if i + 1 <= j <= s.len() && s[j] == ']' {
            Some((JsonSpec::Arr(Seq::empty()), j + 1))
        } else {
            match parse_array_rest(s, i + 1) {
                None => None,
                Some((items, j2)) => Some((JsonSpec::Arr(items), j2)),
            }
        }
    } else if s[i] == '{' {
        let j = skip_ws(s, i + 1);
        if j == s.len() {
            None
        } else if i + 1 <= j <= s.len() && s[j] == '}' {
            Some((JsonSpec::Obj(Seq::empty()), j + 1))
        } else {
            match parse_members_rest(s, i + 1) {
                None => None,
                Some((members, j2)) => Some((JsonSpec::Obj(members), j2)),
            }
        }
    } else if s[i] == 't' {
        if i + 4 <= s.len() && s[i + 1] == 'r' && s[i + 2] == 'u' && s[i + 3] == 'e' {
            Some((JsonSpec::Bool(true), i + 4))
        } else {
            None
        }
    } else if s[i] == 'f' {
        if i + 5 <= s.len() && s[i + 1] == 'a' && s[i + 2] == 'l' && s[i + 3] == 's' && s[i + 4]
            == 'e' {
            Some((JsonSpec::Bool(false), i + 5))
        } else {
            None
        }
    } else if s[i] == 'n' {
        if i + 4 <= s.len() && s[i + 1] == 'u' && s[i + 2] == 'l' && s[i + 3] == 'l' {
            Some((JsonSpec::Null, i + 4))
        } else {
            None
        }
    } else if s[i] == '-' || is_digit(s[i]) {
        match scan_number(s, i) {
            None => None,
            Some(d) => Some((JsonSpec::Num(s.subrange(i, d)), d)),
        }
    } else {
        None
    }
}

/// Parse the items of a non-empty array, starting after `[` or `,` at
/// `i`: the items and the index after the closing bracket.
pub open spec fn parse_array_rest(s: Seq<char>, i: int) -> Option<(Seq<JsonSpec>, int)>
    decreases s.len() - i, 1int,
{
    let j = skip_ws(s, i);
    if j < i || j > s.len() {
        None
    } else {
        match parse_value(s, j) {
            None => None,
            Some((v, k)) => {
                if k <= j || k > s.len() {
                    None
                } else {
                    let m = skip_ws(s, k);
                    if m < k || m >= s.len() {
                        None
                    } else if s[m] == ',' {
                        match parse_array_rest(s, m + 1) {
                            None => None,
                            Some((items, n)) => Some((seq![v] + items, n)),
                        }
                    } else if s[m] == ']' {
                        Some((seq![v], m + 1))
                    } else {
                        None
                    }
                }
            },
        }
    }
}

/// Parse the members of a non-empty object, starting after `{` or `,` at
/// `i`: the members and the index after the closing brace.
pub open spec fn parse_members_rest(s: Seq<char>, i: int) -> Option<
    (Seq<(Seq<char>, JsonSpec)>, int),
>
    decreases s.len() - i, 1int,
{
    let j = skip_ws(s, i);
    if j < i || j >= s.len() || s[j] != '"' {
        None
    } else {
        match parse_string_rest(s, j + 1) {
            None => None,
            Some((key, k)) => {
                if k <= j || k > s.len() {
                    None
                } else {
                    let m = skip_ws(s, k);
                    if m < k || m >= s.len() || s[m] != ':' {
                        None
                    } else {
                        let n = skip_ws(s, m + 1);
                        if n < m + 1 || n > s.len() {
                            None
                        } else {
                            match parse_value(s, n) {
                                None => None,
                                Some((v, p)) => {
                                    if p <= n || p > s.len() {
                                        None
                                    } else {
                                        let q = skip_ws(s, p);
                                        if q < p || q >= s.len() {
                                            None
                                        } else if s[q] == ',' {
                                            match parse_members_rest(s, q + 1) {
                                                None => None,
                                                Some((members, r)) => Some(
                                                    (seq![(key, v)] + members, r),
                                                ),
                                            }
                                        } else if s[q] == '}' {
                                            Some((seq![(key, v)], q + 1))
                                        } else {
                                            None
                                        }
                                    }
                                },
                            }
                        }
                    }
                }
            },
        }
    }
}

/// Parse a whole document: one value, with whitespace around it, and
/// nothing after it.
pub open spec fn spec_parse_document(s: Seq<char>) -> Option<JsonSpec> {
    let i = skip_ws(s, 0);
    if i < 0 || i > s.len() {
        None
    } else {
        match parse_value(s, i) {
            None => None,
            Some((v, j)) => {
                if 0 <= j <= s.len() && skip_ws(s, j) == s.len() {
                    Some(v)
                } else {
                    None
                }
            },
        }
    }
}

/// The views of the items of an executable array, in order.
pub open spec fn arr_views(items: Seq<JsonValue>) -> Seq<JsonSpec> {
    Seq::new(items.len(), |k: int| items[k]@)
}

/// The views of the members of an executable object, in order.
pub open spec fn obj_views(members: Seq<(String, JsonValue)>) -> Seq<(Seq<char>, JsonSpec)> {
    Seq::new(members.len(), |k: int| (members[k].0@, members[k].1@))
}

pub(crate) proof fn lemma_arr_view(items: Vec<JsonValue>)
    ensures
        JsonValue::Arr(items)@ == JsonSpec::Arr(arr_views(items@)),
{
    assert(json_view(JsonValue::Arr(items))->Arr_0 =~= arr_views(items@));
}

pub(crate) proof fn lemma_obj_view(members: Vec<(String, JsonValue)>)
    ensures
        JsonValue::Obj(members)@ == JsonSpec::Obj(obj_views(members@)),
{
    assert(json_view(JsonValue::Obj(members))->Obj_0 =~= obj_views(members@));
}

proof fn lemma_skip_digits_bounds(s: Seq<char>, i: int)
    requires
        0 <= i <= s.len(),
    ensures
        i <= skip_digits(s, i) <= s.len(),
    decreases s.len() - i,
{
    if i < s.len() && is_digit(s[i]) {
        lemma_skip_digits_bounds(s, i + 1);
    }
}

fn is_ws_char(c: char) -> (r: bool)
    ensures
        r == is_ws(c),
{
    c == ' ' || c == '\t' || c == '\n' || c == '\r'
}

fn is_digit_char(c: char) -> (r: bool)
    ensures
        r == is_digit(c),
{
    '0' <= c && c <= '9'
}

/// The characters of a string, in order, as a vector.
pub fn str_to_chars(s: &str) -> (r: Vec<char>)
    ensures
        r@ == s@,
{
    let n: usize = s.unicode_len();
    let mut r: Vec<char> = Vec::new();
    let mut i: usize = 0;
    proof {
        assert(r@ =~= s@.subrange(0, 0));
    }
    while i < n
        invariant
            n == s@.len(),
            i <= n,
            r@ == s@.subrange(0, i as int),
        decreases n - i,
    {
        let c = s.get_char(i);
        r.push(c);
        proof {
            assert(s@.subrange(0, i + 1) =~= s@.subrange(0, i as int).push(s@[i as int]));
        }
        i += 1;
    }
    proof {
        assert(s@.subrange(0, n as int) =~= s@);
    }
    r
}

/// The given range of a character vector, as a string.
pub(crate) fn chars_to_string(v: &Vec<char>, from: usize, to: usize) -> (r: String)
    requires
        from <= to <= v.len(),
    ensures
        r@ == v@.subrange(from as int, to as int),
{
    let mut r = String::new();
    let mut k: usize = from;
    proof {
        assert(r@ =~= v@.subrange(from as int, from as int));
    }
    while k < to
        invariant
            from <= k <= to <= v.len(),
            r@ == v@.subrange(from as int, k as int),
        decreases to - k,
    {
        let c = v[k];
        r.push(c);
        proof {
            assert(v@.subrange(from as int, k + 1) =~= v@.subrange(from as int, k as int).push(
                v@[k as int],
            ));
        }
        k += 1;
    }
    r
}

fn exec_skip_ws(s: &Vec<char>, i: usize) -> (r: usize)
    requires
        i <= s.len(),
    ensures
        r == skip_ws(s@, i as int),
        i <= r <= s.len(),
{
    let mut j: usize = i;
    while j < s.len() && is_ws_char(s[j])
        invariant
            i <= j <= s.len(),
            skip_ws(s@, i as int) == skip_ws(s@, j as int),
        decreases s.len() - j,
    {
        j += 1;
    }
    j
}

fn exec_skip_digits(s: &Vec<char>, i: usize) -> (r: usize)
    requires
        i <= s.len(),
    ensures
        r == skip_digits(s@, i as int),
        i <= r <= s.len(),
{
    let mut j: usize = i;
    while j < s.len() && is_digit_char(s[j])
        invariant
            i <= j <= s.len(),
            skip_digits(s@, i as int) == skip_digits(s@, j as int),
        decreases s.len() - j,
    {
        j += 1;
    }
    j
}

proof fn lemma_char_code_injective(a: char, b: char)
    requires
        a as u32 == b as u32,
    ensures
        a == b,
{
}

fn hex_digit(c: char) -> (r: Option<u32>)
    ensures
        (match r {
            None => hex_val(c) < 0,
            Some(v) => hex_val(c) == v && v < 16,
        }),
{
    let n: u32 = c as u32;
    if n >= '0' as u32 && n <= '9' as u32 {
        Some(n - '0' as u32)
    } else if n >= 'a' as u32 && n <= 'f' as u32 {
        Some(10 + n - 'a' as u32)
    } else if n >= 'A' as u32 && n <= 'F' as u32 {
        Some(10 + n - 'A' as u32)
    } else {
        None
    }
}

fn exec_unescape(c: char) -> (r: Option<char>)
    ensures
        r == unescape(c),
{
    if c == '"' {
        Some('"')
    } else if c == '\\' {
        Some('\\')
    } else if c == '/' {
        Some('/')
    } else if c == 'b' {
        Some('\u{8}')
    } else if c == 'f' {
        Some('\u{c}')
    } else if c == 'n' {
        Some('\n')
    } else if c == 'r' {
        Some('\r')
    } else if c == 't' {
        Some('\t')
    } else {
        None
    }
}

fn p_string_rest(s: &Vec<char>, i: usize) -> (r: Option<(Vec<char>, usize)>)
    requires
        i <= s.len(),
    ensures
        (match r {
            None => parse_string_rest(s@, i as int) is None,
            Some(p) => parse_string_rest(s@, i as int) == Some((p.0@, p.1 as int)) && i < p.1
                <= s.len(),
        }),
    decreases s@.len() - i,
{
    if i == s.len() {
        return None;
    }
    let c = s[i];
    if c == '"' {
        let out: Vec<char> = Vec::new();
        proof {
            assert(out@ =~= Seq::<char>::empty());
        }
        Some((out, i + 1))
    } else if c == '\\' {
        if i + 1 == s.len() {
            None
        } else if s[i + 1] == 'u' {
            if s.len() - i < 6 {
                return None;
            }
            let d0 = match hex_digit(s[i + 2]) {
                Some(v) => v,
                None => {
                    return None;
                },
            };
            let d1 = match hex_digit(s[i + 3]) {
                Some(v) => v,
                None => {
                    return None;
                },
            };
            let d2 = match hex_digit(s[i + 4]) {
                Some(v) => v,
                None => {
                    return None;
                },
            };
            let d3 = match hex_digit(s[i + 5]) {
                Some(v) => v,
                None => {
                    return None;
                },
            };
            let cp: u32 = d0 * 0x1000 + d1 * 0x100 + d2 * 0x10 + d3;
            proof {
                assert(cp == escape_code_point(s@, i + 2));
            }
            if 0xD800 <= cp && cp < 0xE000 {
                return None;
            }
            let c2 = match char::from_u32(cp) {
                Some(c2) => c2,
                None => {
                    proof {
                        assert(false);
                    }
                    return None;
                },
            };
            proof {
                lemma_char_code_injective(c2, (escape_code_point(s@, i + 2) as u32) as char);
            }
            match p_string_rest(s, i + 6) {
                None => None,
                Some((t, j)) => {
                    let ghost gt = t@;
                    let mut out = t;
                    out.insert(0, c2);
                    proof {
                        assert(out@ =~= seq![c2] + gt);
                    }
                    Some((out, j))
                },
            }
        } else {
            match exec_unescape(s[i + 1]) {
                None => None,
                Some(c2) => match p_string_rest(s, i + 2) {
                    None => None,
                    Some((t, j)) => {
                        let ghost gt = t@;
                        let mut out = t;
                        out.insert(0, c2);
                        proof {
                            assert(out@ =~= seq![c2] + gt);
                        }
                        Some((out, j))
                    },
                },
            }
        }
    } else if (c as u32) < 0x20 {
        None
    } else {
        match p_string_rest(s, i + 1) {
            None => None,
            Some((t, j)) => {
                let ghost gt = t@;
                let mut out = t;
                out.insert(0, c);
                proof {
                    assert(out@ =~= seq![c] + gt);
                }
                Some((out, j))
            },
        }
    }
}

fn p_number(s: &Vec<char>, i: usize) -> (r: Option<usize>)
    requires
        i < s.len(),
    ensures
        (match r {
            None => scan_number(s@, i as int) is None,
            Some(d) => scan_number(s@, i as int) == Some(d as int) && i < d <= s.len(),
        }),
{
    let a: usize = if s[i] == '-' {
        i + 1
    } else {
        i
    };
    if a == s.len() {
        return None;
    }
    if !is_digit_char(s[a]) {
        return None;
    }
    proof {
        lemma_skip_digits_bounds(s@, a + 1);
    }
    let b: usize = if s[a] == '0' {
        a + 1
    } else {
        exec_skip_digits(s, a)
    };
    let c_end: usize = if b < s.len() && s[b] == '.' {
        if b + 1 < s.len() && is_digit_char(s[b + 1]) {
            exec_skip_digits(s, b + 1)
        } else {
            return None;
        }
    } else {
        b
    };
    let d: usize = if c_end < s.len() && (s[c_end] == 'e' || s[c_end] == 'E') {
        let e0: usize = if c_end + 1 < s.len() && (s[c_end + 1] == '+' || s[c_end + 1] == '-') {
            c_end + 2
        } else {
            c_end + 1
        };
        if e0 < s.len() && is_digit_char(s[e0]) {
            exec_skip_digits(s, e0)
        } else {
            return None;
        }
    } else {
        c_end
    };
    Some(d)
}

fn p_value(s: &Vec<char>, i: usize) -> (r: Option<(JsonValue, usize)>)
    requires
        i <= s.len(),
    ensures
        (match r {
            None => parse_value(s@, i as int) is None,
            Some(p) => parse_value(s@, i as int) == Some((p.0@, p.1 as int)) && i < p.1 <= s.len(),
        }),
    decreases s@.len() - i, 0int,
{
    if i == s.len() {
        return None;
    }
    let c = s[i];
    if c == '"' {
        match p_string_rest(s, i + 1) {
            None => None,
            Some((t, j)) => {
                let text = chars_to_string(&t, 0, t.len());
                proof {
                    assert(text@ =~= t@);
                }
                Some((JsonValue::Str(text), j))
            },
        }
    } else if c == '[' {
        let j = exec_skip_ws(s, i + 1);
        if j == s.len() {
            None
        } else if s[j] == ']' {
            let out: Vec<JsonValue> = Vec::new();
            proof {
                lemma_arr_view(out);
                assert(arr_views(out@) =~= Seq::<JsonSpec>::empty());
            }
            Some((JsonValue::Arr(out), j + 1))
        } else {
            match p_array_rest(s, i + 1) {
                None => None,
                Some((items, j2)) => {
                    proof {
                        lemma_arr_view(items);
                    }
                    Some((JsonValue::Arr(items), j2))
                },
            }
        }
    } else if c == '{' {
        let j = exec_skip_ws(s, i + 1);
        if j == s.len() {
            None
        } else if s[j] == '}' {
            let out: Vec<(String, JsonValue)> = Vec::new();
            proof {
                lemma_obj_view(out);
                assert(obj_views(out@) =~= Seq::<(Seq<char>, JsonSpec)>::empty());
            }
            Some((JsonValue::Obj(out), j + 1))
        } else {
            match p_members_rest(s, i + 1) {
                None => None,
                Some((members, j2)) => {
                    proof {
                        lemma_obj_view(members);
                    }
                    Some((JsonValue::Obj(members), j2))
                },
            }
        }
    } else if c == 't' {
        if s.len() - i >= 4 && s[i + 1] == 'r' && s[i + 2] == 'u' && s[i + 3] == 'e' {
            Some((JsonValue::Bool(true), i + 4))
        } else {
            None
        }
    } else if c == 'f' {
        if s.len() - i >= 5 && s[i + 1] == 'a' && s[i + 2] == 'l' && s[i + 3] == 's' && s[i + 4]
            == 'e' {
            Some((JsonValue::Bool(false), i + 5))
        } else {
            None
        }
    } else if c == 'n' {
        if s.len() - i >= 4 && s[i + 1] == 'u' && s[i + 2] == 'l' && s[i + 3] == 'l' {
            Some((JsonValue::Null, i + 4))
        } else {
            None
        }
    } else if c == '-' || is_digit_char(c) {
        match p_number(s, i) {
            None => None,
            Some(d) => Some((JsonValue::Num(chars_to_string(s, i, d)), d)),
        }
    } else {
        None
    }
}

fn p_array_rest(s: &Vec<char>, i: usize) -> (r: Option<(Vec<JsonValue>, usize)>)
    requires
        i <= s.len(),
    ensures
        (match r {
            None => parse_array_rest(s@, i as int) is None,
            Some(p) => parse_array_rest(s@, i as int) == Some((arr_views(p.0@), p.1 as int)) && i
                < p.1 <= s.len(),
        }),
    decreases s@.len() - i, 1int,
{
    let j = exec_skip_ws(s, i);
    match p_value(s, j) {
        None => None,
        Some((v, k)) => {
            let m = exec_skip_ws(s, k);
            if m == s.len() {
                None
            } else if s[m] == ',' {
                match p_array_rest(s, m + 1) {
                    None => None,
                    Some((items, n)) => {
                        let ghost gitems = items@;
                        let ghost gv = v@;
                        let mut out = items;
                        out.insert(0, v);
                        proof {
                            assert(arr_views(out@) =~= seq![gv] + arr_views(gitems));
                        }
                        Some((out, n))
                    },
                }
            } else if s[m] == ']' {
                let ghost gv = v@;
                let mut out: Vec<JsonValue> = Vec::new();
                out.push(v);
                proof {
                    assert(arr_views(out@) =~= seq![gv]);
                }
                Some((out, m + 1))
            } else {
                None
            }
        },
    }
}

fn p_members_rest(s: &Vec<char>, i: usize) -> (r: Option<(Vec<(String, JsonValue)>, usize)>)
    requires
        i <= s.len(),
    ensures
        (match r {
            None => parse_members_rest(s@, i as int) is None,
            Some(p) => parse_members_rest(s@, i as int) == Some((obj_views(p.0@), p.1 as int))
                && i < p.1 <= s.len(),
        }),
    decreases s@.len() - i, 1int,
{
    let j = exec_skip_ws(s, i);
    if j == s.len() {
        return None;
    }
    if s[j] != '"' {
        return None;
    }
    match p_string_rest(s, j + 1) {
        None => None,
        Some((key, k)) => {
            let m = exec_skip_ws(s, k);
            if m == s.len() {
                return None;
            }
            if s[m] != ':' {
                return None;
            }
            let n = exec_skip_ws(s, m + 1);
            match p_value(s, n) {
                None => None,
                Some((v, p)) => {
                    let q = exec_skip_ws(s, p);
                    if q == s.len() {
                        None
                    } else if s[q] == ',' {
                        match p_members_rest(s, q + 1) {
                            None => None,
                            Some((members, rr)) => {
                                let ghost gmembers = members@;
                                let key_text = chars_to_string(&key, 0, key.len());
                                proof {
                                    assert(key_text@ =~= key@);
                                }
                                let ghost gkey = key_text@;
                                let ghost gv = v@;
                                let mut out = members;
                                out.insert(0, (key_text, v));
                                proof {
                                    assert(obj_views(out@) =~= seq![(gkey, gv)] + obj_views(
                                        gmembers,
                                    ));
                                }
                                Some((out, rr))
                            },
                        }
                    } else if s[q] == '}' {
                        let key_text = chars_to_string(&key, 0, key.len());
                        proof {
                            assert(key_text@ =~= key@);
                        }
                        let ghost gkey = key_text@;
                        let ghost gv = v@;
                        let mut out: Vec<(String, JsonValue)> = Vec::new();
                        out.push((key_text, v));
                        proof {
                            assert(obj_views(out@) =~= seq![(gkey, gv)]);
                        }
                        Some((out, q + 1))
                    } else {
                        None
                    }
                },
            }
        },
    }
}

/// The value under the first member with the given key, if there is one.
pub open spec fn obj_lookup(members: Seq<(Seq<char>, JsonSpec)>, key: Seq<char>) -> Option<
    JsonSpec,
>
    decreases members.len(),
{
    if members.len() == 0 {
        None
    } else if members[0].0 == key {
        Some(members[0].1)
    } else {
        obj_lookup(members.drop_first(), key)
    }
}

/// Look a key up among an object's members, as [`obj_lookup`] says.
pub fn obj_get<'a>(members: &'a Vec<(String, JsonValue)>, key: &String) -> (r: Option<
    &'a JsonValue,
>)
    ensures
        (match r {
            None => obj_lookup(obj_views(members@), key@) is None,
            Some(v) => obj_lookup(obj_views(members@), key@) == Some(v@),
        }),
{
    let n: usize = members.len();
    let mut i: usize = 0;
    proof {
        assert(obj_views(members@).subrange(0, n as int) =~= obj_views(members@));
    }
    while i < n
        invariant
            n == members.len(),
            i <= n,
            obj_lookup(obj_views(members@), key@) == obj_lookup(
                obj_views(members@).subrange(i as int, n as int),
                key@,
            ),
        decreases n - i,
    {
        proof {
            assert(obj_views(members@).subrange(i as int, n as int)[0] == (
                members@[i as int].0@,
                members@[i as int].1@,
            ));
            assert(obj_views(members@).subrange(i as int, n as int).drop_first() =~= obj_views(
                members@,
            ).subrange(i + 1, n as int));
        }
        if members[i].0 == *key {
            return Some(&members[i].1);
        }
        i += 1;
    }
    proof {
        assert(obj_views(members@).subrange(n as int, n as int) =~= Seq::<
            (Seq<char>, JsonSpec),
        >::empty());
    }
    None
}

/// Parse a whole document, as [`spec_parse_document`] says: its value if
/// the text is well formed, and nothing otherwise.
pub fn parse_document(s: &str) -> (r: Option<JsonValue>)
    ensures
        (match r {
            None => spec_parse_document(s@) is None,
            Some(v) => spec_parse_document(s@) == Some(v@),
        }),
{
    let chars = str_to_chars(s);
    let i = exec_skip_ws(&chars, 0);
    match p_value(&chars, i) {
        None => None,
        Some((v, j)) => {
            let k = exec_skip_ws(&chars, j);
            if k == chars.len() {
                Some(v)
            } else {
                None
            }
        },
    }
}

} // verus!
