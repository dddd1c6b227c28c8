//! The wire format of a log record, reader side: a request body is accepted
//! exactly when it is one JSON object whose members include the four required
//! field names, each once, each with a text value.
//!
//! The grammar is given by the spec functions here; the executable parser is
//! proved to follow them. Member order is free, whitespace between tokens is
//! free, members with unrecognized names are skipped whatever JSON value they
//! hold, and repeating one of the four field names is rejected. A string
//! literal may use the two-character escapes and `\u` escapes; a surrogate
//! escape is accepted only as a valid leading/trailing pair, which denotes
//! the one character the pair encodes.

use vstd::prelude::*;

use crate::encode::{key_level, key_payload, key_project, key_trace, push_char};
use crate::event::{LogEvent, LogEventView};

verus! {

/// JSON inter-token whitespace.
pub open spec fn is_ws(c: char) -> bool {
    c == ' ' || c == '\t' || c == '\n' || c == '\r'
}

/// The first position at or after `i` holding no whitespace.
pub open spec fn skip_ws(s: Seq<char>, i: int) -> int
    decreases s.len() - i,
{
    if 0 <= i && i < s.len() && is_ws(s[i]) {
        skip_ws(s, i + 1)
    } else {
        i
    }
}

/// A hexadecimal digit, either case.
pub open spec fn is_hex(c: char) -> bool {
    ('0' as u32 <= c as u32 && c as u32 <= '9' as u32) || ('a' as u32 <= c as u32 && c as u32
        <= 'f' as u32) || ('A' as u32 <= c as u32 && c as u32 <= 'F' as u32)
}

/// The scalar values a `char` can hold: everything up to `0x10FFFF` except
/// the surrogate range.
pub open spec fn is_scalar_code(u: u32) -> bool {
    u < 0xD800 || (0xE000 <= u && u <= 0x10FFFF)
}

/// The value of a hexadecimal digit.
pub open spec fn hex_val(c: char) -> int {
    if '0' as u32 <= c as u32 && c as u32 <= '9' as u32 {
        c as u32 - '0' as u32
    } else if 'a' as u32 <= c as u32 && c as u32 <= 'f' as u32 {
        c as u32 - 'a' as u32 + 10
    } else if 'A' as u32 <= c as u32 && c as u32 <= 'F' as u32 {
        c as u32 - 'A' as u32 + 10
    } else {
        0
    }
}

/// A decimal digit.
pub open spec fn is_digit(c: char) -> bool {
    '0' as u32 <= c as u32 && c as u32 <= '9' as u32
}

/// The value of the four hexadecimal digits at `p`, if they are there.
pub open spec fn hex4_at(s: Seq<char>, p: int) -> Option<int> {
    if 0 <= p && p + 4 <= s.len() && is_hex(s[p]) && is_hex(s[p + 1]) && is_hex(s[p + 2])
        && is_hex(s[p + 3]) {
        Some(hex_val(s[p]) * 4096 + hex_val(s[p + 1]) * 256 + hex_val(s[p + 2]) * 16 + hex_val(
            s[p + 3],
        ))
    } else {
        None
    }
}

/// What a two-character escape denotes, if anything.
pub open spec fn unescape_char(c: char) -> Option<char> {
    if c == '"' {
        Some('"')
    } else if c == '\\' {
        Some('\\')
    } else if c == '/' {
        Some('/')
    } else if c == 'b' {
        Some('\u{0008}')
    } else if c == 'f' {
        Some('\u{000C}')
    } else if c == 'n' {
        Some('\n')
    } else if c == 'r' {
        Some('\r')
    } else if c == 't' {
        Some('\t')
    } else {
        None
    }
}

/// Reads the rest of a string literal from `i`, the position right after the
/// opening quote: the text denoted and the position after the closing quote.
pub open spec fn parse_strbody(s: Seq<char>, i: int) -> Option<(Seq<char>, int)>
    decreases s.len() - i,
{
    if !(0 <= i && i < s.len()) {
        None
    } else if s[i] == '"' {
        Some((Seq::empty(), i + 1))
    } else if s[i] == '\\' {
        if i + 1 < s.len() {
            if s[i + 1] == 'u' {
                match hex4_at(s, i + 2) {
                    None => None,
                    Some(code) => {
                        if 0xD800 <= code && code < 0xDC00 {
                            // a leading surrogate: only valid paired with a
                            // trailing one, together denoting one character
                            if i + 8 <= s.len() && s[i + 6] == '\\' && s[i + 7] == 'u' {
                                match hex4_at(s, i + 8) {
                                    None => None,
                                    Some(lo) => {
                                        if 0xDC00 <= lo && lo < 0xE000 {
                                            let scalar = 0x10000 + (code - 0xD800) * 1024 + (lo
                                                - 0xDC00);
                                            match parse_strbody(s, i + 12) {
                                                Some((t, j)) => Some(
                                                    (seq![scalar as u32 as char] + t, j),
                                                ),
                                                None => None,
                                            }
                                        } else {
                                            None
                                        }
                                    },
                                }
                            } else {
                                None
                            }
                        } else if 0xDC00 <= code && code < 0xE000 {
                            None
                        } else {
                            match parse_strbody(s, i + 6) {
                                Some((t, j)) => Some((seq![code as u32 as char] + t, j)),
                                None => None,
                            }
                        }
                    },
                }
            } else {
                match unescape_char(s[i + 1]) {
                    Some(c) => match parse_strbody(s, i + 2) {
                        Some((t, j)) => Some((seq![c] + t, j)),
                        None => None,
                    },
                    None => None,
                }
            }
        } else {
            None
        }
    } else if (s[i] as u32) < 32 {
        None
    } else {
        match parse_strbody(s, i + 1) {
            Some((t, j)) => Some((seq![s[i]] + t, j)),
            None => None,
        }
    }
}

/// Reads a whole string literal starting at `i`.
pub open spec fn parse_string(s: Seq<char>, i: int) -> Option<(Seq<char>, int)> {
    if 0 <= i && i < s.len() && s[i] == '"' {
        parse_strbody(s, i + 1)
    } else {
        None
    }
}

/// One of the four required member names.
pub open spec fn is_field_key(k: Seq<char>) -> bool {
    k == key_project() || k == key_level() || k == key_payload() || k == key_trace()
}

/// The first position at or after `i` holding no decimal digit.
pub open spec fn skip_digits(s: Seq<char>, i: int) -> int
    decreases s.len() - i,
{
    if 0 <= i && i < s.len() && is_digit(s[i]) {
        skip_digits(s, i + 1)
    } else {
        i
    }
}

/// Steps over a JSON number starting at `i`: an optional minus, an integer
/// part without a leading zero, an optional fraction, an optional exponent.
pub open spec fn skip_number(s: Seq<char>, i: int) -> Option<int> {
    let j0 = if 0 <= i && i < s.len() && s[i] == '-' {
        i + 1
    } else {
        i
    };
    if 0 <= j0 && j0 < s.len() && is_digit(s[j0]) {
        let j1 = if s[j0] == '0' {
            j0 + 1
        } else {
            skip_digits(s, j0)
        };
        let fr = if j1 < s.len() && s[j1] == '.' {
            if j1 + 1 < s.len() && is_digit(s[j1 + 1]) {
                Some(skip_digits(s, j1 + 1))
            } else {
                None
            }
        } else {
            Some(j1)
        };
        match fr {
            None => None,
            Some(j2) => {
                if j2 < s.len() && (s[j2] == 'e' || s[j2] == 'E') {
                    let j3 = if j2 + 1 < s.len() && (s[j2 + 1] == '+' || s[j2 + 1] == '-') {
                        j2 + 2
                    } else {
                        j2 + 1
                    };
                    if j3 < s.len() && is_digit(s[j3]) {
                        Some(skip_digits(s, j3))
                    } else {
                        None
                    }
                } else {
                    Some(j2)
                }
            },
        }
    } else {
        None
    }
}

/// Steps over one JSON value of any type starting at `i`: the position after
/// it. An unrecognized object member holds such a value; nothing reads it.
pub open spec fn skip_value(s: Seq<char>, i: int) -> Option<int>
    decreases s.len() - i, 1int,
{
    if !(0 <= i && i < s.len()) {
        None
    } else if s[i] == '"' {
        match parse_string(s, i) {
            Some((_t, j)) => Some(j),
            None => None,
        }
    } else if s[i] == '[' {
        skip_array_body(s, i + 1)
    } else if s[i] == '{' {
        skip_object_body(s, i + 1)
    } else if s[i] == 't' {
        if i + 4 <= s.len() && s[i + 1] == 'r' && s[i + 2] == 'u' && s[i + 3] == 'e' {
            Some(i + 4)
        } else {
            None
        }
    } else if s[i] == 'f' {
        if i + 5 <= s.len() && s[i + 1] == 'a' && s[i + 2] == 'l' && s[i + 3] == 's' && s[i + 4]
            == 'e' {
            Some(i + 5)
        } else {
            None
        }
    } else if s[i] == 'n' {
        if i + 4 <= s.len() && s[i + 1] == 'u' && s[i + 2] == 'l' && s[i + 3] == 'l' {
            Some(i + 4)
        } else {
            None
        }
    } else if s[i] == '-' || is_digit(s[i]) {
        skip_number(s, i)
    } else {
        None
    }
}

/// Steps over what follows an array's opening bracket.
pub open spec fn skip_array_body(s: Seq<char>, i: int) -> Option<int>
    decreases s.len() - i, 3int,
{
    let j = skip_ws(s, i);
    if i <= j && j <= s.len() {
        if j < s.len() && s[j] == ']' {
            Some(j + 1)
        } else {
            skip_array_items(s, j)
        }
    } else {
        None
    }
}

/// Steps over an array's items from the start of one item.
pub open spec fn skip_array_items(s: Seq<char>, i: int) -> Option<int>
    decreases s.len() - i, 2int,
{
    match skip_value(s, i) {
        None => None,
        Some(j) => {
            let j1 = skip_ws(s, j);
            if j1 < s.len() && s[j1] == ',' {
                let j2 = skip_ws(s, j1 + 1);
                if i < j2 && j2 <= s.len() {
                    skip_array_items(s, j2)
                } else {
                    None
                }
            } else if j1 < s.len() && s[j1] == ']' {
                Some(j1 + 1)
            } else {
                None
            }
        },
    }
}

/// Steps over what follows an object's opening brace.
pub open spec fn skip_object_body(s: Seq<char>, i: int) -> Option<int>
    decreases s.len() - i, 3int,
{
    let j = skip_ws(s, i);
    if i <= j && j <= s.len() {
        if j < s.len() && s[j] == '}' {
            Some(j + 1)
        } else {
            skip_object_items(s, j)
        }
    } else {
        None
    }
}

/// Steps over an object's members from the start of one member name.
pub open spec fn skip_object_items(s: Seq<char>, i: int) -> Option<int>
    decreases s.len() - i, 2int,
{
    match parse_string(s, i) {
        None => None,
        Some((_k, j)) => {
            let j1 = skip_ws(s, j);
            if j1 < s.len() && s[j1] == ':' {
                let j2 = skip_ws(s, j1 + 1);
                if i < j2 && j2 <= s.len() {
                    match skip_value(s, j2) {
                        None => None,
                        Some(j3) => {
                            let j4 = skip_ws(s, j3);
                            if j4 < s.len() && s[j4] == ',' {
                                let j5 = skip_ws(s, j4 + 1);
                                if i < j5 && j5 <= s.len() {
                                    skip_object_items(s, j5)
                                } else {
                                    None
                                }
                            } else if j4 < s.len() && s[j4] == '}' {
                                Some(j4 + 1)
                            } else {
                                None
                            }
                        },
                    }
                } else {
                    None
                }
            } else {
                None
            }
        },
    }
}

/// Reads the members of the object from `i`, the position of the first member
/// name, having already read the members in `m`: the map of the four fields
/// read so far and the position after the closing brace. A member with one of
/// the four names must hold a text value and may not repeat; a member with
/// any other name may hold any JSON value and is skipped.
pub open spec fn parse_members(s: Seq<char>, i: int, m: Map<Seq<char>, Seq<char>>) -> Option<
    (Map<Seq<char>, Seq<char>>, int),
>
    decreases s.len() - i,
{
    match parse_string(s, i) {
        None => None,
        Some((k, j)) => {
            let j1 = skip_ws(s, j);
            if j1 < s.len() && s[j1] == ':' {
                let j2 = skip_ws(s, j1 + 1);
                let step = if is_field_key(k) {
                    if m.contains_key(k) {
                        None
                    } else {
                        match parse_string(s, j2) {
                            None => None,
                            Some((v, j3)) => Some((m.insert(k, v), j3)),
                        }
                    }
                } else {
                    match skip_value(s, j2) {
                        None => None,
                        Some(j3) => Some((m, j3)),
                    }
                };
                match step {
                    None => None,
                    Some((m2, j3)) => {
                        let j4 = skip_ws(s, j3);
                        if j4 < s.len() && s[j4] == ',' {
                            let j5 = skip_ws(s, j4 + 1);
                            if i < j5 && j5 <= s.len() {
                                parse_members(s, j5, m2)
                            } else {
                                None
                            }
                        } else if j4 < s.len() && s[j4] == '}' {
                            Some((m2, j4 + 1))
                        } else {
                            None
                        }
                    },
                }
            } else {
                None
            }
        },
    }
}

/// What a request body denotes: a log event exactly when the body is one JSON
/// object whose members include the four required names, each once, each with
/// a text value.
pub open spec fn parse_event_spec(s: Seq<char>) -> Option<LogEventView> {
    let i = skip_ws(s, 0);
    if i < s.len() && s[i] == '{' {
        let j = skip_ws(s, i + 1);
        match parse_members(s, j, Map::empty()) {
            None => None,
            Some((m, k)) => {
                if skip_ws(s, k) == s.len() && m.contains_key(key_project()) && m.contains_key(
                    key_level(),
                ) && m.contains_key(key_payload()) && m.contains_key(key_trace()) {
                    Some(
                        LogEventView {
                            project: m[key_project()],
                            level: m[key_level()],
                            payload: m[key_payload()],
                            trace: m[key_trace()],
                        },
                    )
                } else {
                    None
                }
            },
        }
    } else {
        None
    }
}

/// Relies on `char::from_u32`: the result is `Some` exactly on Unicode scalar
/// values, and the character returned has the given code.
#[verifier::external_body]
fn char_from_code(u: u32) -> (r: Option<char>)
    ensures
        r matches Some(c) ==> c as u32 == u,
        r is Some <==> is_scalar_code(u),
{
    char::from_u32(u)
}

fn skip_ws_exec(s: &str, n: usize, i: usize) -> (r: usize)
    requires
        n == s@.len(),
        i <= n,
    ensures
        r as int == skip_ws(s@, i as int),
        i <= r <= n,
{
    let mut j: usize = i;
    loop
        invariant
            n == s@.len(),
            i <= j <= n,
            skip_ws(s@, i as int) == skip_ws(s@, j as int),
        ensures
            j <= n,
            skip_ws(s@, i as int) == j as int,
        decreases n - j,
    {
        if j >= n {
            break ;
        }
        let c = s.get_char(j);
        if !(c == ' ' || c == '\t' || c == '\n' || c == '\r') {
            break ;
        }
        j = j + 1;
    }
    j
}

fn hex_val_exec(c: char) -> (r: Option<u32>)
    ensures
        r matches Some(v) ==> is_hex(c) && v as int == hex_val(c) && v < 16,
        r is None ==> !is_hex(c),
{
    let u = c as u32;
    if 48 <= u && u <= 57 {
        Some(u - 48)
    } else if 97 <= u && u <= 102 {
        Some(u - 87)
    } else if 65 <= u && u <= 70 {
        Some(u - 55)
    } else {
        None
    }
}

fn hex4_exec(s: &str, n: usize, p: usize) -> (r: Option<u32>)
    requires
        n == s@.len(),
        p <= n,
    ensures
        (match r {
            Some(v) => hex4_at(s@, p as int) == Some(v as int) && v < 0x10000,
            None => hex4_at(s@, p as int) is None,
        }),
{
    if n - p < 4 {
        return None;
    }
    let h1 = match hex_val_exec(s.get_char(p)) {
        Some(v) => v,
        None => { return None; },
    };
    let h2 = match hex_val_exec(s.get_char(p + 1)) {
        Some(v) => v,
        None => { return None; },
    };
    let h3 = match hex_val_exec(s.get_char(p + 2)) {
        Some(v) => v,
        None => { return None; },
    };
    let h4 = match hex_val_exec(s.get_char(p + 3)) {
        Some(v) => v,
        None => { return None; },
    };
    Some(h1 * 4096 + h2 * 256 + h3 * 16 + h4)
}

fn unescape_exec(c: char) -> (r: Option<char>)
    ensures
        r == unescape_char(c),
{
    if c == '"' {
        Some('"')
    } else if c == '\\' {
        Some('\\')
    } else if c == '/' {
        Some('/')
    } else if c == 'b' {
        Some('\u{0008}')
    } else if c == 'f' {
        Some('\u{000C}')
    } else if c == 'n' {
        Some('\n')
    } else if c == 'r' {
        Some('\r')
    } else if c == 't' {
        Some('\t')
    } else {
        None
    }
}

/// Reads the string literal starting at `i`, following `parse_string`.
#[verifier::loop_isolation(false)]
#[verifier::rlimit(80)]
fn parse_string_exec(s: &str, n: usize, i: usize) -> (r: Option<(String, usize)>)
    requires
        n == s@.len(),
        i <= n,
    ensures
        (match r {
            Some(p) => parse_string(s@, i as int) == Some((p.0@, p.1 as int)) && i < p.1 <= n,
            None => parse_string(s@, i as int) is None,
        }),
{
    if i >= n {
        return None;
    }
    if s.get_char(i) != '"' {
        return None;
    }
    let mut j: usize = i + 1;
    let mut acc = String::new();
    loop
        invariant
            i + 1 <= j <= n,
            (match parse_strbody(s@, j as int) {
                Some((t, e)) => parse_strbody(s@, i as int + 1) == Some((acc@ + t, e)),
                None => parse_strbody(s@, i as int + 1) is None,
            }),
        decreases n - j,
    {
        if j >= n {
            return None;
        }
        let c = s.get_char(j);
        if c == '"' {
            proof {
                assert(parse_strbody(s@, j as int) == Some((Seq::<char>::empty(), j as int + 1)));
                assert(acc@ + Seq::<char>::empty() =~= acc@);
            }
            return Some((acc, j + 1));
        } else if c == '\\' {
            if j + 1 >= n {
                return None;
            }
            let c2 = s.get_char(j + 1);
            if c2 == 'u' {
                let code = match hex4_exec(s, n, j + 2) {
                    Some(v) => v,
                    None => { return None; },
                };
                if 0xD800 <= code && code < 0xDC00 {
                    if n - j < 8 {
                        return None;
                    }
                    if s.get_char(j + 6) != '\\' {
                        return None;
                    }
                    if s.get_char(j + 7) != 'u' {
                        return None;
                    }
                    let lo = match hex4_exec(s, n, j + 8) {
                        Some(v) => v,
                        None => { return None; },
                    };
                    if !(0xDC00 <= lo && lo < 0xE000) {
                        return None;
                    }
                    let scalar: u32 = 0x10000 + (code - 0xD800) * 1024 + (lo - 0xDC00);
                    let cu = match char_from_code(scalar) {
                        Some(v) => v,
                        None => {
                            proof {
                                assert(false);
                            }
                            return None;
                        },
                    };
                    proof {
                        vstd::utf8::char_u32_cast(cu, scalar);
                        let ghost tail = parse_strbody(s@, j as int + 12);
                        if tail is Some {
                            assert((acc@ + seq![cu]) + tail.unwrap().0 =~= acc@ + (seq![cu]
                                + tail.unwrap().0));
                        }
                    }
                    push_char(&mut acc, cu);
                    j = j + 12;
                } else if 0xDC00 <= code && code < 0xE000 {
                    return None;
                } else {
                    let cu = match char_from_code(code) {
                        Some(v) => v,
                        None => {
                            proof {
                                assert(false);
                            }
                            return None;
                        },
                    };
                    proof {
                        vstd::utf8::char_u32_cast(cu, code);
                        let ghost tail = parse_strbody(s@, j as int + 6);
                        if tail is Some {
                            assert((acc@ + seq![cu]) + tail.unwrap().0 =~= acc@ + (seq![cu]
                                + tail.unwrap().0));
                        }
                    }
                    push_char(&mut acc, cu);
                    j = j + 6;
                }
            } else {
                let cu = match unescape_exec(c2) {
                    Some(v) => v,
                    None => { return None; },
                };
                proof {
                    let ghost tail = parse_strbody(s@, j as int + 2);
                    if tail is Some {
                        assert((acc@ + seq![cu]) + tail.unwrap().0 =~= acc@ + (seq![cu]
                            + tail.unwrap().0));
                    }
                }
                push_char(&mut acc, cu);
                j = j + 2;
            }
        } else if (c as u32) < 32 {
            return None;
        } else {
            proof {
                let ghost tail = parse_strbody(s@, j as int + 1);
                if tail is Some {
                    assert((acc@ + seq![c]) + tail.unwrap().0 =~= acc@ + (seq![c]
                        + tail.unwrap().0));
                }
            }
            push_char(&mut acc, c);
            j = j + 1;
        }
    }
}

fn skip_digits_exec(s: &str, n: usize, i: usize) -> (r: usize)
    requires
        n == s@.len(),
        i <= n,
    ensures
        r as int == skip_digits(s@, i as int),
        i <= r <= n,
{
    let mut j: usize = i;
    loop
        invariant
            n == s@.len(),
            i <= j <= n,
            skip_digits(s@, i as int) == skip_digits(s@, j as int),
        ensures
            j <= n,
            skip_digits(s@, i as int) == j as int,
        decreases n - j,
    {
        if j >= n {
            break ;
        }
        let u = s.get_char(j) as u32;
        if !(48 <= u && u <= 57) {
            break ;
        }
        j = j + 1;
    }
    j
}

fn skip_number_exec(s: &str, n: usize, i: usize) -> (r: Option<usize>)
    requires
        n == s@.len(),
        i <= n,
    ensures
        (match r {
            Some(j) => skip_number(s@, i as int) == Some(j as int) && i <= j <= n,
            None => skip_number(s@, i as int) is None,
        }),
{
    let j0 = if i < n && s.get_char(i) == '-' {
        i + 1
    } else {
        i
    };
    if j0 >= n {
        return None;
    }
    let c0 = s.get_char(j0);
    let u0 = c0 as u32;
    if !(48 <= u0 && u0 <= 57) {
        return None;
    }
    let j1 = if c0 == '0' {
        j0 + 1
    } else {
        skip_digits_exec(s, n, j0)
    };
    let j2: usize;
    if j1 < n && s.get_char(j1) == '.' {
        if j1 + 1 < n {
            let ud = s.get_char(j1 + 1) as u32;
            if 48 <= ud && ud <= 57 {
                j2 = skip_digits_exec(s, n, j1 + 1);
            } else {
                return None;
            }
        } else {
            return None;
        }
    } else {
        j2 = j1;
    }
    if j2 < n {
        let ce = s.get_char(j2);
        if ce == 'e' || ce == 'E' {
            let j3: usize;
            if j2 + 1 < n {
                let cs = s.get_char(j2 + 1);
                if cs == '+' || cs == '-' {
                    j3 = j2 + 2;
                } else {
                    j3 = j2 + 1;
                }
            } else {
                j3 = j2 + 1;
            }
            if j3 < n {
                let ue = s.get_char(j3) as u32;
                if 48 <= ue && ue <= 57 {
                    return Some(skip_digits_exec(s, n, j3));
                }
            }
            return None;
        }
    }
    Some(j2)
}

/// Steps over one JSON value of any type, following `skip_value`.
fn skip_value_exec(s: &str, n: usize, i: usize) -> (r: Option<usize>)
    requires
        n == s@.len(),
        i <= n,
    ensures
        (match r {
            Some(j) => skip_value(s@, i as int) == Some(j as int) && i <= j <= n,
            None => skip_value(s@, i as int) is None,
        }),
    decreases n - i, 1int,
{
    if i >= n {
        return None;
    }
    let c = s.get_char(i);
    if c == '"' {
        match parse_string_exec(s, n, i) {
            Some(p) => Some(p.1),
            None => None,
        }
    } else if c == '[' {
        skip_array_body_exec(s, n, i + 1)
    } else if c == '{' {
        skip_object_body_exec(s, n, i + 1)
    } else if c == 't' {
        if n - i >= 4 && s.get_char(i + 1) == 'r' && s.get_char(i + 2) == 'u' && s.get_char(i + 3)
            == 'e' {
            Some(i + 4)
        } else {
            None
        }
    } else if c == 'f' {
        if n - i >= 5 && s.get_char(i + 1) == 'a' && s.get_char(i + 2) == 'l' && s.get_char(i + 3)
            == 's' && s.get_char(i + 4) == 'e' {
            Some(i + 5)
        } else {
            None
        }
    } else if c == 'n' {
        if n - i >= 4 && s.get_char(i + 1) == 'u' && s.get_char(i + 2) == 'l' && s.get_char(i + 3)
            == 'l' {
            Some(i + 4)
        } else {
            None
        }
    } else {
        let u = c as u32;
        if c == '-' || (48 <= u && u <= 57) {
            skip_number_exec(s, n, i)
        } else {
            None
        }
    }
}

fn skip_array_body_exec(s: &str, n: usize, i: usize) -> (r: Option<usize>)
    requires
        n == s@.len(),
        i <= n,
    ensures
        (match r {
            Some(j) => skip_array_body(s@, i as int) == Some(j as int) && i <= j <= n,
            None => skip_array_body(s@, i as int) is None,
        }),
    decreases n - i, 3int,
{
    let j = skip_ws_exec(s, n, i);
    if j < n && s.get_char(j) == ']' {
        Some(j + 1)
    } else {
        skip_array_items_exec(s, n, j)
    }
}

fn skip_array_items_exec(s: &str, n: usize, i: usize) -> (r: Option<usize>)
    requires
        n == s@.len(),
        i <= n,
    ensures
        (match r {
            Some(j) => skip_array_items(s@, i as int) == Some(j as int) && i <= j <= n,
            None => skip_array_items(s@, i as int) is None,
        }),
    decreases n - i, 2int,
{
    let mut cur: usize = i;
    loop
        invariant
            n == s@.len(),
            i <= cur <= n,
            (match skip_array_items(s@, cur as int) {
                Some(res) => skip_array_items(s@, i as int) == Some(res),
                None => skip_array_items(s@, i as int) is None,
            }),
        decreases n - cur,
    {
        let jv = match skip_value_exec(s, n, cur) {
            Some(v) => v,
            None => { return None; },
        };
        let j1 = skip_ws_exec(s, n, jv);
        if j1 >= n {
            return None;
        }
        let c1 = s.get_char(j1);
        if c1 == ',' {
            cur = skip_ws_exec(s, n, j1 + 1);
        } else if c1 == ']' {
            return Some(j1 + 1);
        } else {
            return None;
        }
    }
}

fn skip_object_body_exec(s: &str, n: usize, i: usize) -> (r: Option<usize>)
    requires
        n == s@.len(),
        i <= n,
    ensures
        (match r {
            Some(j) => skip_object_body(s@, i as int) == Some(j as int) && i <= j <= n,
            None => skip_object_body(s@, i as int) is None,
        }),
    decreases n - i, 3int,
{
    let j = skip_ws_exec(s, n, i);
    if j < n && s.get_char(j) == '}' {
        Some(j + 1)
    } else {
        skip_object_items_exec(s, n, j)
    }
}

fn skip_object_items_exec(s: &str, n: usize, i: usize) -> (r: Option<usize>)
    requires
        n == s@.len(),
        i <= n,
    ensures
        (match r {
            Some(j) => skip_object_items(s@, i as int) == Some(j as int) && i <= j <= n,
            None => skip_object_items(s@, i as int) is None,
        }),
    decreases n - i, 2int,
{
    let mut cur: usize = i;
    loop
        invariant
            n == s@.len(),
            i <= cur <= n,
            (match skip_object_items(s@, cur as int) {
                Some(res) => skip_object_items(s@, i as int) == Some(res),
                None => skip_object_items(s@, i as int) is None,
            }),
        decreases n - cur,
    {
        let (_k, jk) = match parse_string_exec(s, n, cur) {
            Some(p) => p,
            None => { return None; },
        };
        let j1 = skip_ws_exec(s, n, jk);
        if j1 >= n {
            return None;
        }
        if s.get_char(j1) != ':' {
            return None;
        }
        let j2 = skip_ws_exec(s, n, j1 + 1);
        let j3 = match skip_value_exec(s, n, j2) {
            Some(v) => v,
            None => { return None; },
        };
        let j4 = skip_ws_exec(s, n, j3);
        if j4 >= n {
            return None;
        }
        let c4 = s.get_char(j4);
        if c4 == ',' {
            cur = skip_ws_exec(s, n, j4 + 1);
        } else if c4 == '}' {
            return Some(j4 + 1);
        } else {
            return None;
        }
    }
}

/// Reads a request body. Returns the log event it denotes, or `None` when it
/// denotes none: then the request is answered with a client error and nothing
/// is published.
pub fn parse_event(s: &str) -> (r: Option<LogEvent>)
    ensures
        (match r {
            Some(ev) => parse_event_spec(s@) == Some(ev@),
            None => parse_event_spec(s@) is None,
        }),
{
    let kp = String::from_str("project");
    let kl = String::from_str("level");
    let kpay = String::from_str("payload");
    let kt = String::from_str("trace");
    proof {
        reveal_strlit("project");
        reveal_strlit("level");
        reveal_strlit("payload");
        reveal_strlit("trace");
        assert(kp@ =~= key_project());
        assert(kl@ =~= key_level());
        assert(kpay@ =~= key_payload());
        assert(kt@ =~= key_trace());
    }
    let n = s.unicode_len();
    let i = skip_ws_exec(s, n, 0);
    if i >= n {
        return None;
    }
    if s.get_char(i) != '{' {
        return None;
    }
    let j0 = skip_ws_exec(s, n, i + 1);
    let mut j: usize = j0;
    let ghost mut m: Map<Seq<char>, Seq<char>> = Map::empty();
    let mut p_project: Option<String> = None;
    let mut p_level: Option<String> = None;
    let mut p_payload: Option<String> = None;
    let mut p_trace: Option<String> = None;
    loop
        invariant_except_break
            (match parse_members(s@, j as int, m) {
                Some(pr) => parse_members(s@, j0 as int, Map::<Seq<char>, Seq<char>>::empty())
                    == Some(pr),
                None => parse_members(s@, j0 as int, Map::<Seq<char>, Seq<char>>::empty())
                    is None,
            }),
        invariant
            n == s@.len(),
            kp@ == key_project(),
            kl@ == key_level(),
            kpay@ == key_payload(),
            kt@ == key_trace(),
            skip_ws(s@, 0) == i as int,
            i < n,
            s@[i as int] == '{',
            j0 as int == skip_ws(s@, i as int + 1),
            j0 <= j <= n,
            p_project is Some <==> m.contains_key(key_project()),
            p_level is Some <==> m.contains_key(key_level()),
            p_payload is Some <==> m.contains_key(key_payload()),
            p_trace is Some <==> m.contains_key(key_trace()),
            (p_project matches Some(v) ==> m[key_project()] == v@),
            (p_level matches Some(v) ==> m[key_level()] == v@),
            (p_payload matches Some(v) ==> m[key_payload()] == v@),
            (p_trace matches Some(v) ==> m[key_trace()] == v@),
        ensures
            j <= n,
            parse_members(s@, j0 as int, Map::<Seq<char>, Seq<char>>::empty()) == Some(
                (m, j as int),
            ),
        decreases n - j,
    {
        let ghost m_entry = m;
        let (key, jk) = match parse_string_exec(s, n, j) {
            Some(p) => p,
            None => { return None; },
        };
        let j1 = skip_ws_exec(s, n, jk);
        if j1 >= n {
            return None;
        }
        if s.get_char(j1) != ':' {
            return None;
        }
        let j2 = skip_ws_exec(s, n, j1 + 1);
        let is_p = key == kp;
        let is_l = key == kl;
        let is_pay = key == kpay;
        let is_t = key == kt;
        let j3: usize;
        if is_p || is_l || is_pay || is_t {
            if is_p && p_project.is_some() {
                return None;
            }
            if is_l && p_level.is_some() {
                return None;
            }
            if is_pay && p_payload.is_some() {
                return None;
            }
            if is_t && p_trace.is_some() {
                return None;
            }
            let (val, jv) = match parse_string_exec(s, n, j2) {
                Some(p) => p,
                None => { return None; },
            };
            proof {
                m = m.insert(key@, val@);
            }
            if is_p {
                p_project = Some(val);
            } else if is_l {
                p_level = Some(val);
            } else if is_pay {
                p_payload = Some(val);
            } else {
                p_trace = Some(val);
            }
            j3 = jv;
        } else {
            j3 = match skip_value_exec(s, n, j2) {
                Some(v) => v,
                None => { return None; },
            };
        }
        let j4 = skip_ws_exec(s, n, j3);
        if j4 >= n {
            return None;
        }
        let c4 = s.get_char(j4);
        if c4 == ',' {
            let j5 = skip_ws_exec(s, n, j4 + 1);
            proof {
                assert(parse_members(s@, j as int, m_entry) == parse_members(s@, j5 as int, m));
            }
            j = j5;
        } else if c4 == '}' {
            proof {
                assert(parse_members(s@, j as int, m_entry) == Some((m, j4 as int + 1)));
            }
            j = j4 + 1;
            break ;
        } else {
            return None;
        }
    }
    let e = skip_ws_exec(s, n, j);
    if e < n {
        return None;
    }
    match (p_project, p_level, p_payload, p_trace) {
        (Some(a), Some(b), Some(c), Some(d)) => Some(
            LogEvent { project: a, level: b, payload: c, trace: d },
        ),
        _ => None,
    }
}

} // verus!
