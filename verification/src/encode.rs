//! The wire format of a log record, writer side: the canonical JSON encoding
//! of a `LogEvent` as one object holding the four fields in a fixed order,
//! with no inter-token whitespace.

use vstd::prelude::*;

use crate::event::{LogEvent, LogEventView};

verus! {

/// The value `n` (below sixteen) as a lower-case hexadecimal digit.
pub open spec fn hex_digit(n: int) -> char {
    if n == 0 {
        '0'
    } else if n == 1 {
        '1'
    } else if n == 2 {
        '2'
    } else if n == 3 {
        '3'
    } else if n == 4 {
        '4'
    } else if n == 5 {
        '5'
    } else if n == 6 {
        '6'
    } else if n == 7 {
        '7'
    } else if n == 8 {
        '8'
    } else if n == 9 {
        '9'
    } else if n == 10 {
        'a'
    } else if n == 11 {
        'b'
    } else if n == 12 {
        'c'
    } else if n == 13 {
        'd'
    } else if n == 14 {
        'e'
    } else {
        'f'
    }
}

/// JSON escaping of one character: quote and backslash get a two-character
/// escape, control characters a `\u00XX` escape, anything else stands as is.
pub open spec fn escape_char(c: char) -> Seq<char> {
    if c == '"' {
        seq!['\\', '"']
    } else if c == '\\' {
        seq!['\\', '\\']
    } else if (c as u32) < 32 {
        seq!['\\', 'u', '0', '0', hex_digit(c as u32 as int / 16), hex_digit(c as u32 as int % 16)]
    } else {
        seq![c]
    }
}

/// JSON escaping of a whole text.
pub open spec fn escape_seq(s: Seq<char>) -> Seq<char>
    decreases s.len(),
{
    if s.len() == 0 {
        Seq::empty()
    } else {
        escape_char(s[0]) + escape_seq(s.drop_first())
    }
}

/// The JSON string literal denoting the text `s`.
pub open spec fn quoted(s: Seq<char>) -> Seq<char> {
    seq!['"'] + escape_seq(s) + seq!['"']
}

/// The member name of the project field.
pub open spec fn key_project() -> Seq<char> {
    seq!['p', 'r', 'o', 'j', 'e', 'c', 't']
}

/// The member name of the level field.
pub open spec fn key_level() -> Seq<char> {
    seq!['l', 'e', 'v', 'e', 'l']
}

/// The member name of the payload field.
pub open spec fn key_payload() -> Seq<char> {
    seq!['p', 'a', 'y', 'l', 'o', 'a', 'd']
}

/// The member name of the trace field.
pub open spec fn key_trace() -> Seq<char> {
    seq!['t', 'r', 'a', 'c', 'e']
}

/// One object member: a quoted name, a colon, a quoted text value.
pub open spec fn member(k: Seq<char>, v: Seq<char>) -> Seq<char> {
    quoted(k) + seq![':'] + quoted(v)
}

/// The canonical JSON encoding of a log event.
pub open spec fn encode_spec(e: LogEventView) -> Seq<char> {
    seq!['{'] + member(key_project(), e.project) + seq![','] + member(key_level(), e.level)
        + seq![','] + member(key_payload(), e.payload) + seq![','] + member(
        key_trace(),
        e.trace,
    ) + seq!['}']
}

/// Relies on `String::push`: appends exactly the one given character.
#[verifier::external_body]
pub(crate) fn push_char(s: &mut String, c: char)
    ensures
        final(s)@ == old(s)@ + seq![c],
{
    s.push(c);
}

/// Escaping distributes over concatenation.
proof fn lemma_escape_append(a: Seq<char>, b: Seq<char>)
    ensures
        escape_seq(a + b) == escape_seq(a) + escape_seq(b),
    decreases a.len(),
{
    if a.len() == 0 {
        assert(a + b =~= b);
        assert(escape_seq(a) + escape_seq(b) =~= escape_seq(b));
    } else {
        assert((a + b).drop_first() =~= a.drop_first() + b);
        assert((a + b)[0] == a[0]);
        lemma_escape_append(a.drop_first(), b);
        assert(escape_char(a[0]) + (escape_seq(a.drop_first()) + escape_seq(b)) =~= (escape_char(
            a[0],
        ) + escape_seq(a.drop_first())) + escape_seq(b));
    }
}

/// Escaping one more character extends the escaped prefix.
proof fn lemma_escape_take_step(s: Seq<char>, i: int)
    requires
        0 <= i < s.len(),
    ensures
        escape_seq(s.take(i + 1)) == escape_seq(s.take(i)) + escape_char(s[i]),
{
    assert(s.take(i + 1) =~= s.take(i) + seq![s[i]]);
    lemma_escape_append(s.take(i), seq![s[i]]);
    assert(seq![s[i]].drop_first() =~= Seq::<char>::empty());
    assert(escape_seq(Seq::<char>::empty()) =~= Seq::<char>::empty());
    assert(escape_seq(seq![s[i]]) == escape_char(s[i]) + escape_seq(seq![s[i]].drop_first()));
    assert(escape_char(s[i]) + Seq::<char>::empty() =~= escape_char(s[i]));
}

fn hex_digit_exec(n: u32) -> (c: char)
    requires
        n < 16,
    ensures
        c == hex_digit(n as int),
{
    if n == 0 {
        '0'
    } else if n == 1 {
        '1'
    } else if n == 2 {
        '2'
    } else if n == 3 {
        '3'
    } else if n == 4 {
        '4'
    } else if n == 5 {
        '5'
    } else if n == 6 {
        '6'
    } else if n == 7 {
        '7'
    } else if n == 8 {
        '8'
    } else if n == 9 {
        '9'
    } else if n == 10 {
        'a'
    } else if n == 11 {
        'b'
    } else if n == 12 {
        'c'
    } else if n == 13 {
        'd'
    } else if n == 14 {
        'e'
    } else {
        'f'
    }
}

fn push_escaped_char(out: &mut String, c: char)
    ensures
        final(out)@ == old(out)@ + escape_char(c),
{
    let ghost out0: Seq<char> = out@;
    if c == '"' {
        push_char(out, '\\');
        push_char(out, '"');
        proof {
            assert(out@ =~= out0 + escape_char(c));
        }
    } else if c == '\\' {
        push_char(out, '\\');
        push_char(out, '\\');
        proof {
            assert(out@ =~= out0 + escape_char(c));
        }
    } else if (c as u32) < 32 {
        let code = c as u32;
        push_char(out, '\\');
        push_char(out, 'u');
        push_char(out, '0');
        push_char(out, '0');
        push_char(out, hex_digit_exec(code / 16));
        push_char(out, hex_digit_exec(code % 16));
        proof {
            assert(out@ =~= out0 + escape_char(c));
        }
    } else {
        push_char(out, c);
        proof {
            assert(out@ =~= out0 + escape_char(c));
        }
    }
}

/// Appends the escaped form of `v` to `out`.
fn push_escaped(out: &mut String, v: &str)
    ensures
        final(out)@ == old(out)@ + escape_seq(v@),
{
    let ghost out0: Seq<char> = out@;
    let n = v.unicode_len();
    let mut i: usize = 0;
    while i < n
        invariant
            i <= n,
            n == v@.len(),
            out@ == out0 + escape_seq(v@.take(i as int)),
        decreases n - i,
    {
        let c = v.get_char(i);
        push_escaped_char(out, c);
        proof {
            lemma_escape_take_step(v@, i as int);
        }
        i = i + 1;
    }
    proof {
        assert(v@.take(n as int) =~= v@);
    }
}

/// Appends the JSON string literal denoting `v` to `out`.
fn push_quoted(out: &mut String, v: &str)
    ensures
        final(out)@ == old(out)@ + quoted(v@),
{
    let ghost out0: Seq<char> = out@;
    push_char(out, '"');
    push_escaped(out, v);
    push_char(out, '"');
    proof {
        assert(out@ =~= out0 + quoted(v@));
    }
}

/// Writes the canonical JSON encoding of `e`.
///
/// This is the form in which an accepted record is republished: every valid
/// record has exactly one canonical encoding, and decoding it gives the four
/// fields back unchanged.
pub fn encode_event(e: &LogEvent) -> (r: String)
    ensures
        r@ == encode_spec(e@),
{
    let mut out = String::new();
    push_char(&mut out, '{');
    push_quoted(&mut out, "project");
    push_char(&mut out, ':');
    push_quoted(&mut out, e.project.as_str());
    push_char(&mut out, ',');
    push_quoted(&mut out, "level");
    push_char(&mut out, ':');
    push_quoted(&mut out, e.level.as_str());
    push_char(&mut out, ',');
    push_quoted(&mut out, "payload");
    push_char(&mut out, ':');
    push_quoted(&mut out, e.payload.as_str());
    push_char(&mut out, ',');
    push_quoted(&mut out, "trace");
    push_char(&mut out, ':');
    push_quoted(&mut out, e.trace.as_str());
    push_char(&mut out, '}');
    proof {
        reveal_strlit("project");
        reveal_strlit("level");
        reveal_strlit("payload");
        reveal_strlit("trace");
        assert("project"@ =~= key_project());
        assert("level"@ =~= key_level());
        assert("payload"@ =~= key_payload());
        assert("trace"@ =~= key_trace());
        assert(out@ =~= encode_spec(e@));
    }
    out
}

} // verus!
