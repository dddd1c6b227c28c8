//! The laws of the wire format: reading a canonical encoding back gives the
//! record it came from, and distinct records have distinct encodings.

use vstd::prelude::*;

use crate::encode::{
    encode_spec, escape_char, escape_seq, key_level, key_payload, key_project, key_trace, member,
    quoted,
};
use crate::event::LogEventView;
use crate::parse::{
    hex_val, is_field_key, is_hex, parse_event_spec, parse_members, parse_string, parse_strbody,
    skip_ws,
};

verus! {

/// The text `t` stands at position `i` of `s`.
pub open spec fn text_at(s: Seq<char>, i: int, t: Seq<char>) -> bool {
    0 <= i && i + t.len() <= s.len() && s.subrange(i, i + t.len()) == t
}

proof fn lemma_text_at_split(s: Seq<char>, i: int, a: Seq<char>, b: Seq<char>)
    requires
        text_at(s, i, a + b),
    ensures
        text_at(s, i, a),
        text_at(s, i + a.len(), b),
{
    let ab = a + b;
    assert forall|k: int| 0 <= k < a.len() implies s[i + k] == a[k] by {
        assert(s.subrange(i, i + ab.len())[k] == s[i + k]);
        assert(ab[k] == a[k]);
    }
    assert forall|k: int| 0 <= k < b.len() implies s[i + a.len() + k] == b[k] by {
        assert(s.subrange(i, i + ab.len())[a.len() + k] == s[i + a.len() + k]);
        assert(ab[a.len() + k] == b[k]);
    }
    assert(s.subrange(i, i + a.len()) =~= a);
    assert(s.subrange(i + a.len(), i + a.len() + b.len()) =~= b);
}

proof fn lemma_text_at_index(s: Seq<char>, i: int, t: Seq<char>, k: int)
    requires
        text_at(s, i, t),
        0 <= k < t.len(),
    ensures
        s[i + k] == t[k],
{
    assert(s.subrange(i, i + t.len())[k] == s[i + k]);
}

/// Reading a string-literal body over the escaping of `v`, with the closing
/// quote behind it, yields `v` itself.
proof fn lemma_parse_strbody_escaped(s: Seq<char>, i: int, v: Seq<char>)
    requires
        text_at(s, i, escape_seq(v) + seq!['"']),
    ensures
        parse_strbody(s, i) == Some((v, i + escape_seq(v).len() + 1)),
    decreases v.len(),
{
    if v.len() == 0 {
        assert(escape_seq(v) + seq!['"'] =~= seq!['"']);
        lemma_text_at_index(s, i, seq!['"'], 0);
        assert(v =~= Seq::<char>::empty());
    } else {
        let c = v[0];
        let rest = v.drop_first();
        assert(escape_seq(v) == escape_char(c) + escape_seq(rest));
        assert(escape_seq(v) + seq!['"'] =~= escape_char(c) + (escape_seq(rest) + seq!['"']));
        lemma_text_at_split(s, i, escape_char(c), escape_seq(rest) + seq!['"']);
        let i2 = i + escape_char(c).len();
        lemma_parse_strbody_escaped(s, i2, rest);
        assert(seq![c] + rest =~= v);
        if c == '"' {
            lemma_text_at_index(s, i, escape_char(c), 0);
            lemma_text_at_index(s, i, escape_char(c), 1);
        } else if c == '\\' {
            lemma_text_at_index(s, i, escape_char(c), 0);
            lemma_text_at_index(s, i, escape_char(c), 1);
        } else if (c as u32) < 32 {
            lemma_text_at_index(s, i, escape_char(c), 0);
            lemma_text_at_index(s, i, escape_char(c), 1);
            lemma_text_at_index(s, i, escape_char(c), 2);
            lemma_text_at_index(s, i, escape_char(c), 3);
            lemma_text_at_index(s, i, escape_char(c), 4);
            lemma_text_at_index(s, i, escape_char(c), 5);
            let cu = c as u32;
            let hi = cu as int / 16;
            let lo = cu as int % 16;
            assert(0 <= hi < 16 && 0 <= lo < 16);
            assert(is_hex('0') && hex_val('0') == 0);
            assert(is_hex(crate::encode::hex_digit(hi)) && hex_val(crate::encode::hex_digit(hi))
                == hi);
            assert(is_hex(crate::encode::hex_digit(lo)) && hex_val(crate::encode::hex_digit(lo))
                == lo);
            vstd::arithmetic::div_mod::lemma_fundamental_div_mod(cu as int, 16);
            assert(hex_val(s[i + 2]) * 4096 + hex_val(s[i + 3]) * 256 + hex_val(s[i + 4]) * 16
                + hex_val(s[i + 5]) == cu as int);
            vstd::utf8::char_u32_cast(c, cu);
            assert(parse_strbody(s, i) == Some((v, i + escape_seq(v).len() + 1)));
        } else {
            lemma_text_at_index(s, i, escape_char(c), 0);
        }
    }
}

/// Reading a string literal over the quoting of `v` yields `v` itself.
proof fn lemma_parse_string_quoted(s: Seq<char>, i: int, v: Seq<char>)
    requires
        text_at(s, i, quoted(v)),
    ensures
        parse_string(s, i) == Some((v, i + quoted(v).len())),
{
    assert(quoted(v) =~= seq!['"'] + (escape_seq(v) + seq!['"']));
    lemma_text_at_split(s, i, seq!['"'], escape_seq(v) + seq!['"']);
    lemma_text_at_index(s, i, seq!['"'], 0);
    lemma_parse_strbody_escaped(s, i + 1, v);
}

/// Reading one member over the encoding of `(k, v)`: the name, the colon and
/// the value come out as written.
proof fn lemma_parse_member(s: Seq<char>, i: int, k: Seq<char>, v: Seq<char>)
    requires
        text_at(s, i, member(k, v)),
    ensures
        parse_string(s, i) == Some((k, i + quoted(k).len())),
        skip_ws(s, i + quoted(k).len()) == i + quoted(k).len(),
        s[i + quoted(k).len()] == ':',
        skip_ws(s, i + quoted(k).len() + 1) == i + quoted(k).len() + 1,
        parse_string(s, i + quoted(k).len() + 1) == Some((v, i + member(k, v).len())),
        member(k, v).len() == quoted(k).len() + 1 + quoted(v).len(),
{
    assert(member(k, v) =~= quoted(k) + (seq![':'] + quoted(v)));
    lemma_text_at_split(s, i, quoted(k), seq![':'] + quoted(v));
    lemma_parse_string_quoted(s, i, k);
    let p = i + quoted(k).len();
    lemma_text_at_split(s, p, seq![':'], quoted(v));
    lemma_text_at_index(s, p, seq![':'], 0);
    lemma_text_at_index(s, p + 1, quoted(v), 0);
    lemma_parse_string_quoted(s, p + 1, v);
}

/// One member followed by a comma and a further member: reading the member
/// list steps past it, adding it to the map.
proof fn lemma_members_step_comma(
    s: Seq<char>,
    i: int,
    k: Seq<char>,
    v: Seq<char>,
    m: Map<Seq<char>, Seq<char>>,
)
    requires
        text_at(s, i, member(k, v) + seq![',']),
        i + member(k, v).len() + 1 < s.len(),
        s[i + member(k, v).len() + 1] == '"',
        is_field_key(k),
        !m.contains_key(k),
    ensures
        parse_members(s, i, m) == parse_members(s, i + member(k, v).len() + 1, m.insert(k, v)),
{
    lemma_text_at_split(s, i, member(k, v), seq![',']);
    lemma_parse_member(s, i, k, v);
    let j3 = i + member(k, v).len();
    lemma_text_at_index(s, j3, seq![','], 0);
    assert(skip_ws(s, j3) == j3);
    assert(skip_ws(s, j3 + 1) == j3 + 1);
}

/// The last member, followed by the closing brace: reading the member list
/// ends, yielding the full map and the position after the brace.
proof fn lemma_members_step_brace(
    s: Seq<char>,
    i: int,
    k: Seq<char>,
    v: Seq<char>,
    m: Map<Seq<char>, Seq<char>>,
)
    requires
        text_at(s, i, member(k, v) + seq!['}']),
        is_field_key(k),
        !m.contains_key(k),
    ensures
        parse_members(s, i, m) == Some((m.insert(k, v), i + member(k, v).len() + 1)),
{
    lemma_text_at_split(s, i, member(k, v), seq!['}']);
    lemma_parse_member(s, i, k, v);
    let j3 = i + member(k, v).len();
    lemma_text_at_index(s, j3, seq!['}'], 0);
    assert(skip_ws(s, j3) == j3);
}

/// The four member names are pairwise distinct.
proof fn lemma_keys_distinct()
    ensures
        key_project() != key_level(),
        key_project() != key_payload(),
        key_project() != key_trace(),
        key_level() != key_payload(),
        key_level() != key_trace(),
        key_payload() != key_trace(),
{
    assert(key_project()[1] != key_payload()[1]);
    assert(key_level()[0] != key_trace()[0]);
}

/// Round trip: the canonical encoding of any record denotes that record and
/// nothing else. Every accepted request is therefore republished as a message
/// that reads back to exactly the four field values received.
#[verifier::rlimit(100)]
#[verifier::spinoff_prover]
pub proof fn lemma_encode_round_trip(e: LogEventView)
    ensures
        parse_event_spec(encode_spec(e)) == Some(e),
{
    let s = encode_spec(e);
    let m1 = member(key_project(), e.project);
    let m2 = member(key_level(), e.level);
    let m3 = member(key_payload(), e.payload);
    let m4 = member(key_trace(), e.trace);
    let a2 = seq!['{'] + m1;
    let a3 = a2 + seq![','];
    let a4 = a3 + m2;
    let a5 = a4 + seq![','];
    let a6 = a5 + m3;
    let a7 = a6 + seq![','];
    let a8 = a7 + m4;
    assert(s == a8 + seq!['}']);
    assert(s.subrange(0, s.len() as int) =~= s);
    assert(text_at(s, 0, a8 + seq!['}']));
    lemma_text_at_split(s, 0, a8, seq!['}']);
    lemma_text_at_split(s, 0, a7, m4);
    lemma_text_at_split(s, 0, a6, seq![',']);
    lemma_text_at_split(s, 0, a5, m3);
    lemma_text_at_split(s, 0, a4, seq![',']);
    lemma_text_at_split(s, 0, a3, m2);
    lemma_text_at_split(s, 0, a2, seq![',']);
    lemma_text_at_split(s, 0, seq!['{'], m1);
    let o1: int = 1;
    let o2: int = a3.len() as int;
    let o3: int = a5.len() as int;
    let o4: int = a7.len() as int;
    let fin: int = a8.len() as int + 1;
    lemma_text_at_index(s, 0, seq!['{'], 0);
    lemma_text_at_index(s, o1, m1, 0);
    lemma_text_at_index(s, o2, m2, 0);
    lemma_text_at_index(s, o3, m3, 0);
    lemma_text_at_index(s, o4, m4, 0);
    assert(m1[0] == '"' && m2[0] == '"' && m3[0] == '"' && m4[0] == '"') by {
        assert(quoted(e.project)[0] == '"');
        assert(quoted(e.level)[0] == '"');
        assert(quoted(e.payload)[0] == '"');
        assert(quoted(e.trace)[0] == '"');
        assert(member(key_project(), e.project)[0] == quoted(key_project())[0]);
        assert(member(key_level(), e.level)[0] == quoted(key_level())[0]);
        assert(member(key_payload(), e.payload)[0] == quoted(key_payload())[0]);
        assert(member(key_trace(), e.trace)[0] == quoted(key_trace())[0]);
        assert(quoted(key_project())[0] == '"');
        assert(quoted(key_level())[0] == '"');
        assert(quoted(key_payload())[0] == '"');
        assert(quoted(key_trace())[0] == '"');
    }
    lemma_keys_distinct();
    let e0: Map<Seq<char>, Seq<char>> = Map::empty();
    let mm1 = e0.insert(key_project(), e.project);
    let mm2 = mm1.insert(key_level(), e.level);
    let mm3 = mm2.insert(key_payload(), e.payload);
    let mm4 = mm3.insert(key_trace(), e.trace);
    assert(text_at(s, o1, m1 + seq![','])) by {
        assert(a3 =~= seq!['{'] + (m1 + seq![',']));
        assert(text_at(s, 0, seq!['{'] + (m1 + seq![','])));
        lemma_text_at_split(s, 0, seq!['{'], m1 + seq![',']);
    }
    lemma_members_step_comma(s, o1, key_project(), e.project, e0);
    assert(text_at(s, o2, m2 + seq![','])) by {
        assert(a5 =~= a3 + (m2 + seq![',']));
        assert(text_at(s, 0, a3 + (m2 + seq![','])));
        lemma_text_at_split(s, 0, a3, m2 + seq![',']);
    }
    lemma_members_step_comma(s, o2, key_level(), e.level, mm1);
    assert(text_at(s, o3, m3 + seq![','])) by {
        assert(a7 =~= a5 + (m3 + seq![',']));
        assert(text_at(s, 0, a5 + (m3 + seq![','])));
        lemma_text_at_split(s, 0, a5, m3 + seq![',']);
    }
    lemma_members_step_comma(s, o3, key_payload(), e.payload, mm2);
    assert(text_at(s, o4, m4 + seq!['}'])) by {
        assert(s =~= a7 + (m4 + seq!['}']));
        assert(text_at(s, 0, a7 + (m4 + seq!['}'])));
        lemma_text_at_split(s, 0, a7, m4 + seq!['}']);
    }
    lemma_members_step_brace(s, o4, key_trace(), e.trace, mm3);
    assert(parse_members(s, o1, e0) == Some((mm4, fin)));
    assert(fin == s.len());
    assert(skip_ws(s, 0) == 0);
    assert(skip_ws(s, 1) == 1);
    assert(skip_ws(s, fin) == fin);
    assert(mm4[key_project()] == e.project);
    assert(mm4[key_level()] == e.level);
    assert(mm4[key_payload()] == e.payload);
    assert(mm4[key_trace()] == e.trace);
    assert(parse_event_spec(s) == Some(e));
}

/// Distinct records have distinct canonical encodings: republishing several
/// distinct records puts as many distinct messages on the bus.
pub proof fn lemma_encode_injective(a: LogEventView, b: LogEventView)
    requires
        encode_spec(a) == encode_spec(b),
    ensures
        a == b,
{
    lemma_encode_round_trip(a);
    lemma_encode_round_trip(b);
}

} // verus!
