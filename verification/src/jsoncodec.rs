//! The canonical JSON form of a credential map, and its parser.
//!
//! The vault file's plaintext is a JSON object whose keys are account names
//! and whose values are secrets, both strings. The serializer writes the
//! entries in order as `{"name":"secret",...}`, escaping `"` and `\` with a
//! backslash and control characters as `\u00xx`. The parser inverts exactly
//! that form and rejects everything else, including duplicate keys, so that
//! a corrupt database is detected rather than half-read.

use vstd::prelude::*;
use crate::credmap::{distinct_keys, pairs_view, CredentialMap};
use crate::strutil::push_char;

verus! {

/// A lowercase hexadecimal digit.
pub open spec fn is_hex_lower(c: char) -> bool {
    ('0' <= c && c <= '9') || ('a' <= c && c <= 'f')
}

/// The value of a lowercase hexadecimal digit.
pub open spec fn hex_val(c: char) -> int {
    if '0' <= c && c <= '9' {
        c as int - '0' as int
    } else {
        c as int - 'a' as int + 10
    }
}

/// The lowercase hexadecimal digit of a value below 16.
pub open spec fn hex_char(n: int) -> char {
    if n < 10 {
        (('0' as int) + n) as char
    } else {
        (('a' as int) + n - 10) as char
    }
}

/// `hex_char` and `hex_val` invert each other on digits.
pub proof fn lemma_hex_char(n: int)
    requires
        0 <= n < 16,
    ensures
        is_hex_lower(hex_char(n)),
        hex_val(hex_char(n)) == n,
{
}

/// How one character is written inside a quoted JSON string.
pub open spec fn escaped_char(c: char) -> Seq<char> {
    if c == '"' {
        seq!['\\', '"']
    } else if c == '\\' {
        seq!['\\', '\\']
    } else if (c as u32) < 32 {
        seq!['\\', 'u', '0', '0', hex_char((c as u32) as int / 16), hex_char((c as u32) as int % 16)]
    } else {
        seq![c]
    }
}

/// How a whole string is written inside quotes.
pub open spec fn escaped(s: Seq<char>) -> Seq<char>
    decreases s.len(),
{
    if s.len() == 0 {
        Seq::empty()
    } else {
        escaped_char(s[0]) + escaped(s.drop_first())
    }
}

/// A quoted JSON string.
pub open spec fn quoted(s: Seq<char>) -> Seq<char> {
    seq!['"'] + escaped(s) + seq!['"']
}

/// One `"name":"secret"` member.
pub open spec fn entry_text(k: Seq<char>, v: Seq<char>) -> Seq<char> {
    quoted(k) + seq![':'] + quoted(v)
}

/// The members after the first one, each preceded by a comma.
pub open spec fn more_entries_text(ps: Seq<(Seq<char>, Seq<char>)>) -> Seq<char>
    decreases ps.len(),
{
    if ps.len() == 0 {
        Seq::empty()
    } else {
        seq![','] + entry_text(ps[0].0, ps[0].1) + more_entries_text(ps.drop_first())
    }
}

/// The canonical JSON text of an entry sequence.
pub open spec fn json_text(ps: Seq<(Seq<char>, Seq<char>)>) -> Seq<char> {
    if ps.len() == 0 {
        seq!['{', '}']
    } else {
        seq!['{'] + entry_text(ps[0].0, ps[0].1) + more_entries_text(ps.drop_first()) + seq!['}']
    }
}

// ---------------------------------------------------------------------------
// The grammar, written as a deterministic parser over character sequences.
// ---------------------------------------------------------------------------

/// Parse the body of a quoted string, after its opening quote: the decoded
/// contents and the suffix after the closing quote.
pub open spec fn parse_qstring(s: Seq<char>) -> Option<(Seq<char>, Seq<char>)>
    decreases s.len(),
{
    if s.len() == 0 {
        None
    } else if s[0] == '"' {
        Some((Seq::empty(), s.drop_first()))
    } else if s[0] == '\\' {
        if s.len() >= 2 && (s[1] == '"' || s[1] == '\\') {
            match parse_qstring(s.skip(2)) {
                Some((c, rest)) => Some((seq![s[1]] + c, rest)),
                None => None,
            }
        } else if s.len() >= 6 && s[1] == 'u' && s[2] == '0' && s[3] == '0' && is_hex_lower(s[4])
            && is_hex_lower(s[5]) && hex_val(s[4]) * 16 + hex_val(s[5]) < 32 {
            match parse_qstring(s.skip(6)) {
                Some((c, rest)) => Some(
                    (seq![(((hex_val(s[4]) * 16 + hex_val(s[5])) as u32) as char)] + c, rest),
                ),
                None => None,
            }
        } else {
            None
        }
    } else if (s[0] as u32) < 32 {
        None
    } else {
        match parse_qstring(s.drop_first()) {
            Some((c, rest)) => Some((seq![s[0]] + c, rest)),
            None => None,
        }
    }
}

/// A successful string parse consumes at least the closing quote.
pub proof fn lemma_parse_qstring_shrinks(s: Seq<char>)
    ensures
        parse_qstring(s) matches Some(r) ==> r.1.len() < s.len(),
    decreases s.len(),
{
    if s.len() >= 1 && s[0] == '\\' {
        if s.len() >= 2 {
            lemma_parse_qstring_shrinks(s.skip(2));
        }
        if s.len() >= 6 {
            lemma_parse_qstring_shrinks(s.skip(6));
        }
    } else if s.len() >= 1 {
        lemma_parse_qstring_shrinks(s.drop_first());
    }
}

/// Parse one `"name":"secret"` member at the head of `s`.
pub open spec fn parse_entry(s: Seq<char>) -> Option<((Seq<char>, Seq<char>), Seq<char>)> {
    if s.len() >= 1 && s[0] == '"' {
        match parse_qstring(s.drop_first()) {
            Some((k, r1)) => if r1.len() >= 2 && r1[0] == ':' && r1[1] == '"' {
                match parse_qstring(r1.skip(2)) {
                    Some((v, r2)) => Some(((k, v), r2)),
                    None => None,
                }
            } else {
                None
            },
            None => None,
        }
    } else {
        None
    }
}

/// A successful member parse consumes at least one character.
pub proof fn lemma_parse_entry_shrinks(s: Seq<char>)
    ensures
        parse_entry(s) matches Some(r) ==> r.1.len() < s.len(),
{
    if s.len() >= 1 && s[0] == '"' {
        lemma_parse_qstring_shrinks(s.drop_first());
        match parse_qstring(s.drop_first()) {
            Some((k, r1)) => {
                if r1.len() >= 2 && r1[0] == ':' && r1[1] == '"' {
                    lemma_parse_qstring_shrinks(r1.skip(2));
                }
            },
            None => {},
        }
    }
}

/// Parse the members after the first one: a possibly empty run of
/// `,"name":"secret"` closed by `}`, returning them and the suffix after `}`.
pub open spec fn parse_more_entries(s: Seq<char>) -> Option<
    (Seq<(Seq<char>, Seq<char>)>, Seq<char>),
>
    decreases s.len(),
    via parse_more_entries_decreases
{
    if s.len() >= 1 && s[0] == '}' {
        Some((Seq::empty(), s.drop_first()))
    } else if s.len() >= 1 && s[0] == ',' {
        match parse_entry(s.drop_first()) {
            Some((e, r1)) => match parse_more_entries(r1) {
                Some((es, r2)) => Some((seq![e] + es, r2)),
                None => None,
            },
            None => None,
        }
    } else {
        None
    }
}

#[via_fn]
proof fn parse_more_entries_decreases(s: Seq<char>) {
    if s.len() >= 1 && s[0] == ',' {
        lemma_parse_entry_shrinks(s.drop_first());
    }
}

/// Parse a whole credential-map object; `None` on anything but the canonical
/// form with pairwise-distinct keys.
pub open spec fn parse_json(s: Seq<char>) -> Option<Seq<(Seq<char>, Seq<char>)>> {
    if s.len() >= 2 && s[0] == '{' {
        if s[1] == '}' {
            if s.len() == 2 {
                Some(Seq::empty())
            } else {
                None
            }
        } else if s[1] == '"' {
            match parse_entry(s.drop_first()) {
                Some((e, r1)) => match parse_more_entries(r1) {
                    Some((es, r2)) => if r2.len() == 0 {
                        let all = seq![e] + es;
                        if distinct_keys(all) {
                            Some(all)
                        } else {
                            None
                        }
                    } else {
                        None
                    },
                    None => None,
                },
                None => None,
            }
        } else {
            None
        }
    } else {
        None
    }
}

// ---------------------------------------------------------------------------
// The round trip: parsing inverts serialization.
// ---------------------------------------------------------------------------

/// Parsing a quoted, escaped string recovers it and leaves the suffix.
pub proof fn lemma_parse_quoted(s: Seq<char>, t: Seq<char>)
    ensures
        parse_qstring(escaped(s) + seq!['"'] + t) == Some((s, t)),
    decreases s.len(),
{
    let w = escaped(s) + seq!['"'] + t;
    if s.len() == 0 {
        assert(escaped(s) =~= Seq::<char>::empty());
        assert(w =~= seq!['"'] + t);
        assert(w[0] == '"');
        assert(w.drop_first() =~= t);
    } else {
        let c = s[0];
        let s1 = s.drop_first();
        let w1 = escaped(s1) + seq!['"'] + t;
        lemma_parse_quoted(s1, t);
        assert(escaped(s) == escaped_char(c) + escaped(s1));
        if c == '"' {
            assert(w =~= seq!['\\', '"'] + w1);
            assert(w[0] == '\\' && w[1] == '"');
            assert(w.skip(2) =~= w1);
            assert(seq![w[1]] + s1 =~= s);
        } else if c == '\\' {
            assert(w =~= seq!['\\', '\\'] + w1);
            assert(w[0] == '\\' && w[1] == '\\');
            assert(w.skip(2) =~= w1);
            assert(seq![w[1]] + s1 =~= s);
        } else if (c as u32) < 32 {
            let u = (c as u32) as int;
            let hi = u / 16;
            let lo = u % 16;
            lemma_hex_char(hi);
            lemma_hex_char(lo);
            assert(escaped_char(c) == seq!['\\', 'u', '0', '0', hex_char(hi), hex_char(lo)]);
            assert(w =~= seq!['\\', 'u', '0', '0', hex_char(hi), hex_char(lo)] + w1);
            assert(w[0] == '\\' && w[1] == 'u' && w[2] == '0' && w[3] == '0');
            assert(w[4] == hex_char(hi) && w[5] == hex_char(lo));
            assert(hex_val(w[4]) * 16 + hex_val(w[5]) == u);
            assert(((hex_val(w[4]) * 16 + hex_val(w[5])) as u32) == c as u32);
            vstd::utf8::char_u32_cast(c, c as u32);
            assert((((hex_val(w[4]) * 16 + hex_val(w[5])) as u32) as char) == c);
            assert(w.skip(6) =~= w1);
            assert(seq![c] + s1 =~= s);
        } else {
            assert(escaped_char(c) == seq![c]);
            assert(w =~= seq![c] + w1);
            assert(w[0] == c);
            assert(w.drop_first() =~= w1);
            assert(seq![c] + s1 =~= s);
        }
    }
}

/// Parsing a serialized member recovers it and leaves the suffix.
pub proof fn lemma_parse_entry_text(k: Seq<char>, v: Seq<char>, t: Seq<char>)
    ensures
        parse_entry(entry_text(k, v) + t) == Some(((k, v), t)),
{
    let w = entry_text(k, v) + t;
    let t1 = seq![':'] + quoted(v) + t;
    assert(w =~= seq!['"'] + (escaped(k) + seq!['"'] + t1));
    assert(w[0] == '"');
    assert(w.drop_first() =~= escaped(k) + seq!['"'] + t1);
    lemma_parse_quoted(k, t1);
    assert(t1[0] == ':');
    assert(t1[1] == '"');
    assert(t1.len() >= 2);
    assert(t1.skip(2) =~= escaped(v) + seq!['"'] + t);
    lemma_parse_quoted(v, t);
}

/// Parsing serialized trailing members recovers them and leaves the suffix.
pub proof fn lemma_parse_more_entries_text(ps: Seq<(Seq<char>, Seq<char>)>, t: Seq<char>)
    ensures
        parse_more_entries(more_entries_text(ps) + seq!['}'] + t) == Some((ps, t)),
    decreases ps.len(),
{
    let w = more_entries_text(ps) + seq!['}'] + t;
    if ps.len() == 0 {
        assert(w =~= seq!['}'] + t);
        assert(w[0] == '}');
        assert(w.drop_first() =~= t);
    } else {
        let e = ps[0];
        let ps1 = ps.drop_first();
        let t1 = more_entries_text(ps1) + seq!['}'] + t;
        assert(more_entries_text(ps) == seq![','] + entry_text(e.0, e.1) + more_entries_text(ps1));
        assert(w =~= seq![','] + (entry_text(e.0, e.1) + t1));
        assert(w[0] == ',');
        assert(w.drop_first() =~= entry_text(e.0, e.1) + t1);
        lemma_parse_entry_text(e.0, e.1, t1);
        lemma_parse_more_entries_text(ps1, t);
        assert(e == (e.0, e.1));
        assert(seq![e] + ps1 =~= ps);
    }
}

/// The codec round trip: parsing the canonical JSON text of a well-formed
/// entry sequence yields exactly that sequence.
pub proof fn lemma_json_round_trip(ps: Seq<(Seq<char>, Seq<char>)>)
    requires
        distinct_keys(ps),
    ensures
        parse_json(json_text(ps)) == Some(ps),
{
    let w = json_text(ps);
    if ps.len() == 0 {
        assert(w =~= seq!['{', '}']);
        assert(parse_json(w) == Some(Seq::<(Seq<char>, Seq<char>)>::empty()));
    } else {
        let e = ps[0];
        let ps1 = ps.drop_first();
        let t1 = more_entries_text(ps1) + seq!['}'] + Seq::<char>::empty();
        assert(w =~= seq!['{'] + (entry_text(e.0, e.1) + t1));
        assert(w[0] == '{');
        assert(w[1] == entry_text(e.0, e.1)[0]);
        assert(w[1] == '"');
        assert(w.drop_first() =~= entry_text(e.0, e.1) + t1);
        lemma_parse_entry_text(e.0, e.1, t1);
        lemma_parse_more_entries_text(ps1, Seq::<char>::empty());
        assert(e == (e.0, e.1));
        assert(seq![e] + ps1 =~= ps);
    }
}

// ---------------------------------------------------------------------------
// The executable serializer.
// ---------------------------------------------------------------------------

/// Escaping one more character extends the escaped text.
pub proof fn lemma_escaped_snoc(s: Seq<char>, c: char)
    ensures
        escaped(s.push(c)) == escaped(s) + escaped_char(c),
    decreases s.len(),
{
    if s.len() == 0 {
        assert(s.push(c).drop_first() =~= Seq::<char>::empty());
        assert(s.push(c)[0] == c);
        assert(escaped(Seq::<char>::empty()) =~= Seq::<char>::empty());
        assert(escaped(s.push(c)) =~= escaped_char(c));
        assert(escaped(s) + escaped_char(c) =~= escaped_char(c));
    } else {
        assert(s.push(c).drop_first() =~= s.drop_first().push(c));
        lemma_escaped_snoc(s.drop_first(), c);
        assert(escaped(s.push(c)) == escaped_char(s[0]) + (escaped(s.drop_first())
            + escaped_char(c)));
        assert(escaped_char(s[0]) + (escaped(s.drop_first()) + escaped_char(c)) =~= (escaped_char(
            s[0],
        ) + escaped(s.drop_first())) + escaped_char(c));
    }
}

/// One more trailing member extends the serialized run of members.
pub proof fn lemma_more_entries_snoc(ps: Seq<(Seq<char>, Seq<char>)>, p: (Seq<char>, Seq<char>))
    ensures
        more_entries_text(ps.push(p)) == more_entries_text(ps) + seq![','] + entry_text(p.0, p.1),
    decreases ps.len(),
{
    if ps.len() == 0 {
        assert(ps.push(p).drop_first() =~= Seq::<(Seq<char>, Seq<char>)>::empty());
        assert(ps.push(p)[0] == p);
        assert(more_entries_text(Seq::<(Seq<char>, Seq<char>)>::empty()) =~= Seq::<char>::empty());
        assert(more_entries_text(ps.push(p)) =~= seq![','] + entry_text(p.0, p.1));
        assert(more_entries_text(ps) + seq![','] + entry_text(p.0, p.1) =~= seq![','] + entry_text(
            p.0,
            p.1,
        ));
    } else {
        assert(ps.push(p).drop_first() =~= ps.drop_first().push(p));
        assert(ps.push(p)[0] == ps[0]);
        lemma_more_entries_snoc(ps.drop_first(), p);
        assert(more_entries_text(ps.push(p)) == seq![','] + entry_text(ps[0].0, ps[0].1)
            + (more_entries_text(ps.drop_first()) + seq![','] + entry_text(p.0, p.1)));
        assert(seq![','] + entry_text(ps[0].0, ps[0].1) + (more_entries_text(ps.drop_first())
            + seq![','] + entry_text(p.0, p.1)) =~= (seq![','] + entry_text(ps[0].0, ps[0].1)
            + more_entries_text(ps.drop_first())) + seq![','] + entry_text(p.0, p.1));
    }
}

/// The lowercase hexadecimal digit of a value below 16.
fn hex_digit_exec(n: u8) -> (r: char)
    requires
        n < 16,
    ensures
        r == hex_char(n as int),
{
    let d: u8 = if n < 10 {
        48 + n
    } else {
        97 + n - 10
    };
    d as char
}

/// Append the escaped form of `s` to `out`.
fn escape_into(out: &mut String, s: &str)
    ensures
        final(out)@ == old(out)@ + escaped(s@),
{
    let n = s.unicode_len();
    let mut i: usize = 0;
    while i < n
        invariant
            n == s@.len(),
            i <= n,
            out@ == old(out)@ + escaped(s@.subrange(0, i as int)),
        decreases n - i,
    {
        let ghost prev = out@;
        let c = s.get_char(i);
        if c == '"' {
            push_char(out, '\\');
            push_char(out, '"');
            proof {
                assert(out@ =~= prev + escaped_char(c));
            }
        } else if c == '\\' {
            push_char(out, '\\');
            push_char(out, '\\');
            proof {
                assert(out@ =~= prev + escaped_char(c));
            }
        } else {
            let u = c as u32;
            if u < 32 {
                push_char(out, '\\');
                push_char(out, 'u');
                push_char(out, '0');
                push_char(out, '0');
                push_char(out, hex_digit_exec((u / 16) as u8));
                push_char(out, hex_digit_exec((u % 16) as u8));
                proof {
                    assert(((u / 16) as u8) as int == (c as u32) as int / 16);
                    assert(((u % 16) as u8) as int == (c as u32) as int % 16);
                    assert(out@ =~= prev + escaped_char(c));
                }
            } else {
                push_char(out, c);
                proof {
                    assert(out@ =~= prev + escaped_char(c));
                }
            }
        }
        proof {
            assert(s@.subrange(0, i + 1 as int) =~= s@.subrange(0, i as int).push(s@[i as int]));
            lemma_escaped_snoc(s@.subrange(0, i as int), s@[i as int]);
            assert(out@ =~= old(out)@ + escaped(s@.subrange(0, i + 1 as int)));
        }
        i += 1;
    }
    proof {
        assert(s@.subrange(0, n as int) =~= s@);
    }
}

/// Append one serialized member to `out`.
fn write_entry(out: &mut String, k: &str, v: &str)
    ensures
        final(out)@ == old(out)@ + entry_text(k@, v@),
{
    push_char(out, '"');
    escape_into(out, k);
    push_char(out, '"');
    push_char(out, ':');
    push_char(out, '"');
    escape_into(out, v);
    push_char(out, '"');
    proof {
        assert(out@ =~= old(out)@ + entry_text(k@, v@));
    }
}

/// The canonical JSON text of a credential map.
pub fn to_json(m: &CredentialMap) -> (r: String)
    ensures
        r@ == json_text(m.entries()),
{
    let n = m.len();
    let mut out = String::new();
    push_char(&mut out, '{');
    if n > 0 {
        let k0 = m.key_at(0);
        let v0 = m.secret_at(0);
        write_entry(&mut out, k0.as_str(), v0.as_str());
        let mut i: usize = 1;
        while i < n
            invariant
                n == m.entries().len(),
                1 <= i <= n,
                out@ == seq!['{'] + entry_text(m.entries()[0].0, m.entries()[0].1)
                    + more_entries_text(m.entries().subrange(1, i as int)),
            decreases n - i,
        {
            let ghost prev = out@;
            push_char(&mut out, ',');
            let k = m.key_at(i);
            let v = m.secret_at(i);
            write_entry(&mut out, k.as_str(), v.as_str());
            proof {
                assert(m.entries().subrange(1, i + 1 as int) =~= m.entries().subrange(
                    1,
                    i as int,
                ).push(m.entries()[i as int]));
                lemma_more_entries_snoc(
                    m.entries().subrange(1, i as int),
                    m.entries()[i as int],
                );
                assert(out@ =~= prev + seq![','] + entry_text(
                    m.entries()[i as int].0,
                    m.entries()[i as int].1,
                ));
                assert(out@ =~= seq!['{'] + entry_text(m.entries()[0].0, m.entries()[0].1)
                    + more_entries_text(m.entries().subrange(1, i + 1 as int)));
            }
            i += 1;
        }
        push_char(&mut out, '}');
        proof {
            assert(m.entries().subrange(1, n as int) =~= m.entries().drop_first());
            assert(out@ =~= json_text(m.entries()));
        }
    } else {
        push_char(&mut out, '}');
        proof {
            assert(out@ =~= json_text(m.entries()));
        }
    }
    out
}

// ---------------------------------------------------------------------------
// The executable parser.
// ---------------------------------------------------------------------------

/// Whether `c` is a lowercase hexadecimal digit.
fn is_hex_lower_exec(c: char) -> (r: bool)
    ensures
        r == is_hex_lower(c),
{
    let u = c as u32;
    (48 <= u && u <= 57) || (97 <= u && u <= 102)
}

/// The value of a lowercase hexadecimal digit.
fn hex_val_exec(c: char) -> (r: u32)
    requires
        is_hex_lower(c),
    ensures
        r as int == hex_val(c),
        r < 16,
{
    let u = c as u32;
    if 48 <= u && u <= 57 {
        u - 48
    } else {
        u - 97 + 10
    }
}

/// Parse the body of a quoted string, after its opening quote.
fn parse_qstring_exec<'a>(s: &'a str) -> (r: Option<(String, &'a str)>)
    ensures
        match r {
            Some(p) => parse_qstring(s@) == Some((p.0@, p.1@)),
            None => parse_qstring(s@) is None,
        },
    decreases s@.len(),
{
    let n = s.unicode_len();
    if n == 0 {
        return None;
    }
    let c0 = s.get_char(0);
    if c0 == '"' {
        let rest = s.substring_char(1, n);
        proof {
            assert(rest@ =~= s@.drop_first());
        }
        return Some((String::new(), rest));
    }
    if c0 == '\\' {
        if n >= 2 {
            let c1 = s.get_char(1);
            if c1 == '"' || c1 == '\\' {
                let tail = s.substring_char(2, n);
                proof {
                    assert(tail@ =~= s@.skip(2));
                }
                match parse_qstring_exec(tail) {
                    Some((body, rest)) => {
                        let mut out = String::new();
                        push_char(&mut out, c1);
                        out.append(body.as_str());
                        proof {
                            assert(out@ =~= seq![s@[1]] + body@);
                        }
                        return Some((out, rest));
                    },
                    None => {
                        return None;
                    },
                }
            }
        }
        if n >= 6 {
            let c1 = s.get_char(1);
            let c2 = s.get_char(2);
            let c3 = s.get_char(3);
            let c4 = s.get_char(4);
            let c5 = s.get_char(5);
            if c1 == 'u' && c2 == '0' && c3 == '0' && is_hex_lower_exec(c4) && is_hex_lower_exec(
                c5,
            ) {
                let v = hex_val_exec(c4) * 16 + hex_val_exec(c5);
                if v < 32 {
                    let tail = s.substring_char(6, n);
                    proof {
                        assert(tail@ =~= s@.skip(6));
                    }
                    match parse_qstring_exec(tail) {
                        Some((body, rest)) => {
                            let mut out = String::new();
                            push_char(&mut out, (v as u8) as char);
                            out.append(body.as_str());
                            proof {
                                assert(v as int == hex_val(s@[4]) * 16 + hex_val(s@[5]));
                                assert(((v as u8) as char) == ((v as u32) as char));
                                assert(out@ =~= seq![(((hex_val(s@[4]) * 16 + hex_val(s@[5]))
                                    as u32) as char)] + body@);
                            }
                            return Some((out, rest));
                        },
                        None => {
                            return None;
                        },
                    }
                } else {
                    return None;
                }
            } else {
                return None;
            }
        } else {
            return None;
        }
    }
    if (c0 as u32) < 32 {
        return None;
    }
    let tail = s.substring_char(1, n);
    proof {
        assert(tail@ =~= s@.drop_first());
    }
    match parse_qstring_exec(tail) {
        Some((body, rest)) => {
            let mut out = String::new();
            push_char(&mut out, c0);
            out.append(body.as_str());
            proof {
                assert(out@ =~= seq![s@[0]] + body@);
            }
            Some((out, rest))
        },
        None => None,
    }
}

/// Parse one `"name":"secret"` member at the head of `s`.
fn parse_entry_exec<'a>(s: &'a str) -> (r: Option<((String, String), &'a str)>)
    ensures
        match r {
            Some(p) => parse_entry(s@) == Some(((p.0.0@, p.0.1@), p.1@)),
            None => parse_entry(s@) is None,
        },
{
    let n = s.unicode_len();
    if n == 0 {
        return None;
    }
    if s.get_char(0) != '"' {
        return None;
    }
    let tail = s.substring_char(1, n);
    proof {
        assert(tail@ =~= s@.drop_first());
    }
    match parse_qstring_exec(tail) {
        Some((k, r1)) => {
            let m = r1.unicode_len();
            if m >= 2 {
                let a = r1.get_char(0);
                let b = r1.get_char(1);
                if a == ':' && b == '"' {
                    let tail2 = r1.substring_char(2, m);
                    proof {
                        assert(tail2@ =~= r1@.skip(2));
                    }
                    match parse_qstring_exec(tail2) {
                        Some((v, r2)) => Some(((k, v), r2)),
                        None => None,
                    }
                } else {
                    None
                }
            } else {
                None
            }
        },
        None => None,
    }
}

/// Parse the members after the first one, closed by `}`.
fn parse_more_entries_exec<'a>(s: &'a str) -> (r: Option<(Vec<(String, String)>, &'a str)>)
    ensures
        match r {
            Some(p) => parse_more_entries(s@) == Some((pairs_view(p.0@), p.1@)),
            None => parse_more_entries(s@) is None,
        },
    decreases s@.len(),
{
    let n = s.unicode_len();
    if n == 0 {
        return None;
    }
    let c0 = s.get_char(0);
    if c0 == '}' {
        let rest = s.substring_char(1, n);
        proof {
            assert(rest@ =~= s@.drop_first());
            assert(pairs_view(Seq::<(String, String)>::empty()) =~= Seq::<
                (Seq<char>, Seq<char>),
            >::empty());
        }
        return Some((Vec::new(), rest));
    }
    if c0 != ',' {
        return None;
    }
    let tail = s.substring_char(1, n);
    proof {
        assert(tail@ =~= s@.drop_first());
    }
    match parse_entry_exec(tail) {
        Some((e, r1)) => {
            proof {
                lemma_parse_entry_shrinks(s@.drop_first());
            }
            match parse_more_entries_exec(r1) {
                Some((es, r2)) => {
                    let ghost prev = es@;
                    let mut es = es;
                    es.insert(0, e);
                    proof {
                        assert(es@ =~= seq![e] + prev);
                        assert(pairs_view(es@) =~= seq![(e.0@, e.1@)] + pairs_view(prev));
                    }
                    Some((es, r2))
                },
                None => None,
            }
        },
        None => None,
    }
}

/// Parse a whole credential-map object; `None` on anything but the canonical
/// form with pairwise-distinct keys.
pub fn parse_json_exec(s: &str) -> (r: Option<CredentialMap>)
    ensures
        match r {
            Some(m) => parse_json(s@) == Some(m.entries()) && m.wf(),
            None => parse_json(s@) is None,
        },
{
    let n = s.unicode_len();
    if n < 2 {
        return None;
    }
    if s.get_char(0) != '{' {
        return None;
    }
    let c1 = s.get_char(1);
    if c1 == '}' {
        if n == 2 {
            let m = CredentialMap::new();
            return Some(m);
        } else {
            return None;
        }
    }
    if c1 != '"' {
        return None;
    }
    let tail = s.substring_char(1, n);
    proof {
        assert(tail@ =~= s@.drop_first());
    }
    match parse_entry_exec(tail) {
        Some((e, r1)) => {
            match parse_more_entries_exec(r1) {
                Some((es, r2)) => {
                    if r2.unicode_len() == 0 {
                        let ghost prev = es@;
                        let mut es = es;
                        es.insert(0, e);
                        proof {
                            assert(es@ =~= seq![e] + prev);
                            assert(pairs_view(es@) =~= seq![(e.0@, e.1@)] + pairs_view(prev));
                        }
                        match CredentialMap::from_entries(es) {
                            Some(m) => Some(m),
                            None => None,
                        }
                    } else {
                        None
                    }
                },
                None => None,
            }
        },
        None => None,
    }
}

} // verus!
