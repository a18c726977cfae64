//! The label log's line format: a JSON object per line.
//!
//! A label line has the fixed shape
//! `{"file":<string>,"entire":{"start":<number>,"end":<number>},"point":{"start":<number>,"end":<number>}}`.
//! The string is escaped as JSON requires: quote, backslash and the named
//! control characters by a two-character escape, every other control
//! character as `\u00` followed by two lowercase hex digits. Numbers are
//! carried as the text the caller rendered them to, and embedded verbatim.

use vstd::prelude::*;

verus! {

/// The lowercase hex digit for `d`.
pub open spec fn hex_char(d: int) -> char {
    if d < 10 {
        (('0' as int) + d) as char
    } else {
        (('a' as int) + (d - 10)) as char
    }
}

/// The value of a lowercase hex digit, or `-1` for any other character.
pub open spec fn hex_val(c: char) -> int {
    if '0' <= c && c <= '9' {
        (c as int) - ('0' as int)
    } else if 'a' <= c && c <= 'f' {
        (c as int) - ('a' as int) + 10
    } else {
        -1
    }
}

/// A character's code point is nonnegative.
pub proof fn lemma_char_nonneg(c: char)
    ensures
        c as int >= 0,
        c as int == c as u32 as int,
{
    broadcast use vstd::utf8::char_is_scalar;

    assert(c as u32 >= 0);
    assert(c as int == c as u32 as int);
}

pub proof fn lemma_hex_round_trip(d: int)
    requires
        0 <= d < 16,
    ensures
        hex_val(hex_char(d)) == d,
{
}

/// How one character appears inside a JSON string literal.
pub open spec fn esc_char(c: char) -> Seq<char> {
    if c == '"' {
        seq!['\\', '"']
    } else if c == '\\' {
        seq!['\\', '\\']
    } else if c == '\u{8}' {
        seq!['\\', 'b']
    } else if c == '\t' {
        seq!['\\', 't']
    } else if c == '\n' {
        seq!['\\', 'n']
    } else if c == '\u{c}' {
        seq!['\\', 'f']
    } else if c == '\r' {
        seq!['\\', 'r']
    } else if (c as int) < 32 {
        seq!['\\', 'u', '0', '0', hex_char((c as int) / 16), hex_char((c as int) % 16)]
    } else {
        seq![c]
    }
}

/// A whole string escaped for a JSON string literal.
pub open spec fn json_escape(s: Seq<char>) -> Seq<char>
    decreases s.len(),
{
    if s.len() == 0 {
        Seq::empty()
    } else {
        esc_char(s[0]) + json_escape(s.drop_first())
    }
}

pub proof fn lemma_json_escape_snoc(s: Seq<char>, c: char)
    ensures
        json_escape(s.push(c)) == json_escape(s) + esc_char(c),
    decreases s.len(),
{
    if s.len() == 0 {
        assert(s.push(c).drop_first() =~= Seq::<char>::empty());
        assert(s.push(c)[0] == c);
        assert(json_escape(s.push(c)) == esc_char(c) + json_escape(Seq::<char>::empty()));
        assert(json_escape(s.push(c)) =~= json_escape(s) + esc_char(c));
    } else {
        assert(s.push(c).drop_first() =~= s.drop_first().push(c));
        lemma_json_escape_snoc(s.drop_first(), c);
        assert(json_escape(s.push(c)) =~= json_escape(s) + esc_char(c));
    }
}

/// The short escape `\x` decoded, for the seven named escapes.
pub open spec fn unesc_short(c: char) -> Option<char> {
    if c == '"' {
        Some('"')
    } else if c == '\\' {
        Some('\\')
    } else if c == 'b' {
        Some('\u{8}')
    } else if c == 't' {
        Some('\t')
    } else if c == 'n' {
        Some('\n')
    } else if c == 'f' {
        Some('\u{c}')
    } else if c == 'r' {
        Some('\r')
    } else {
        None
    }
}

pub open spec fn prepend_char(c: char, rest: Option<Seq<char>>) -> Option<Seq<char>> {
    match rest {
        Some(t) => Some(seq![c] + t),
        None => None,
    }
}

/// Decodes the body of a JSON string literal: the inverse of `json_escape`.
/// A lone backslash, an unknown escape, a raw quote and a raw control
/// character are malformed.
pub open spec fn json_unescape(s: Seq<char>) -> Option<Seq<char>>
    decreases s.len(),
{
    if s.len() == 0 {
        Some(Seq::empty())
    } else if s[0] == '\\' {
        if s.len() < 2 {
            None
        } else if s[1] == 'u' {
            if s.len() < 6 {
                None
            } else if s[2] == '0' && s[3] == '0' && hex_val(s[4]) >= 0 && hex_val(s[5]) >= 0 {
                prepend_char((16 * hex_val(s[4]) + hex_val(s[5])) as char, json_unescape(s.skip(6)))
            } else {
                None
            }
        } else {
            match unesc_short(s[1]) {
                Some(c) => prepend_char(c, json_unescape(s.skip(2))),
                None => None,
            }
        }
    } else if s[0] == '"' || (s[0] as int) < 32 {
        None
    } else {
        prepend_char(s[0], json_unescape(s.skip(1)))
    }
}

/// Decoding inverts encoding: a name escaped into a log line decodes back to
/// exactly the name that was escaped.
pub proof fn lemma_escape_round_trip(s: Seq<char>)
    ensures
        json_unescape(json_escape(s)) == Some(s),
    decreases s.len(),
{
    broadcast use vstd::utf8::char_is_scalar;

    if s.len() == 0 {
    } else {
        let c = s[0];
        let rest = s.drop_first();
        lemma_escape_round_trip(rest);
        let e = json_escape(s);
        assert(e == esc_char(c) + json_escape(rest));
        if c == '"' || c == '\\' || c == '\u{8}' || c == '\t' || c == '\n' || c == '\u{c}'
            || c == '\r' {
            assert(e.skip(2) =~= json_escape(rest));
            assert(json_unescape(e) == prepend_char(c, json_unescape(json_escape(rest))));
            assert(seq![c] + rest =~= s);
        } else if (c as int) < 32 {
            let hi = (c as int) / 16;
            let lo = (c as int) % 16;
            lemma_char_nonneg(c);
            assert(0 <= hi < 2 && 0 <= lo < 16);
            lemma_hex_round_trip(hi);
            lemma_hex_round_trip(lo);
            assert(e.skip(6) =~= json_escape(rest));
            assert(e[0] == '\\' && e[1] == 'u' && e[2] == '0' && e[3] == '0');
            assert(hex_val(e[4]) == hi && hex_val(e[5]) == lo);
            assert(16 * hi + lo == c as int);
            assert(((16 * hex_val(e[4]) + hex_val(e[5])) as char) == c);
            assert(json_unescape(e) == prepend_char(c, json_unescape(json_escape(rest))));
            assert(seq![c] + rest =~= s);
        } else {
            assert(e.skip(1) =~= json_escape(rest));
            assert(json_unescape(e) == prepend_char(c, json_unescape(json_escape(rest))));
            assert(seq![c] + rest =~= s);
        }
    }
}

/// The length of the body of a JSON string literal: the distance to the
/// first closing quote read outside an escape, or `-1` if none closes it.
pub open spec fn lit_body_len(s: Seq<char>) -> int
    decreases s.len(),
{
    if s.len() == 0 {
        -1
    } else if s[0] == '"' {
        0
    } else if s[0] == '\\' {
        if s.len() < 2 {
            -1
        } else {
            let r = lit_body_len(s.skip(2));
            if r < 0 {
                -1
            } else {
                2 + r
            }
        }
    } else {
        let r = lit_body_len(s.skip(1));
        if r < 0 {
            -1
        } else {
            1 + r
        }
    }
}

/// A hex digit is never one of the characters that end or open an escape.
pub proof fn lemma_hex_char_plain(d: int)
    requires
        0 <= d < 16,
    ensures
        hex_char(d) != '"',
        hex_char(d) != '\\',
{
    lemma_hex_round_trip(d);
    assert(hex_val('"') == -1);
    assert(hex_val('\\') == -1);
}

/// An escaped string runs exactly up to the quote that follows it: the
/// closing quote of a written string literal is found where the writer put
/// it, never inside the escaped body.
pub proof fn lemma_lit_body_len_escape(f: Seq<char>, t: Seq<char>)
    requires
        t.len() > 0,
        t[0] == '"',
    ensures
        lit_body_len(json_escape(f) + t) == json_escape(f).len(),
    decreases f.len(),
{
    broadcast use vstd::utf8::char_is_scalar;

    if f.len() == 0 {
        assert(json_escape(f) + t =~= t);
    } else {
        let c = f[0];
        let e = esc_char(c);
        let rest = json_escape(f.drop_first());
        lemma_lit_body_len_escape(f.drop_first(), t);
        let s = json_escape(f) + t;
        assert(s =~= e + (rest + t));
        assert(lit_body_len(rest + t) == rest.len());
        if c == '"' || c == '\\' || c == '\u{8}' || c == '\t' || c == '\n' || c == '\u{c}'
            || c == '\r' {
            assert(s[0] == '\\');
            assert(s.skip(2) =~= rest + t);
        } else if (c as int) < 32 {
            lemma_char_nonneg(c);
            let hi = (c as int) / 16;
            let lo = (c as int) % 16;
            lemma_hex_char_plain(hi);
            lemma_hex_char_plain(lo);
            assert(s[0] == '\\');
            let s2 = s.skip(2);
            assert(s2 =~= seq!['0', '0', hex_char(hi), hex_char(lo)] + (rest + t));
            let s3 = s2.skip(1);
            let s4 = s2.skip(2);
            let s5 = s2.skip(3);
            let s6 = s2.skip(4);
            assert(s3 =~= seq!['0', hex_char(hi), hex_char(lo)] + (rest + t));
            assert(s4 =~= seq![hex_char(hi), hex_char(lo)] + (rest + t));
            assert(s5 =~= seq![hex_char(lo)] + (rest + t));
            assert(s6 =~= rest + t);
            assert(s2[0] == '0' && s2[0] != '"' && s2[0] != '\\');
            assert(s3[0] == '0' && s3[0] != '"' && s3[0] != '\\');
            assert(s4[0] == hex_char(hi));
            assert(s5[0] == hex_char(lo));
            assert(s2.skip(1) =~= s3);
            assert(s3.skip(1) =~= s4);
            assert(s4.skip(1) =~= s5);
            assert(s5.skip(1) =~= s6);
            assert(lit_body_len(s5) == 1 + lit_body_len(s6));
            assert(lit_body_len(s4) == 2 + lit_body_len(s6));
            assert(lit_body_len(s3) == 3 + lit_body_len(s6));
            assert(lit_body_len(s2) == 4 + lit_body_len(s6));
            assert(lit_body_len(s) == 6 + lit_body_len(s6));
        } else {
            assert(s[0] == c && c != '"' && c != '\\');
            assert(s.skip(1) =~= rest + t);
        }
    }
}

/// `lit + x` stripped of `lit` is `x`.
pub open spec fn strip_prefix(s: Seq<char>, lit: Seq<char>) -> Option<Seq<char>> {
    if s.len() >= lit.len() && s.take(lit.len() as int) == lit {
        Some(s.skip(lit.len() as int))
    } else {
        None
    }
}

pub proof fn lemma_strip_prefix(lit: Seq<char>, x: Seq<char>)
    ensures
        strip_prefix(lit + x, lit) == Some(x),
{
    assert((lit + x).take(lit.len() as int) =~= lit);
    assert((lit + x).skip(lit.len() as int) =~= x);
}

/// Relies on std's String::push: appends exactly the one character.
#[verifier::external_body]
fn push_char(s: &mut String, c: char)
    ensures
        final(s)@ == old(s)@.push(c),
{
    s.push(c);
}

/// The lowercase hex digit character for `d`.
fn hex_digit(d: u32) -> (c: char)
    requires
        d < 16,
    ensures
        c == hex_char(d as int),
{
    let b: u8 = if d < 10 {
        48 + (d as u8)
    } else {
        97 + (d as u8 - 10)
    };
    b as char
}

/// Escapes `s` as the body of a JSON string literal.
pub fn escape_string(s: &str) -> (r: String)
    ensures
        r@ == json_escape(s@),
{
    let n: usize = s.unicode_len();
    let mut out = String::new();
    proof {
        assert(s@.take(0) =~= Seq::<char>::empty());
    }
    let mut i: usize = 0;
    while i < n
        invariant
            i <= n,
            n == s@.len(),
            out@ == json_escape(s@.take(i as int)),
        decreases n - i,
    {
        let c = s.get_char(i);
        proof {
            lemma_char_nonneg(c);
            lemma_json_escape_snoc(s@.take(i as int), c);
            assert(s@.take(i as int + 1) =~= s@.take(i as int).push(s@[i as int]));
        }
        if c == '"' {
            out.append("\\\"");
            proof {
                reveal_strlit("\\\"");
                assert("\\\""@ =~= esc_char(c));
            }
        } else if c == '\\' {
            out.append("\\\\");
            proof {
                reveal_strlit("\\\\");
                assert("\\\\"@ =~= esc_char(c));
            }
        } else if c == '\u{8}' {
            out.append("\\b");
            proof {
                reveal_strlit("\\b");
                assert("\\b"@ =~= esc_char(c));
            }
        } else if c == '\t' {
            out.append("\\t");
            proof {
                reveal_strlit("\\t");
                assert("\\t"@ =~= esc_char(c));
            }
        } else if c == '\n' {
            out.append("\\n");
            proof {
                reveal_strlit("\\n");
                assert("\\n"@ =~= esc_char(c));
            }
        } else if c == '\u{c}' {
            out.append("\\f");
            proof {
                reveal_strlit("\\f");
                assert("\\f"@ =~= esc_char(c));
            }
        } else if c == '\r' {
            out.append("\\r");
            proof {
                reveal_strlit("\\r");
                assert("\\r"@ =~= esc_char(c));
            }
        } else if (c as u32) < 32 {
            out.append("\\u00");
            let v: u32 = c as u32;
            let h = hex_digit(v / 16);
            let l = hex_digit(v % 16);
            push_char(&mut out, h);
            push_char(&mut out, l);
            proof {
                reveal_strlit("\\u00");
                assert((c as int) / 16 == (v / 16) as int);
                assert((c as int) % 16 == (v % 16) as int);
                assert(out@ =~= json_escape(s@.take(i as int)) + esc_char(c));
            }
        } else {
            push_char(&mut out, c);
            proof {
                assert(out@ =~= json_escape(s@.take(i as int)) + esc_char(c));
            }
        }
        i = i + 1;
    }
    proof {
        assert(s@.take(n as int) =~= s@);
    }
    out
}

/// A character that can stand in the loose shape of a JSON number.
pub open spec fn is_number_char(c: char) -> bool {
    ('0' <= c && c <= '9') || c == '-' || c == '+' || c == '.' || c == 'e' || c == 'E'
}

/// The loose shape of a JSON number: nonempty text of signs, digits, dots
/// and exponent markers. Every number a JSON writer renders matches it, and
/// no delimiter of the surrounding object does.
pub open spec fn is_number_text(s: Seq<char>) -> bool {
    s.len() > 0 && forall|i: int| 0 <= i < s.len() ==> is_number_char(s[i])
}

/// Checks that `s` has the loose shape of a JSON number.
pub fn check_number_text(s: &str) -> (r: bool)
    ensures
        r == is_number_text(s@),
{
    let n: usize = s.unicode_len();
    if n == 0 {
        return false;
    }
    let mut i: usize = 0;
    while i < n
        invariant
            i <= n,
            n == s@.len(),
            forall|j: int| 0 <= j < i ==> is_number_char(s@[j]),
        decreases n - i,
    {
        let c = s.get_char(i);
        if !(('0' <= c && c <= '9') || c == '-' || c == '+' || c == '.' || c == 'e' || c == 'E') {
            return false;
        }
        i = i + 1;
    }
    true
}

} // verus!
