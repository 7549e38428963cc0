//! The JSON reader: a fail-fast recursive-descent parser from text to a
//! JSON tree.
//!
//! The reader classifies every failure: `Eof` when the input ends where more
//! was required (an empty input included), `Syntax` for an invalid token or
//! structure.  A number with a fraction or an exponent, or one outside
//! `i64`, is syntactically accepted and read as [`JsonValue::BigNum`]; the
//! structural decode then rejects it wherever an integer is required.
//! Nesting is bounded: arrays and objects deeper than the fixed limit are a
//! syntax violation rather than unbounded recursion.

use vstd::prelude::*;

use crate::chars::{char_from_u32, chars_of, is_scalar_value, push_char};
use crate::error::{JsonError, JsonErrorKind};
use crate::json::{JsonRep, JsonValue};
use crate::print::{digit_val, digits_val, esc_char, int_text, is_digit, json_text, nat_text, str_text};

verus! {

/// The nesting depth the reader accepts before it calls the input malformed.
pub const MAX_DEPTH: u32 = 128;

/// The four JSON whitespace characters.
pub open spec fn is_ws(c: char) -> bool {
    c == ' ' || c == '\t' || c == '\n' || c == '\r'
}

/// A premature-end-of-input error at `pos`.
fn eof_err(pos: usize) -> (r: JsonError)
    ensures
        r.kind is Eof,
        r.pos == pos,
{
    JsonError { kind: JsonErrorKind::Eof, pos }
}

/// A syntax-violation error at `pos`.
fn syn_err(pos: usize) -> (r: JsonError)
    ensures
        r.kind is Syntax,
        r.pos == pos,
{
    JsonError { kind: JsonErrorKind::Syntax, pos }
}

/// The first position at or after `pos` that does not hold whitespace.
fn skip_ws(s: &Vec<char>, pos: usize) -> (r: usize)
    requires
        pos <= s@.len(),
    ensures
        pos <= r <= s@.len(),
        forall|j: int| pos <= j < r ==> is_ws(s@[j]),
        r < s@.len() ==> !is_ws(s@[r as int]),
{
    let n = s.len();
    let mut i: usize = pos;
    while i < n
        invariant
            pos <= i <= n,
            n == s@.len(),
            forall|j: int| pos <= j < i ==> is_ws(s@[j]),
        decreases n - i,
    {
        let c = s[i];
        if !(c == ' ' || c == '\t' || c == '\n' || c == '\r') {
            return i;
        }
        i = i + 1;
    }
    i
}

/// The value of a hexadecimal digit character, in spec.
pub open spec fn spec_hex_val(c: char) -> Option<u32> {
    if '0' <= c && c <= '9' {
        Some((c as u32 - 48) as u32)
    } else if 'a' <= c && c <= 'f' {
        Some((c as u32 - 87) as u32)
    } else if 'A' <= c && c <= 'F' {
        Some((c as u32 - 55) as u32)
    } else {
        None
    }
}

/// The value of a hexadecimal digit character, if it is one.
fn hex_val(c: char) -> (r: Option<u32>)
    ensures
        r == spec_hex_val(c),
        r matches Some(d) ==> d < 16,
{
    if c >= '0' && c <= '9' {
        Some((c as u32) - ('0' as u32))
    } else if c >= 'a' && c <= 'f' {
        Some((c as u32) - ('a' as u32) + 10)
    } else if c >= 'A' && c <= 'F' {
        Some((c as u32) - ('A' as u32) + 10)
    } else {
        None
    }
}

/// Reads exactly four hexadecimal digits at `pos`.
fn read_hex4(s: &Vec<char>, pos: usize) -> (r: Result<(u32, usize), JsonError>)
    requires
        pos <= s@.len(),
    ensures
        match r {
            Ok((u, q)) => u < 0x10000 && q == pos + 4 && q <= s@.len() && pos + 4 <= s@.len()
                && spec_hex_val(s@[pos as int]) is Some && spec_hex_val(s@[pos + 1]) is Some
                && spec_hex_val(s@[pos + 2]) is Some && spec_hex_val(s@[pos + 3]) is Some && u
                == spec_hex_val(s@[pos as int]).unwrap() * 0x1000 + spec_hex_val(
                s@[pos + 1],
            ).unwrap() * 0x100 + spec_hex_val(s@[pos + 2]).unwrap() * 0x10 + spec_hex_val(
                s@[pos + 3],
            ).unwrap(),
            Err(e) => (e.kind is Eof || e.kind is Syntax) && e.pos <= s@.len(),
        },
        (pos + 4 <= s@.len() && spec_hex_val(s@[pos as int]) is Some && spec_hex_val(
            s@[pos + 1],
        ) is Some && spec_hex_val(s@[pos + 2]) is Some && spec_hex_val(s@[pos + 3]) is Some)
            ==> r is Ok,
{
    let n = s.len();
    let mut u: u32 = 0;
    let mut i: usize = 0;
    while i < 4
        invariant
            i <= 4,
            n == s@.len(),
            pos + i <= n,
            u < 0x10000,
            i == 0 ==> u == 0,
            i == 1 ==> u < 0x10,
            i == 2 ==> u < 0x100,
            i == 3 ==> u < 0x1000,
            i >= 1 ==> spec_hex_val(s@[pos as int]) is Some,
            i >= 2 ==> spec_hex_val(s@[pos + 1]) is Some,
            i >= 3 ==> spec_hex_val(s@[pos + 2]) is Some,
            i >= 4 ==> spec_hex_val(s@[pos + 3]) is Some,
            i == 1 ==> u == spec_hex_val(s@[pos as int]).unwrap(),
            i == 2 ==> u == spec_hex_val(s@[pos as int]).unwrap() * 0x10 + spec_hex_val(
                s@[pos + 1],
            ).unwrap(),
            i == 3 ==> u == spec_hex_val(s@[pos as int]).unwrap() * 0x100 + spec_hex_val(
                s@[pos + 1],
            ).unwrap() * 0x10 + spec_hex_val(s@[pos + 2]).unwrap(),
            i == 4 ==> u == spec_hex_val(s@[pos as int]).unwrap() * 0x1000 + spec_hex_val(
                s@[pos + 1],
            ).unwrap() * 0x100 + spec_hex_val(s@[pos + 2]).unwrap() * 0x10 + spec_hex_val(
                s@[pos + 3],
            ).unwrap(),
        decreases 4 - i,
    {
        if pos + i == n {
            return Err(eof_err(n));
        }
        match hex_val(s[pos + i]) {
            Some(d) => {
                u = u * 16 + d;
            },
            None => {
                return Err(syn_err(pos + i));
            },
        }
        i = i + 1;
    }
    Ok((u, pos + 4))
}

/// The escape of the character `c` stands at `i` in `s`, in backslash form.
pub open spec fn esc_at(s: Seq<char>, i: int, c: char) -> bool {
    esc_char(c)[0] == '\\' && text_at(s, i, esc_char(c))
}

/// A hexadecimal digit character reads back as its value.
proof fn lemma_hex_digit_val(d: int)
    requires
        0 <= d < 16,
    ensures
        spec_hex_val(crate::print::hex_digit(d)) == Some(d as u32),
{
}

/// Reads one escape sequence starting at the backslash, producing the
/// character it denotes.  Where a character's canonical escape stands at
/// `pos`, exactly that character is read.
#[verifier::rlimit(20)]
fn parse_escape(s: &Vec<char>, pos: usize) -> (r: Result<(char, usize), JsonError>)
    requires
        pos < s@.len(),
    ensures
        match r {
            Ok((c, q)) => pos < q <= s@.len(),
            Err(e) => (e.kind is Eof || e.kind is Syntax) && e.pos <= s@.len(),
        },
        forall|c: char| #[trigger]
            esc_at(s@, pos as int, c) ==> r is Ok && r->Ok_0.0 == c && r->Ok_0.1 == pos
                + esc_char(c).len(),
{
    let n = s.len();
    proof {
        assert forall|c: char| esc_at(s@, pos as int, c) implies crate::print::esc_char(
            c,
        ).len() >= 2 && s@[pos as int] == esc_char(c)[0] && pos + 1 < n && s@[pos + 1]
            == esc_char(c)[1] by {
            crate::print::lemma_esc_char(c);
            lemma_text_at_index(s@, pos as int, esc_char(c), 0);
            lemma_text_at_index(s@, pos as int, esc_char(c), 1);
        }
    }
    if pos + 1 == n {
        return Err(eof_err(n));
    }
    let e = s[pos + 1];
    if e == '"' {
        proof {
            assert forall|c: char| esc_at(s@, pos as int, c) implies c == '"' by {
                crate::print::lemma_esc_char(c);
            }
        }
        Ok(('"', pos + 2))
    } else if e == '\\' {
        proof {
            assert forall|c: char| esc_at(s@, pos as int, c) implies c == '\\' by {
                crate::print::lemma_esc_char(c);
            }
        }
        Ok(('\\', pos + 2))
    } else if e == '/' {
        proof {
            assert forall|c: char| esc_at(s@, pos as int, c) implies false by {
                crate::print::lemma_esc_char(c);
            }
        }
        Ok(('/', pos + 2))
    } else if e == 'b' {
        proof {
            assert forall|c: char| esc_at(s@, pos as int, c) implies c == '\u{8}' by {
                crate::print::lemma_esc_char(c);
            }
        }
        Ok(('\u{8}', pos + 2))
    } else if e == 'f' {
        proof {
            assert forall|c: char| esc_at(s@, pos as int, c) implies c == '\u{c}' by {
                crate::print::lemma_esc_char(c);
            }
        }
        Ok(('\u{c}', pos + 2))
    } else if e == 'n' {
        proof {
            assert forall|c: char| esc_at(s@, pos as int, c) implies c == '\n' by {
                crate::print::lemma_esc_char(c);
            }
        }
        Ok(('\n', pos + 2))
    } else if e == 'r' {
        proof {
            assert forall|c: char| esc_at(s@, pos as int, c) implies c == '\r' by {
                crate::print::lemma_esc_char(c);
            }
        }
        Ok(('\r', pos + 2))
    } else if e == 't' {
        proof {
            assert forall|c: char| esc_at(s@, pos as int, c) implies c == '\t' by {
                crate::print::lemma_esc_char(c);
            }
        }
        Ok(('\t', pos + 2))
    } else if e == 'u' {
        proof {
            assert forall|c: char| esc_at(s@, pos as int, c) implies (c as u32) < 0x20 && pos + 6
                <= n && spec_hex_val(s@[pos + 2]) == Some(0u32) && spec_hex_val(s@[pos + 3])
                == Some(0u32) && spec_hex_val(s@[pos + 4]) == Some((c as u32) / 16) && spec_hex_val(
                s@[pos + 5],
            ) == Some((c as u32) % 16) && esc_char(c).len() == 6 by {
                crate::print::lemma_esc_char(c);
                lemma_text_at_index(s@, pos as int, esc_char(c), 2);
                lemma_text_at_index(s@, pos as int, esc_char(c), 3);
                lemma_text_at_index(s@, pos as int, esc_char(c), 4);
                lemma_text_at_index(s@, pos as int, esc_char(c), 5);
                lemma_hex_digit_val((c as u32) as int / 16);
                lemma_hex_digit_val((c as u32) as int % 16);
                assert(spec_hex_val('0') == Some(0u32));
            }
        }
        let (hi, q) = match read_hex4(s, pos + 2) {
            Ok(p) => p,
            Err(er) => {
                return Err(er);
            },
        };
        if hi >= 0xD800 && hi <= 0xDBFF {
            // A high surrogate: its low partner must follow.
            if n - q < 2 {
                return Err(eof_err(n));
            }
            if !(s[q] == '\\' && s[q + 1] == 'u') {
                return Err(syn_err(q));
            }
            let (lo, q2) = match read_hex4(s, q + 2) {
                Ok(p) => p,
                Err(er) => {
                    return Err(er);
                },
            };
            if !(lo >= 0xDC00 && lo <= 0xDFFF) {
                return Err(syn_err(q + 2));
            }
            let u: u32 = 0x10000 + (hi - 0xD800) * 0x400 + (lo - 0xDC00);
            proof {
                assert(is_scalar_value(u));
            }
            match char_from_u32(u) {
                Some(ch) => Ok((ch, q2)),
                None => Err(syn_err(pos)),
            }
        } else if hi >= 0xDC00 && hi <= 0xDFFF {
            // A lone low surrogate is not a scalar value.
            Err(syn_err(pos + 2))
        } else {
            proof {
                assert(is_scalar_value(hi));
            }
            match char_from_u32(hi) {
                Some(ch) => {
                    proof {
                        assert forall|c: char| esc_at(s@, pos as int, c) implies ch == c && q == pos
                            + esc_char(c).len() by {
                            crate::print::lemma_esc_char(c);
                            assert(spec_hex_val(s@[pos + 2]) == Some(0u32));
                            assert(spec_hex_val(s@[pos + 3]) == Some(0u32));
                            assert(spec_hex_val(s@[pos + 4]) == Some((c as u32) / 16));
                            assert(spec_hex_val(s@[pos + 5]) == Some((c as u32) % 16));
                            assert(hi == ((c as u32) / 16) * 16 + (c as u32) % 16);
                            assert((c as u32) / 16 * 16 + (c as u32) % 16 == c as u32);
                            assert(hi == c as u32);
                            assert(is_scalar_value(hi));
                            assert(ch == hi as char);
                            vstd::utf8::char_u32_cast(c, hi);
                            assert(ch == c);
                        }
                    }
                    Ok((ch, q))
                },
                None => Err(syn_err(pos)),
            }
        }
    } else {
        proof {
            assert forall|c: char| esc_at(s@, pos as int, c) implies false by {
                crate::print::lemma_esc_char(c);
            }
        }
        Err(syn_err(pos + 1))
    }
}

/// The escaped text of `t`, followed by a closing quote, stands at `i`.
pub open spec fn str_body_at(s: Seq<char>, i: int, t: Seq<char>) -> bool {
    text_at(s, i, str_text(t).push('"'))
}

/// Reads a string body starting just after the opening quote, decoding the
/// escapes, up to and including the closing quote.  Where the canonical
/// quoted form of a string stands at `pos`, exactly that string is read.
#[verifier::loop_isolation(false)]
fn parse_string(s: &Vec<char>, pos: usize) -> (r: Result<(String, usize), JsonError>)
    requires
        pos <= s@.len(),
    ensures
        match r {
            Ok((st, q)) => pos < q <= s@.len(),
            Err(e) => (e.kind is Eof || e.kind is Syntax) && e.pos <= s@.len(),
        },
        forall|t: Seq<char>| #[trigger]
            str_body_at(s@, pos as int, t) ==> r is Ok && r->Ok_0.0@ == t && r->Ok_0.1 == pos
                + str_text(t).len() + 1,
{
    let n = s.len();
    let mut out = String::new();
    let mut cur: usize = pos;
    proof {
        assert(str_text(Seq::<char>::empty()) == Seq::<char>::empty());
        assert forall|t: Seq<char>| #[trigger] str_body_at(s@, pos as int, t) implies out@.len()
            <= t.len() && out@ == t.take(out@.len() as int) && cur as int == pos + str_text(
            t.take(out@.len() as int),
        ).len() by {
            assert(out@ =~= t.take(0));
            assert(str_text(t.take(0)) =~= Seq::<char>::empty());
        }
    }
    while cur < n
        invariant
            pos <= cur <= n,
            forall|t: Seq<char>| #[trigger]
                str_body_at(s@, pos as int, t) ==> out@.len() <= t.len() && out@ == t.take(
                    out@.len() as int,
                ) && cur as int == pos + str_text(t.take(out@.len() as int)).len(),
        decreases n - cur,
    {
        let ghost k = out@.len() as int;
        let ghost old_out = out@;
        let ghost old_cur = cur as int;
        proof {
            assert forall|t: Seq<char>| #[trigger] str_body_at(s@, pos as int, t) implies text_at(
                s@,
                old_cur,
                str_text(t.skip(k)).push('"'),
            ) && (t.len() > k ==> str_text(t.skip(k)) == esc_char(t[k]) + str_text(
                t.skip(k + 1),
            )) by {
                crate::print::lemma_str_text_split(t, k);
                assert(str_text(t) =~= str_text(t.take(k)) + str_text(t.skip(k)));
                assert(str_text(t).push('"') =~= str_text(t.take(k)) + str_text(t.skip(k)).push(
                    '"',
                ));
                lemma_text_at_concat(
                    s@,
                    pos as int,
                    str_text(t.take(k)),
                    str_text(t.skip(k)).push('"'),
                );
                if t.len() > k {
                    crate::print::lemma_str_text_head(t.skip(k));
                    assert(t.skip(k)[0] == t[k]);
                    assert(t.skip(k).skip(1) =~= t.skip(k + 1));
                }
            }
        }
        let c = s[cur];
        if c == '"' {
            proof {
                assert forall|t: Seq<char>| #[trigger] str_body_at(s@, pos as int, t) implies out@
                    == t && cur + 1 == pos + str_text(t).len() + 1 by {
                    if t.len() > k {
                        crate::print::lemma_esc_char(t[k]);
                        lemma_text_at_index(
                            s@,
                            old_cur,
                            str_text(t.skip(k)).push('"'),
                            0,
                        );
                        assert((esc_char(t[k]) + str_text(t.skip(k + 1))).push('"')[0] == esc_char(
                            t[k],
                        )[0]);
                    }
                    assert(t.len() == k);
                    assert(t.take(k) =~= t);
                }
            }
            return Ok((out, cur + 1));
        }
        if c == '\\' {
            proof {
                assert forall|t: Seq<char>| #[trigger] str_body_at(s@, pos as int, t) implies t.len()
                    > k && esc_at(s@, old_cur, t[k]) by {
                    lemma_text_at_index(s@, old_cur, str_text(t.skip(k)).push('"'), 0);
                    if t.len() > k {
                        crate::print::lemma_esc_char(t[k]);
                        assert((esc_char(t[k]) + str_text(t.skip(k + 1))).push('"')[0] == esc_char(
                            t[k],
                        )[0]);
                        assert(esc_char(t[k])[0] == '\\');
                        let tail = str_text(t.skip(k + 1)).push('"');
                        assert((esc_char(t[k]) + str_text(t.skip(k + 1))).push('"') =~= esc_char(
                            t[k],
                        ) + tail);
                        lemma_text_at_concat(s@, old_cur, esc_char(t[k]), tail);
                    }
                }
            }
            match parse_escape(s, cur) {
                Ok((ch, q)) => {
                    push_char(&mut out, ch);
                    cur = q;
                    proof {
                        assert forall|t: Seq<char>| #[trigger] str_body_at(
                            s@,
                            pos as int,
                            t,
                        ) implies out@.len() <= t.len() && out@ == t.take(out@.len() as int)
                            && cur as int == pos + str_text(t.take(out@.len() as int)).len() by {
                            assert(ch == t[k]);
                            assert(out@ =~= t.take(k + 1));
                            assert(t.take(k + 1) =~= t.take(k).push(t[k]));
                            crate::print::lemma_str_text_push(t.take(k), t[k]);
                        }
                    }
                },
                Err(e) => {
                    return Err(e);
                },
            }
        } else if (c as u32) < 0x20 {
            // A raw control character may not stand in a string.
            proof {
                assert forall|t: Seq<char>| #[trigger] str_body_at(s@, pos as int, t) implies
                false by {
                    lemma_text_at_index(s@, old_cur, str_text(t.skip(k)).push('"'), 0);
                    if t.len() > k {
                        crate::print::lemma_esc_char(t[k]);
                        assert((esc_char(t[k]) + str_text(t.skip(k + 1))).push('"')[0] == esc_char(
                            t[k],
                        )[0]);
                    }
                }
            }
            return Err(syn_err(cur));
        } else {
            push_char(&mut out, c);
            cur = cur + 1;
            proof {
                assert forall|t: Seq<char>| #[trigger] str_body_at(s@, pos as int, t) implies out@.len()
                    <= t.len() && out@ == t.take(out@.len() as int) && cur as int == pos
                    + str_text(t.take(out@.len() as int)).len() by {
                    lemma_text_at_index(s@, old_cur, str_text(t.skip(k)).push('"'), 0);
                    if t.len() > k {
                        crate::print::lemma_esc_char(t[k]);
                        assert((esc_char(t[k]) + str_text(t.skip(k + 1))).push('"')[0] == esc_char(
                            t[k],
                        )[0]);
                        assert(esc_char(t[k])[0] == c);
                        assert(esc_char(t[k]) == seq![t[k]]);
                        assert(t[k] == c);
                        assert(out@ =~= t.take(k + 1));
                        assert(t.take(k + 1) =~= t.take(k).push(t[k]));
                        crate::print::lemma_str_text_push(t.take(k), t[k]);
                        assert(str_text(t.take(k + 1)) =~= str_text(t.take(k)) + seq![t[k]]);
                    } else {
                        assert(false);
                    }
                }
            }
        }
    }
    proof {
        assert forall|t: Seq<char>| #[trigger] str_body_at(s@, pos as int, t) implies false by {
            crate::print::lemma_str_text_split(t, out@.len() as int);
        }
    }
    Err(eof_err(n))
}

/// Whether position `i` holds a decimal digit.
fn is_digit_pos(s: &Vec<char>, i: usize) -> (r: bool)
    requires
        i <= s@.len(),
    ensures
        r == (i < s@.len() && '0' <= s@[i as int] && s@[i as int] <= '9'),
{
    if i < s.len() {
        let c = s[i];
        c >= '0' && c <= '9'
    } else {
        false
    }
}

/// Reads a number starting at `pos` (a minus sign or a digit): an exactly
/// representable integer becomes [`JsonValue::Int`]; a number with a
/// fraction or an exponent, or one outside `i64`, becomes
/// [`JsonValue::BigNum`].  Where the text of an `i64` integer stands at
/// `pos`, undisturbed by what follows, exactly that integer is read.
#[verifier::loop_isolation(false)]
#[verifier::rlimit(30)]
fn parse_number(s: &Vec<char>, pos: usize) -> (r: Result<(JsonValue, usize), JsonError>)
    requires
        pos < s@.len(),
    ensures
        match r {
            Ok((v, q)) => pos < q <= s@.len(),
            Err(e) => (e.kind is Eof || e.kind is Syntax) && e.pos <= s@.len(),
        },
        forall|m: int| #[trigger]
            int_at(s@, pos as int, m) ==> r is Ok && r->Ok_0.0 == JsonValue::Int(m as i64)
                && r->Ok_0.1 == pos + int_text(m).len(),
{
    let n = s.len();
    let mut cur: usize = pos;
    let neg: bool = s[cur] == '-';
    if neg {
        cur = cur + 1;
        if cur == n {
            proof {
                assert forall|m: int| int_at(s@, pos as int, m) implies false by {
                    lemma_number_shape(s@, pos as int, m);
                }
            }
            return Err(eof_err(n));
        }
    }
    let ghost dstart: int = cur as int;
    // The integer part: one zero, or a nonzero digit followed by digits.
    let mut mag: u64 = 0;
    let mut overflow: bool = false;
    let c0 = s[cur];
    if c0 == '0' {
        cur = cur + 1;
    } else if c0 >= '1' && c0 <= '9' {
        mag = ((c0 as u32) - ('0' as u32)) as u64;
        cur = cur + 1;
        proof {
            assert(s@.subrange(dstart, dstart) =~= Seq::<char>::empty());
            assert(digits_val(s@.subrange(dstart, dstart)) == 0);
            lemma_digits_val_step_local(s@, dstart, dstart);
        }
        while is_digit_pos(s, cur)
            invariant
                dstart < cur <= n,
                forall|j: int| dstart <= j < cur ==> is_digit(#[trigger] s@[j]),
                !overflow ==> mag == digits_val(s@.subrange(dstart, cur as int)),
                overflow ==> digits_val(s@.subrange(dstart, cur as int)) > u64::MAX as int,
            decreases n - cur,
        {
            let d: u64 = ((s[cur] as u32) - ('0' as u32)) as u64;
            proof {
                lemma_digits_val_step_local(s@, dstart, cur as int);
                crate::print::lemma_digits_val_nonneg(s@.subrange(dstart, cur as int));
            }
            if mag > (0xFFFF_FFFF_FFFF_FFFFu64 - d) / 10 {
                proof {
                    let b: int = 0xFFFF_FFFF_FFFF_FFFFu64 as int - d as int;
                    if !overflow {
                        assert(10 * (b / 10) + b % 10 == b);
                        assert(mag as int * 10 + d as int > 0xFFFF_FFFF_FFFF_FFFFu64 as int);
                    }
                }
                overflow = true;
            } else {
                mag = mag * 10 + d;
            }
            cur = cur + 1;
        }
    } else {
        proof {
            assert forall|m: int| int_at(s@, pos as int, m) implies false by {
                lemma_number_shape(s@, pos as int, m);
            }
        }
        return Err(syn_err(cur));
    }
    let ghost stop: int = cur as int;
    proof {
        assert forall|m: int| int_at(s@, pos as int, m) implies stop == pos + int_text(m).len()
            && !overflow && mag == (if m < 0 {
            -m
        } else {
            m
        }) && neg == (m < 0) by {
            lemma_number_shape(s@, pos as int, m);
            let mg = if m < 0 { -m } else { m };
            if s@[dstart] == '0' {
                // Only zero's text starts with a zero digit.
                assert(mg == 0);
                assert(stop == dstart + 1);
                assert(s@.subrange(dstart, stop) =~= seq![s@[dstart]]);
                assert(seq![s@[dstart]].drop_last() =~= Seq::<char>::empty());
                assert(digits_val(seq![s@[dstart]]) == digit_val(s@[dstart]));
            } else {
                lemma_digit_run_locates(s@, pos as int, m, dstart, stop);
                crate::print::lemma_digits_val_nonneg(s@.subrange(dstart, stop));
            }
        }
    }
    // The optional fraction and exponent make the number inexact for this
    // model.
    let mut exact: bool = true;
    if cur < n && s[cur] == '.' {
        exact = false;
        cur = cur + 1;
        if cur == n {
            return Err(eof_err(n));
        }
        let c = s[cur];
        if !(c >= '0' && c <= '9') {
            return Err(syn_err(cur));
        }
        while is_digit_pos(s, cur)
            invariant
                pos < cur <= n,
            decreases n - cur,
        {
            cur = cur + 1;
        }
    }
    if cur < n && (s[cur] == 'e' || s[cur] == 'E') {
        exact = false;
        cur = cur + 1;
        if cur == n {
            return Err(eof_err(n));
        }
        if s[cur] == '+' || s[cur] == '-' {
            cur = cur + 1;
            if cur == n {
                return Err(eof_err(n));
            }
        }
        let c = s[cur];
        if !(c >= '0' && c <= '9') {
            return Err(syn_err(cur));
        }
        while is_digit_pos(s, cur)
            invariant
                pos < cur <= n,
            decreases n - cur,
        {
            cur = cur + 1;
        }
    }
    if !exact || overflow {
        return Ok((JsonValue::BigNum, cur));
    }
    if neg {
        if mag <= 0x7FFF_FFFF_FFFF_FFFFu64 {
            Ok((JsonValue::Int(-(mag as i64)), cur))
        } else if mag == 0x8000_0000_0000_0000u64 {
            Ok((JsonValue::Int(i64::MIN), cur))
        } else {
            Ok((JsonValue::BigNum, cur))
        }
    } else {
        if mag <= 0x7FFF_FFFF_FFFF_FFFFu64 {
            Ok((JsonValue::Int(mag as i64), cur))
        } else {
            Ok((JsonValue::BigNum, cur))
        }
    }
}

/// Extending a digit region one character to the right multiplies its value
/// by ten and adds the new digit.
proof fn lemma_digits_val_step_local(s: Seq<char>, a: int, b: int)
    requires
        0 <= a <= b < s.len(),
    ensures
        digits_val(s.subrange(a, b + 1)) == digits_val(s.subrange(a, b)) * 10 + digit_val(s[b]),
{
    assert(s.subrange(a, b + 1).drop_last() =~= s.subrange(a, b));
    assert(s.subrange(a, b + 1).last() == s[b]);
}

/// Expects the exact word `w` at `pos` (for `true`, `false` and `null`).
#[verifier::loop_isolation(false)]
fn expect_word(s: &Vec<char>, pos: usize, w: &str) -> (r: Result<usize, JsonError>)
    requires
        pos <= s@.len(),
        w@.len() >= 1,
    ensures
        match r {
            Ok(q) => pos < q <= s@.len() && q == pos + w@.len(),
            Err(e) => (e.kind is Eof || e.kind is Syntax) && e.pos <= s@.len(),
        },
        text_at(s@, pos as int, w@) ==> r is Ok,
{
    let n = s.len();
    let m = w.unicode_len();
    let mut j: usize = 0;
    while j < m
        invariant
            j <= m,
            pos + j <= n,
        decreases m - j,
    {
        if pos + j == n {
            proof {
                if text_at(s@, pos as int, w@) {
                    lemma_text_at_index(s@, pos as int, w@, j as int);
                }
            }
            return Err(eof_err(n));
        }
        if s[pos + j] != w.get_char(j) {
            proof {
                if text_at(s@, pos as int, w@) {
                    lemma_text_at_index(s@, pos as int, w@, j as int);
                }
            }
            return Err(syn_err(pos + j));
        }
        j = j + 1;
    }
    Ok(pos + m)
}


/// The canonical text of the tree `v` stands at `i`, followed by a number
/// separator, and `v` is a tree this library's writer could have produced
/// (no stand-in numbers, every integer an `i64`).
pub open spec fn value_at(s: Seq<char>, i: int, v: JsonRep) -> bool {
    &&& crate::json::num_free(v)
    &&& crate::json::ints_in_range(v)
    &&& text_at(s, i, json_text(v))
    &&& num_sep_at(s, i + json_text(v).len())
}

/// The canonical text of the array elements `a`, with the closing bracket,
/// stands at `i`.
pub open spec fn arr_body_at(s: Seq<char>, i: int, a: Seq<JsonRep>) -> bool {
    &&& crate::json::nums_free(a)
    &&& crate::json::arr_ints_in_range(a)
    &&& text_at(s, i, crate::print::arr_text(a).push(']'))
}

/// The canonical text of the object members `o`, with the closing brace,
/// stands at `i`.
pub open spec fn obj_body_at(s: Seq<char>, i: int, o: Seq<(Seq<char>, JsonRep)>) -> bool {
    &&& crate::json::members_num_free(o)
    &&& crate::json::members_ints_in_range(o)
    &&& text_at(s, i, crate::print::obj_text(o).push('}'))
}

/// Reads one JSON value whose first non-whitespace character is at or after
/// `pos`; `depth` is the nesting budget still available.  Where the
/// canonical text of a tree within the budget stands at `pos`, exactly that
/// tree is read.
#[verifier::loop_isolation(false)]
#[verifier::rlimit(60)]
fn parse_value(s: &Vec<char>, pos: usize, depth: u32) -> (r: Result<(JsonValue, usize), JsonError>)
    requires
        pos <= s@.len(),
    ensures
        match r {
            Ok((v, q)) => pos < q <= s@.len(),
            Err(e) => (e.kind is Eof || e.kind is Syntax) && e.pos <= s@.len(),
        },
        (forall|j: int| pos <= j < s@.len() ==> is_ws(s@[j])) ==> (r matches Err(e)
            && e.kind is Eof),
        forall|v: JsonRep| #[trigger]
            value_at(s@, pos as int, v) && crate::json::jdepth(v) <= depth ==> r is Ok
                && r->Ok_0.0@ == v && r->Ok_0.1 == pos + json_text(v).len(),
    decreases s@.len() - pos, 0int,
{
    let n = s.len();
    let cur = skip_ws(s, pos);
    proof {
        assert forall|v: JsonRep| value_at(s@, pos as int, v) && crate::json::jdepth(v)
            <= depth implies cur == pos && pos < n && s@[pos as int] == json_text(v)[0] by {
            crate::print::lemma_json_text_first(v);
            lemma_text_at_index(s@, pos as int, json_text(v), 0);
            if cur > pos {
                assert(is_ws(s@[pos as int]));
            }
        }
    }
    if cur == n {
        return Err(eof_err(n));
    }
    let c = s[cur];
    if c == '{' {
        proof {
            assert forall|v: JsonRep| value_at(s@, pos as int, v) && crate::json::jdepth(v)
                <= depth implies v is Obj && depth >= 1 && obj_body_at(s@, pos + 1, v->Obj_0)
                && crate::json::members_jdepth(v->Obj_0) <= (depth - 1) as u32 by {
                crate::print::lemma_json_text_first(v);
                let o = v->Obj_0;
                let body = crate::print::obj_text(o).push('}');
                assert(json_text(v) =~= seq!['{'] + body);
                lemma_text_at_concat(s@, pos as int, seq!['{'], body);
            }
        }
        if depth == 0 {
            return Err(syn_err(cur));
        }
        match parse_object(s, cur + 1, depth - 1) {
            Ok((o, q)) => {
                proof {
                    assert forall|v: JsonRep| value_at(s@, pos as int, v) && crate::json::jdepth(v)
                        <= depth implies JsonValue::Obj(o)@ == v && q == pos + json_text(
                        v,
                    ).len() by {
                        assert(crate::json::members_rep(o@) == v->Obj_0);
                        assert(json_text(v) =~= seq!['{'] + crate::print::obj_text(v->Obj_0).push(
                            '}',
                        ));
                    }
                }
                Ok((JsonValue::Obj(o), q))
            },
            Err(e) => Err(e),
        }
    } else if c == '[' {
        proof {
            assert forall|v: JsonRep| value_at(s@, pos as int, v) && crate::json::jdepth(v)
                <= depth implies v is Arr && depth >= 1 && arr_body_at(s@, pos + 1, v->Arr_0)
                && crate::json::arr_jdepth(v->Arr_0) <= (depth - 1) as u32 by {
                crate::print::lemma_json_text_first(v);
                let a = v->Arr_0;
                let body = crate::print::arr_text(a).push(']');
                assert(json_text(v) =~= seq!['['] + body);
                lemma_text_at_concat(s@, pos as int, seq!['['], body);
            }
        }
        if depth == 0 {
            return Err(syn_err(cur));
        }
        match parse_array(s, cur + 1, depth - 1) {
            Ok((a, q)) => {
                proof {
                    assert forall|v: JsonRep| value_at(s@, pos as int, v) && crate::json::jdepth(v)
                        <= depth implies JsonValue::Arr(a)@ == v && q == pos + json_text(
                        v,
                    ).len() by {
                        assert(crate::json::jsons_rep(a@) == v->Arr_0);
                        assert(json_text(v) =~= seq!['['] + crate::print::arr_text(v->Arr_0).push(
                            ']',
                        ));
                    }
                }
                Ok((JsonValue::Arr(a), q))
            },
            Err(e) => Err(e),
        }
    } else if c == '"' {
        proof {
            assert forall|v: JsonRep| value_at(s@, pos as int, v) && crate::json::jdepth(v)
                <= depth implies v is Str && str_body_at(s@, pos + 1, v->Str_0) by {
                crate::print::lemma_json_text_first(v);
                let body = str_text(v->Str_0).push('"');
                assert(json_text(v) =~= seq!['"'] + body);
                lemma_text_at_concat(s@, pos as int, seq!['"'], body);
            }
        }
        match parse_string(s, cur + 1) {
            Ok((st, q)) => {
                proof {
                    assert forall|v: JsonRep| value_at(s@, pos as int, v) && crate::json::jdepth(v)
                        <= depth implies JsonValue::Str(st)@ == v && q == pos + json_text(
                        v,
                    ).len() by {
                        assert(st@ == v->Str_0);
                        assert(json_text(v) =~= seq!['"'] + str_text(v->Str_0).push('"'));
                    }
                }
                Ok((JsonValue::Str(st), q))
            },
            Err(e) => Err(e),
        }
    } else if c == 't' {
        proof {
            reveal_strlit("true");
            assert("true"@ =~= seq!['t', 'r', 'u', 'e']);
            assert forall|v: JsonRep| value_at(s@, pos as int, v) && crate::json::jdepth(v)
                <= depth implies v == JsonRep::Bool(true) && text_at(s@, pos as int, "true"@)
                && json_text(v).len() == 4 by {
                crate::print::lemma_json_text_first(v);
                if v is Bool && !v->Bool_0 {
                    lemma_text_at_index(s@, pos as int, json_text(v), 0);
                }
            }
        }
        match expect_word(s, cur, "true") {
            Ok(q) => Ok((JsonValue::Bool(true), q)),
            Err(e) => Err(e),
        }
    } else if c == 'f' {
        proof {
            reveal_strlit("false");
            assert("false"@ =~= seq!['f', 'a', 'l', 's', 'e']);
            assert forall|v: JsonRep| value_at(s@, pos as int, v) && crate::json::jdepth(v)
                <= depth implies v == JsonRep::Bool(false) && text_at(s@, pos as int, "false"@)
                && json_text(v).len() == 5 by {
                crate::print::lemma_json_text_first(v);
                if v is Bool && v->Bool_0 {
                    lemma_text_at_index(s@, pos as int, json_text(v), 0);
                }
            }
        }
        match expect_word(s, cur, "false") {
            Ok(q) => Ok((JsonValue::Bool(false), q)),
            Err(e) => Err(e),
        }
    } else if c == 'n' {
        proof {
            reveal_strlit("null");
            assert("null"@ =~= seq!['n', 'u', 'l', 'l']);
            assert forall|v: JsonRep| value_at(s@, pos as int, v) && crate::json::jdepth(v)
                <= depth implies v == JsonRep::Null && text_at(s@, pos as int, "null"@)
                && json_text(v).len() == 4 by {
                crate::print::lemma_json_text_first(v);
            }
        }
        match expect_word(s, cur, "null") {
            Ok(q) => Ok((JsonValue::Null, q)),
            Err(e) => Err(e),
        }
    } else if c == '-' || (c >= '0' && c <= '9') {
        proof {
            assert forall|v: JsonRep| value_at(s@, pos as int, v) && crate::json::jdepth(v)
                <= depth implies v is Int && int_at(s@, pos as int, v->Int_0) by {
                crate::print::lemma_json_text_first(v);
            }
        }
        match parse_number(s, cur) {
            Ok((v, q)) => {
                proof {
                    assert forall|w: JsonRep| value_at(s@, pos as int, w) && crate::json::jdepth(w)
                        <= depth implies v@ == w by {
                        assert(v == JsonValue::Int(w->Int_0 as i64));
                    }
                }
                Ok((v, q))
            },
            Err(e) => Err(e),
        }
    } else {
        proof {
            assert forall|v: JsonRep| value_at(s@, pos as int, v) && crate::json::jdepth(v)
                <= depth implies false by {
                crate::print::lemma_json_text_first(v);
            }
        }
        Err(syn_err(cur))
    }
}

/// Reads the elements of an array, starting just after the opening bracket,
/// up to and including the closing bracket.
#[verifier::loop_isolation(false)]
#[verifier::rlimit(60)]
fn parse_array(s: &Vec<char>, pos: usize, depth: u32) -> (r: Result<
    (Vec<JsonValue>, usize),
    JsonError,
>)
    requires
        pos <= s@.len(),
    ensures
        match r {
            Ok((a, q)) => pos <= q <= s@.len(),
            Err(e) => (e.kind is Eof || e.kind is Syntax) && e.pos <= s@.len(),
        },
        forall|a: Seq<JsonRep>| #[trigger]
            arr_body_at(s@, pos as int, a) && crate::json::arr_jdepth(a) <= depth ==> r is Ok
                && crate::json::jsons_rep(r->Ok_0.0@) == a && r->Ok_0.1 == pos
                + crate::print::arr_text(a).len() + 1,
    decreases s@.len() - pos, 1int,
{
    let n = s.len();
    let mut out: Vec<JsonValue> = Vec::new();
    proof {
        assert forall|a: Seq<JsonRep>| arr_body_at(s@, pos as int, a) && crate::json::arr_jdepth(a)
            <= depth implies pos < n && (a.len() == 0 ==> s@[pos as int] == ']') && (a.len() > 0
            ==> s@[pos as int] == json_text(a[0])[0] && text_at(
            s@,
            pos as int,
            crate::print::arr_tail_text(a, 0).push(']'),
        )) by {
            crate::print::lemma_arr_text_as_tail(a, 0);
            if a.len() == 0 {
                assert(crate::print::arr_text(a).push(']') =~= seq![']']);
                lemma_text_at_index(s@, pos as int, seq![']'], 0);
            } else {
                assert(crate::print::arr_text(a) =~= crate::print::arr_tail_text(a, 0));
                crate::json::lemma_arr_elem(a, 0);
                crate::print::lemma_json_text_first(a[0]);
                let tail0 = crate::print::arr_tail_text(a, 0);
                assert(tail0[0] == json_text(a[0])[0]);
                lemma_text_at_index(s@, pos as int, tail0.push(']'), 0);
            }
        }
    }
    let first = skip_ws(s, pos);
    proof {
        assert forall|a: Seq<JsonRep>| arr_body_at(s@, pos as int, a) && crate::json::arr_jdepth(a)
            <= depth implies first == pos by {
            if a.len() > 0 {
                crate::json::lemma_arr_elem(a, 0);
                crate::print::lemma_json_text_first(a[0]);
            }
            if first > pos {
                assert(is_ws(s@[pos as int]));
            }
        }
    }
    if first == n {
        return Err(eof_err(n));
    }
    if s[first] == ']' {
        proof {
            assert forall|a: Seq<JsonRep>| arr_body_at(s@, pos as int, a)
                && crate::json::arr_jdepth(a) <= depth implies crate::json::jsons_rep(out@) == a
                && first + 1 == pos + crate::print::arr_text(a).len() + 1 by {
                if a.len() > 0 {
                    crate::json::lemma_arr_elem(a, 0);
                    crate::print::lemma_json_text_first(a[0]);
                }
                assert(a.len() == 0);
                assert(a =~= crate::json::jsons_rep(out@));
                assert(crate::print::arr_text(a).len() == 0);
            }
        }
        return Ok((out, first + 1));
    }
    let mut cur: usize = pos;
    proof {
        assert forall|a: Seq<JsonRep>| arr_body_at(s@, pos as int, a) && crate::json::arr_jdepth(a)
            <= depth implies invariant_arr(s@, pos as int, a, out@, cur as int) by {
            if a.len() == 0 {
                assert(s@[pos as int] == ']');
            }
            assert(out@.take(0) =~= Seq::<JsonValue>::empty());
            assert(a.take(0) =~= Seq::<JsonRep>::empty());
            crate::print::lemma_arr_text_as_tail(a, 0);
            assert(crate::print::arr_text(a) =~= crate::print::arr_tail_text(a, 0));
        }
    }
    loop
        invariant
            pos <= cur <= n,
            forall|a: Seq<JsonRep>| #[trigger]
                arr_body_at(s@, pos as int, a) && crate::json::arr_jdepth(a) <= depth
                    ==> invariant_arr(s@, pos as int, a, out@, cur as int),
        decreases n - cur,
    {
        let ghost k = out@.len() as int;
        let ghost old_out = out@;
        let ghost old_cur = cur as int;
        proof {
            assert forall|a: Seq<JsonRep>| arr_body_at(s@, pos as int, a)
                && crate::json::arr_jdepth(a) <= depth implies value_at(s@, old_cur, a[k])
                && crate::json::jdepth(a[k]) <= depth && k < a.len() by {
                crate::json::lemma_arr_elem(a, k);
                let tail = crate::print::arr_tail_text(a, k);
                if k == a.len() - 1 {
                    assert(tail.push(']') =~= json_text(a[k]).push(']'));
                    assert(json_text(a[k]).push(']') =~= json_text(a[k]) + seq![']']);
                    lemma_text_at_concat(s@, old_cur, json_text(a[k]), seq![']']);
                    lemma_text_at_index(s@, old_cur + json_text(a[k]).len(), seq![']'], 0);
                } else {
                    let rest = seq![','] + crate::print::arr_tail_text(a, k + 1);
                    assert(tail.push(']') =~= json_text(a[k]) + rest.push(']'));
                    lemma_text_at_concat(s@, old_cur, json_text(a[k]), rest.push(']'));
                    lemma_text_at_index(s@, old_cur + json_text(a[k]).len(), rest.push(']'), 0);
                }
            }
        }
        let elem = match parse_value(s, cur, depth) {
            Ok((v, q)) => {
                cur = q;
                v
            },
            Err(e) => {
                return Err(e);
            },
        };
        out.push(elem);
        proof {
            assert forall|a: Seq<JsonRep>| arr_body_at(s@, pos as int, a)
                && crate::json::arr_jdepth(a) <= depth implies crate::json::jsons_rep(out@)
                == a.take(k + 1) && cur as int == old_cur + json_text(a[k]).len() && (k + 1
                < a.len() ==> text_at(
                s@,
                cur as int,
                (seq![','] + crate::print::arr_tail_text(a, k + 1)).push(']'),
            )) && (k + 1 == a.len() ==> text_at(s@, cur as int, seq![']'])) && out@.len() == k
                + 1 by {
                assert(out@ == old_out.push(elem));
                crate::json::lemma_jsons_rep_push(old_out, elem);
                assert(crate::json::jsons_rep(old_out) == a.take(k));
                assert(elem@ == a[k]);
                assert(crate::json::jsons_rep(out@) == a.take(k).push(a[k]));
                assert(a.take(k).push(a[k]) =~= a.take(k + 1));
                let tail = crate::print::arr_tail_text(a, k);
                if k == a.len() - 1 {
                    assert(tail.push(']') =~= json_text(a[k]) + seq![']']);
                    lemma_text_at_concat(s@, old_cur, json_text(a[k]), seq![']']);
                } else {
                    let rest = seq![','] + crate::print::arr_tail_text(a, k + 1);
                    assert(tail.push(']') =~= json_text(a[k]) + rest.push(']'));
                    lemma_text_at_concat(s@, old_cur, json_text(a[k]), rest.push(']'));
                }
            }
        }
        let after = skip_ws(s, cur);
        proof {
            assert forall|a: Seq<JsonRep>| arr_body_at(s@, pos as int, a)
                && crate::json::arr_jdepth(a) <= depth implies after == cur && cur < n && (k + 1
                < a.len() ==> s@[cur as int] == ',') && (k + 1 == a.len() ==> s@[cur as int]
                == ']') by {
                if k + 1 < a.len() {
                    let rest = seq![','] + crate::print::arr_tail_text(a, k + 1);
                    lemma_text_at_index(s@, cur as int, rest.push(']'), 0);
                } else {
                    lemma_text_at_index(s@, cur as int, seq![']'], 0);
                }
                if after > cur {
                    assert(is_ws(s@[cur as int]));
                }
            }
        }
        let cur2 = after;
        if cur2 == n {
            return Err(eof_err(n));
        }
        let c = s[cur2];
        if c == ']' {
            proof {
                assert forall|a: Seq<JsonRep>| arr_body_at(s@, pos as int, a)
                    && crate::json::arr_jdepth(a) <= depth implies crate::json::jsons_rep(out@)
                    == a && cur2 + 1 == pos + crate::print::arr_text(a).len() + 1 by {
                    assert(k + 1 == a.len());
                    assert(a.take(k + 1) =~= a);
                    assert(crate::print::arr_tail_text(a, k).len() == json_text(a[k]).len());
                    assert(old_cur + crate::print::arr_tail_text(a, k).len() == pos
                        + crate::print::arr_text(a).len());
                }
            }
            return Ok((out, cur2 + 1));
        }
        if c != ',' {
            return Err(syn_err(cur2));
        }
        cur = cur2 + 1;
        proof {
            assert forall|a: Seq<JsonRep>| arr_body_at(s@, pos as int, a)
                && crate::json::arr_jdepth(a) <= depth implies invariant_arr(
                s@,
                pos as int,
                a,
                out@,
                cur as int,
            ) by {
                assert(k + 1 < a.len());
                let rest = seq![','] + crate::print::arr_tail_text(a, k + 1);
                assert(rest.push(']') =~= seq![','] + crate::print::arr_tail_text(a, k + 1).push(
                    ']',
                ));
                lemma_text_at_concat(
                    s@,
                    cur2 as int,
                    seq![','],
                    crate::print::arr_tail_text(a, k + 1).push(']'),
                );
            }
        }
    }
}

/// The state of the array loop: the elements read so far are an exact
/// prefix, and the rest's text, with the closing bracket, stands at the
/// current position.
pub open spec fn invariant_arr(
    s: Seq<char>,
    pos: int,
    a: Seq<JsonRep>,
    out: Seq<JsonValue>,
    cur: int,
) -> bool {
    &&& out.len() < a.len()
    &&& crate::json::jsons_rep(out) == a.take(out.len() as int)
    &&& text_at(s, cur, crate::print::arr_tail_text(a, out.len() as int).push(']'))
    &&& cur + crate::print::arr_tail_text(a, out.len() as int).len() == pos
        + crate::print::arr_text(a).len()
}

/// The state of the object loop, the same way.
pub open spec fn invariant_obj(
    s: Seq<char>,
    pos: int,
    o: Seq<(Seq<char>, JsonRep)>,
    out: Seq<(String, JsonValue)>,
    cur: int,
) -> bool {
    &&& out.len() < o.len()
    &&& crate::json::members_rep(out) == o.take(out.len() as int)
    &&& text_at(s, cur, crate::print::obj_tail_text(o, out.len() as int).push('}'))
    &&& cur + crate::print::obj_tail_text(o, out.len() as int).len() == pos
        + crate::print::obj_text(o).len()
}

/// Reads the members of an object, starting just after the opening brace,
/// up to and including the closing brace.  Members are kept in source
/// order, duplicate keys included; the structural decode deals with them.
#[verifier::loop_isolation(false)]
#[verifier::rlimit(60)]
fn parse_object(s: &Vec<char>, pos: usize, depth: u32) -> (r: Result<
    (Vec<(String, JsonValue)>, usize),
    JsonError,
>)
    requires
        pos <= s@.len(),
    ensures
        match r {
            Ok((o, q)) => pos <= q <= s@.len(),
            Err(e) => (e.kind is Eof || e.kind is Syntax) && e.pos <= s@.len(),
        },
        forall|o: Seq<(Seq<char>, JsonRep)>| #[trigger]
            obj_body_at(s@, pos as int, o) && crate::json::members_jdepth(o) <= depth ==> r is Ok
                && crate::json::members_rep(r->Ok_0.0@) == o && r->Ok_0.1 == pos
                + crate::print::obj_text(o).len() + 1,
    decreases s@.len() - pos, 1int,
{
    let n = s.len();
    let mut out: Vec<(String, JsonValue)> = Vec::new();
    proof {
        assert forall|o: Seq<(Seq<char>, JsonRep)>| obj_body_at(s@, pos as int, o)
            && crate::json::members_jdepth(o) <= depth implies pos < n && (o.len() == 0
            ==> s@[pos as int] == '}') && (o.len() > 0 ==> s@[pos as int] == '"' && text_at(
            s@,
            pos as int,
            crate::print::obj_tail_text(o, 0).push('}'),
        )) by {
            crate::print::lemma_obj_text_as_tail(o, 0);
            if o.len() == 0 {
                assert(crate::print::obj_text(o).push('}') =~= seq!['}']);
                lemma_text_at_index(s@, pos as int, seq!['}'], 0);
            } else {
                assert(crate::print::obj_text(o) =~= crate::print::obj_tail_text(o, 0));
                let tail0 = crate::print::obj_tail_text(o, 0);
                assert(crate::print::member_text(o[0])[0] == '"');
                assert(tail0[0] == '"');
                lemma_text_at_index(s@, pos as int, tail0.push('}'), 0);
            }
        }
    }
    let first = skip_ws(s, pos);
    proof {
        assert forall|o: Seq<(Seq<char>, JsonRep)>| obj_body_at(s@, pos as int, o)
            && crate::json::members_jdepth(o) <= depth implies first == pos by {
            if first > pos {
                assert(is_ws(s@[pos as int]));
            }
        }
    }
    if first == n {
        return Err(eof_err(n));
    }
    if s[first] == '}' {
        proof {
            assert forall|o: Seq<(Seq<char>, JsonRep)>| obj_body_at(s@, pos as int, o)
                && crate::json::members_jdepth(o) <= depth implies crate::json::members_rep(out@)
                == o && first + 1 == pos + crate::print::obj_text(o).len() + 1 by {
                assert(o.len() == 0);
                assert(o =~= crate::json::members_rep(out@));
                assert(crate::print::obj_text(o).len() == 0);
            }
        }
        return Ok((out, first + 1));
    }
    let mut cur: usize = pos;
    proof {
        assert forall|o: Seq<(Seq<char>, JsonRep)>| obj_body_at(s@, pos as int, o)
            && crate::json::members_jdepth(o) <= depth implies invariant_obj(
            s@,
            pos as int,
            o,
            out@,
            cur as int,
        ) by {
            if o.len() == 0 {
                assert(s@[pos as int] == '}');
            }
            assert(out@.take(0) =~= Seq::<(String, JsonValue)>::empty());
            assert(o.take(0) =~= Seq::<(Seq<char>, JsonRep)>::empty());
            crate::print::lemma_obj_text_as_tail(o, 0);
            assert(crate::print::obj_text(o) =~= crate::print::obj_tail_text(o, 0));
        }
    }
    loop
        invariant
            pos <= cur <= n,
            forall|o: Seq<(Seq<char>, JsonRep)>| #[trigger]
                obj_body_at(s@, pos as int, o) && crate::json::members_jdepth(o) <= depth
                    ==> invariant_obj(s@, pos as int, o, out@, cur as int),
        decreases n - cur,
    {
        let ghost k = out@.len() as int;
        let ghost old_out = out@;
        let ghost old_cur = cur as int;
        proof {
            // The pending member's parts, laid out at the current position.
            assert forall|o: Seq<(Seq<char>, JsonRep)>| obj_body_at(s@, pos as int, o)
                && crate::json::members_jdepth(o) <= depth implies k < o.len() && old_cur < n
                && s@[old_cur] == '"' && str_body_at(s@, old_cur + 1, o[k].0) by {
                let m = o[k];
                let mt = crate::print::member_text(m);
                let tail = crate::print::obj_tail_text(o, k);
                let rest: Seq<char> = if k == o.len() - 1 {
                    seq!['}']
                } else {
                    (seq![','] + crate::print::obj_tail_text(o, k + 1)).push('}')
                };
                assert(tail.push('}') =~= mt + rest);
                lemma_text_at_concat(s@, old_cur, mt, rest);
                let key_body = str_text(m.0).push('"');
                assert(mt =~= seq!['"'] + (key_body + (seq![':'] + json_text(m.1))));
                lemma_text_at_concat(
                    s@,
                    old_cur,
                    seq!['"'],
                    key_body + (seq![':'] + json_text(m.1)),
                );
                lemma_text_at_index(s@, old_cur, seq!['"'], 0);
                lemma_text_at_concat(s@, old_cur + 1, key_body, seq![':'] + json_text(m.1));
            }
        }
        let kstart = skip_ws(s, cur);
        proof {
            assert forall|o: Seq<(Seq<char>, JsonRep)>| obj_body_at(s@, pos as int, o)
                && crate::json::members_jdepth(o) <= depth implies kstart == old_cur by {
                if kstart > old_cur {
                    assert(is_ws(s@[old_cur]));
                }
            }
        }
        if kstart == n {
            return Err(eof_err(n));
        }
        if s[kstart] != '"' {
            return Err(syn_err(kstart));
        }
        let (key, after_key) = match parse_string(s, kstart + 1) {
            Ok(p) => p,
            Err(e) => {
                return Err(e);
            },
        };
        proof {
            assert forall|o: Seq<(Seq<char>, JsonRep)>| obj_body_at(s@, pos as int, o)
                && crate::json::members_jdepth(o) <= depth implies key@ == o[k].0 && after_key
                == old_cur + 1 + str_text(o[k].0).len() + 1 && after_key < n
                && s@[after_key as int] == ':' && value_at(s@, after_key + 1, o[k].1)
                && crate::json::jdepth(o[k].1) <= depth by {
                let m = o[k];
                let mt = crate::print::member_text(m);
                let tail = crate::print::obj_tail_text(o, k);
                let rest: Seq<char> = if k == o.len() - 1 {
                    seq!['}']
                } else {
                    (seq![','] + crate::print::obj_tail_text(o, k + 1)).push('}')
                };
                assert(tail.push('}') =~= mt + rest);
                lemma_text_at_concat(s@, old_cur, mt, rest);
                let key_body = str_text(m.0).push('"');
                assert(mt =~= seq!['"'] + (key_body + (seq![':'] + json_text(m.1))));
                lemma_text_at_concat(
                    s@,
                    old_cur,
                    seq!['"'],
                    key_body + (seq![':'] + json_text(m.1)),
                );
                lemma_text_at_concat(s@, old_cur + 1, key_body, seq![':'] + json_text(m.1));
                let vstart = old_cur + 1 + key_body.len();
                lemma_text_at_concat(s@, vstart, seq![':'], json_text(m.1));
                lemma_text_at_index(s@, vstart, seq![':'], 0);
                // What follows the member's value: a comma or the closing
                // brace, so a number there is undisturbed.
                crate::json::lemma_member_elem(o, k);
                lemma_text_at_index(s@, old_cur + mt.len(), rest, 0);
            }
        }
        let colon = skip_ws(s, after_key);
        proof {
            assert forall|o: Seq<(Seq<char>, JsonRep)>| obj_body_at(s@, pos as int, o)
                && crate::json::members_jdepth(o) <= depth implies colon == after_key by {
                if colon > after_key {
                    assert(is_ws(s@[after_key as int]));
                }
            }
        }
        if colon == n {
            return Err(eof_err(n));
        }
        if s[colon] != ':' {
            return Err(syn_err(colon));
        }
        let val = match parse_value(s, colon + 1, depth) {
            Ok((v, q)) => {
                cur = q;
                v
            },
            Err(e) => {
                return Err(e);
            },
        };
        out.push((key, val));
        proof {
            assert forall|o: Seq<(Seq<char>, JsonRep)>| obj_body_at(s@, pos as int, o)
                && crate::json::members_jdepth(o) <= depth implies crate::json::members_rep(out@)
                == o.take(k + 1) && out@.len() == k + 1 && cur as int == old_cur
                + crate::print::member_text(o[k]).len() && (k + 1 < o.len() ==> text_at(
                s@,
                cur as int,
                (seq![','] + crate::print::obj_tail_text(o, k + 1)).push('}'),
            )) && (k + 1 == o.len() ==> text_at(s@, cur as int, seq!['}'])) by {
                assert(out@ == old_out.push((key, val)));
                crate::json::lemma_members_rep_push(old_out, (key, val));
                assert(crate::json::members_rep(old_out) == o.take(k));
                assert(key@ == o[k].0 && val@ == o[k].1);
                assert(crate::json::members_rep(out@) == o.take(k).push(o[k]));
                assert(o.take(k).push(o[k]) =~= o.take(k + 1));
                let m = o[k];
                let mt = crate::print::member_text(m);
                let tail = crate::print::obj_tail_text(o, k);
                let rest: Seq<char> = if k == o.len() - 1 {
                    seq!['}']
                } else {
                    (seq![','] + crate::print::obj_tail_text(o, k + 1)).push('}')
                };
                assert(tail.push('}') =~= mt + rest);
                lemma_text_at_concat(s@, old_cur, mt, rest);
                assert(mt.len() == 1 + str_text(m.0).len() + 2 + json_text(m.1).len());
            }
        }
        let after = skip_ws(s, cur);
        proof {
            assert forall|o: Seq<(Seq<char>, JsonRep)>| obj_body_at(s@, pos as int, o)
                && crate::json::members_jdepth(o) <= depth implies after == cur && cur < n && (k + 1
                < o.len() ==> s@[cur as int] == ',') && (k + 1 == o.len() ==> s@[cur as int]
                == '}') by {
                if k + 1 < o.len() {
                    let rest = seq![','] + crate::print::obj_tail_text(o, k + 1);
                    lemma_text_at_index(s@, cur as int, rest.push('}'), 0);
                } else {
                    lemma_text_at_index(s@, cur as int, seq!['}'], 0);
                }
                if after > cur {
                    assert(is_ws(s@[cur as int]));
                }
            }
        }
        let cur2 = after;
        if cur2 == n {
            return Err(eof_err(n));
        }
        let c = s[cur2];
        if c == '}' {
            proof {
                assert forall|o: Seq<(Seq<char>, JsonRep)>| obj_body_at(s@, pos as int, o)
                    && crate::json::members_jdepth(o) <= depth implies crate::json::members_rep(
                    out@,
                ) == o && cur2 + 1 == pos + crate::print::obj_text(o).len() + 1 by {
                    assert(k + 1 == o.len());
                    assert(o.take(k + 1) =~= o);
                    assert(crate::print::obj_tail_text(o, k).len() == crate::print::member_text(
                        o[k],
                    ).len());
                    assert(old_cur + crate::print::obj_tail_text(o, k).len() == pos
                        + crate::print::obj_text(o).len());
                }
            }
            return Ok((out, cur2 + 1));
        }
        if c != ',' {
            return Err(syn_err(cur2));
        }
        cur = cur2 + 1;
        proof {
            assert forall|o: Seq<(Seq<char>, JsonRep)>| obj_body_at(s@, pos as int, o)
                && crate::json::members_jdepth(o) <= depth implies invariant_obj(
                s@,
                pos as int,
                o,
                out@,
                cur as int,
            ) by {
                assert(k + 1 < o.len());
                let rest = seq![','] + crate::print::obj_tail_text(o, k + 1);
                assert(rest.push('}') =~= seq![','] + crate::print::obj_tail_text(o, k + 1).push(
                    '}',
                ));
                lemma_text_at_concat(
                    s@,
                    cur2 as int,
                    seq![','],
                    crate::print::obj_tail_text(o, k + 1).push('}'),
                );
            }
        }
    }
}

/// Reads a whole text as one JSON value: leading and trailing whitespace is
/// allowed, anything else after the value is a syntax violation, and an
/// input of nothing but whitespace (an empty one included) is a
/// premature-end-of-input error.
pub fn parse_json_text(s: &str) -> (r: Result<JsonValue, JsonError>)
    ensures
        r matches Err(e) ==> (e.kind is Eof || e.kind is Syntax) && e.pos <= s@.len(),
        (forall|j: int| 0 <= j < s@.len() ==> is_ws(s@[j])) ==> (r matches Err(e)
            && e.kind is Eof),
        forall|v: JsonRep|
            crate::json::num_free(v) && crate::json::ints_in_range(v) && crate::json::jdepth(v)
                <= MAX_DEPTH && s@ == #[trigger] json_text(v) ==> r is Ok && r->Ok_0@ == v,
{
    let chars = chars_of(s);
    proof {
        assert forall|v: JsonRep|
            crate::json::num_free(v) && crate::json::ints_in_range(v) && crate::json::jdepth(v)
                <= MAX_DEPTH && s@ == #[trigger] json_text(v) implies value_at(
            chars@,
            0int,
            v,
        ) && crate::json::jdepth(v) <= MAX_DEPTH by {
            assert(chars@.subrange(0, json_text(v).len() as int) =~= json_text(v));
        }
    }
    match parse_value(&chars, 0, MAX_DEPTH) {
        Ok((v, q)) => {
            let after = skip_ws(&chars, q);
            if after == chars.len() {
                Ok(v)
            } else {
                Err(syn_err(after))
            }
        },
        Err(e) => Err(e),
    }
}


/// The text `t` stands in `s` at position `i`.
pub open spec fn text_at(s: Seq<char>, i: int, t: Seq<char>) -> bool {
    0 <= i && i + t.len() <= s.len() && s.subrange(i, i + t.len()) == t
}

/// A character that could continue a number token.
pub open spec fn num_cont(c: char) -> bool {
    is_digit(c) || c == '.' || c == 'e' || c == 'E'
}

/// Position `j` of `s` does not continue a number: it is the end of the
/// input or holds a character no number contains.
pub open spec fn num_sep_at(s: Seq<char>, j: int) -> bool {
    j == s.len() || !num_cont(s[j])
}

/// A text stands at `i` exactly when its two halves stand at `i` and just
/// after the first.
pub proof fn lemma_text_at_concat(s: Seq<char>, i: int, a: Seq<char>, b: Seq<char>)
    ensures
        text_at(s, i, a + b) <==> (text_at(s, i, a) && text_at(s, i + a.len(), b)),
{
    let la = a.len() as int;
    let lb = b.len() as int;
    if 0 <= i && i + la + lb <= s.len() {
        if s.subrange(i, i + la + lb) == a + b {
            assert forall|j: int| 0 <= j < la implies s.subrange(i, i + la)[j] == a[j] by {
                assert(s.subrange(i, i + la + lb)[j] == (a + b)[j]);
            }
            assert(s.subrange(i, i + la) =~= a);
            assert forall|j: int| 0 <= j < lb implies s.subrange(i + la, i + la + lb)[j]
                == b[j] by {
                assert(s.subrange(i, i + la + lb)[la + j] == (a + b)[la + j]);
            }
            assert(s.subrange(i + la, i + la + lb) =~= b);
        } else if s.subrange(i, i + la) == a && s.subrange(i + la, i + la + lb) == b {
            assert forall|j: int| 0 <= j < la + lb implies s.subrange(i, i + la + lb)[j] == (a
                + b)[j] by {
                if j < la {
                    assert(s.subrange(i, i + la)[j] == a[j]);
                } else {
                    assert(s.subrange(i + la, i + la + lb)[j - la] == b[j - la]);
                }
            }
            assert(s.subrange(i, i + la + lb) =~= a + b);
        }
    }
}

/// One character of a text that stands at `i`.
pub proof fn lemma_text_at_index(s: Seq<char>, i: int, t: Seq<char>, j: int)
    requires
        text_at(s, i, t),
        0 <= j < t.len(),
    ensures
        s[i + j] == t[j],
{
    assert(s.subrange(i, i + t.len())[j] == t[j]);
}

/// What the text of an integer in `i64` range, standing at `pos` and
/// followed by a number separator, forces on the characters of `s`: a minus
/// sign exactly for negative values, then the magnitude's digits, which no
/// digit follows.
proof fn lemma_number_shape(s: Seq<char>, pos: int, m: int)
    requires
        text_at(s, pos, int_text(m)),
        num_sep_at(s, pos + int_text(m).len()),
    ensures
        ({
            let mag = if m < 0 { -m } else { m };
            let dstart = if m < 0 { pos + 1 } else { pos };
            let dl = nat_text(mag as nat).len() as int;
            &&& pos < s.len()
            &&& (m < 0) == (s[pos] == '-')
            &&& dstart + dl == pos + int_text(m).len()
            &&& text_at(s, dstart, nat_text(mag as nat))
            &&& dl >= 1
            &&& (forall|j: int| dstart <= j < dstart + dl ==> is_digit(#[trigger] s[j]))
            &&& digits_val(s.subrange(dstart, dstart + dl)) == mag
            &&& (mag >= 1 ==> s[dstart] != '0')
            &&& (mag == 0 ==> dl == 1 && s[dstart] == '0')
            &&& (dstart + dl == s.len() || !num_cont(s[dstart + dl]))
        }),
{
    let mag = if m < 0 { -m } else { m };
    let dstart = if m < 0 { pos + 1 } else { pos };
    crate::print::lemma_nat_text(mag as nat);
    let nt = nat_text(mag as nat);
    let dl = nt.len() as int;
    if m < 0 {
        assert(int_text(m) == seq!['-'] + nt);
        lemma_text_at_concat(s, pos, seq!['-'], nt);
        lemma_text_at_index(s, pos, seq!['-'], 0);
    } else {
        assert(int_text(m) == nt);
    }
    lemma_text_at_index(s, dstart, nt, 0);
    assert forall|j: int| dstart <= j < dstart + dl implies is_digit(#[trigger] s[j]) by {
        lemma_text_at_index(s, dstart, nt, j - dstart);
    }
    assert(s.subrange(dstart, dstart + dl) == nt);
    if m >= 0 {
        assert(s[pos] == nt[0]);
        assert(is_digit(s[pos]));
        assert(s[pos] != '-');
    }
    if mag == 0 {
        assert(nt == seq![crate::print::dec_digit(0)]);
        assert(crate::print::dec_digit(0) == '0');
    }
}


/// The text of an `i64` integer stands at `i` in `s`, followed by a number
/// separator.
pub open spec fn int_at(s: Seq<char>, i: int, m: int) -> bool {
    i64::MIN <= m <= i64::MAX && text_at(s, i, int_text(m)) && num_sep_at(
        s,
        i + int_text(m).len(),
    )
}

/// A maximal digit run that starts where an integer's digits start ends
/// exactly where they end.
proof fn lemma_digit_run_locates(s: Seq<char>, pos: int, m: int, dstart: int, stop: int)
    requires
        i64::MIN <= m <= i64::MAX,
        text_at(s, pos, int_text(m)),
        num_sep_at(s, pos + int_text(m).len()),
        dstart == if m < 0 {
            pos + 1
        } else {
            pos
        },
        dstart < stop <= s.len(),
        forall|j: int| dstart <= j < stop ==> is_digit(#[trigger] s[j]),
        stop == s.len() || !is_digit(s[stop]),
    ensures
        stop == pos + int_text(m).len(),
        digits_val(s.subrange(dstart, stop)) == if m < 0 {
            -m
        } else {
            m
        },
{
    lemma_number_shape(s, pos, m);
    let mag = if m < 0 { -m } else { m };
    let dl = nat_text(mag as nat).len() as int;
    if stop < dstart + dl {
        assert(is_digit(s[stop]));
    }
    if stop > dstart + dl {
        assert(is_digit(s[dstart + dl]));
        assert(!num_cont(s[dstart + dl]));
    }
}

} // verus!
