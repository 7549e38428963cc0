//! The JSON writer: from a JSON tree to its wire text.
//!
//! The text is compact (no whitespace), with object members and array
//! elements in order, integers in decimal, and strings escaped the usual
//! way: `"` and `\` with a backslash, the named control escapes, and any
//! other control character as a four-digit hexadecimal escape.  The spec
//! functions define the produced text exactly; the writer is proved to
//! produce it.

use vstd::prelude::*;

use crate::chars::push_char;
use crate::encode::spec_transcript_to_json;
use crate::json::{jsons_rep, members_rep, JsonRep, JsonValue};
use crate::model::Transcript;

verus! {

/// The decimal digit character for `d` (`0 <= d <= 9`).
pub open spec fn dec_digit(d: int) -> char {
    (48 + d) as char
}

/// The lowercase hexadecimal digit character for `d` (`0 <= d <= 15`).
pub open spec fn hex_digit(d: int) -> char {
    if d < 10 {
        (48 + d) as char
    } else {
        (87 + d) as char
    }
}

/// The decimal text of a natural number, most significant digit first.
pub open spec fn nat_text(n: nat) -> Seq<char>
    decreases n,
{
    if n < 10 {
        seq![dec_digit(n as int)]
    } else {
        nat_text(n / 10) + seq![dec_digit((n % 10) as int)]
    }
}

/// The decimal text of an integer: a minus sign for negative values, then
/// the magnitude's digits.
pub open spec fn int_text(n: int) -> Seq<char> {
    if n < 0 {
        seq!['-'] + nat_text((-n) as nat)
    } else {
        nat_text(n as nat)
    }
}

/// The escape of one string character.
pub open spec fn esc_char(c: char) -> Seq<char> {
    if c == '"' {
        seq!['\\', '"']
    } else if c == '\\' {
        seq!['\\', '\\']
    } else if c == '\u{8}' {
        seq!['\\', 'b']
    } else if c == '\t' {
        seq!['\\', 't']
    } else if c == '\n' {
        seq!['\\', 'n']
    } else if c == '\u{c}' {
        seq!['\\', 'f']
    } else if c == '\r' {
        seq!['\\', 'r']
    } else if (c as u32) < 0x20 {
        seq!['\\', 'u', '0', '0', hex_digit((c as u32) as int / 16), hex_digit((c as u32) as int % 16)]
    } else {
        seq![c]
    }
}

/// The escaped text of a string's characters (without the quotes).
pub open spec fn str_text(s: Seq<char>) -> Seq<char>
    decreases s.len(),
{
    if s.len() == 0 {
        Seq::empty()
    } else {
        str_text(s.drop_last()) + esc_char(s.last())
    }
}

/// The text of a JSON value.  A [`JsonRep::BigNum`], which stands for a
/// number this library never produces, is written as `0`.
pub open spec fn json_text(v: JsonRep) -> Seq<char>
    decreases v,
{
    match v {
        JsonRep::Null => seq!['n', 'u', 'l', 'l'],
        JsonRep::Bool(b) => if b {
            seq!['t', 'r', 'u', 'e']
        } else {
            seq!['f', 'a', 'l', 's', 'e']
        },
        JsonRep::Int(n) => int_text(n),
        JsonRep::BigNum => seq!['0'],
        JsonRep::Str(s) => seq!['"'] + str_text(s) + seq!['"'],
        JsonRep::Arr(a) => seq!['['] + arr_text(a) + seq![']'],
        JsonRep::Obj(o) => seq!['{'] + obj_text(o) + seq!['}'],
    }
}

/// The comma-separated texts of an array's elements.
pub open spec fn arr_text(a: Seq<JsonRep>) -> Seq<char>
    decreases a,
{
    if a.len() == 0 {
        Seq::empty()
    } else if a.len() == 1 {
        json_text(a.last())
    } else {
        arr_text(a.drop_last()) + seq![','] + json_text(a.last())
    }
}

/// The text of one object member: quoted escaped key, colon, value.
pub open spec fn member_text(m: (Seq<char>, JsonRep)) -> Seq<char>
    decreases m,
{
    seq!['"'] + str_text(m.0) + seq!['"', ':'] + json_text(m.1)
}

/// The comma-separated texts of an object's members.
pub open spec fn obj_text(o: Seq<(Seq<char>, JsonRep)>) -> Seq<char>
    decreases o,
{
    if o.len() == 0 {
        Seq::empty()
    } else if o.len() == 1 {
        member_text(o.last())
    } else {
        obj_text(o.drop_last()) + seq![','] + member_text(o.last())
    }
}

/// Appends the decimal digits of `m`, most significant first.
fn write_u64_digits(m: u64, out: &mut String)
    ensures
        final(out)@ == old(out)@ + nat_text(m as nat),
    decreases m,
{
    if m < 10 {
        push_char(out, (48u8 + (m as u8)) as char);
        proof {
            assert(out@ =~= old(out)@ + nat_text(m as nat));
        }
    } else {
        write_u64_digits(m / 10, out);
        push_char(out, (48u8 + ((m % 10) as u8)) as char);
        proof {
            assert(out@ =~= old(out)@ + nat_text(m as nat));
        }
    }
}

/// Appends the decimal text of `n`.
fn write_i64(n: i64, out: &mut String)
    ensures
        final(out)@ == old(out)@ + int_text(n as int),
{
    if n < 0 {
        push_char(out, '-');
        let m: u64 = if n == i64::MIN {
            9223372036854775808u64
        } else {
            (-n) as u64
        };
        proof {
            assert(m as nat == (-(n as int)) as nat);
        }
        write_u64_digits(m, out);
        proof {
            assert(out@ =~= old(out)@ + int_text(n as int));
        }
    } else {
        write_u64_digits(n as u64, out);
    }
}


/// The lowercase hexadecimal digit character, executably.
fn hex_char(d: u8) -> (r: char)
    requires
        d < 16,
    ensures
        r == hex_digit(d as int),
{
    if d < 10 {
        (48u8 + d) as char
    } else {
        (87u8 + d) as char
    }
}

/// Appends the escape of one string character.
fn write_esc_char(c: char, out: &mut String)
    ensures
        final(out)@ == old(out)@ + esc_char(c),
{
    if c == '"' {
        push_char(out, '\\');
        push_char(out, '"');
        proof {
            assert(out@ =~= old(out)@ + esc_char(c));
        }
    } else if c == '\\' {
        push_char(out, '\\');
        push_char(out, '\\');
        proof {
            assert(out@ =~= old(out)@ + esc_char(c));
        }
    } else if c == '\u{8}' {
        push_char(out, '\\');
        push_char(out, 'b');
        proof {
            assert(out@ =~= old(out)@ + esc_char(c));
        }
    } else if c == '\t' {
        push_char(out, '\\');
        push_char(out, 't');
        proof {
            assert(out@ =~= old(out)@ + esc_char(c));
        }
    } else if c == '\n' {
        push_char(out, '\\');
        push_char(out, 'n');
        proof {
            assert(out@ =~= old(out)@ + esc_char(c));
        }
    } else if c == '\u{c}' {
        push_char(out, '\\');
        push_char(out, 'f');
        proof {
            assert(out@ =~= old(out)@ + esc_char(c));
        }
    } else if c == '\r' {
        push_char(out, '\\');
        push_char(out, 'r');
        proof {
            assert(out@ =~= old(out)@ + esc_char(c));
        }
    } else {
        let u = c as u32;
        if u < 0x20 {
            push_char(out, '\\');
            push_char(out, 'u');
            push_char(out, '0');
            push_char(out, '0');
            push_char(out, hex_char((u / 16) as u8));
            push_char(out, hex_char((u % 16) as u8));
            proof {
                assert(out@ =~= old(out)@ + esc_char(c));
            }
        } else {
            push_char(out, c);
            proof {
                assert(out@ =~= old(out)@ + esc_char(c));
            }
        }
    }
}

/// Appends a string as quoted, escaped JSON text.
fn write_quoted(s: &str, out: &mut String)
    ensures
        final(out)@ == old(out)@ + seq!['"'] + str_text(s@) + seq!['"'],
{
    push_char(out, '"');
    let n = s.unicode_len();
    let mut i: usize = 0;
    while i < n
        invariant
            i <= n,
            n == s@.len(),
            out@ == old(out)@ + seq!['"'] + str_text(s@.take(i as int)),
        decreases n - i,
    {
        let c = s.get_char(i);
        write_esc_char(c, out);
        proof {
            assert(s@.take(i + 1int).drop_last() =~= s@.take(i as int));
            assert(s@.take(i + 1int).last() == s@[i as int]);
            assert(out@ =~= old(out)@ + seq!['"'] + str_text(s@.take(i + 1int)));
        }
        i = i + 1;
    }
    proof {
        assert(s@.take(n as int) == s@);
    }
    push_char(out, '"');
    proof {
        assert(out@ =~= old(out)@ + seq!['"'] + str_text(s@) + seq!['"']);
    }
}

/// Appends the text of a JSON value.
pub fn write_json(v: &JsonValue, out: &mut String)
    ensures
        final(out)@ == old(out)@ + json_text(v@),
    decreases v@,
{
    match v {
        JsonValue::Null => {
            push_char(out, 'n');
            push_char(out, 'u');
            push_char(out, 'l');
            push_char(out, 'l');
            proof {
                assert(out@ =~= old(out)@ + json_text(v@));
            }
        },
        JsonValue::Bool(b) => {
            if *b {
                push_char(out, 't');
                push_char(out, 'r');
                push_char(out, 'u');
                push_char(out, 'e');
            } else {
                push_char(out, 'f');
                push_char(out, 'a');
                push_char(out, 'l');
                push_char(out, 's');
                push_char(out, 'e');
            }
            proof {
                assert(out@ =~= old(out)@ + json_text(v@));
            }
        },
        JsonValue::Int(n) => {
            write_i64(*n, out);
        },
        JsonValue::BigNum => {
            push_char(out, '0');
            proof {
                assert(out@ =~= old(out)@ + json_text(v@));
            }
        },
        JsonValue::Str(s) => {
            write_quoted(s.as_str(), out);
            proof {
                assert(out@ =~= old(out)@ + json_text(v@));
            }
        },
        JsonValue::Arr(a) => {
            push_char(out, '[');
            let n = a.len();
            let mut i: usize = 0;
            while i < n
                invariant
                    i <= n,
                    n == a@.len(),
                    v@ == JsonRep::Arr(jsons_rep(a@)),
                    out@ == old(out)@ + seq!['['] + arr_text(jsons_rep(a@.take(i as int))),
                decreases n - i,
            {
                if i > 0 {
                    push_char(out, ',');
                }
                proof {
                    crate::json::lemma_jsons_rep(a@);
                    assert(decreases_to!(v@ => v@->Arr_0));
                    assert(v@->Arr_0 == jsons_rep(a@));
                    assert(a@[i as int]@ == jsons_rep(a@)[i as int]);
                    assert(decreases_to!(jsons_rep(a@) => jsons_rep(a@)[i as int]));
                }
                write_json(&a[i], out);
                proof {
                    crate::json::lemma_jsons_rep(a@.take(i as int));
                    assert(a@.take(i + 1int).drop_last() =~= a@.take(i as int));
                    assert(a@.take(i + 1int).last() == a@[i as int]);
                    assert(jsons_rep(a@.take(i + 1int)) == jsons_rep(a@.take(i as int)).push(
                        a@[i as int]@,
                    ));
                    let w = jsons_rep(a@.take(i + 1int));
                    assert(w.drop_last() =~= jsons_rep(a@.take(i as int)));
                    assert(w.last() == a@[i as int]@);
                    if i == 0 {
                        assert(arr_text(w) == json_text(a@[0]@));
                    } else {
                        assert(arr_text(w) == arr_text(jsons_rep(a@.take(i as int))) + seq![',']
                            + json_text(a@[i as int]@));
                    }
                    assert(out@ =~= old(out)@ + seq!['['] + arr_text(w));
                }
                i = i + 1;
            }
            proof {
                assert(a@.take(n as int) == a@);
            }
            push_char(out, ']');
            proof {
                assert(out@ =~= old(out)@ + json_text(v@));
            }
        },
        JsonValue::Obj(o) => {
            push_char(out, '{');
            let n = o.len();
            let mut i: usize = 0;
            while i < n
                invariant
                    i <= n,
                    n == o@.len(),
                    v@ == JsonRep::Obj(members_rep(o@)),
                    out@ == old(out)@ + seq!['{'] + obj_text(members_rep(o@.take(i as int))),
                decreases n - i,
            {
                if i > 0 {
                    push_char(out, ',');
                }
                write_quoted(o[i].0.as_str(), out);
                push_char(out, ':');
                proof {
                    crate::json::lemma_members_rep(o@);
                    assert(decreases_to!(v@ => v@->Obj_0));
                    assert(v@->Obj_0 == members_rep(o@));
                    assert(o@[i as int].1@ == members_rep(o@)[i as int].1);
                    assert(decreases_to!(members_rep(o@) => members_rep(o@)[i as int]));
                    assert(decreases_to!(members_rep(o@)[i as int] => members_rep(
                        o@,
                    )[i as int].1));
                }
                write_json(&o[i].1, out);
                proof {
                    crate::json::lemma_members_rep(o@.take(i as int));
                    assert(o@.take(i + 1int).drop_last() =~= o@.take(i as int));
                    assert(o@.take(i + 1int).last() == o@[i as int]);
                    assert(members_rep(o@.take(i + 1int)) == members_rep(o@.take(i as int)).push(
                        (o@[i as int].0@, o@[i as int].1@),
                    ));
                    let w = members_rep(o@.take(i + 1int));
                    assert(w.drop_last() =~= members_rep(o@.take(i as int)));
                    assert(w.last() == (o@[i as int].0@, o@[i as int].1@));
                    if i == 0 {
                        assert(obj_text(w) == member_text((o@[0].0@, o@[0].1@)));
                    } else {
                        assert(obj_text(w) == obj_text(members_rep(o@.take(i as int))) + seq![',']
                            + member_text((o@[i as int].0@, o@[i as int].1@)));
                    }
                    assert(member_text((o@[i as int].0@, o@[i as int].1@)) == seq!['"'] + str_text(
                        o@[i as int].0@,
                    ) + seq!['"', ':'] + json_text(o@[i as int].1@));
                    assert(out@ =~= old(out)@ + seq!['{'] + obj_text(w));
                }
                i = i + 1;
            }
            proof {
                assert(o@.take(n as int) == o@);
            }
            push_char(out, '}');
            proof {
                assert(out@ =~= old(out)@ + json_text(v@));
            }
        },
    }
}

/// The text of a JSON value, as a fresh string.
pub fn json_to_string(v: &JsonValue) -> (r: String)
    ensures
        r@ == json_text(v@),
{
    let mut out = String::new();
    write_json(v, &mut out);
    proof {
        assert(out@ =~= json_text(v@));
    }
    out
}

/// Serializes a transcript to its wire text: the encoding of the model,
/// written as compact JSON.
pub fn transcript_to_json_string(t: &Transcript) -> (r: String)
    ensures
        r@ == json_text(spec_transcript_to_json(t@)),
{
    let v = crate::encode::transcript_to_json(t);
    json_to_string(&v)
}


/// A decimal digit character.
pub open spec fn is_digit(c: char) -> bool {
    '0' <= c && c <= '9'
}

/// The numeric value of a digit character.
pub open spec fn digit_val(c: char) -> int {
    c as int - 48
}

/// The value of a digit string, most significant digit first.
pub open spec fn digits_val(ds: Seq<char>) -> int
    decreases ds.len(),
{
    if ds.len() == 0 {
        0
    } else {
        digits_val(ds.drop_last()) * 10 + digit_val(ds.last())
    }
}

/// A natural number's text is nonempty, all digits, evaluates back to the
/// number, and has no leading zero (unless the number is zero itself).
pub proof fn lemma_nat_text(n: nat)
    ensures
        nat_text(n).len() >= 1,
        forall|i: int| 0 <= i < nat_text(n).len() ==> is_digit(#[trigger] nat_text(n)[i]),
        digits_val(nat_text(n)) == n,
        n >= 1 ==> nat_text(n)[0] != '0',
        n < 10 ==> nat_text(n).len() == 1,
        n >= 10 ==> nat_text(n).len() >= 2,
    decreases n,
{
    if n < 10 {
        assert(dec_digit(n as int) as int == 48 + n);
        assert(nat_text(n) == seq![dec_digit(n as int)]);
        let w = seq![dec_digit(n as int)];
        assert(w.drop_last() =~= Seq::<char>::empty());
        assert(w.last() == dec_digit(n as int));
        assert(digits_val(Seq::<char>::empty()) == 0);
        assert(digits_val(w) == digits_val(w.drop_last()) * 10 + digit_val(w.last()));
        assert(digits_val(nat_text(n)) == digit_val(dec_digit(n as int)));
    } else {
        lemma_nat_text(n / 10);
        let w = nat_text(n / 10) + seq![dec_digit((n % 10) as int)];
        assert(nat_text(n) == w);
        assert(w.drop_last() =~= nat_text(n / 10));
        assert(w.last() == dec_digit((n % 10) as int));
        assert(dec_digit((n % 10) as int) as int == 48 + n % 10);
        assert(digits_val(w) == digits_val(nat_text(n / 10)) * 10 + (n % 10));
        assert(digits_val(w) == (n / 10) * 10 + (n % 10));
        assert forall|i: int| 0 <= i < w.len() implies is_digit(#[trigger] w[i]) by {
            if i < w.len() - 1 {
                assert(w[i] == nat_text(n / 10)[i]);
            }
        }
        assert(w[0] == nat_text(n / 10)[0]);
    }
}

/// Digit strings evaluate nonnegatively, and extending one on the right
/// multiplies its value by ten and adds the new digit.
pub proof fn lemma_digits_val_nonneg(ds: Seq<char>)
    requires
        forall|i: int| 0 <= i < ds.len() ==> is_digit(#[trigger] ds[i]),
    ensures
        digits_val(ds) >= 0,
    decreases ds.len(),
{
    if ds.len() > 0 {
        assert forall|i: int| 0 <= i < ds.drop_last().len() implies is_digit(
            #[trigger] ds.drop_last()[i],
        ) by {
            assert(ds.drop_last()[i] == ds[i]);
        }
        lemma_digits_val_nonneg(ds.drop_last());
        assert(digit_val(ds.last()) >= 0);
    }
}

/// Escaping distributes over concatenation.
pub proof fn lemma_str_text_concat(a: Seq<char>, b: Seq<char>)
    ensures
        str_text(a + b) == str_text(a) + str_text(b),
    decreases b.len(),
{
    if b.len() == 0 {
        assert(a + b =~= a);
        assert(str_text(a) + str_text(b) =~= str_text(a));
    } else {
        lemma_str_text_concat(a, b.drop_last());
        assert((a + b).drop_last() =~= a + b.drop_last());
        assert((a + b).last() == b.last());
        assert(str_text(a + b) == str_text(a + b.drop_last()) + esc_char(b.last()));
        assert(str_text(b) == str_text(b.drop_last()) + esc_char(b.last()));
        assert((str_text(a) + str_text(b.drop_last())) + esc_char(b.last()) =~= str_text(a) + (
        str_text(b.drop_last()) + esc_char(b.last())));
    }
}

/// Escaping one more character appends its escape.
pub proof fn lemma_str_text_push(x: Seq<char>, c: char)
    ensures
        str_text(x.push(c)) == str_text(x) + esc_char(c),
{
    assert(x.push(c).drop_last() =~= x);
    assert(x.push(c).last() == c);
}

/// The escaped text splits at any point of the plain text.
pub proof fn lemma_str_text_split(t: Seq<char>, k: int)
    requires
        0 <= k <= t.len(),
    ensures
        str_text(t) == str_text(t.take(k)) + str_text(t.skip(k)),
{
    lemma_str_text_concat(t.take(k), t.skip(k));
    assert(t.take(k) + t.skip(k) =~= t);
}

/// The escaped text of a nonempty string starts with its first character's
/// escape.
pub proof fn lemma_str_text_head(u: Seq<char>)
    requires
        u.len() >= 1,
    ensures
        str_text(u) == esc_char(u[0]) + str_text(u.skip(1)),
{
    lemma_str_text_split(u, 1);
    let w = u.take(1);
    assert(w =~= seq![u[0]]);
    assert(w.drop_last() =~= Seq::<char>::empty());
    assert(w.last() == u[0]);
    assert(str_text(Seq::<char>::empty()) == Seq::<char>::empty());
    assert(str_text(w) == str_text(w.drop_last()) + esc_char(w.last()));
    assert(Seq::<char>::empty() + esc_char(u[0]) =~= esc_char(u[0]));
}

/// The shape of one character's escape: it is never empty, never starts
/// with a quote or a control character, starts with a backslash exactly for
/// the characters that need escaping, and is the character itself
/// otherwise.
pub proof fn lemma_esc_char(c: char)
    ensures
        esc_char(c).len() >= 1,
        esc_char(c)[0] != '"',
        (esc_char(c)[0] as u32) >= 0x20,
        (esc_char(c)[0] == '\\') <==> (c == '"' || c == '\\' || (c as u32) < 0x20),
        esc_char(c)[0] != '\\' ==> esc_char(c) == seq![c],
        c == '"' ==> esc_char(c) == seq!['\\', '"'],
        c == '\\' ==> esc_char(c) == seq!['\\', '\\'],
        c == '\u{8}' ==> esc_char(c) == seq!['\\', 'b'],
        c == '\t' ==> esc_char(c) == seq!['\\', 't'],
        c == '\n' ==> esc_char(c) == seq!['\\', 'n'],
        c == '\u{c}' ==> esc_char(c) == seq!['\\', 'f'],
        c == '\r' ==> esc_char(c) == seq!['\\', 'r'],
        ((c as u32) < 0x20 && c != '\u{8}' && c != '\t' && c != '\n' && c != '\u{c}' && c
            != '\r') ==> esc_char(c) == seq![
            '\\',
            'u',
            '0',
            '0',
            hex_digit((c as u32) as int / 16),
            hex_digit((c as u32) as int % 16),
        ],
{
}


/// The text of an array's elements from position `k` on, comma-separated.
pub open spec fn arr_tail_text(a: Seq<JsonRep>, k: int) -> Seq<char>
    decreases a.len() - k,
{
    if !(0 <= k < a.len()) {
        Seq::empty()
    } else if k == a.len() - 1 {
        json_text(a[k])
    } else {
        json_text(a[k]) + seq![','] + arr_tail_text(a, k + 1)
    }
}

/// The text of an object's members from position `k` on, comma-separated.
pub open spec fn obj_tail_text(o: Seq<(Seq<char>, JsonRep)>, k: int) -> Seq<char>
    decreases o.len() - k,
{
    if !(0 <= k < o.len()) {
        Seq::empty()
    } else if k == o.len() - 1 {
        member_text(o[k])
    } else {
        member_text(o[k]) + seq![','] + obj_tail_text(o, k + 1)
    }
}

/// An array's text splits, at any element, into the first elements' text,
/// a separating comma where both parts are nonempty, and the rest's text.
pub proof fn lemma_arr_text_as_tail(a: Seq<JsonRep>, k: int)
    requires
        0 <= k <= a.len(),
    ensures
        arr_text(a) == arr_text(a.take(k)) + (if 0 < k && k < a.len() {
            seq![',']
        } else {
            Seq::empty()
        }) + arr_tail_text(a, k),
    decreases a.len() - k,
{
    if k == a.len() {
        assert(a.take(k) == a);
        assert(arr_text(a) + Seq::<char>::empty() + Seq::<char>::empty() =~= arr_text(a));
    } else {
        lemma_arr_text_as_tail(a, k + 1);
        assert(a.take(k + 1).drop_last() =~= a.take(k));
        assert(a.take(k + 1).last() == a[k]);
        if k == 0 {
            assert(arr_text(a.take(1)) == json_text(a[0]));
            assert(arr_text(a.take(0)) == Seq::<char>::empty());
            if a.len() == 1 {
                assert(arr_text(a) == arr_text(a.take(1)) + Seq::<char>::empty()
                    + Seq::<char>::empty());
                assert(arr_text(a) =~= Seq::<char>::empty() + Seq::<char>::empty() + arr_tail_text(
                    a,
                    0,
                ));
            } else {
                assert(arr_text(a) == arr_text(a.take(1)) + seq![','] + arr_tail_text(a, 1));
                assert(arr_tail_text(a, 0) == json_text(a[0]) + seq![','] + arr_tail_text(a, 1));
                assert(arr_text(a) =~= Seq::<char>::empty() + Seq::<char>::empty() + arr_tail_text(
                    a,
                    0,
                ));
            }
        } else {
            assert(arr_text(a.take(k + 1)) == arr_text(a.take(k)) + seq![','] + json_text(a[k]));
            if k == a.len() - 1 {
                assert(arr_text(a) == arr_text(a.take(k + 1)) + Seq::<char>::empty()
                    + Seq::<char>::empty());
                assert(arr_text(a) =~= arr_text(a.take(k)) + seq![','] + arr_tail_text(a, k));
            } else {
                assert(arr_text(a) == arr_text(a.take(k + 1)) + seq![','] + arr_tail_text(
                    a,
                    k + 1,
                ));
                assert(arr_tail_text(a, k) == json_text(a[k]) + seq![','] + arr_tail_text(
                    a,
                    k + 1,
                ));
                assert(arr_text(a) =~= arr_text(a.take(k)) + seq![','] + arr_tail_text(a, k));
            }
        }
    }
}

/// An object's text splits, at any member, the same way.
pub proof fn lemma_obj_text_as_tail(o: Seq<(Seq<char>, JsonRep)>, k: int)
    requires
        0 <= k <= o.len(),
    ensures
        obj_text(o) == obj_text(o.take(k)) + (if 0 < k && k < o.len() {
            seq![',']
        } else {
            Seq::empty()
        }) + obj_tail_text(o, k),
    decreases o.len() - k,
{
    if k == o.len() {
        assert(o.take(k) == o);
        assert(obj_text(o) + Seq::<char>::empty() + Seq::<char>::empty() =~= obj_text(o));
    } else {
        lemma_obj_text_as_tail(o, k + 1);
        assert(o.take(k + 1).drop_last() =~= o.take(k));
        assert(o.take(k + 1).last() == o[k]);
        if k == 0 {
            assert(obj_text(o.take(1)) == member_text(o[0]));
            assert(obj_text(o.take(0)) == Seq::<char>::empty());
            if o.len() == 1 {
                assert(obj_text(o) == obj_text(o.take(1)) + Seq::<char>::empty()
                    + Seq::<char>::empty());
                assert(obj_text(o) =~= Seq::<char>::empty() + Seq::<char>::empty() + obj_tail_text(
                    o,
                    0,
                ));
            } else {
                assert(obj_text(o) == obj_text(o.take(1)) + seq![','] + obj_tail_text(o, 1));
                assert(obj_tail_text(o, 0) == member_text(o[0]) + seq![','] + obj_tail_text(o, 1));
                assert(obj_text(o) =~= Seq::<char>::empty() + Seq::<char>::empty() + obj_tail_text(
                    o,
                    0,
                ));
            }
        } else {
            assert(obj_text(o.take(k + 1)) == obj_text(o.take(k)) + seq![','] + member_text(o[k]));
            if k == o.len() - 1 {
                assert(obj_text(o) == obj_text(o.take(k + 1)) + Seq::<char>::empty()
                    + Seq::<char>::empty());
                assert(obj_text(o) =~= obj_text(o.take(k)) + seq![','] + obj_tail_text(o, k));
            } else {
                assert(obj_text(o) == obj_text(o.take(k + 1)) + seq![','] + obj_tail_text(
                    o,
                    k + 1,
                ));
                assert(obj_tail_text(o, k) == member_text(o[k]) + seq![','] + obj_tail_text(
                    o,
                    k + 1,
                ));
                assert(obj_text(o) =~= obj_text(o.take(k)) + seq![','] + obj_tail_text(o, k));
            }
        }
    }
}

/// A value's text is nonempty, and its first character identifies the
/// value's kind (among trees that hold no stand-in numbers).
pub proof fn lemma_json_text_first(v: JsonRep)
    requires
        crate::json::num_free(v),
    ensures
        json_text(v).len() >= 1,
        v is Null ==> json_text(v)[0] == 'n',
        v is Bool ==> json_text(v)[0] == 't' || json_text(v)[0] == 'f',
        v is Int ==> json_text(v)[0] == '-' || is_digit(json_text(v)[0]),
        v is Str ==> json_text(v)[0] == '"',
        v is Arr ==> json_text(v)[0] == '[',
        v is Obj ==> json_text(v)[0] == '{',
{
    match v {
        JsonRep::Int(m) => {
            let mag = if m < 0 { -m } else { m };
            lemma_nat_text(mag as nat);
            if m < 0 {
                assert(int_text(m) == seq!['-'] + nat_text(mag as nat));
                assert(int_text(m)[0] == '-');
            } else {
                assert(is_digit(nat_text(mag as nat)[0]));
            }
        },
        JsonRep::Str(t) => {
            assert(json_text(v) == seq!['"'] + str_text(t) + seq!['"']);
            assert(json_text(v)[0] == '"');
        },
        JsonRep::Arr(a) => {
            assert(json_text(v) == seq!['['] + arr_text(a) + seq![']']);
            assert(json_text(v)[0] == '[');
        },
        JsonRep::Obj(o) => {
            assert(json_text(v) == seq!['{'] + obj_text(o) + seq!['}']);
            assert(json_text(v)[0] == '{');
        },
        _ => {
        },
    }
}

} // verus!
