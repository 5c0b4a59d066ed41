//! The wire format: a structured text encoding of request envelopes.
//!
//! A request envelope carries an action, a target table and a mapping from
//! field names to structured values.  It is sent as one text frame holding
//! an object with the three keys `action`, `table` and `data`, in the usual
//! brace-and-quote notation: strings are quoted with `"` and `\` escaped,
//! integers are written in decimal, arrays in brackets, objects in braces
//! with `"key":value` members joined by commas.  The encoding functions are
//! pinned down exactly by the spec functions beside them: the text sent for
//! an envelope is a function of the envelope alone.

use vstd::prelude::*;
use vstd::string::StrSliceExecFns;
use vstd::string::StringExecFns;

verus! {

broadcast use
    vstd::seq::axiom_seq_index_decreases,
    vstd::seq::axiom_seq_subrange_decreases,
    vstd::std_specs::vec::axiom_vec_index_decreases,
    vstd::std_specs::vec::axiom_vec_decreases_to_view;

/// A structured value of the wire format: the shapes a request field or a
/// reply can take.
#[derive(Debug, PartialEq, Eq)]
pub enum WireValue {
    Null,
    Bool(bool),
    Int(i64),
    Str(String),
    Arr(Vec<WireValue>),
    Obj(Vec<(String, WireValue)>),
}

/// One request: an action name, a target table, and the data fields (keys
/// unique, order irrelevant).  Transient, constructed per call.
#[derive(Debug, PartialEq, Eq)]
pub struct RequestEnvelope {
    pub action: String,
    pub table: String,
    pub data: Vec<(String, WireValue)>,
}

/// The lower-case hexadecimal digit character for `d`.
pub open spec fn hex_digit_char(d: nat) -> char {
    if d % 16 < 10 {
        (((d % 16) + 48) as u8) as char
    } else {
        (((d % 16) + 87) as u8) as char
    }
}

/// The value of a lower-case hexadecimal digit character.
pub open spec fn hex_val(c: char) -> nat {
    if c as u32 >= 97 {
        ((c as u32 - 97) + 10) as nat
    } else if c as u32 >= 48 {
        (c as u32 - 48) as nat
    } else {
        0
    }
}

/// The character a `\u00XX` escape denotes, from its two low hex digits.
pub open spec fn hex_pair_char(hi: char, lo: char) -> char {
    (((hex_val(hi) * 16 + hex_val(lo)) % 256) as u8) as char
}

/// The escape of one character inside a quoted string: quote and backslash
/// take a backslash, control characters become `\u00XX`, everything else
/// stands as itself.
pub open spec fn escaped_char(c: char) -> Seq<char> {
    if c == '"' {
        seq!['\\', '"']
    } else if c == '\\' {
        seq!['\\', '\\']
    } else if (c as u32) < 32 {
        seq![
            '\\',
            'u',
            '0',
            '0',
            hex_digit_char(((c as u32) / 16) as nat),
            hex_digit_char(((c as u32) % 16) as nat),
        ]
    } else {
        seq![c]
    }
}

/// The escape of a whole string, character by character.
pub open spec fn escaped_text(s: Seq<char>) -> Seq<char>
    decreases s.len(),
{
    if s.len() == 0 {
        Seq::empty()
    } else {
        escaped_text(s.subrange(0, s.len() - 1)) + escaped_char(s[s.len() - 1])
    }
}

/// A string as it stands on the wire: quoted and escaped.
pub open spec fn string_text(s: Seq<char>) -> Seq<char> {
    seq!['"'] + escaped_text(s) + seq!['"']
}

/// The decimal digit character for `d`.
pub open spec fn digit_char(d: nat) -> char {
    (((d % 10) + 48) as u8) as char
}

/// The decimal digits of `n`, most significant first.
pub open spec fn dec_digits(n: nat) -> Seq<char>
    decreases n,
{
    if n < 10 {
        seq![digit_char(n)]
    } else {
        dec_digits(n / 10).push(digit_char(n % 10))
    }
}

/// An integer as it stands on the wire: decimal, with a leading minus sign
/// when negative.
pub open spec fn int_text(i: int) -> Seq<char> {
    if i < 0 {
        seq!['-'] + dec_digits((-i) as nat)
    } else {
        dec_digits(i as nat)
    }
}

/// A value as it stands on the wire.
pub open spec fn value_text(v: WireValue) -> Seq<char>
    decreases v,
{
    match v {
        WireValue::Null => "null"@,
        WireValue::Bool(b) => if b {
            "true"@
        } else {
            "false"@
        },
        WireValue::Int(i) => int_text(i as int),
        WireValue::Str(s) => string_text(s@),
        WireValue::Arr(xs) => seq!['['] + elems_text(xs@) + seq![']'],
        WireValue::Obj(fs) => seq!['{'] + members_text(fs@) + seq!['}'],
    }
}

/// Array elements joined by commas.
pub open spec fn elems_text(xs: Seq<WireValue>) -> Seq<char>
    decreases xs,
{
    if xs.len() == 0 {
        Seq::empty()
    } else if xs.len() == 1 {
        value_text(xs[0])
    } else {
        elems_text(xs.subrange(0, xs.len() - 1)) + seq![','] + value_text(xs[xs.len() - 1])
    }
}

/// One `"key":value` member of an object.
pub open spec fn member_text(f: (String, WireValue)) -> Seq<char>
    decreases f,
{
    string_text(f.0@) + seq![':'] + value_text(f.1)
}

/// Object members joined by commas.
pub open spec fn members_text(fs: Seq<(String, WireValue)>) -> Seq<char>
    decreases fs,
{
    if fs.len() == 0 {
        Seq::empty()
    } else if fs.len() == 1 {
        member_text(fs[0])
    } else {
        members_text(fs.subrange(0, fs.len() - 1)) + seq![','] + member_text(fs[fs.len() - 1])
    }
}

/// A whole envelope as it stands on the wire: one object with the keys
/// `action`, `table` and `data`.
pub open spec fn envelope_text(env: RequestEnvelope) -> Seq<char> {
    "{\"action\":"@ + string_text(env.action@) + ",\"table\":"@ + string_text(env.table@)
        + ",\"data\":{"@ + members_text(env.data@) + "}}"@
}

/// The inverse reading of an escaped string: a `\u00XX` escape denotes the
/// character of its two low hex digits, any other backslash takes the next
/// character literally.
pub open spec fn unescaped_text(s: Seq<char>) -> Seq<char>
    decreases s.len(),
{
    if s.len() == 0 {
        Seq::empty()
    } else if s[0] == '\\' && s.len() >= 6 && s[1] == 'u' {
        seq![hex_pair_char(s[4], s[5])] + unescaped_text(s.subrange(6, s.len() as int))
    } else if s[0] == '\\' && s.len() >= 2 {
        seq![s[1]] + unescaped_text(s.subrange(2, s.len() as int))
    } else {
        seq![s[0]] + unescaped_text(s.subrange(1, s.len() as int))
    }
}

/// `escaped_text`, read from the front instead of the back.
proof fn lemma_escaped_text_front(s: Seq<char>)
    requires
        s.len() > 0,
    ensures
        escaped_text(s) == escaped_char(s[0]) + escaped_text(s.subrange(1, s.len() as int)),
    decreases s.len(),
{
    let tail = s.subrange(1, s.len() as int);
    if s.len() == 1 {
        assert(s.subrange(0, 0) =~= Seq::<char>::empty());
        assert(tail =~= Seq::<char>::empty());
        assert(escaped_text(s) =~= escaped_char(s[0]) + escaped_text(tail));
    } else {
        let butlast = s.subrange(0, s.len() - 1);
        lemma_escaped_text_front(butlast);
        assert(butlast[0] == s[0]);
        assert(butlast.subrange(1, butlast.len() as int) =~= tail.subrange(0, tail.len() - 1));
        assert(tail[tail.len() - 1] == s[s.len() - 1]);
        assert(escaped_text(tail) == escaped_text(tail.subrange(0, tail.len() - 1)) + escaped_char(
            tail[tail.len() - 1],
        ));
        assert(escaped_text(s) =~= escaped_char(s[0]) + escaped_text(tail));
    }
}

/// Unescaping undoes escaping: the escaped form of a string loses nothing.
/// The string side of the wire round trip, at the character level.
pub proof fn lemma_unescape_escape(s: Seq<char>)
    ensures
        unescaped_text(escaped_text(s)) == s,
    decreases s.len(),
{
    if s.len() == 0 {
        assert(unescaped_text(escaped_text(s)) =~= s);
    } else {
        lemma_escaped_text_front(s);
        let tail = s.subrange(1, s.len() as int);
        lemma_unescape_escape(tail);
        let e = escaped_text(s);
        let c = s[0];
        assert(s =~= seq![c] + tail);
        if c == '"' || c == '\\' {
            assert(e[0] == '\\');
            assert(e[1] == c);
            assert(e[1] != 'u');
            assert(e.subrange(2, e.len() as int) =~= escaped_text(tail));
            assert(unescaped_text(e) =~= seq![c] + tail);
        } else if (c as u32) < 32 {
            let v = (c as u32) as nat;
            lemma_hex_digit_val(v / 16);
            lemma_hex_digit_val(v % 16);
            assert(e[0] == '\\' && e[1] == 'u');
            assert(e[4] == hex_digit_char(v / 16));
            assert(e[5] == hex_digit_char(v % 16));
            assert(hex_val(e[4]) * 16 + hex_val(e[5]) == v);
            assert(v % 256 == v);
            assert(((v % 256) as u8) == ((c as u32) as u8));
            lemma_low_char_code_roundtrip(c);
            assert(hex_pair_char(e[4], e[5]) == c);
            assert(e.subrange(6, e.len() as int) =~= escaped_text(tail));
            assert(unescaped_text(e) =~= seq![c] + tail);
        } else {
            assert(e[0] == c);
            assert(e[0] != '\\');
            assert(e.subrange(1, e.len() as int) =~= escaped_text(tail));
            assert(unescaped_text(e) =~= seq![c] + tail);
        }
    }
}

/// A control character comes back unchanged from its code point.
proof fn lemma_low_char_code_roundtrip(c: char)
    requires
        (c as u32) < 32,
    ensures
        (((c as u32) as u8) as char) == c,
{
}

/// Reading a lower-case hex digit character back yields the digit.
proof fn lemma_hex_digit_val(d: nat)
    requires
        d < 16,
    ensures
        hex_val(hex_digit_char(d)) == d,
{
    if d < 10 {
        assert(hex_digit_char(d) as u32 == 48 + d);
    } else {
        assert(hex_digit_char(d) as u32 == 87 + d);
    }
}

/// The numeric value of a decimal digit character.
pub open spec fn digit_val(c: char) -> nat {
    if c as u32 >= 48 {
        (c as u32 - 48) as nat
    } else {
        0
    }
}

/// Reading a digit character back yields the digit.
proof fn lemma_digit_char_val(d: nat)
    requires
        d < 10,
    ensures
        digit_val(digit_char(d)) == d,
        digit_char(d) != '-',
{
    assert(digit_char(d) as u32 == 48 + d);
}

/// The number a sequence of decimal digit characters denotes.
pub open spec fn digits_val(s: Seq<char>) -> nat
    decreases s.len(),
{
    if s.len() == 0 {
        0
    } else {
        digits_val(s.subrange(0, s.len() - 1)) * 10 + digit_val(s[s.len() - 1])
    }
}

/// Reading the decimal digits back yields the number.
pub proof fn lemma_digits_value(n: nat)
    ensures
        digits_val(dec_digits(n)) == n,
    decreases n,
{
    if n < 10 {
        let w = dec_digits(n);
        assert(w =~= seq![digit_char(n)]);
        assert(w.subrange(0, 0) =~= Seq::<char>::empty());
        lemma_digit_char_val(n);
        assert(digits_val(w) == digits_val(w.subrange(0, 0)) * 10 + digit_val(w[0]));
        assert(digits_val(w) == n);
    } else {
        lemma_digits_value(n / 10);
        lemma_digit_char_val(n % 10);
        let w = dec_digits(n / 10).push(digit_char(n % 10));
        assert(dec_digits(n) == w);
        assert(w.subrange(0, w.len() - 1) =~= dec_digits(n / 10));
        assert(w[w.len() - 1] == digit_char(n % 10));
        assert(digits_val(w) == digits_val(dec_digits(n / 10)) * 10 + digit_val(
            digit_char(n % 10),
        ));
        assert(n / 10 * 10 + n % 10 == n);
        assert(digits_val(w) == n);
    }
}

/// Every character of the decimal digits is a digit, never a sign.
proof fn lemma_dec_digits_no_sign(n: nat)
    ensures
        dec_digits(n)[0] != '-',
    decreases n,
{
    if n < 10 {
        lemma_digit_char_val(n);
    } else {
        lemma_dec_digits_no_sign(n / 10);
        assert(dec_digits(n)[0] == dec_digits(n / 10)[0]);
    }
}

/// The integer a signed decimal text denotes.
pub open spec fn int_val(s: Seq<char>) -> int {
    if s.len() > 0 && s[0] == '-' {
        -(digits_val(s.subrange(1, s.len() as int)) as int)
    } else {
        digits_val(s) as int
    }
}

/// Reading the signed decimal text back yields the integer: the integer
/// side of the wire round trip, at the character level.
pub proof fn lemma_int_text_value(i: int)
    ensures
        int_val(int_text(i)) == i,
{
    if i < 0 {
        let s = seq!['-'] + dec_digits((-i) as nat);
        assert(s[0] == '-');
        assert(s.subrange(1, s.len() as int) =~= dec_digits((-i) as nat));
        lemma_digits_value((-i) as nat);
    } else {
        lemma_digits_value(i as nat);
        lemma_dec_digits_no_sign(i as nat);
    }
}

/// Relies on `String::push`: appends one character.
#[verifier::external_body]
fn push_char(out: &mut String, c: char)
    ensures
        final(out)@ == old(out)@.push(c),
{
    out.push(c);
}

/// The lower-case hexadecimal digit character for `d`.
fn hex_digit(d: u8) -> (c: char)
    requires
        d < 16,
    ensures
        c == hex_digit_char(d as nat),
{
    if d < 10 {
        (d + 48) as char
    } else {
        (d + 87) as char
    }
}

/// Appends the quoted, escaped form of `s`.
fn push_string_text(out: &mut String, s: &String)
    ensures
        final(out)@ == old(out)@ + string_text(s@),
{
    push_char(out, '"');
    let text = s.as_str();
    let n = text.unicode_len();
    let mut i: usize = 0;
    while i < n
        invariant
            n == s@.len(),
            text@ == s@,
            i <= n,
            out@ == old(out)@ + seq!['"'] + escaped_text(s@.subrange(0, i as int)),
        decreases n - i,
    {
        let c = text.get_char(i);
        if c == '"' {
            push_char(out, '\\');
            push_char(out, '"');
        } else if c == '\\' {
            push_char(out, '\\');
            push_char(out, '\\');
        } else if (c as u32) < 32 {
            let v: u32 = c as u32;
            push_char(out, '\\');
            push_char(out, 'u');
            push_char(out, '0');
            push_char(out, '0');
            push_char(out, hex_digit((v / 16) as u8));
            push_char(out, hex_digit((v % 16) as u8));
        } else {
            push_char(out, c);
        }
        proof {
            let pre = s@.subrange(0, i as int);
            let cur = s@.subrange(0, i + 1 as int);
            assert(cur.subrange(0, cur.len() - 1) =~= pre);
            assert(cur[cur.len() - 1] == s@[i as int]);
            assert(out@ =~= old(out)@ + seq!['"'] + escaped_text(cur));
        }
        i = i + 1;
    }
    proof {
        assert(s@.subrange(0, n as int) =~= s@);
    }
    push_char(out, '"');
    proof {
        assert(final(out)@ =~= old(out)@ + string_text(s@));
    }
}

/// Appends the decimal digits of `n`.
fn push_u64_digits(out: &mut String, n: u64)
    ensures
        final(out)@ == old(out)@ + dec_digits(n as nat),
    decreases n,
{
    if n < 10 {
        push_char(out, ((n as u8) + 48) as char);
        proof {
            assert(final(out)@ =~= old(out)@ + dec_digits(n as nat));
        }
    } else {
        push_u64_digits(out, n / 10);
        push_char(out, (((n % 10) as u8) + 48) as char);
        proof {
            assert(final(out)@ =~= old(out)@ + dec_digits(n as nat));
        }
    }
}

/// Appends the decimal form of `i`, sign included.
fn push_int_text(out: &mut String, i: i64)
    ensures
        final(out)@ == old(out)@ + int_text(i as int),
{
    if i < 0 {
        push_char(out, '-');
        let m: u64 = (-(i as i128)) as u64;
        proof {
            assert(m as nat == (-(i as int)) as nat);
        }
        push_u64_digits(out, m);
        proof {
            assert(final(out)@ =~= old(out)@ + int_text(i as int));
        }
    } else {
        push_u64_digits(out, i as u64);
    }
}

/// Appends the wire form of `v`.
#[verifier::loop_isolation(false)]
fn push_value_text(out: &mut String, v: &WireValue)
    ensures
        final(out)@ == old(out)@ + value_text(*v),
    decreases *v,
{
    match v {
        WireValue::Null => {
            out.append("null");
        },
        WireValue::Bool(b) => {
            if *b {
                out.append("true");
            } else {
                out.append("false");
            }
        },
        WireValue::Int(i) => {
            push_int_text(out, *i);
        },
        WireValue::Str(s) => {
            push_string_text(out, s);
        },
        WireValue::Arr(xs) => {
            push_char(out, '[');
            let n = xs.len();
            let mut k: usize = 0;
            while k < n
                invariant
                    n == xs@.len(),
                    k <= n,
                    out@ == old(out)@ + seq!['['] + elems_text(xs@.subrange(0, k as int)),
                decreases n - k,
            {
                let ghost pre = xs@.subrange(0, k as int);
                let ghost pre_out = out@;
                if k > 0 {
                    push_char(out, ',');
                }
                proof {
                    if k > 0 {
                        assert(out@ =~= pre_out + seq![',']);
                    }
                    assert(*v == WireValue::Arr(*xs));
                    assert(decreases_to!(*v => *xs));
                    assert(decreases_to!(*xs => xs@));
                    assert(decreases_to!(xs@ => xs@[k as int]));
                }
                let ghost mid_out = out@;
                push_value_text(out, &xs[k]);
                proof {
                    assert(out@ == mid_out + value_text(xs@[k as int]));
                    let cur = xs@.subrange(0, k + 1 as int);
                    assert(cur.subrange(0, cur.len() - 1) =~= pre);
                    assert(cur[cur.len() - 1] == xs@[k as int]);
                    if k > 0 {
                        assert(elems_text(cur) == elems_text(pre) + seq![','] + value_text(
                            xs@[k as int],
                        ));
                    } else {
                        assert(elems_text(cur) == value_text(xs@[k as int]));
                    }
                    assert(out@ =~= old(out)@ + seq!['['] + elems_text(cur));
                }
                k = k + 1;
            }
            proof {
                assert(xs@.subrange(0, n as int) =~= xs@);
            }
            push_char(out, ']');
            proof {
                assert(final(out)@ =~= old(out)@ + value_text(*v));
            }
        },
        WireValue::Obj(fs) => {
            push_char(out, '{');
            let n = fs.len();
            let mut k: usize = 0;
            while k < n
                invariant
                    n == fs@.len(),
                    k <= n,
                    out@ == old(out)@ + seq!['{'] + members_text(fs@.subrange(0, k as int)),
                decreases n - k,
            {
                let ghost pre = fs@.subrange(0, k as int);
                let ghost pre_out = out@;
                if k > 0 {
                    push_char(out, ',');
                }
                proof {
                    if k > 0 {
                        assert(out@ =~= pre_out + seq![',']);
                    }
                    assert(*v == WireValue::Obj(*fs));
                    assert(decreases_to!(*v => *fs));
                    assert(decreases_to!(*fs => fs@));
                    assert(decreases_to!(fs@ => fs@[k as int]));
                    assert(decreases_to!(fs@[k as int] => fs@[k as int].1));
                }
                let ghost mid_out = out@;
                push_string_text(out, &fs[k].0);
                push_char(out, ':');
                push_value_text(out, &fs[k].1);
                proof {
                    assert(out@ == mid_out + string_text(fs@[k as int].0@).push(':') + value_text(
                        fs@[k as int].1,
                    ));
                    let cur = fs@.subrange(0, k + 1 as int);
                    assert(cur.subrange(0, cur.len() - 1) =~= pre);
                    assert(cur[cur.len() - 1] == fs@[k as int]);
                    if k > 0 {
                        assert(members_text(cur) == members_text(pre) + seq![','] + member_text(
                            fs@[k as int],
                        ));
                    } else {
                        assert(members_text(cur) == member_text(fs@[k as int]));
                    }
                    assert(out@ =~= old(out)@ + seq!['{'] + members_text(cur));
                }
                k = k + 1;
            }
            proof {
                assert(fs@.subrange(0, n as int) =~= fs@);
            }
            push_char(out, '}');
            proof {
                assert(final(out)@ =~= old(out)@ + value_text(*v));
            }
        },
    }
}

/// The one text frame sent for `env`: its wire form, exactly.
#[verifier::loop_isolation(false)]
pub fn encode_envelope(env: &RequestEnvelope) -> (r: String)
    ensures
        r@ == envelope_text(*env),
{
    let mut out = String::new();
    out.append("{\"action\":");
    push_string_text(&mut out, &env.action);
    out.append(",\"table\":");
    push_string_text(&mut out, &env.table);
    out.append(",\"data\":{");
    let n = env.data.len();
    let mut k: usize = 0;
    while k < n
        invariant
            n == env.data@.len(),
            k <= n,
            out@ == "{\"action\":"@ + string_text(env.action@) + ",\"table\":"@ + string_text(
                env.table@,
            ) + ",\"data\":{"@ + members_text(env.data@.subrange(0, k as int)),
        decreases n - k,
    {
        let ghost pre = env.data@.subrange(0, k as int);
        let ghost head = "{\"action\":"@ + string_text(env.action@) + ",\"table\":"@ + string_text(
            env.table@,
        ) + ",\"data\":{"@;
        let ghost pre_out = out@;
        if k > 0 {
            push_char(&mut out, ',');
        }
        proof {
            if k > 0 {
                assert(out@ =~= pre_out + seq![',']);
            }
        }
        let ghost mid_out = out@;
        push_string_text(&mut out, &env.data[k].0);
        push_char(&mut out, ':');
        push_value_text(&mut out, &env.data[k].1);
        proof {
            assert(out@ == mid_out + string_text(env.data@[k as int].0@).push(':') + value_text(
                env.data@[k as int].1,
            ));
            let cur = env.data@.subrange(0, k + 1 as int);
            assert(cur.subrange(0, cur.len() - 1) =~= pre);
            assert(cur[cur.len() - 1] == env.data@[k as int]);
            if k > 0 {
                assert(members_text(cur) == members_text(pre) + seq![','] + member_text(
                    env.data@[k as int],
                ));
            } else {
                assert(members_text(cur) == member_text(env.data@[k as int]));
            }
            assert(out@ =~= head + members_text(cur));
        }
        k = k + 1;
    }
    proof {
        assert(env.data@.subrange(0, n as int) =~= env.data@);
    }
    out.append("}}");
    proof {
        assert(out@ =~= envelope_text(*env));
    }
    out
}

} // verus!
