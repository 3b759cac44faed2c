//! The JSON text of the command payloads: strings, byte arrays and string arrays.
use vstd::prelude::*;
use vstd::string::*;

verus! {

/// The lowercase hexadecimal digit of a value below 16.
pub open spec fn hex_digit(d: int) -> char {
    if d < 10 {
        (('0' as int) + d) as char
    } else {
        (('a' as int) + d - 10) as char
    }
}

/// The JSON text of one character inside a string literal.
pub open spec fn json_escape_char(c: char) -> Seq<char> {
    if c == '"' {
        seq!['\\', '"']
    } else if c == '\\' {
        seq!['\\', '\\']
    } else if c == '\x08' {
        seq!['\\', 'b']
    } else if c == '\x0c' {
        seq!['\\', 'f']
    } else if c == '\n' {
        seq!['\\', 'n']
    } else if c == '\r' {
        seq!['\\', 'r']
    } else if c == '\t' {
        seq!['\\', 't']
    } else if (c as int) < 0x20 {
        seq!['\\', 'u', '0', '0', hex_digit((c as int) / 16), hex_digit((c as int) % 16)]
    } else {
        seq![c]
    }
}

/// The escaped characters of `s`.
pub open spec fn json_escape(s: Seq<char>) -> Seq<char>
    decreases s.len(),
{
    if s.len() == 0 {
        Seq::empty()
    } else {
        json_escape_char(s[0]) + json_escape(s.drop_first())
    }
}

/// The JSON string literal of `s`.
pub open spec fn json_string(s: Seq<char>) -> Seq<char> {
    seq!['"'] + json_escape(s) + seq!['"']
}

/// `serde_json::to_string` of a string slice: the JSON string literal, with `"`, `\` and the
/// control characters below U+0020 escaped (`\b`, `\f`, `\n`, `\r`, `\t`, otherwise `\u00XX`
/// with lowercase hex digits) and every other character kept as it is.
#[verifier::external_body]
pub(crate) fn json_string_literal(s: &str) -> (r: String)
    ensures
        r@ == json_string(s@),
{
    match serde_json::to_string(s) {
        Ok(text) => text,
        Err(_) => String::new(),
    }
}

/// The character of a decimal digit.
pub open spec fn digit_char(d: int) -> char {
    (('0' as int) + d) as char
}

/// The decimal text of a natural number.
pub open spec fn decimal(n: nat) -> Seq<char>
    decreases n,
{
    if n < 10 {
        seq![digit_char(n as int)]
    } else {
        decimal(n / 10).push(digit_char(n as int % 10))
    }
}

fn digit_text(d: u8) -> (r: &'static str)
    requires
        d < 10,
    ensures
        r@ == seq![digit_char(d as int)],
{
    match d {
        0 => {
            proof {
                reveal_strlit("0");
            }
            "0"
        },
        1 => {
            proof {
                reveal_strlit("1");
            }
            "1"
        },
        2 => {
            proof {
                reveal_strlit("2");
            }
            "2"
        },
        3 => {
            proof {
                reveal_strlit("3");
            }
            "3"
        },
        4 => {
            proof {
                reveal_strlit("4");
            }
            "4"
        },
        5 => {
            proof {
                reveal_strlit("5");
            }
            "5"
        },
        6 => {
            proof {
                reveal_strlit("6");
            }
            "6"
        },
        7 => {
            proof {
                reveal_strlit("7");
            }
            "7"
        },
        8 => {
            proof {
                reveal_strlit("8");
            }
            "8"
        },
        _ => {
            proof {
                reveal_strlit("9");
            }
            "9"
        },
    }
}

/// Appends the decimal text of `b` to `out`.
pub fn push_decimal(out: &mut String, b: u8)
    ensures
        final(out)@ == old(out)@ + decimal(b as nat),
{
    if b >= 100 {
        out.append(digit_text(b / 100));
        out.append(digit_text((b / 10) % 10));
        out.append(digit_text(b % 10));
        proof {
            let n = b as nat;
            assert(decimal(n / 10 / 10) == seq![digit_char((n / 100) as int)]);
            assert(decimal(n / 10) == decimal(n / 10 / 10).push(digit_char((n / 10) as int % 10)));
            assert(decimal(n) == decimal(n / 10).push(digit_char(n as int % 10)));
        }
    } else if b >= 10 {
        out.append(digit_text(b / 10));
        out.append(digit_text(b % 10));
        proof {
            let n = b as nat;
            assert(decimal(n / 10) == seq![digit_char((n / 10) as int)]);
            assert(decimal(n) == decimal(n / 10).push(digit_char(n as int % 10)));
        }
    } else {
        out.append(digit_text(b));
    }
    proof {
        assert(final(out)@ =~= old(out)@ + decimal(b as nat));
    }
}

/// The items joined with commas.
pub open spec fn comma_joined(items: Seq<Seq<char>>) -> Seq<char>
    decreases items.len(),
{
    if items.len() == 0 {
        Seq::empty()
    } else if items.len() == 1 {
        items[0]
    } else {
        comma_joined(items.drop_last()) + seq![','] + items.last()
    }
}

/// The JSON array text of a list of bytes, such as `[104,105]`.
pub open spec fn json_byte_array(bytes: Seq<u8>) -> Seq<char> {
    seq!['['] + comma_joined(bytes.map_values(|b: u8| decimal(b as nat))) + seq![']']
}

/// Whether a character is one of the ten decimal digits.
pub open spec fn is_digit(c: char) -> bool {
    '0' <= c && c <= '9'
}

/// The number that a text of decimal digits reads as.
pub open spec fn digits_value(s: Seq<char>) -> int
    decreases s.len(),
{
    if s.len() == 0 {
        0
    } else {
        digits_value(s.drop_last()) * 10 + (s.last() as int - '0' as int)
    }
}

/// `s` is the canonical decimal text of `v`: digits only, at least one, no leading zero
/// unless the number is zero itself, and reading back as `v`.
pub open spec fn canonical_decimal(s: Seq<char>, v: nat) -> bool {
    &&& s.len() > 0
    &&& forall|i: int| 0 <= i < s.len() ==> is_digit(#[trigger] s[i])
    &&& (s.len() > 1 ==> s[0] != '0')
    &&& digits_value(s) == v
}

/// The decimal text of every number is canonical: its digits read back as the number, and
/// it starts with `0` only when it is `0`.
pub proof fn law_decimal_is_canonical(n: nat)
    ensures
        canonical_decimal(decimal(n), n),
        n > 0 ==> decimal(n)[0] != '0',
    decreases n,
{
    if n < 10 {
        let c = digit_char(n as int);
        assert(c as int == '0' as int + n);
        assert(decimal(n) == seq![c]);
        assert(seq![c].drop_last() =~= Seq::<char>::empty());
        assert(digits_value(seq![c].drop_last()) == 0);
        assert(seq![c].last() == c);
        assert(digits_value(seq![c]) == n);
    } else {
        law_decimal_is_canonical(n / 10);
        let d = decimal(n / 10);
        let c = digit_char(n as int % 10);
        assert(c as int == '0' as int + n as int % 10);
        assert(decimal(n) == d.push(c));
        assert(d.push(c).drop_last() =~= d);
        assert(d.push(c)[0] == d[0]);
        assert(digits_value(d.push(c)) == (n / 10) as int * 10 + n as int % 10);
        assert forall|i: int| 0 <= i < d.push(c).len() implies is_digit(#[trigger] d.push(c)[i]) by {
            if i < d.len() {
                assert(d.push(c)[i] == d[i]);
            }
        }
    }
}

/// The JSON array of a list of bytes holds, between brackets and separated by commas, the
/// canonical decimal text of each byte, in order: no leading zeros, so the text is valid JSON
/// and reads back as the bytes.
pub proof fn law_byte_array_is_decimal_list(bytes: Seq<u8>)
    ensures
        exists|items: Seq<Seq<char>>|
            items.len() == bytes.len() && (forall|k: int|
                0 <= k < bytes.len() ==> canonical_decimal(#[trigger] items[k], bytes[k] as nat))
                && json_byte_array(bytes) == seq!['['] + comma_joined(items) + seq![']'],
{
    let items = bytes.map_values(|b: u8| decimal(b as nat));
    assert forall|k: int| 0 <= k < bytes.len() implies canonical_decimal(#[trigger] items[k], bytes[k] as nat) by {
        law_decimal_is_canonical(bytes[k] as nat);
    }
    assert(json_byte_array(bytes) == seq!['['] + comma_joined(items) + seq![']']);
}

/// The JSON array text of a list of strings, such as `["a","b"]`.
pub open spec fn json_string_array(items: Seq<Seq<char>>) -> Seq<char> {
    seq!['['] + comma_joined(items.map_values(|s: Seq<char>| json_string(s))) + seq![']']
}

/// Appends the JSON array text of `bytes`.
pub fn push_byte_array(out: &mut String, bytes: &Vec<u8>)
    ensures
        final(out)@ == old(out)@ + json_byte_array(bytes@),
{
    let ghost items = bytes@.map_values(|b: u8| decimal(b as nat));
    let ghost start = out@;
    out.append("[");
    proof {
        reveal_strlit("[");
        reveal_strlit(",");
        reveal_strlit("]");
        assert(items.take(0) =~= Seq::<Seq<char>>::empty());
        assert(out@ =~= start + seq!['['] + comma_joined(items.take(0)));
    }
    let mut i: usize = 0;
    while i < bytes.len()
        invariant
            items == bytes@.map_values(|b: u8| decimal(b as nat)),
            i <= bytes.len(),
            out@ == start + seq!['['] + comma_joined(items.take(i as int)),
            ","@ == seq![','],
        decreases bytes.len() - i,
    {
        let ghost before = out@;
        if i > 0 {
            out.append(",");
        }
        push_decimal(out, bytes[i]);
        proof {
            let t = items.take(i + 1);
            assert(t.drop_last() =~= items.take(i as int));
            assert(t.last() == decimal(bytes@[i as int] as nat));
            if i == 0 {
                assert(t.len() == 1);
                assert(out@ =~= start + seq!['['] + comma_joined(t));
            } else {
                assert(out@ =~= start + seq!['['] + comma_joined(t));
            }
        }
        i = i + 1;
    }
    out.append("]");
    proof {
        assert(items.take(bytes.len() as int) =~= items);
        assert(out@ =~= start + json_byte_array(bytes@));
    }
}

/// Appends the JSON array text of `items`.
pub fn push_string_array(out: &mut String, items: &Vec<String>)
    ensures
        final(out)@ == old(out)@ + json_string_array(items@.map_values(|s: String| s@)),
{
    let ghost texts = items@.map_values(|s: String| s@).map_values(|s: Seq<char>| json_string(s));
    let ghost start = out@;
    out.append("[");
    proof {
        reveal_strlit("[");
        reveal_strlit(",");
        reveal_strlit("]");
        assert(out@ =~= start + seq!['['] + comma_joined(texts.take(0)));
    }
    let mut i: usize = 0;
    while i < items.len()
        invariant
            texts == items@.map_values(|s: String| s@).map_values(|s: Seq<char>| json_string(s)),
            i <= items.len(),
            out@ == start + seq!['['] + comma_joined(texts.take(i as int)),
            ","@ == seq![','],
        decreases items.len() - i,
    {
        if i > 0 {
            out.append(",");
        }
        let lit = json_string_literal(items[i].as_str());
        out.append(lit.as_str());
        proof {
            let t = texts.take(i + 1);
            assert(t.drop_last() =~= texts.take(i as int));
            assert(t.last() == json_string(items@[i as int]@));
            assert(out@ =~= start + seq!['['] + comma_joined(t));
        }
        i = i + 1;
    }
    out.append("]");
    proof {
        assert(texts.take(items.len() as int) =~= texts);
        assert(out@ =~= start + json_string_array(items@.map_values(|s: String| s@)));
    }
}

/// The UTF-8 bytes of a string.
pub fn utf8_bytes(s: &String) -> (r: Vec<u8>)
    ensures
        r@ == vstd::utf8::encode_utf8(s@),
{
    s.as_str().as_bytes_vec()
}

} // verus!
