use vstd::prelude::*;

use vstd::string::StringExecFns;

verus! {

/// The lowercase hex digit of a value below 16.
pub open spec fn hex_digit(v: int) -> char {
    if v < 10 {
        ((48 + v) as u8) as char
    } else {
        ((87 + v) as u8) as char
    }
}

/// Two lowercase hex digits per byte, high nibble first, no separators.
pub open spec fn hex_text(b: Seq<u8>) -> Seq<char>
    decreases b.len(),
{
    if b.len() == 0 {
        Seq::empty()
    } else {
        hex_text(b.drop_last()) + seq![hex_digit(b.last() as int / 16), hex_digit(b.last() as int % 16)]
    }
}

/// The decimal digit of a value below 10.
pub open spec fn decimal_digit(v: int) -> char {
    ((48 + v) as u8) as char
}

/// The decimal digits of `n`, without leading zeros.
pub open spec fn decimal_text(n: nat) -> Seq<char>
    decreases n,
{
    if n < 10 {
        seq![decimal_digit(n as int)]
    } else {
        decimal_text(n / 10) + seq![decimal_digit((n % 10) as int)]
    }
}

/// `n` in decimal, padded with a zero to at least two digits.
pub open spec fn two_digit_text(n: nat) -> Seq<char> {
    if n < 10 {
        seq!['0'] + decimal_text(n)
    } else {
        decimal_text(n)
    }
}

/// The rule fragment `$code<NN> = {<hex>}` for pattern number `number`.
pub open spec fn signature_text(number: nat, pattern: Seq<u8>) -> Seq<char> {
    "$code"@ + two_digit_text(number) + " = {"@ + hex_text(pattern) + "}"@
}

/// Relies on hex::encode: each byte becomes two lowercase hex digits from
/// the table `0123456789abcdef`, high nibble first, in order.
#[verifier::external_body]
fn encode_hex(b: &[u8]) -> (r: String)
    ensures
        r@ == hex_text(b@),
{
    hex::encode(b)
}

/// The one-character text of a decimal digit.
fn digit_str(d: usize) -> (r: &'static str)
    requires
        d < 10,
    ensures
        r@ == seq![decimal_digit(d as int)],
{
    match d {
        0 => {
            proof { reveal_strlit("0"); }
            "0"
        },
        1 => {
            proof { reveal_strlit("1"); }
            "1"
        },
        2 => {
            proof { reveal_strlit("2"); }
            "2"
        },
        3 => {
            proof { reveal_strlit("3"); }
            "3"
        },
        4 => {
            proof { reveal_strlit("4"); }
            "4"
        },
        5 => {
            proof { reveal_strlit("5"); }
            "5"
        },
        6 => {
            proof { reveal_strlit("6"); }
            "6"
        },
        7 => {
            proof { reveal_strlit("7"); }
            "7"
        },
        8 => {
            proof { reveal_strlit("8"); }
            "8"
        },
        _ => {
            proof { reveal_strlit("9"); }
            "9"
        },
    }
}

/// Appends the decimal digits of `n` to `s`.
fn append_decimal(s: &mut String, n: usize)
    ensures
        final(s)@ == old(s)@ + decimal_text(n as nat),
    decreases n,
{
    if n >= 10 {
        append_decimal(s, n / 10);
        s.append(digit_str(n % 10));
    } else {
        s.append(digit_str(n));
    }
}

/// Formats one accepted pattern as the rule fragment
/// `$code<NN> = {<hex>}`, with `number` in at least two decimal digits.
pub fn signature_line(number: usize, pattern: &[u8]) -> (r: String)
    ensures
        r@ == signature_text(number as nat, pattern@),
{
    let mut s = String::from_str("$code");
    if number < 10 {
        s.append("0");
        proof { reveal_strlit("0"); }
    }
    append_decimal(&mut s, number);
    s.append(" = {");
    let hex = encode_hex(pattern);
    s.append(hex.as_str());
    s.append("}");
    s
}

/// Formats accepted patterns as rule fragments numbered from 1.
pub fn signature_lines(patterns: &Vec<Vec<u8>>) -> (r: Vec<String>)
    ensures
        r@.len() == patterns@.len(),
        forall|k: int|
            0 <= k < r@.len() ==> (#[trigger] r@[k])@ == signature_text((k + 1) as nat, patterns@[k]@),
{
    let mut out: Vec<String> = Vec::new();
    let mut k: usize = 0;
    while k < patterns.len()
        invariant
            k <= patterns@.len(),
            out@.len() == k,
            forall|q: int|
                0 <= q < k ==> (#[trigger] out@[q])@ == signature_text((q + 1) as nat, patterns@[q]@),
        decreases patterns@.len() - k,
    {
        out.push(signature_line(k + 1, patterns[k].as_slice()));
        k = k + 1;
    }
    out
}

} // verus!
