use vstd::prelude::*;
use crate::error::Error;

verus! {

/// The lower-case hexadecimal digit for a value below 16.
pub open spec fn hex_digit(d: int) -> char {
    if d < 10 {
        (48 + d) as char
    } else {
        (87 + d) as char
    }
}

/// Sixteen to the power `n`.
pub open spec fn pow16(n: nat) -> int
    decreases n,
{
    if n == 0 {
        1
    } else {
        16 * pow16((n - 1) as nat)
    }
}

/// The `i`-th of the 32 hexadecimal digits of `value`, the most significant
/// first.
pub open spec fn nibble(value: u128, i: int) -> int {
    (value as int / pow16((31 - i) as nat)) % 16
}

/// The 32 lower-case hexadecimal digits of `value`, most significant first.
pub open spec fn hex_digits(value: u128) -> Seq<char> {
    Seq::new(32, |i: int| hex_digit(nibble(value, i)))
}

/// The hyphenated lower-case form of a UUID, in groups of 8, 4, 4, 4 and 12
/// digits, such as `67e55044-10b1-426f-9247-bb680e5fe0c8`.
pub open spec fn hyphenated_lower(value: u128) -> Seq<char> {
    let d = hex_digits(value);
    d.subrange(0, 8) + seq!['-'] + d.subrange(8, 12) + seq!['-'] + d.subrange(12, 16) + seq!['-']
        + d.subrange(16, 20) + seq!['-'] + d.subrange(20, 32)
}

/// The value of a hexadecimal digit of either case.
pub open spec fn hex_value(c: char) -> Option<int> {
    let n = c as int;
    if 48 <= n <= 57 {
        Some(n - 48)
    } else if 97 <= n <= 102 {
        Some(n - 87)
    } else if 65 <= n <= 70 {
        Some(n - 55)
    } else {
        None
    }
}

/// Every character is a hexadecimal digit.
pub open spec fn all_hex(ds: Seq<char>) -> bool {
    forall|i: int| 0 <= i < ds.len() ==> #[trigger] hex_value(ds[i]) is Some
}

/// The number that hexadecimal digits write, the most significant first.
pub open spec fn hex_number(ds: Seq<char>) -> int
    decreases ds.len(),
{
    if ds.len() == 0 {
        0
    } else {
        hex_number(ds.drop_last()) * 16 + hex_value(ds.last())->0
    }
}

/// A UUID written as 32 hexadecimal digits.
pub open spec fn parse_simple_text(s: Seq<char>) -> Option<u128> {
    if s.len() == 32 && all_hex(s) {
        Some(hex_number(s) as u128)
    } else {
        None
    }
}

/// A UUID written as 36 characters: hexadecimal digits in groups of 8, 4, 4,
/// 4 and 12, separated by hyphens.
pub open spec fn parse_hyphenated_text(s: Seq<char>) -> Option<u128> {
    if s.len() == 36 && s[8] == '-' && s[13] == '-' && s[18] == '-' && s[23] == '-' {
        parse_simple_text(
            s.subrange(0, 8) + s.subrange(9, 13) + s.subrange(14, 18) + s.subrange(19, 23)
                + s.subrange(24, 36),
        )
    } else {
        None
    }
}

/// The character in lower case, for an ASCII letter; otherwise unchanged.
pub open spec fn ascii_lower(c: char) -> char {
    if 65 <= c as int <= 90 {
        ((c as int) + 32) as char
    } else {
        c
    }
}

/// Every character is ASCII.
pub open spec fn is_ascii_text(s: Seq<char>) -> bool {
    forall|i: int| 0 <= i < s.len() ==> (#[trigger] s[i] as int) < 128
}

/// The texts that `uuid::Uuid::parse_str` accepts, with the value it reads:
/// 32 hexadecimal digits; the hyphenated form; the hyphenated form in braces;
/// or `urn:uuid:` (in any case) before the hyphenated form. Digits may be of
/// either case. Any other text is refused.
pub open spec fn parse_uuid_text(s: Seq<char>) -> Option<u128> {
    if !is_ascii_text(s) {
        None
    } else if s.len() == 32 {
        parse_simple_text(s)
    } else if s.len() == 36 {
        parse_hyphenated_text(s)
    } else if s.len() == 38 && s[0] == '{' && s[37] == '}' {
        parse_hyphenated_text(s.subrange(1, 37))
    } else if s.len() == 45 && s.subrange(0, 9).map_values(|c: char| ascii_lower(c)) == seq![
        'u',
        'r',
        'n',
        ':',
        'u',
        'u',
        'i',
        'd',
        ':',
    ] {
        parse_hyphenated_text(s.subrange(9, 45))
    } else {
        None
    }
}

/// The message of the error `uuid::Uuid::parse_str` reports for a refused
/// text (the `Display` of its error, which depends on the text alone).
pub uninterp spec fn uuid_parse_message(text: Seq<char>) -> Seq<char>;

/// Calls `uuid::Uuid::parse_str` and hands back the UUID as its 128-bit value,
/// or the message of the parse error. Trusted: it succeeds exactly on the
/// texts `parse_uuid_text` accepts, with the value it reads; on the others the
/// message is `uuid_parse_message` of the text.
#[verifier::external_body]
fn uuid_parse(text: &str) -> (r: Result<u128, String>)
    ensures
        match r {
            Ok(v) => parse_uuid_text(text@) == Some(v),
            Err(m) => parse_uuid_text(text@) is None && m@ == uuid_parse_message(text@),
        },
{
    match uuid::Uuid::parse_str(text) {
        Ok(u) => Ok(u.as_u128()),
        Err(e) => Err(e.to_string()),
    }
}

/// Formats a 128-bit value with `uuid::Uuid::from_u128` and the `Display` of
/// `Uuid`. Trusted: the text is the hyphenated lower-case form.
#[verifier::external_body]
fn uuid_format(value: u128) -> (text: String)
    ensures
        text@ == hyphenated_lower(value),
{
    uuid::Uuid::from_u128(value).to_string()
}

/// Turns the outcome of parsing a characteristic UUID into the client's
/// result: the value, or `Error::UuidParse` with the parser's message.
pub fn characteristic_from_parse(parsed: Result<u128, String>) -> (r: Result<u128, Error>)
    ensures
        match parsed {
            Ok(v) => r == Ok::<u128, Error>(v),
            Err(m) => r == Err::<u128, Error>(Error::UuidParse(m)),
        },
{
    match parsed {
        Ok(v) => Ok(v),
        Err(m) => Err(Error::UuidParse(m)),
    }
}

/// Parses the text of a characteristic UUID. It succeeds exactly on the texts
/// that `uuid::Uuid::parse_str` accepts, with the value it reads; otherwise
/// the error is `Error::UuidParse` carrying the parser's message.
pub fn parse_characteristic(text: &str) -> (r: Result<u128, Error>)
    ensures
        match r {
            Ok(v) => parse_uuid_text(text@) == Some(v),
            Err(e) => parse_uuid_text(text@) is None && (e matches Error::UuidParse(m) && m@
                == uuid_parse_message(text@)),
        },
{
    characteristic_from_parse(uuid_parse(text))
}

/// The text of a UUID as the client reports it in errors: the hyphenated
/// lower-case form. Parsing it gives the value back.
pub fn uuid_text(value: u128) -> (text: String)
    ensures
        text@ == hyphenated_lower(value),
        parse_uuid_text(text@) == Some(value),
{
    proof {
        lemma_parse_reads_back(value);
    }
    uuid_format(value)
}

proof fn lemma_pow16_positive(n: nat)
    ensures
        pow16(n) > 0,
    decreases n,
{
    if n > 0 {
        lemma_pow16_positive((n - 1) as nat);
    }
}

proof fn lemma_hex_value_of_digit(d: int)
    requires
        0 <= d < 16,
    ensures
        hex_value(hex_digit(d)) == Some(d),
        (hex_digit(d) as int) < 128,
{
}

proof fn lemma_digits_prefix(v: u128, k: nat)
    requires
        k <= 32,
    ensures
        all_hex(hex_digits(v).take(k as int)),
        is_ascii_text(hex_digits(v).take(k as int)),
        hex_number(hex_digits(v).take(k as int)) == v as int / pow16((32 - k) as nat),
    decreases k,
{
    let d = hex_digits(v);
    if k == 0 {
        reveal_with_fuel(pow16, 33);
        assert(pow16(32) == 0x1_0000_0000_0000_0000_0000_0000_0000_0000int);
        assert(d.take(0) =~= Seq::<char>::empty());
        vstd::arithmetic::div_mod::lemma_basic_div(v as int, pow16(32));
    } else {
        let j = (k - 1) as nat;
        lemma_digits_prefix(v, j);
        let t = d.take(k as int);
        assert(t.drop_last() =~= d.take(j as int));
        let a = pow16((31 - j) as nat);
        lemma_pow16_positive((31 - j) as nat);
        assert(pow16((32 - j) as nat) == 16 * a);
        lemma_hex_value_of_digit(nibble(v, j as int));
        assert(t.last() == hex_digit(nibble(v, j as int)));
        let q = v as int / a;
        vstd::arithmetic::div_mod::lemma_div_denominator(v as int, a, 16);
        assert(a * 16 == 16 * a) by (nonlinear_arith);
        vstd::arithmetic::div_mod::lemma_fundamental_div_mod(q, 16);
        assert(hex_number(t) == (q / 16) * 16 + q % 16);
        assert(hex_number(t) == q);
        assert forall|i: int| 0 <= i < t.len() implies #[trigger] hex_value(t[i]) is Some by {
            if i < j {
                assert(t[i] == d.take(j as int)[i]);
            }
        }
        assert forall|i: int| 0 <= i < t.len() implies (#[trigger] t[i] as int) < 128 by {
            if i < j {
                assert(t[i] == d.take(j as int)[i]);
            }
        }
    }
}

/// Parsing the hyphenated form of a value gives the value back.
pub proof fn lemma_parse_reads_back(v: u128)
    ensures
        parse_uuid_text(hyphenated_lower(v)) == Some(v),
        parse_hyphenated_text(hyphenated_lower(v)) == Some(v),
        is_ascii_text(hyphenated_lower(v)),
        parse_uuid_text(hex_digits(v)) == Some(v),
{
    let d = hex_digits(v);
    let h = hyphenated_lower(v);
    lemma_digits_prefix(v, 32);
    assert(d.take(32) =~= d);
    reveal_with_fuel(pow16, 1);
    assert(hex_number(d) == v as int);
    assert(h.subrange(0, 8) + h.subrange(9, 13) + h.subrange(14, 18) + h.subrange(19, 23)
        + h.subrange(24, 36) =~= d);
    assert forall|i: int| 0 <= i < h.len() implies (#[trigger] h[i] as int) < 128 by {
        if i < 8 {
            assert(h[i] == d[i]);
        } else if 8 < i < 13 {
            assert(h[i] == d[i - 1]);
        } else if 13 < i < 18 {
            assert(h[i] == d[i - 2]);
        } else if 18 < i < 23 {
            assert(h[i] == d[i - 3]);
        } else if 23 < i {
            assert(h[i] == d[i - 4]);
        }
    }
}

/// The hyphenated form has 36 characters: hyphens at positions 8, 13, 18
/// and 23, and lower-case hexadecimal digits everywhere else.
pub proof fn lemma_hyphenated_shape(v: u128)
    ensures
        hyphenated_lower(v).len() == 36,
        hyphenated_lower(v)[8] == '-' && hyphenated_lower(v)[13] == '-' && hyphenated_lower(v)[18]
            == '-' && hyphenated_lower(v)[23] == '-',
        forall|i: int|
            0 <= i < 36 && i != 8 && i != 13 && i != 18 && i != 23 ==> {
                let c = #[trigger] hyphenated_lower(v)[i] as int;
                (48 <= c <= 57) || (97 <= c <= 102)
            },
{
    let d = hex_digits(v);
    let h = hyphenated_lower(v);
    assert forall|i: int| 0 <= i < 32 implies {
        let c = #[trigger] d[i] as int;
        (48 <= c <= 57) || (97 <= c <= 102)
    } by {
        lemma_pow16_positive((31 - i) as nat);
        let n = nibble(v, i);
        assert(0 <= n < 16);
        lemma_hex_value_of_digit(n);
    }
    assert forall|i: int|
        0 <= i < 36 && i != 8 && i != 13 && i != 18 && i != 23 implies {
            let c = #[trigger] h[i] as int;
            (48 <= c <= 57) || (97 <= c <= 102)
        } by {
        if i < 8 {
            assert(h[i] == d[i]);
        } else if i < 13 {
            assert(h[i] == d[i - 1]);
        } else if i < 18 {
            assert(h[i] == d[i - 2]);
        } else if i < 23 {
            assert(h[i] == d[i - 3]);
        } else {
            assert(h[i] == d[i - 4]);
        }
    }
}

/// Every written form of a UUID reads back as its value: the 32 digits, the
/// hyphenated form, the hyphenated form in braces, and the `urn:uuid:` form.
pub proof fn lemma_parse_reads_every_form(v: u128)
    ensures
        parse_uuid_text(hex_digits(v)) == Some(v),
        parse_uuid_text(hyphenated_lower(v)) == Some(v),
        parse_uuid_text(seq!['{'] + hyphenated_lower(v) + seq!['}']) == Some(v),
        parse_uuid_text(seq!['u', 'r', 'n', ':', 'u', 'u', 'i', 'd', ':'] + hyphenated_lower(v))
            == Some(v),
{
    lemma_parse_reads_back(v);
    lemma_hyphenated_shape(v);
    let h = hyphenated_lower(v);
    let b = seq!['{'] + h + seq!['}'];
    assert(b.subrange(1, 37) =~= h);
    assert forall|i: int| 0 <= i < b.len() implies (#[trigger] b[i] as int) < 128 by {
        if 1 <= i < 37 {
            assert(b[i] == h[i - 1]);
        }
    }
    assert(b[0] == '{' && b[37] == '}');
    let prefix = seq!['u', 'r', 'n', ':', 'u', 'u', 'i', 'd', ':'];
    let u = prefix + h;
    assert(u.subrange(9, 45) =~= h);
    assert(u.subrange(0, 9) =~= prefix);
    assert(prefix.map_values(|c: char| ascii_lower(c)) =~= prefix);
    assert forall|i: int| 0 <= i < u.len() implies (#[trigger] u[i] as int) < 128 by {
        if 9 <= i {
            assert(u[i] == h[i - 9]);
        } else {
            assert(u[i] == prefix[i]);
        }
    }
}

/// The character in upper case, for an ASCII lower-case letter; otherwise
/// unchanged.
pub open spec fn ascii_upper(c: char) -> char {
    if 97 <= c as int <= 122 {
        ((c as int) - 32) as char
    } else {
        c
    }
}

proof fn lemma_upper_keeps_hex(ds: Seq<char>)
    requires
        all_hex(ds),
        is_ascii_text(ds),
    ensures
        all_hex(ds.map_values(|c: char| ascii_upper(c))),
        is_ascii_text(ds.map_values(|c: char| ascii_upper(c))),
        hex_number(ds.map_values(|c: char| ascii_upper(c))) == hex_number(ds),
    decreases ds.len(),
{
    let up = ds.map_values(|c: char| ascii_upper(c));
    assert forall|i: int| 0 <= i < up.len() implies #[trigger] hex_value(up[i]) == hex_value(ds[i])
        && (up[i] as int) < 128 by {
        assert(hex_value(ds[i]) is Some);
        assert((ds[i] as int) < 128);
    }
    if ds.len() > 0 {
        let d0 = ds.drop_last();
        assert forall|i: int| 0 <= i < d0.len() implies #[trigger] hex_value(d0[i]) is Some by {
            assert(d0[i] == ds[i]);
        }
        assert forall|i: int| 0 <= i < d0.len() implies (#[trigger] d0[i] as int) < 128 by {
            assert(d0[i] == ds[i]);
        }
        lemma_upper_keeps_hex(d0);
        assert(up.drop_last() =~= d0.map_values(|c: char| ascii_upper(c)));
        assert(hex_value(up.last()) == hex_value(ds.last()));
    }
}

/// Digits are read in either case: the 32 digits of a value in upper case
/// read back as the value too.
pub proof fn lemma_parse_reads_upper_case(v: u128)
    ensures
        parse_uuid_text(hex_digits(v).map_values(|c: char| ascii_upper(c))) == Some(v),
{
    lemma_digits_prefix(v, 32);
    let d = hex_digits(v);
    assert(d.take(32) =~= d);
    reveal_with_fuel(pow16, 1);
    lemma_upper_keeps_hex(d);
}

/// The parser refuses a text with a non-ASCII character, a text of a length
/// none of its forms has, and 32 characters that are not all hexadecimal
/// digits.
pub proof fn lemma_parse_refuses(text: Seq<char>)
    ensures
        !is_ascii_text(text) ==> parse_uuid_text(text) is None,
        text.len() != 32 && text.len() != 36 && text.len() != 38 && text.len() != 45
            ==> parse_uuid_text(text) is None,
        text.len() == 32 && (exists|i: int| 0 <= i < 32 && #[trigger] hex_value(text[i]) is None)
            ==> parse_uuid_text(text) is None,
        parse_uuid_text(text) is Some ==> is_ascii_text(text),
{
}

} // verus!
