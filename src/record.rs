//! The text record that a license code is made from, written out as bytes.
use vstd::prelude::*;
use vstd::string::*;
use vstd::utf8::encode_utf8;

verus! {

/// What a license is generated from.
pub struct Config {
    pub username: String,
    /// Expected in the shape `major.minor`, both parts decimal digits.
    pub version: String,
    /// One of `Professional`, `Educational`, `Personal`.
    pub license_type: String,
    pub count: usize,
    /// Where the finished license archive is to be written.
    pub install_path: String,
}

/// The decimal digits of `n`, most significant first, as ASCII bytes.
pub open spec fn decimal(n: nat) -> Seq<u8>
    decreases n,
{
    if n < 10 {
        seq![(48 + n) as u8]
    } else {
        decimal(n / 10) + seq![(48 + n % 10) as u8]
    }
}

/// The numeric code of a license category; an unknown name counts as `Professional`.
pub open spec fn license_type_code(name: Seq<char>) -> u8 {
    if name == "Professional"@ {
        1
    } else if name == "Educational"@ {
        3
    } else if name == "Personal"@ {
        4
    } else {
        1
    }
}

/// The record `type#user|majorminor#count#major3minor6minor#0#0#0#`, as UTF-8.
pub open spec fn record_bytes(
    license_type: u8,
    username: Seq<char>,
    major: Seq<char>,
    minor: Seq<char>,
    count: nat,
) -> Seq<u8> {
    decimal(license_type as nat) + seq![35u8] + encode_utf8(username) + seq![124u8]
        + encode_utf8(major) + encode_utf8(minor) + seq![35u8] + decimal(count) + seq![35u8]
        + encode_utf8(major) + seq![51u8] + encode_utf8(minor) + seq![54u8] + encode_utf8(minor)
        + seq![35u8, 48u8, 35u8, 48u8, 35u8, 48u8, 35u8]
}

/// Appends the decimal digits of `n` to `out`.
pub fn push_decimal(out: &mut Vec<u8>, n: usize)
    ensures
        final(out)@ == old(out)@ + decimal(n as nat),
    decreases n,
{
    if n >= 10 {
        push_decimal(out, n / 10);
    }
    out.push((48 + n % 10) as u8);
    assert(final(out)@ =~= old(out)@ + decimal(n as nat));
}

/// Whether `a` and `b` hold the same characters.
pub fn same_text(a: &str, b: &str) -> (r: bool)
    ensures
        r == (a@ == b@),
{
    let n = a.unicode_len();
    if n != b.unicode_len() {
        return false;
    }
    let mut i: usize = 0;
    while i < n
        invariant
            i <= n,
            n == a@.len(),
            n == b@.len(),
            a@.take(i as int) == b@.take(i as int),
        decreases n - i,
    {
        if a.get_char(i) != b.get_char(i) {
            assert(a@[i as int] != b@[i as int]);
            return false;
        }
        i = i + 1;
        assert(a@.take(i as int) =~= a@.take((i - 1) as int).push(a@[i - 1]));
        assert(b@.take(i as int) =~= b@.take((i - 1) as int).push(b@[i - 1]));
    }
    assert(a@ =~= a@.take(n as int));
    assert(b@ =~= b@.take(n as int));
    true
}

/// The numeric code of a license category: `Professional` 1, `Educational` 3,
/// `Personal` 4, and 1 for any other name.
pub fn parse_license_type(license_type: &str) -> (r: u8)
    ensures
        r == license_type_code(license_type@),
{
    if same_text(license_type, "Professional") {
        1
    } else if same_text(license_type, "Educational") {
        3
    } else if same_text(license_type, "Personal") {
        4
    } else {
        1
    }
}

fn push_text(out: &mut Vec<u8>, s: &str)
    ensures
        final(out)@ == old(out)@ + encode_utf8(s@),
{
    let bytes = s.as_bytes_vec();
    out.extend_from_slice(bytes.as_slice());
}

/// The record that a license code is made from.
pub fn license_record(
    license_type: u8,
    username: &str,
    major: &str,
    minor: &str,
    count: usize,
) -> (r: Vec<u8>)
    ensures
        r@ == record_bytes(license_type, username@, major@, minor@, count as nat),
{
    let mut out: Vec<u8> = Vec::new();
    push_decimal(&mut out, license_type as usize);
    out.push(35);
    push_text(&mut out, username);
    out.push(124);
    push_text(&mut out, major);
    push_text(&mut out, minor);
    out.push(35);
    push_decimal(&mut out, count);
    out.push(35);
    push_text(&mut out, major);
    out.push(51);
    push_text(&mut out, minor);
    out.push(54);
    push_text(&mut out, minor);
    out.push(35);
    out.push(48);
    out.push(35);
    out.push(48);
    out.push(35);
    out.push(48);
    out.push(35);
    assert(out@ =~= record_bytes(license_type, username@, major@, minor@, count as nat));
    out
}

} // verus!
