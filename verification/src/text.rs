//! Reading words and numbers out of a line of text.
use vstd::prelude::*;

verus! {

/// Unicode's White_Space property: the characters that `char::is_whitespace` accepts.
pub open spec fn is_white_space(c: char) -> bool {
    let n = c as u32;
    ||| 0x9 <= n <= 0xd
    ||| n == 0x20
    ||| n == 0x85
    ||| n == 0xa0
    ||| n == 0x1680
    ||| 0x2000 <= n <= 0x200a
    ||| n == 0x2028
    ||| n == 0x2029
    ||| n == 0x202f
    ||| n == 0x205f
    ||| n == 0x3000
}

/// Whether `c` is whitespace in Unicode's sense.
pub fn is_whitespace(c: char) -> (b: bool)
    ensures
        b == is_white_space(c),
{
    let n = c as u32;
    (0x9 <= n && n <= 0xd) || n == 0x20 || n == 0x85 || n == 0xa0 || n == 0x1680 || (0x2000 <= n
        && n <= 0x200a) || n == 0x2028 || n == 0x2029 || n == 0x202f || n == 0x205f || n == 0x3000
}

/// The index of the first character of `s` at or after `i` that is not whitespace, or
/// the length of `s` where there is none.
pub open spec fn skip_white(s: Seq<char>, i: int) -> int
    decreases s.len() - i,
{
    if 0 <= i < s.len() && is_white_space(s[i]) {
        skip_white(s, i + 1)
    } else {
        i
    }
}

/// The index of the first whitespace character of `s` at or after `i`, or the length of
/// `s` where there is none.
pub open spec fn skip_word(s: Seq<char>, i: int) -> int
    decreases s.len() - i,
{
    if 0 <= i < s.len() && !is_white_space(s[i]) {
        skip_word(s, i + 1)
    } else {
        i
    }
}

/// The end of `s[lo..j]` once the whitespace at its back is taken off.
pub open spec fn trim_end(s: Seq<char>, lo: int, j: int) -> int
    decreases j - lo,
{
    if lo < j <= s.len() && is_white_space(s[j - 1]) {
        trim_end(s, lo, j - 1)
    } else {
        j
    }
}

/// `s` without the whitespace at its front and at its back.
pub open spec fn trimmed(s: Seq<char>) -> Seq<char> {
    let a = skip_white(s, 0);
    s.subrange(a, trim_end(s, a, s.len() as int))
}

/// Where the first word of `s` at or after `i` begins.
pub open spec fn word_start(s: Seq<char>, i: int) -> int {
    skip_white(s, i)
}

/// Where the first word of `s` at or after `i` ends.
pub open spec fn word_end(s: Seq<char>, i: int) -> int {
    skip_word(s, skip_white(s, i))
}

/// Everything between `i` and `skip_white(s, i)` is whitespace, and what stops the scan is
/// the end of `s` or a character that is not.
pub proof fn lemma_skip_white(s: Seq<char>, i: int)
    requires
        0 <= i <= s.len(),
    ensures
        i <= skip_white(s, i) <= s.len(),
        forall|k: int| i <= k < skip_white(s, i) ==> is_white_space(#[trigger] s[k]),
        skip_white(s, i) < s.len() ==> !is_white_space(s[skip_white(s, i)]),
    decreases s.len() - i,
{
    if i < s.len() && is_white_space(s[i]) {
        lemma_skip_white(s, i + 1);
    }
}

/// Everything between `i` and `skip_word(s, i)` is not whitespace, and what stops the scan
/// is the end of `s` or a whitespace character.
pub proof fn lemma_skip_word(s: Seq<char>, i: int)
    requires
        0 <= i <= s.len(),
    ensures
        i <= skip_word(s, i) <= s.len(),
        forall|k: int| i <= k < skip_word(s, i) ==> !is_white_space(#[trigger] s[k]),
        skip_word(s, i) < s.len() ==> is_white_space(s[skip_word(s, i)]),
    decreases s.len() - i,
{
    if i < s.len() && !is_white_space(s[i]) {
        lemma_skip_word(s, i + 1);
    }
}

/// The index of the first character of `s` at or after `i` that is not whitespace.
fn skip_white_from(s: &str, i: usize) -> (j: usize)
    requires
        i <= s@.len(),
    ensures
        j == skip_white(s@, i as int),
{
    let n = s.unicode_len();
    let mut j = i;
    while j < n && is_whitespace(s.get_char(j))
        invariant
            i <= j <= n,
            n == s@.len(),
            skip_white(s@, j as int) == skip_white(s@, i as int),
        decreases n - j,
    {
        j = j + 1;
    }
    j
}

/// The index of the first whitespace character of `s` at or after `i`.
fn skip_word_from(s: &str, i: usize) -> (j: usize)
    requires
        i <= s@.len(),
    ensures
        j == skip_word(s@, i as int),
{
    let n = s.unicode_len();
    let mut j = i;
    while j < n && !is_whitespace(s.get_char(j))
        invariant
            i <= j <= n,
            n == s@.len(),
            skip_word(s@, j as int) == skip_word(s@, i as int),
        decreases n - j,
    {
        j = j + 1;
    }
    j
}

/// `s` without the whitespace at its front and at its back, as `str::trim` gives it.
pub fn trim(s: &str) -> (t: &str)
    ensures
        t@ == trimmed(s@),
{
    let n = s.unicode_len();
    let a = skip_white_from(s, 0);
    proof {
        lemma_skip_white(s@, 0);
    }
    let mut b = n;
    while a < b && is_whitespace(s.get_char(b - 1))
        invariant
            a <= b <= n,
            n == s@.len(),
            trim_end(s@, a as int, b as int) == trim_end(s@, a as int, n as int),
        decreases b - a,
    {
        b = b - 1;
    }
    s.substring_char(a, b)
}

/// Where the first word of `s` at or after `i` begins and ends.
pub fn next_word(s: &str, i: usize) -> (w: (usize, usize))
    requires
        i <= s@.len(),
    ensures
        w.0 == word_start(s@, i as int),
        w.1 == word_end(s@, i as int),
        i <= w.0 <= w.1 <= s@.len(),
{
    proof {
        lemma_skip_white(s@, i as int);
    }
    let a = skip_white_from(s, i);
    proof {
        lemma_skip_word(s@, a as int);
    }
    let b = skip_word_from(s, a);
    (a, b)
}

/// The value of `c` as a digit: 0-9, then a-z and A-Z for ten and above; 36 for a
/// character that is no digit in any base.
pub open spec fn digit_value(c: char) -> int {
    let n = c as u32;
    if 48 <= n <= 57 {
        n - 48
    } else if 97 <= n <= 122 {
        n - 87
    } else if 65 <= n <= 90 {
        n - 55
    } else {
        36
    }
}

/// The number that the digits `d` write in base `radix`, most significant first.
pub open spec fn digits_value(d: Seq<char>, radix: int) -> int
    decreases d.len(),
{
    if d.len() == 0 {
        0
    } else {
        digits_value(d.drop_last(), radix) * radix + digit_value(d.last())
    }
}

/// `s` without one leading `+` sign.
pub open spec fn unsigned_digits(s: Seq<char>) -> Seq<char> {
    if s.len() > 0 && s[0] == '+' {
        s.drop_first()
    } else {
        s
    }
}

/// `s` is an optional `+` followed by one or more digits of base `radix`, and the number
/// they write fits in a `u64`.
pub open spec fn reads_as_u64(s: Seq<char>, radix: int) -> bool {
    let d = unsigned_digits(s);
    &&& d.len() > 0
    &&& forall|i: int| 0 <= i < d.len() ==> digit_value(#[trigger] d[i]) < radix
    &&& digits_value(d, radix) <= u64::MAX
}

/// The number that `s` writes in base `radix`, its `+` sign aside.
pub open spec fn u64_value(s: Seq<char>, radix: int) -> int {
    digits_value(unsigned_digits(s), radix)
}

/// `std::num::ParseIntError`, the error of reading an integer from text.
/// Verus sees nothing inside such a value: the library only moves it and asks for its text.
#[verifier::external_type_specification]
#[verifier::external_body]
pub struct ExParseIntError(std::num::ParseIntError);

/// Reads a `u64` written in decimal, with `str::parse::<u64>`.
/// Trusted: as the documentation of `u64::from_str_radix` says, the text must be an
/// optional `+` sign followed by digits only (a sign on its own is an error, and so is
/// the empty text), and the number must fit in a `u64`; the result is that number.
#[verifier::external_body]
pub(crate) fn parse_decimal(s: &str) -> (r: Result<u64, std::num::ParseIntError>)
    ensures
        r is Ok <==> reads_as_u64(s@, 10),
        r is Ok ==> r->Ok_0 == u64_value(s@, 10),
{
    s.parse::<u64>()
}

/// Reads a `u64` written in hexadecimal, with `u64::from_str_radix(s, 16)`.
/// Trusted: as its documentation says, the text must be an optional `+` sign followed by
/// digits 0-9, a-f or A-F only (a sign on its own is an error, and so is the empty text),
/// and the number must fit in a `u64`; the result is that number.
#[verifier::external_body]
fn parse_hex(s: &str) -> (r: Result<u64, std::num::ParseIntError>)
    ensures
        r is Ok <==> reads_as_u64(s@, 16),
        r is Ok ==> r->Ok_0 == u64_value(s@, 16),
{
    u64::from_str_radix(s, 16)
}

/// The text of a `ParseIntError`, as its `Display` writes it.
/// Nothing is stated of that text: the documentation does not give it.
#[verifier::external_body]
pub(crate) fn parse_error_text(e: &std::num::ParseIntError) -> (text: String) {
    e.to_string()
}

/// The digits of an address given as text: the text trimmed, without a leading `0x`.
pub open spec fn hex_address_digits(input: Seq<char>) -> Seq<char> {
    let t = trimmed(input);
    if t.len() >= 2 && t[0] == '0' && t[1] == 'x' {
        t.subrange(2, t.len() as int)
    } else {
        t
    }
}

/// The start of the message that refuses `input` as an address.
pub open spec fn hex_address_error(input: Seq<char>) -> Seq<char> {
    "invalid hex address '"@ + input + "': "@
}

/// Reads an address written in hexadecimal, with or without a leading `0x` and with
/// whitespace around it allowed. The message of a refusal names the input and then
/// gives the reason that `u64::from_str_radix` reports.
pub fn parse_hex_u64(input: &str) -> (r: Result<u64, String>)
    ensures
        r is Ok <==> reads_as_u64(hex_address_digits(input@), 16),
        r is Ok ==> r->Ok_0 == u64_value(hex_address_digits(input@), 16),
        r is Err ==> hex_address_error(input@).is_prefix_of(r->Err_0@),
{
    let t = trim(input);
    let n = t.unicode_len();
    let digits = if n >= 2 && t.get_char(0) == '0' && t.get_char(1) == 'x' {
        t.substring_char(2, n)
    } else {
        t
    };
    proof {
        if n >= 2 && t@[0] == '0' && t@[1] == 'x' {
            assert(digits@ =~= hex_address_digits(input@));
        }
    }
    match parse_hex(digits) {
        Ok(v) => Ok(v),
        Err(e) => {
            let mut msg = "invalid hex address '".to_owned();
            msg.append(input);
            msg.append("': ");
            let reason = parse_error_text(&e);
            proof {
                assert(hex_address_error(input@) =~= msg@);
            }
            msg.append(reason.as_str());
            proof {
                assert(msg@.subrange(0, hex_address_error(input@).len() as int) =~= hex_address_error(
                    input@,
                ));
            }
            Err(msg)
        },
    }
}

} // verus!
