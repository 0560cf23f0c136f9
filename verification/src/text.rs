//! Text helpers for the listing presenter: HTML entity escaping,
//! decimal rendering, human-readable sizes, and the percent-encoding
//! of path segments embedded in generated links.

use vstd::prelude::*;
use vstd::string::StringSliceAdditionalSpecFns;

verus! {

/// What a single character becomes in escaped HTML text: the five
/// markup-significant characters turn into entities, every other
/// character stands unchanged.
pub open spec fn escape_char(c: char) -> Seq<char> {
    if c == '<' {
        "&lt;"@
    } else if c == '>' {
        "&gt;"@
    } else if c == '"' {
        "&quot;"@
    } else if c == '\'' {
        "&#39;"@
    } else if c == '&' {
        "&amp;"@
    } else {
        seq![c]
    }
}

/// The HTML-escaped form of a character sequence.
pub open spec fn escape_seq(s: Seq<char>) -> Seq<char>
    decreases s.len(),
{
    if s.len() == 0 {
        Seq::empty()
    } else {
        escape_char(s[0]) + escape_seq(s.drop_first())
    }
}

/// Escaping distributes over concatenation.
proof fn lemma_escape_concat(a: Seq<char>, b: Seq<char>)
    ensures
        escape_seq(a + b) == escape_seq(a) + escape_seq(b),
    decreases a.len(),
{
    if a.len() == 0 {
        assert(a + b =~= b);
        assert(escape_seq(a) + escape_seq(b) =~= escape_seq(b));
    } else {
        assert((a + b).drop_first() =~= a.drop_first() + b);
        lemma_escape_concat(a.drop_first(), b);
        assert(escape_char((a + b)[0]) + (escape_seq(a.drop_first()) + escape_seq(b))
            =~= (escape_char(a[0]) + escape_seq(a.drop_first())) + escape_seq(b));
    }
}

/// Escapes a string for inclusion in HTML text or attribute values.
pub fn html_escape(s: &str) -> (r: String)
    ensures
        r@ == escape_seq(s@),
{
    let n = s.unicode_len();
    let mut r = String::new();
    let mut i: usize = 0;
    while i < n
        invariant
            i <= n,
            n == s@.len(),
            r@ == escape_seq(s@.subrange(0, i as int)),
        decreases n - i,
    {
        let c = s.get_char(i);
        if c == '<' {
            r.append("&lt;");
        } else if c == '>' {
            r.append("&gt;");
        } else if c == '"' {
            r.append("&quot;");
        } else if c == '\'' {
            r.append("&#39;");
        } else if c == '&' {
            r.append("&amp;");
        } else {
            r.append(s.substring_char(i, i + 1));
            proof {
                assert(s@.subrange(i as int, i + 1) =~= seq![s@[i as int]]);
            }
        }
        proof {
            assert(s@.subrange(0, i + 1) =~= s@.subrange(0, i as int) + seq![s@[i as int]]);
            lemma_escape_concat(s@.subrange(0, i as int), seq![s@[i as int]]);
            assert(seq![s@[i as int]].drop_first() =~= Seq::<char>::empty());
            assert(escape_seq(Seq::<char>::empty()) =~= Seq::<char>::empty());
            assert(escape_seq(seq![s@[i as int]]) =~= escape_char(s@[i as int]) + escape_seq(
                Seq::<char>::empty(),
            ));
            assert(escape_seq(seq![s@[i as int]]) =~= escape_char(s@[i as int]));
        }
        i = i + 1;
    }
    proof {
        assert(s@.subrange(0, n as int) =~= s@);
    }
    r
}

/// The decimal digit characters.
pub open spec fn dec_digit(d: int) -> char {
    if d == 0 {
        '0'
    } else if d == 1 {
        '1'
    } else if d == 2 {
        '2'
    } else if d == 3 {
        '3'
    } else if d == 4 {
        '4'
    } else if d == 5 {
        '5'
    } else if d == 6 {
        '6'
    } else if d == 7 {
        '7'
    } else if d == 8 {
        '8'
    } else {
        '9'
    }
}

/// The decimal rendering of a natural number, most significant digit
/// first, without leading zeros (a single zero for zero itself).
pub open spec fn dec_str(n: nat) -> Seq<char>
    decreases n,
{
    if n < 10 {
        seq![dec_digit(n as int)]
    } else {
        dec_str(n / 10) + seq![dec_digit((n % 10) as int)]
    }
}

/// Appends one decimal digit character.
fn push_digit(r: &mut String, d: u64)
    requires
        d < 10,
    ensures
        final(r)@ == old(r)@ + seq![dec_digit(d as int)],
{
    if d == 0 {
        r.append("0");
        proof {
            reveal_strlit("0");
            assert("0"@ =~= seq!['0']);
        }
    } else if d == 1 {
        r.append("1");
        proof {
            reveal_strlit("1");
            assert("1"@ =~= seq!['1']);
        }
    } else if d == 2 {
        r.append("2");
        proof {
            reveal_strlit("2");
            assert("2"@ =~= seq!['2']);
        }
    } else if d == 3 {
        r.append("3");
        proof {
            reveal_strlit("3");
            assert("3"@ =~= seq!['3']);
        }
    } else if d == 4 {
        r.append("4");
        proof {
            reveal_strlit("4");
            assert("4"@ =~= seq!['4']);
        }
    } else if d == 5 {
        r.append("5");
        proof {
            reveal_strlit("5");
            assert("5"@ =~= seq!['5']);
        }
    } else if d == 6 {
        r.append("6");
        proof {
            reveal_strlit("6");
            assert("6"@ =~= seq!['6']);
        }
    } else if d == 7 {
        r.append("7");
        proof {
            reveal_strlit("7");
            assert("7"@ =~= seq!['7']);
        }
    } else if d == 8 {
        r.append("8");
        proof {
            reveal_strlit("8");
            assert("8"@ =~= seq!['8']);
        }
    } else {
        r.append("9");
        proof {
            reveal_strlit("9");
            assert("9"@ =~= seq!['9']);
        }
    }
}

/// Appends the decimal rendering of `n`.
fn push_dec(r: &mut String, n: u64)
    ensures
        final(r)@ == old(r)@ + dec_str(n as nat),
    decreases n,
{
    if n < 10 {
        push_digit(r, n);
    } else {
        push_dec(r, n / 10);
        push_digit(r, n % 10);
        proof {
            assert(old(r)@ + dec_str((n / 10) as nat) + seq![dec_digit((n % 10) as int)]
                =~= old(r)@ + (dec_str((n / 10) as nat) + seq![dec_digit((n % 10) as int)]));
        }
    }
}

/// Renders a number in decimal.
pub fn u64_to_string(n: u64) -> (r: String)
    ensures
        r@ == dec_str(n as nat),
{
    let mut r = String::new();
    push_dec(&mut r, n);
    proof {
        assert(Seq::<char>::empty() + dec_str(n as nat) =~= dec_str(n as nat));
    }
    r
}

/// The size bracket of a byte count: the largest power of 1024 that
/// fits, capped at the petabyte bracket.
pub open spec fn spec_size_unit(bytes: u64) -> int {
    if bytes < 1024 {
        0
    } else if bytes < 1048576 {
        1
    } else if bytes < 1073741824 {
        2
    } else if bytes < 1099511627776 {
        3
    } else if bytes < 1125899906842624 {
        4
    } else {
        5
    }
}

/// The divisor of each size bracket above the first.
pub open spec fn spec_unit_divisor(u: int) -> int {
    if u == 1 {
        1024
    } else if u == 2 {
        1048576
    } else if u == 3 {
        1073741824
    } else if u == 4 {
        1099511627776
    } else {
        1125899906842624
    }
}

/// The suffix of each size bracket.
pub open spec fn spec_unit_suffix(u: int) -> Seq<char> {
    if u == 0 {
        " B"@
    } else if u == 1 {
        " KB"@
    } else if u == 2 {
        " MB"@
    } else if u == 3 {
        " GB"@
    } else if u == 4 {
        " TB"@
    } else {
        " PB"@
    }
}

/// One hundred times the quotient `100 * bytes / d`, rounded to the
/// nearest integer with ties to even.
pub open spec fn spec_hundredths(bytes: u64, d: int) -> int {
    let n = 100 * bytes;
    let q = n / d;
    let rem = n % d;
    if 2 * rem > d {
        q + 1
    } else if 2 * rem == d && q % 2 == 1 {
        q + 1
    } else {
        q
    }
}

/// The human-readable rendering of a byte count: the exact count with
/// a byte suffix below one kibibyte, otherwise the scaled value with
/// two decimal places and the bracket's suffix.
pub open spec fn spec_human_size(bytes: u64) -> Seq<char> {
    let u = spec_size_unit(bytes);
    if u == 0 {
        dec_str(bytes as nat) + " B"@
    } else {
        let h = spec_hundredths(bytes, spec_unit_divisor(u));
        dec_str((h / 100) as nat) + "."@ + seq![dec_digit(h % 100 / 10)] + seq![
            dec_digit(h % 100 % 10),
        ] + spec_unit_suffix(u)
    }
}

/// Renders a byte count for human eyes, scaled to its size bracket
/// with two decimal places.
pub fn bytes_to_human_size(bytes: u64) -> (r: String)
    ensures
        r@ == spec_human_size(bytes),
{
    if bytes < 1024 {
        let mut r = u64_to_string(bytes);
        r.append(" B");
        return r;
    }
    let d: u64 = if bytes < 1048576 {
        1024
    } else if bytes < 1073741824 {
        1048576
    } else if bytes < 1099511627776 {
        1073741824
    } else if bytes < 1125899906842624 {
        1099511627776
    } else {
        1125899906842624
    };
    let n: u128 = (bytes as u128) * 100;
    let dd: u128 = d as u128;
    let q: u128 = n / dd;
    let rem: u128 = n % dd;
    proof {
        vstd::arithmetic::div_mod::lemma_fundamental_div_mod(n as int, dd as int);
        assert((q as int) * 1024 <= n as int) by (nonlinear_arith)
            requires
                (n as int) == (dd as int) * (q as int) + (rem as int),
                (rem as int) >= 0,
                (dd as int) >= 1024,
                (q as int) >= 0,
        ;
        assert(n as int <= 1844674407370955161500int);
        assert(q as int <= 1801439850948198400int);
    }
    let h128: u128 = if 2 * rem > dd {
        q + 1
    } else if 2 * rem == dd && q % 2 == 1 {
        q + 1
    } else {
        q
    };
    let h: u64 = h128 as u64;
    let ghost u = spec_size_unit(bytes);
    proof {
        assert(h == spec_hundredths(bytes, spec_unit_divisor(u)));
    }
    let mut r = u64_to_string(h / 100);
    r.append(".");
    push_digit(&mut r, h % 100 / 10);
    push_digit(&mut r, h % 100 % 10);
    let suffix: &str = if bytes < 1048576 {
        " KB"
    } else if bytes < 1073741824 {
        " MB"
    } else if bytes < 1099511627776 {
        " GB"
    } else if bytes < 1125899906842624 {
        " TB"
    } else {
        " PB"
    };
    r.append(suffix);
    proof {
        assert(r@ =~= dec_str((h / 100) as nat) + "."@ + seq![dec_digit(h as int % 100 / 10)]
            + seq![dec_digit(h as int % 100 % 10)] + spec_unit_suffix(u));
    }
    r
}

/// Whether a byte is an ASCII letter or digit, the bytes that
/// percent-encoding leaves unchanged.
pub open spec fn is_ascii_alnum(b: u8) -> bool {
    (0x30 <= b <= 0x39) || (0x41 <= b <= 0x5a) || (0x61 <= b <= 0x7a)
}

/// The uppercase hexadecimal digit characters.
pub open spec fn hex_digit(d: int) -> char {
    if d < 10 {
        dec_digit(d)
    } else if d == 10 {
        'A'
    } else if d == 11 {
        'B'
    } else if d == 12 {
        'C'
    } else if d == 13 {
        'D'
    } else if d == 14 {
        'E'
    } else {
        'F'
    }
}

/// What one byte becomes under percent-encoding: itself if an ASCII
/// letter or digit, otherwise a percent sign and two uppercase hex
/// digits.
pub open spec fn percent_byte(b: u8) -> Seq<char> {
    if is_ascii_alnum(b) {
        seq![b as char]
    } else {
        seq!['%', hex_digit(b as int / 16), hex_digit(b as int % 16)]
    }
}

/// The percent-encoded form of a byte sequence.
pub open spec fn percent_encoded(bytes: Seq<u8>) -> Seq<char>
    decreases bytes.len(),
{
    if bytes.len() == 0 {
        Seq::empty()
    } else {
        percent_byte(bytes[0]) + percent_encoded(bytes.drop_first())
    }
}

/// Relies on `percent_encoding::percent_encode` with the
/// `NON_ALPHANUMERIC` set: every byte that is not an ASCII letter or
/// digit becomes a percent sign followed by two uppercase hex digits;
/// every other byte stands unchanged.
#[verifier::external_body]
fn percent_encode_all(b: &[u8]) -> (r: String)
    ensures
        r@ == percent_encoded(b@),
{
    percent_encoding::percent_encode(b, percent_encoding::NON_ALPHANUMERIC).to_string()
}

/// Percent-encodes one path segment for inclusion in a generated
/// link, over the UTF-8 bytes of the segment.
pub fn encode_path_segment(s: &str) -> (r: String)
    ensures
        r@ == percent_encoded(s.spec_bytes()),
{
    percent_encode_all(s.as_bytes())
}

} // verus!
