use vstd::prelude::*;
use vstd::string::*;
use vstd::utf8::*;

verus! {

/// The character of a decimal digit.
pub open spec fn digit_char(d: nat) -> char
    recommends
        d < 10,
{
    if d == 0 {
        '0'
    } else if d == 1 {
        '1'
    } else if d == 2 {
        '2'
    } else if d == 3 {
        '3'
    } else if d == 4 {
        '4'
    } else if d == 5 {
        '5'
    } else if d == 6 {
        '6'
    } else if d == 7 {
        '7'
    } else if d == 8 {
        '8'
    } else {
        '9'
    }
}

/// The decimal numeral of a natural number, without leading zeros.
pub open spec fn decimal(n: nat) -> Seq<char>
    decreases n,
{
    if n < 10 {
        seq![digit_char(n)]
    } else {
        decimal(n / 10).push(digit_char(n % 10))
    }
}

/// The decimal numeral of an integer, with a minus sign where it is negative.
pub open spec fn signed_decimal(n: int) -> Seq<char> {
    if n < 0 {
        seq!['-'] + decimal((-n) as nat)
    } else {
        decimal(n as nat)
    }
}

/// The one-character string of a decimal digit.
fn digit_str(d: u8) -> (r: &'static str)
    requires
        d < 10,
    ensures
        r@ == seq![digit_char(d as nat)],
{
    proof {
        reveal_strlit("0");
        reveal_strlit("1");
        reveal_strlit("2");
        reveal_strlit("3");
        reveal_strlit("4");
        reveal_strlit("5");
        reveal_strlit("6");
        reveal_strlit("7");
        reveal_strlit("8");
        reveal_strlit("9");
    }
    let r = if d == 0 {
        "0"
    } else if d == 1 {
        "1"
    } else if d == 2 {
        "2"
    } else if d == 3 {
        "3"
    } else if d == 4 {
        "4"
    } else if d == 5 {
        "5"
    } else if d == 6 {
        "6"
    } else if d == 7 {
        "7"
    } else if d == 8 {
        "8"
    } else {
        "9"
    };
    assert(r@ =~= seq![digit_char(d as nat)]);
    r
}

/// Appends the decimal numeral of `n` to `out`.
pub fn push_decimal(out: &mut String, n: u64)
    ensures
        final(out)@ == old(out)@ + decimal(n as nat),
    decreases n,
{
    if n >= 10 {
        push_decimal(out, n / 10);
    }
    let d: u8 = (n % 10) as u8;
    out.append(digit_str(d));
    proof {
        if n >= 10 {
            assert(final(out)@ =~= old(out)@ + decimal(n as nat));
        } else {
            assert(final(out)@ =~= old(out)@ + decimal(n as nat));
        }
    }
}

/// Appends the decimal numeral of a signed number to `out`.
pub fn push_signed_decimal(out: &mut String, n: i32)
    ensures
        final(out)@ == old(out)@ + signed_decimal(n as int),
{
    proof {
        reveal_strlit("-");
    }
    if n < 0 {
        out.append("-");
        let m: u64 = (-(n as i64)) as u64;
        push_decimal(out, m);
        assert(final(out)@ =~= old(out)@ + signed_decimal(n as int));
    } else {
        push_decimal(out, n as u64);
    }
}

/// The decimal numeral of `n` as a string.
pub fn decimal_string(n: usize) -> (r: String)
    ensures
        r@ == decimal(n as nat),
{
    let mut s = String::new();
    push_decimal(&mut s, n as u64);
    assert(s@ =~= decimal(n as nat));
    s
}

/// A text filled up on the left to a width; a text that is as wide or
/// wider stays as it is.
pub open spec fn padded(s: Seq<char>, width: nat, fill: char) -> Seq<char> {
    if s.len() >= width {
        s
    } else {
        Seq::new((width - s.len()) as nat, |i: int| fill) + s
    }
}

/// The number of digits of the decimal numeral of a number.
pub fn digit_count(n: u64) -> (r: usize)
    ensures
        r == decimal(n as nat).len(),
        1 <= r <= 20,
    decreases n,
{
    if n < 10 {
        1
    } else {
        let r = digit_count(n / 10);
        assert(r < 20) by {
            lemma_decimal_len(n as nat / 10);
        }
        r + 1
    }
}

/// The decimal numeral of a number below 10^k has at most k digits.
proof fn lemma_decimal_len(n: nat)
    ensures
        n < 10 ==> decimal(n).len() == 1,
        n < 100 ==> decimal(n).len() <= 2,
        n < 1_000 ==> decimal(n).len() <= 3,
        n < 10_000 ==> decimal(n).len() <= 4,
        n < 100_000 ==> decimal(n).len() <= 5,
        n < 1_000_000 ==> decimal(n).len() <= 6,
        n < 10_000_000 ==> decimal(n).len() <= 7,
        n < 100_000_000 ==> decimal(n).len() <= 8,
        n < 1_000_000_000 ==> decimal(n).len() <= 9,
        n < 10_000_000_000 ==> decimal(n).len() <= 10,
        n < 100_000_000_000 ==> decimal(n).len() <= 11,
        n < 1_000_000_000_000 ==> decimal(n).len() <= 12,
        n < 10_000_000_000_000 ==> decimal(n).len() <= 13,
        n < 100_000_000_000_000 ==> decimal(n).len() <= 14,
        n < 1_000_000_000_000_000 ==> decimal(n).len() <= 15,
        n < 10_000_000_000_000_000 ==> decimal(n).len() <= 16,
        n < 100_000_000_000_000_000 ==> decimal(n).len() <= 17,
        n < 1_000_000_000_000_000_000 ==> decimal(n).len() <= 18,
        n < 10_000_000_000_000_000_000 ==> decimal(n).len() <= 19,
    decreases n,
{
    if n >= 10 {
        lemma_decimal_len(n / 10);
    }
}

/// Appends the decimal numeral of `n` to `out`, filled up on the left to
/// `width` characters: with zeros where `zeros` is set, with spaces
/// otherwise.
pub fn push_padded_decimal(out: &mut String, n: u64, width: usize, zeros: bool)
    ensures
        final(out)@ == old(out)@ + padded(
            decimal(n as nat),
            width as nat,
            if zeros {
                '0'
            } else {
                ' '
            },
        ),
{
    proof {
        reveal_strlit("0");
        reveal_strlit(" ");
    }
    let ghost fill = if zeros {
        '0'
    } else {
        ' '
    };
    let count = digit_count(n);
    let mut i: usize = count;
    while i < width
        invariant
            count <= i,
            count < width ==> i <= width,
            count >= width ==> i == count,
            fill == if zeros {
                '0'
            } else {
                ' '
            },
            out@ == old(out)@ + Seq::new((i - count) as nat, |j: int| fill),
        decreases width - i,
    {
        proof {
            reveal_strlit("0");
            reveal_strlit(" ");
        }
        let ghost filled = Seq::new((i - count) as nat, |j: int| fill);
        if zeros {
            out.append("0");
        } else {
            out.append(" ");
        }
        i = i + 1;
        assert(Seq::new((i - count) as nat, |j: int| fill) =~= filled.push(fill));
        assert(out@ =~= old(out)@ + Seq::new((i - count) as nat, |j: int| fill));
    }
    let ghost before = out@;
    push_decimal(out, n);
    proof {
        if count < width {
            assert(out@ =~= old(out)@ + padded(decimal(n as nat), width as nat, fill));
        } else {
            assert(i == count);
            assert(Seq::new((i - count) as nat, |j: int| fill) =~= Seq::<char>::empty());
            assert(before =~= old(out)@);
            assert(out@ =~= old(out)@ + padded(decimal(n as nat), width as nat, fill));
        }
    }
}

/// Whether a character is a decimal digit.
pub open spec fn is_digit_char(c: char) -> bool {
    '0' <= c <= '9'
}

/// The number that a sequence of decimal digits denotes.
pub open spec fn digits_value(s: Seq<char>) -> nat
    decreases s.len(),
{
    if s.len() == 0 {
        0
    } else {
        digits_value(s.drop_last()) * 10 + (s.last() as nat - '0' as nat) as nat
    }
}

/// Whether a sequence is one or more decimal digits.
pub open spec fn all_digits(s: Seq<char>) -> bool {
    s.len() > 0 && forall|i: int| 0 <= i < s.len() ==> is_digit_char(#[trigger] s[i])
}

/// The 32-bit number that a text denotes: an optional sign, then one or
/// more decimal digits, the whole within the range of 32 bits.
pub open spec fn number_of(s: Seq<char>) -> Option<int> {
    let negative = s.len() > 0 && s[0] == '-';
    let signed = s.len() > 0 && (s[0] == '-' || s[0] == '+');
    let body = if signed {
        s.subrange(1, s.len() as int)
    } else {
        s
    };
    let value = if negative {
        -(digits_value(body) as int)
    } else {
        digits_value(body) as int
    };
    if all_digits(body) && i32::MIN <= value <= i32::MAX {
        Some(value)
    } else {
        None
    }
}

/// More digits never denote less.
pub proof fn lemma_digits_value_grows(s: Seq<char>, n: int)
    requires
        0 <= n <= s.len(),
    ensures
        digits_value(s.take(n)) <= digits_value(s),
    decreases s.len(),
{
    if n < s.len() {
        lemma_digits_value_grows(s.drop_last(), n);
        assert(s.drop_last().take(n) =~= s.take(n));
    } else {
        assert(s.take(n) =~= s);
    }
}

/// Reads a text as a 32-bit number.
pub fn parse_i32(s: &str) -> (r: Option<i32>)
    ensures
        r == match number_of(s@) {
            Some(n) => Some(n as i32),
            None => None,
        },
{
    if !s.is_ascii() {
        proof {
            let negative = s@.len() > 0 && s@[0] == '-';
            let signed = s@.len() > 0 && (s@[0] == '-' || s@[0] == '+');
            let body = if signed {
                s@.subrange(1, s@.len() as int)
            } else {
                s@
            };
            if all_digits(body) {
                assert forall|i: int| 0 <= i < s@.len() implies '\0' <= #[trigger] s@[i]
                    <= '\u{7f}' by {
                    if signed {
                        if i > 0 {
                            assert(is_digit_char(body[i - 1]));
                        }
                    } else {
                        assert(is_digit_char(body[i]));
                    }
                }
                assert(false);
            }
        }
        return None;
    }
    let bytes = s.as_bytes();
    proof {
        is_ascii_spec_bytes(s);
    }
    let n = bytes.len();
    assert(n == s@.len());
    if n == 0 {
        return None;
    }
    let negative = bytes[0] == 45u8;
    let signed = negative || bytes[0] == 43u8;
    let start: usize = if signed {
        1
    } else {
        0
    };
    let ghost body = s@.subrange(start as int, n as int);
    proof {
        let c0 = s@[0];
        assert(bytes@[0] == c0 as u8);
        assert('\0' <= c0 <= '\u{7f}');
        assert(negative == (c0 == '-'));
        assert(signed == (c0 == '-' || c0 == '+'));
        if !signed {
            assert(body =~= s@);
        }
    }
    if start == n {
        return None;
    }
    let mut acc: i64 = 0;
    let mut i: usize = start;
    while i < n
        invariant
            start <= i <= n,
            n == s@.len(),
            bytes@.len() == n,
            is_ascii(s),
            bytes@ == s.spec_bytes(),
            body == s@.subrange(start as int, n as int),
            body.len() == n - start,
            n > 0,
            negative == (s@[0] == '-'),
            signed == (s@[0] == '-' || s@[0] == '+'),
            start == if signed { 1usize } else { 0usize },
            !signed ==> body == s@,
            forall|j: int| 0 <= j < i - start ==> is_digit_char(#[trigger] body[j]),
            acc as int == digits_value(body.take(i - start)),
            0 <= acc <= 0x8000_0000,
        decreases n - i,
    {
        let b = bytes[i];
        proof {
            is_ascii_spec_bytes(s);
            assert(b == s@[i as int] as u8);
            assert(body[i - start] == s@[i as int]);
            assert('\0' <= s@[i as int] <= '\u{7f}');
            assert(is_digit_char(body[i - start]) == (48 <= b <= 57));
            assert(48 <= b <= 57 ==> b - 48 == body[i - start] as nat - '0' as nat);
        }
        if b < 48u8 || b > 57u8 {
            assert(!is_digit_char(body[i - start]));
            return None;
        }
        let d: i64 = (b - 48u8) as i64;
        proof {
            assert(body.take(i - start + 1).drop_last() =~= body.take(i - start));
            assert(body.take(i - start + 1).last() == body[i - start]);
        }
        acc = acc * 10 + d;
        if acc > 0x8000_0000 {
            proof {
                lemma_digits_value_grows(body, i - start + 1);
            }
            return None;
        }
        i = i + 1;
    }
    proof {
        assert(body.take(n - start) =~= body);
        assert(all_digits(body));
    }
    if negative {
        Some((-acc) as i32)
    } else if acc > 0x7fff_ffff {
        None
    } else {
        Some(acc as i32)
    }
}

/// In well-formed text, a position is a character boundary where it is the
/// end of the text or the byte there does not continue a character.
pub proof fn lemma_boundary_at(bytes: Seq<u8>, i: int)
    requires
        valid_utf8(bytes),
        0 <= i <= bytes.len(),
        i == bytes.len() || !is_continuation_byte(bytes[i]),
    ensures
        is_char_boundary(bytes, i),
{
    if i == bytes.len() {
        is_char_boundary_start_end_of_seq(bytes);
    } else {
        is_char_boundary_iff_not_is_continuation_byte(bytes, i);
    }
}

/// In well-formed text, the position after a byte below 128 that stands at
/// a character boundary is a character boundary.
pub proof fn lemma_boundary_after_ascii(bytes: Seq<u8>, i: int)
    requires
        valid_utf8(bytes),
        0 <= i < bytes.len(),
        bytes[i] < 128,
    ensures
        is_char_boundary(bytes, i + 1),
{
    lemma_boundary_at(bytes, i);
    valid_utf8_split(bytes, i);
    let tail = bytes.subrange(i, bytes.len() as int);
    assert(tail[0] == bytes[i]);
    assert(valid_utf8(tail));
    assert(length_of_first_scalar(tail) == 1);
    let rest = pop_first_scalar(tail);
    assert(rest =~= bytes.subrange(i + 1, bytes.len() as int));
    assert(valid_utf8(rest));
    if i + 1 < bytes.len() {
        assert(rest[0] == bytes[i + 1]);
        assert(valid_first_scalar(rest));
        lemma_boundary_at(bytes, i + 1);
    } else {
        lemma_boundary_at(bytes, i + 1);
    }
}

/// The bytes between the quotes of a quoted text: a text of two or more
/// bytes that starts and ends with a double quote loses both; any other
/// text stays as it is.
pub open spec fn unquoted_bytes(bytes: Seq<u8>) -> Seq<u8> {
    if bytes.len() >= 2 && bytes[0] == 34 && bytes.last() == 34 {
        bytes.subrange(1, bytes.len() - 1)
    } else {
        bytes
    }
}

/// The text between the quotes of a quoted text.
pub open spec fn unquoted(text: Seq<char>) -> Seq<char> {
    decode_utf8(unquoted_bytes(encode_utf8(text)))
}

/// The text between the quotes of a quoted text.
pub fn unquote<'a>(s: &'a str) -> (r: &'a str)
    ensures
        r@ == unquoted(s@),
{
    let bytes = s.as_bytes();
    let n = bytes.len();
    proof {
        broadcast use group_utf8_lib;
        assert(decode_utf8(encode_utf8(s@)) == s@);
    }
    if n < 2 || bytes[0] != 34 || bytes[n - 1] != 34 {
        return s;
    }
    proof {
        lemma_boundary_after_ascii(s.spec_bytes(), 0);
    }
    let (_, tail) = s.split_at(1);
    proof {
        broadcast use group_utf8_lib;
        assert(tail.spec_bytes()[n - 2] == s.spec_bytes()[n - 1]);
        lemma_boundary_at(tail.spec_bytes(), n - 2);
    }
    let (inner, _) = tail.split_at(n - 2);
    proof {
        broadcast use group_utf8_lib;
        assert(inner.spec_bytes() =~= s.spec_bytes().subrange(1, n - 1));
        assert(decode_utf8(encode_utf8(inner@)) == inner@);
    }
    inner
}

/// Whether a code point is white space: one of those that have the
/// Unicode property `White_Space`.
pub open spec fn is_white_space_code(u: u32) -> bool {
    (0x09 <= u <= 0x0d) || u == 0x20 || u == 0x85 || u == 0xa0 || u == 0x1680 || (0x2000 <= u
        <= 0x200a) || u == 0x2028 || u == 0x2029 || u == 0x202f || u == 0x205f || u == 0x3000
}

/// Whether a character is white space.
pub open spec fn is_white_space(c: char) -> bool {
    is_white_space_code(c as u32)
}

/// A text without the white space at its end.
pub open spec fn trimmed(s: Seq<char>) -> Seq<char>
    decreases s.len(),
{
    if s.len() > 0 && is_white_space(s.last()) {
        trimmed(s.drop_last())
    } else {
        s
    }
}

fn white_space_code(u: u32) -> (r: bool)
    ensures
        r == is_white_space_code(u),
{
    (0x09 <= u && u <= 0x0d) || u == 0x20 || u == 0x85 || u == 0xa0 || u == 0x1680 || (0x2000 <= u
        && u <= 0x200a) || u == 0x2028 || u == 0x2029 || u == 0x202f || u == 0x205f || u == 0x3000
}

/// Well-formed bytes in which only the first byte starts a character hold
/// exactly one character.
proof fn lemma_single_scalar(x: Seq<u8>)
    requires
        valid_utf8(x),
        x.len() > 0,
        forall|i: int| 1 <= i < x.len() ==> is_continuation_byte(#[trigger] x[i]),
    ensures
        valid_first_scalar(x),
        length_of_first_scalar(x) == x.len(),
        decode_utf8(x) == seq![decode_first_scalar(x) as char],
{
    let rest = pop_first_scalar(x);
    assert(valid_utf8(rest));
    if rest.len() > 0 {
        assert(valid_first_scalar(rest));
        assert(rest[0] == x[length_of_first_scalar(x)]);
        assert(is_continuation_byte(x[length_of_first_scalar(x)]));
        assert(false);
    }
    assert(decode_utf8(rest) =~= Seq::<char>::empty());
    assert(decode_utf8(x) =~= seq![decode_first_scalar(x) as char]);
}

/// In well-formed bytes, where `j` starts a character and only bytes that
/// continue it follow, the text is the text before `j` and that one
/// character.
proof fn lemma_last_char(p: Seq<u8>, j: int)
    requires
        valid_utf8(p),
        0 <= j < p.len(),
        j == 0 || !is_continuation_byte(p[j]),
        forall|i: int| j < i < p.len() ==> is_continuation_byte(#[trigger] p[i]),
    ensures
        is_char_boundary(p, j),
        valid_first_scalar(p.subrange(j, p.len() as int)),
        length_of_first_scalar(p.subrange(j, p.len() as int)) == p.len() - j,
        decode_utf8(p) == decode_utf8(p.subrange(0, j)).push(
            decode_first_scalar(p.subrange(j, p.len() as int)) as char,
        ),
{
    if j == 0 {
        is_char_boundary_start_end_of_seq(p);
    } else {
        lemma_boundary_at(p, j);
    }
    valid_utf8_split(p, j);
    decode_utf8_split(p, j);
    let x = p.subrange(j, p.len() as int);
    assert forall|i: int| 1 <= i < x.len() implies is_continuation_byte(#[trigger] x[i]) by {
        assert(x[i] == p[j + i]);
    }
    lemma_single_scalar(x);
    assert(decode_utf8(p) =~= decode_utf8(p.subrange(0, j)).push(decode_first_scalar(x) as char));
}

/// The slice without the white space at its end.
pub fn trim_end(s: &str) -> (r: &str)
    ensures
        r@ == trimmed(s@),
{
    let bytes = s.as_bytes();
    let n = bytes.len();
    let mut end: usize = n;
    proof {
        broadcast use group_utf8_lib;
        assert(decode_utf8(encode_utf8(s@)) == s@);
        assert(bytes@.subrange(0, n as int) =~= bytes@);
        is_char_boundary_start_end_of_seq(bytes@);
    }
    loop
        invariant
            bytes@ == s.spec_bytes(),
            valid_utf8(bytes@),
            n == bytes@.len(),
            0 <= end <= n,
            is_char_boundary(bytes@, end as int),
            trimmed(s@) == trimmed(decode_utf8(bytes@.subrange(0, end as int))),
        ensures
            0 <= end <= n,
            is_char_boundary(bytes@, end as int),
            trimmed(s@) == decode_utf8(bytes@.subrange(0, end as int)),
        decreases end,
    {
        let ghost p = bytes@.subrange(0, end as int);
        proof {
            valid_utf8_split(bytes@, end as int);
        }
        if end == 0 {
            assert(decode_utf8(p) =~= Seq::<char>::empty());
            break ;
        }
        // The last character starts at the last byte that continues none.
        let mut j: usize = end - 1;
        while j > 0 && 0x80 <= bytes[j] && bytes[j] <= 0xbf
            invariant
                0 <= j < end <= n,
                n == bytes@.len(),
                forall|k: int| j < k < end ==> is_continuation_byte(#[trigger] bytes@[k]),
            decreases j,
        {
            j -= 1;
        }
        let ghost x = p.subrange(j as int, end as int);
        proof {
            assert forall|i: int| j < i < p.len() implies is_continuation_byte(
                #[trigger] p[i],
            ) by {
                assert(p[i] == bytes@[i]);
            }
            assert(p[j as int] == bytes@[j as int]);
            lemma_last_char(p, j as int);
            assert(p.subrange(0, j as int) =~= bytes@.subrange(0, j as int));
            assert(x[0] == bytes@[j as int]);
            lemma_boundary_at(bytes@, j as int);
        }
        let width = end - j;
        let white = if width == 1 {
            white_space_code((bytes[j] & 0x7f) as u32)
        } else if width == 2 {
            assert(x[1] == bytes@[j + 1]);
            white_space_code((((bytes[j] & 0x1f) as u32) << 6) | ((bytes[j + 1] & 0x3f) as u32))
        } else if width == 3 {
            assert(x[1] == bytes@[j + 1]);
            assert(x[2] == bytes@[j + 2]);
            white_space_code(
                (((bytes[j] & 0x0f) as u32) << 12) | (((bytes[j + 1] & 0x3f) as u32) << 6) | ((
                bytes[j + 2] & 0x3f) as u32),
            )
        } else {
            false
        };
        proof {
            let u = decode_first_scalar(x);
            lemma_scalar_cast(x);
            assert(white == is_white_space(u as char));
            let before = decode_utf8(p.subrange(0, j as int));
            assert(decode_utf8(p) == before.push(u as char));
            assert(before.push(u as char).drop_last() =~= before);
        }
        if !white {
            break ;
        }
        end = j;
    }
    proof {
        broadcast use group_utf8_lib;
    }
    let (head, _) = s.split_at(end);
    proof {
        broadcast use group_utf8_lib;
        assert(decode_utf8(encode_utf8(head@)) == head@);
    }
    head
}

/// The first character of well-formed bytes has the code point that the
/// bytes encode, and a code point of four bytes is no white space.
proof fn lemma_scalar_cast(x: Seq<u8>)
    requires
        valid_first_scalar(x),
    ensures
        (decode_first_scalar(x) as char) as u32 == decode_first_scalar(x),
        length_of_first_scalar(x) == 4 ==> !is_white_space_code(decode_first_scalar(x)),
        length_of_first_scalar(x) == 1 ==> is_leading_byte_width_1(x[0]),
        length_of_first_scalar(x) == 2 ==> is_leading_byte_width_2(x[0]),
        length_of_first_scalar(x) == 3 ==> is_leading_byte_width_3(x[0]),
{
    let u = decode_first_scalar(x);
    if is_leading_byte_width_1(x[0]) {
        let b = x[0];
        assert((b & 0x7f) as u32 <= 0x7f) by (bit_vector);
    } else if is_leading_byte_width_2(x[0]) {
        let b1 = x[0];
        let b2 = x[1];
        assert((((b1 & 0x1f) as u32) << 6) | ((b2 & 0x3f) as u32) <= 0x7ff) by (bit_vector);
    } else if is_leading_byte_width_3(x[0]) {
        let b1 = x[0];
        let b2 = x[1];
        let b3 = x[2];
        assert((((b1 & 0x0f) as u32) << 12) | (((b2 & 0x3f) as u32) << 6) | ((b3 & 0x3f) as u32)
            <= 0xffff) by (bit_vector);
    } else {
    }
}

/// Whether two string slices hold the same text.
pub fn str_eq(a: &str, b: &str) -> (r: bool)
    ensures
        r == (a@ == b@),
{
    let x = a.as_bytes();
    let y = b.as_bytes();
    proof {
        broadcast use group_utf8_lib;
        assert(decode_utf8(encode_utf8(a@)) == a@);
        assert(decode_utf8(encode_utf8(b@)) == b@);
    }
    if x.len() != y.len() {
        return false;
    }
    let mut i: usize = 0;
    while i < x.len()
        invariant
            0 <= i <= x.len(),
            x.len() == y.len(),
            x@ == a.spec_bytes(),
            y@ == b.spec_bytes(),
            forall|j: int| 0 <= j < i ==> x@[j] == y@[j],
        decreases x.len() - i,
    {
        if x[i] != y[i] {
            return false;
        }
        i = i + 1;
    }
    assert(x@ =~= y@);
    true
}

} // verus!
