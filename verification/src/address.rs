//! The text of network addresses: `host:port`, and port numbers written
//! and read as decimal text.

use vstd::prelude::*;
use vstd::string::*;

verus! {

/// The character of the decimal digit `d`.
pub open spec fn digit_char(d: int) -> char {
    ('0' as int + d) as char
}

/// Whether `c` is a decimal digit.
pub open spec fn is_digit(c: char) -> bool {
    '0' as int <= c as int <= '9' as int
}

/// The decimal digits of `n`, most significant first, with no leading zero.
pub open spec fn digits_of(n: nat) -> Seq<char>
    decreases n,
{
    if n < 10 {
        seq![digit_char(n as int)]
    } else {
        digits_of(n / 10).push(digit_char((n % 10) as int))
    }
}

/// `n` written in decimal, with a leading `-` when it is negative.
pub open spec fn decimal_text(n: int) -> Seq<char> {
    if n < 0 {
        seq!['-'] + digits_of((-n) as nat)
    } else {
        digits_of(n as nat)
    }
}

/// The number that the digits `s` write.
pub open spec fn digits_value(s: Seq<char>) -> int
    decreases s.len(),
{
    if s.len() == 0 {
        0
    } else {
        digits_value(s.drop_last()) * 10 + (s.last() as int - '0' as int)
    }
}

/// A non-empty run of decimal digits.
pub open spec fn all_digits(s: Seq<char>) -> bool {
    s.len() > 0 && forall|i: int| 0 <= i < s.len() ==> #[trigger] is_digit(s[i])
}

/// The `i32` that the text `s` writes, if it writes one: an optional sign
/// (`+` or `-`), then one or more decimal digits, with a value in the range
/// of `i32`. This is what `str::parse::<i32>` accepts.
pub open spec fn parsed_i32(s: Seq<char>) -> Option<int> {
    let negative = s.len() > 0 && s[0] == '-';
    let signed = s.len() > 0 && (s[0] == '-' || s[0] == '+');
    let body = if signed {
        s.drop_first()
    } else {
        s
    };
    if !all_digits(body) {
        None
    } else {
        let v = if negative {
            -digits_value(body)
        } else {
            digits_value(body)
        };
        if i32::MIN <= v <= i32::MAX {
            Some(v)
        } else {
            None
        }
    }
}

/// `host:port`.
pub open spec fn host_port(host: Seq<char>, port: Seq<char>) -> Seq<char> {
    host + seq![':'] + port
}

/// The address `host:port`.
pub fn join_host_port(host: &str, port: &str) -> (a: String)
    ensures
        a@ == host_port(host@, port@),
{
    let mut a = String::from_str(host);
    a.append(":");
    proof { reveal_strlit(":"); }
    a.append(port);
    assert(a@ =~= host_port(host@, port@));
    a
}

fn digit_text(d: u32) -> (t: &'static str)
    requires
        d < 10,
    ensures
        t@ == seq![digit_char(d as int)],
{
    proof {
        reveal_strlit("0");
        reveal_strlit("1");
        reveal_strlit("2");
        reveal_strlit("3");
        reveal_strlit("4");
        reveal_strlit("5");
        reveal_strlit("6");
        reveal_strlit("7");
        reveal_strlit("8");
        reveal_strlit("9");
    }
    let t = if d == 0 {
        "0"
    } else if d == 1 {
        "1"
    } else if d == 2 {
        "2"
    } else if d == 3 {
        "3"
    } else if d == 4 {
        "4"
    } else if d == 5 {
        "5"
    } else if d == 6 {
        "6"
    } else if d == 7 {
        "7"
    } else if d == 8 {
        "8"
    } else {
        "9"
    };
    assert(t@ =~= seq![digit_char(d as int)]);
    t
}

fn append_digits(out: &mut String, n: u32)
    ensures
        final(out)@ == old(out)@ + digits_of(n as nat),
    decreases n,
{
    if n >= 10 {
        append_digits(out, n / 10);
    }
    out.append(digit_text(n % 10));
    assert(out@ =~= old(out)@ + digits_of(n as nat));
}

/// `n` written in decimal, as `i32::to_string` writes it.
pub fn decimal_string(n: i32) -> (s: String)
    ensures
        s@ == decimal_text(n as int),
{
    let mut s = String::new();
    if n < 0 {
        s.append("-");
        proof { reveal_strlit("-"); }
        let magnitude: u32 = (-(n as i64)) as u32;
        append_digits(&mut s, magnitude);
        assert(s@ =~= decimal_text(n as int));
    } else {
        append_digits(&mut s, n as u32);
        assert(s@ =~= decimal_text(n as int));
    }
    s
}

} // verus!

verus! {

proof fn lemma_digits_value_nonneg(s: Seq<char>)
    requires
        forall|i: int| 0 <= i < s.len() ==> #[trigger] is_digit(s[i]),
    ensures
        digits_value(s) >= 0,
    decreases s.len(),
{
    if s.len() > 0 {
        lemma_digits_value_nonneg(s.drop_last());
        assert(is_digit(s[s.len() - 1]));
    }
}

/// A run of digits is worth at least as much as any prefix of it.
proof fn lemma_prefix_value_le(s: Seq<char>, k: int)
    requires
        forall|i: int| 0 <= i < s.len() ==> #[trigger] is_digit(s[i]),
        0 <= k <= s.len(),
    ensures
        digits_value(s.subrange(0, k)) <= digits_value(s),
    decreases s.len(),
{
    if k < s.len() {
        let t = s.drop_last();
        lemma_prefix_value_le(t, k);
        lemma_digits_value_nonneg(t);
        assert(is_digit(s[s.len() - 1]));
        assert(t.subrange(0, k) =~= s.subrange(0, k));
    } else {
        assert(s.subrange(0, k) =~= s);
    }
}

/// The `i32` that `text` writes, as `str::parse::<i32>` reads it.
pub fn parse_i32(text: &str) -> (r: Option<i32>)
    ensures
        match r {
            Some(v) => parsed_i32(text@) == Some(v as int),
            None => parsed_i32(text@) is None,
        },
{
    let n = text.unicode_len();
    if n == 0 {
        return None;
    }
    let first = text.get_char(0);
    let negative = first == '-';
    let start: usize = if first == '-' || first == '+' {
        1
    } else {
        0
    };
    let ghost s = text@;
    let ghost body = s.subrange(start as int, n as int);
    assert(body =~= (if s.len() > 0 && (s[0] == '-' || s[0] == '+') {
        s.drop_first()
    } else {
        s
    }));
    if start == n {
        return None;
    }
    let mut acc: i64 = 0;
    let mut i: usize = start;
    while i < n
        invariant
            n == s.len(),
            s == text@,
            start <= i <= n,
            start < n,
            body == s.subrange(start as int, n as int),
            body == (if s.len() > 0 && (s[0] == '-' || s[0] == '+') {
                s.drop_first()
            } else {
                s
            }),
            negative == (s.len() > 0 && s[0] == '-'),
            forall|j: int| start <= j < i ==> #[trigger] is_digit(s[j]),
            acc == digits_value(s.subrange(start as int, i as int)),
            0 <= acc <= 2147483648,
        decreases n - i,
    {
        let c = text.get_char(i);
        if !('0' <= c && c <= '9') {
            proof {
                assert(body[i - start] == c);
                assert(!is_digit(body[i - start]));
            }
            return None;
        }
        let d: i64 = (c as u32 - '0' as u32) as i64;
        proof {
            assert(s.subrange(start as int, i + 1).drop_last() =~= s.subrange(start as int, i as int));
        }
        acc = acc * 10 + d;
        if acc > 2147483648 {
            proof {
                if all_digits(body) {
                    lemma_prefix_value_le(body, i + 1 - start);
                    assert(body.subrange(0, i + 1 - start) =~= s.subrange(start as int, i + 1));
                }
            }
            return None;
        }
        i = i + 1;
    }
    proof {
        assert(s.subrange(start as int, n as int) == body);
        assert(all_digits(body));
    }
    let v: i64 = if negative {
        -acc
    } else {
        acc
    };
    if v > 2147483647 {
        return None;
    }
    Some(v as i32)
}

/// The address to bind for the attempt `increment` past `port`: `host:` and
/// the port number `port + increment` in decimal.
pub fn bind_candidate_address(host: &str, port: i32, increment: i32) -> (a: String)
    requires
        i32::MIN <= port + increment <= i32::MAX,
    ensures
        a@ == host_port(host@, decimal_text(port + increment)),
{
    let number = decimal_string(port + increment);
    join_host_port(host, number.as_str())
}

proof fn lemma_digits_of(m: nat)
    ensures
        all_digits(digits_of(m)),
        digits_value(digits_of(m)) == m,
        digits_of(m)[0] != '-',
        digits_of(m)[0] != '+',
    decreases m,
{
    if m >= 10 {
        let q: nat = m / 10;
        lemma_digits_of(q);
        let d = digits_of(m);
        assert(d.drop_last() =~= digits_of(q));
        vstd::arithmetic::div_mod::lemma_fundamental_div_mod(m as int, 10);
        assert(digit_char((m % 10) as int) as int == '0' as int + m % 10);
        assert(digits_value(d) == q * 10 + (d.last() as int - '0' as int));
        assert forall|i: int| 0 <= i < d.len() implies #[trigger] is_digit(d[i]) by {
            if i < d.len() - 1 {
                assert(d[i] == digits_of(q)[i]);
            }
        }
        assert(d[0] == digits_of(q)[0]);
    } else {
        let d = digits_of(m);
        assert(digit_char(m as int) as int == '0' as int + m);
        assert(d.drop_last() =~= Seq::<char>::empty());
        assert(is_digit(d[0]));
        assert(digits_value(d.drop_last()) == 0);
    }
}

/// Reading back the decimal text of an `i32` gives the same number.
pub proof fn law_decimal_text_reads_back(n: i32)
    ensures
        parsed_i32(decimal_text(n as int)) == Some(n as int),
{
    if n < 0 {
        lemma_digits_of((-n) as nat);
        let t = decimal_text(n as int);
        assert(t.drop_first() =~= digits_of((-n) as nat));
    } else {
        lemma_digits_of(n as nat);
    }
}

} // verus!

verus! {

/// `host:port` is the whole host, a colon, then the whole port text: its
/// length is that of both and one more, it starts with the host and ends
/// with the port.
pub proof fn law_host_port_keeps_both_parts(host: Seq<char>, port: Seq<char>)
    ensures
        host_port(host, port).len() == host.len() + 1 + port.len(),
        host_port(host, port).subrange(0, host.len() as int) == host,
        host_port(host, port)[host.len() as int] == ':',
        host_port(host, port).subrange(host.len() + 1int, host_port(host, port).len() as int)
            == port,
{
    assert(host_port(host, port).subrange(0, host.len() as int) =~= host);
    assert(host_port(host, port).subrange(host.len() + 1int, host_port(host, port).len() as int)
        =~= port);
}

} // verus!

verus! {

proof fn lemma_first_digit(m: nat)
    ensures
        digits_of(m)[0] == '0' ==> m == 0,
        m < 10 ==> digits_of(m).len() == 1,
    decreases m,
{
    if m >= 10 {
        lemma_first_digit(m / 10);
        assert(digits_of(m)[0] == digits_of(m / 10)[0]);
    } else {
        assert(digit_char(m as int) as int == '0' as int + m);
    }
}

/// The decimal text of a number has no leading zero: a number that is not
/// negative is written with a first digit other than `0`, unless it is zero
/// itself (written `0`); a negative one is written `-` and then such digits.
/// With `law_decimal_text_reads_back`, this makes it the one shortest text
/// that reads back as the number.
pub proof fn law_decimal_text_has_no_leading_zero(n: int)
    ensures
        n >= 0 ==> decimal_text(n).len() >= 1 && '0' <= decimal_text(n)[0] <= '9',
        n >= 0 && decimal_text(n)[0] == '0' ==> n == 0 && decimal_text(n).len() == 1,
        n < 0 ==> decimal_text(n)[0] == '-' && decimal_text(n).len() >= 2 && decimal_text(n)[1]
            != '0',
{
    if n >= 0 {
        lemma_digits_of(n as nat);
        lemma_first_digit(n as nat);
        assert(is_digit(decimal_text(n)[0]));
    } else {
        lemma_digits_of((-n) as nat);
        lemma_first_digit((-n) as nat);
        assert(decimal_text(n)[1] == digits_of((-n) as nat)[0]);
    }
}

/// Text that reads as an `i32` may start with `+` before the digits of a
/// number that is not negative, and with any number of zeros before the
/// digits, as `str::parse::<i32>` allows; a number outside the range of
/// `i32` does not read.
pub proof fn law_signs_zeros_and_range(n: int)
    ensures
        i32::MIN <= n <= i32::MAX && n >= 0 ==> parsed_i32(seq!['+'] + decimal_text(n)) == Some(n),
        i32::MIN <= n <= i32::MAX && n >= 0 ==> parsed_i32(seq!['0'] + decimal_text(n)) == Some(n),
        !(i32::MIN <= n <= i32::MAX) ==> parsed_i32(decimal_text(n)) is None,
{
    if n >= 0 {
        lemma_digits_of(n as nat);
        let t = decimal_text(n);
        assert((seq!['+'] + t).drop_first() =~= t);
        let z = seq!['0'] + t;
        assert forall|i: int| 0 <= i < z.len() implies #[trigger] is_digit(z[i]) by {
            if i > 0 {
                assert(z[i] == t[i - 1]);
            }
        }
        lemma_leading_zero_value(t);
    } else {
        lemma_digits_of((-n) as nat);
        assert(decimal_text(n).drop_first() =~= digits_of((-n) as nat));
    }
}

proof fn lemma_leading_zero_value(t: Seq<char>)
    ensures
        digits_value(seq!['0'] + t) == digits_value(t),
    decreases t.len(),
{
    if t.len() == 0 {
        assert((seq!['0'] + t).drop_last() =~= Seq::<char>::empty());
        assert(digits_value(Seq::<char>::empty()) == 0);
        assert(t =~= Seq::<char>::empty());
    } else {
        lemma_leading_zero_value(t.drop_last());
        assert((seq!['0'] + t).drop_last() =~= seq!['0'] + t.drop_last());
        assert((seq!['0'] + t).last() == t.last());
    }
}

/// Text that does not follow the grammar does not read: the empty text, a
/// sign alone, and any text with a character other than a decimal digit
/// past its first one, or with a first character that is neither a digit
/// nor a sign.
pub proof fn law_malformed_text_does_not_read(s: Seq<char>)
    ensures
        s.len() == 0 ==> parsed_i32(s) is None,
        s == seq!['-'] || s == seq!['+'] ==> parsed_i32(s) is None,
        (exists|i: int| 1 <= i < s.len() && !('0' <= #[trigger] s[i] <= '9')) ==> parsed_i32(s) is None,
        s.len() > 0 && !('0' <= s[0] <= '9') && s[0] != '-' && s[0] != '+' ==> parsed_i32(s) is None,
{
    if exists|i: int| 1 <= i < s.len() && !('0' <= #[trigger] s[i] <= '9') {
        let i = choose|i: int| 1 <= i < s.len() && !('0' <= #[trigger] s[i] <= '9');
        if s[0] == '-' || s[0] == '+' {
            assert(s.drop_first()[i - 1] == s[i]);
            assert(!is_digit(s.drop_first()[i - 1]));
        } else {
            assert(!is_digit(s[i]));
        }
    }
    if s.len() > 0 && !('0' <= s[0] <= '9') && s[0] != '-' && s[0] != '+' {
        assert(!is_digit(s[0]));
    }
}

} // verus!
