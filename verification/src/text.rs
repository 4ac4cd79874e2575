//! Character-level text building blocks shared by the parser and renderers.

use vstd::prelude::*;

verus! {

/// The ASCII digit for `d`, which is below ten.
pub open spec fn digit_char(d: nat) -> char {
    (48 + d) as char
}

/// Decimal digits of a natural number, most significant first, without
/// leading zeros (zero itself is `"0"`).
pub open spec fn decimal(n: nat) -> Seq<char>
    decreases n,
{
    if n < 10 {
        seq![digit_char(n)]
    } else {
        decimal(n / 10).push(digit_char(n % 10))
    }
}

/// Decimal text of an integer, with a leading `-` when negative.
pub open spec fn signed_decimal(n: int) -> Seq<char> {
    if n < 0 {
        seq!['-'] + decimal((-n) as nat)
    } else {
        decimal(n as nat)
    }
}

/// Whether `t` begins with `p`.
pub open spec fn starts_with(t: Seq<char>, p: Seq<char>) -> bool {
    p.len() <= t.len() && t.take(p.len() as int) == p
}

/// `count` copies of `c`.
pub open spec fn repeat(c: char, count: nat) -> Seq<char>
    decreases count,
{
    if count == 0 {
        Seq::empty()
    } else {
        repeat(c, (count - 1) as nat).push(c)
    }
}

pub proof fn lemma_repeat_len(c: char, count: nat)
    ensures
        repeat(c, count).len() == count,
    decreases count,
{
    if count > 0 {
        lemma_repeat_len(c, (count - 1) as nat);
    }
}

/// Appends `c` to `s` (std's `String::push`).
#[verifier::external_body]
pub(crate) fn push_char(s: &mut String, c: char)
    ensures
        final(s)@ == old(s)@.push(c),
{
    s.push(c);
}

/// Whether the characters of `s` are exactly those of `lit`.
pub fn text_is(s: &str, lit: &str) -> (b: bool)
    ensures
        b == (s@ == lit@),
{
    let n = s.unicode_len();
    if n != lit.unicode_len() {
        return false;
    }
    let mut i: usize = 0;
    while i < n
        invariant
            n == s@.len(),
            n == lit@.len(),
            i <= n,
            forall|k: int| 0 <= k < i ==> s@[k] == lit@[k],
        decreases n - i,
    {
        if s.get_char(i) != lit.get_char(i) {
            return false;
        }
        i = i + 1;
    }
    assert(s@ =~= lit@);
    true
}

/// Whether `s` begins with the characters of `prefix`.
pub fn has_prefix(s: &str, prefix: &str) -> (b: bool)
    ensures
        b == starts_with(s@, prefix@),
{
    let n = prefix.unicode_len();
    if n > s.unicode_len() {
        return false;
    }
    let mut i: usize = 0;
    while i < n
        invariant
            n == prefix@.len(),
            n <= s@.len(),
            i <= n,
            forall|k: int| 0 <= k < i ==> s@[k] == prefix@[k],
        decreases n - i,
    {
        if s.get_char(i) != prefix.get_char(i) {
            return false;
        }
        i = i + 1;
    }
    assert(s@.take(n as int) =~= prefix@);
    true
}

/// The ASCII digit for `d`.
pub fn digit(d: u64) -> (c: char)
    requires
        d < 10,
    ensures
        c == digit_char(d as nat),
{
    let b: u8 = 48u8 + (d as u8);
    b as char
}

/// Appends the decimal digits of `n`.
pub fn push_decimal(out: &mut String, n: u64)
    ensures
        final(out)@ == old(out)@ + decimal(n as nat),
    decreases n,
{
    if n >= 10 {
        push_decimal(out, n / 10);
    }
    push_char(out, digit(n % 10));
    proof {
        if n >= 10 {
            assert(decimal(n as nat) == decimal((n / 10) as nat).push(digit_char((n % 10) as nat)));
        }
    }
    assert(final(out)@ =~= old(out)@ + decimal(n as nat));
}

/// Whether `c` is a control character (Unicode general category Cc).
pub open spec fn is_control(c: char) -> bool {
    (c as u32) < 32 || (127 <= (c as u32) && (c as u32) <= 159)
}

/// A lower-case hexadecimal digit.
pub open spec fn hex_digit(d: nat) -> char {
    if d < 10 {
        digit_char(d)
    } else {
        (87 + d) as char
    }
}

/// How one character is written inside a JSON string.
pub open spec fn json_escape(c: char) -> Seq<char> {
    if c == '"' {
        seq!['\\', '"']
    } else if c == '\\' {
        seq!['\\', '\\']
    } else if c == '\u{8}' {
        seq!['\\', 'b']
    } else if c == '\u{c}' {
        seq!['\\', 'f']
    } else if c == '\n' {
        seq!['\\', 'n']
    } else if c == '\r' {
        seq!['\\', 'r']
    } else if c == '\t' {
        seq!['\\', 't']
    } else if (c as u32) < 32 {
        seq!['\\', 'u', '0', '0', hex_digit(((c as u32) / 16) as nat), hex_digit(((c as u32) % 16) as nat)]
    } else {
        seq![c]
    }
}

/// The escaped characters of `s`.
pub open spec fn json_escaped(s: Seq<char>) -> Seq<char>
    decreases s.len(),
{
    if s.len() == 0 {
        Seq::empty()
    } else {
        json_escaped(s.drop_last()) + json_escape(s.last())
    }
}

/// `s` as a JSON string literal.
pub open spec fn json_quote(s: Seq<char>) -> Seq<char> {
    seq!['"'] + json_escaped(s) + seq!['"']
}

/// `d` written with at least `width` digits, padded with leading zeros.
pub open spec fn zero_padded(d: Seq<char>, width: nat) -> Seq<char> {
    if d.len() < width {
        repeat('0', (width - d.len()) as nat) + d
    } else {
        d
    }
}

/// `n` in decimal, `width` characters wide at least, zero-padded after the sign.
pub open spec fn padded_decimal(n: int, width: nat) -> Seq<char> {
    if n < 0 {
        seq!['-'] + zero_padded(decimal((-n) as nat), if width > 0 {
            (width - 1) as nat
        } else {
            0
        })
    } else {
        zero_padded(decimal(n as nat), width)
    }
}

/// The number of characters of `s`.
pub fn char_count(s: &str) -> (n: usize)
    ensures
        n == s@.len(),
{
    s.unicode_len()
}

/// Appends `count` copies of `c`.
pub fn push_repeat(out: &mut String, c: char, count: usize)
    ensures
        final(out)@ == old(out)@ + repeat(c, count as nat),
{
    let ghost start = out@;
    let mut i: usize = 0;
    while i < count
        invariant
            i <= count,
            out@ == start + repeat(c, i as nat),
        decreases count - i,
    {
        push_char(out, c);
        i = i + 1;
        assert(out@ =~= start + repeat(c, i as nat));
    }
}

/// Appends `s`.
pub fn push_str(out: &mut String, s: &str)
    ensures
        final(out)@ == old(out)@ + s@,
{
    out.append(s);
}

/// Appends the decimal text of `n`, with a leading `-` when negative.
pub fn push_signed_decimal(out: &mut String, n: i64)
    ensures
        final(out)@ == old(out)@ + signed_decimal(n as int),
{
    if n < 0 {
        let ghost start = out@;
        push_char(out, '-');
        let m: u64 = (0i128 - (n as i128)) as u64;
        push_decimal(out, m);
        assert(out@ =~= start + signed_decimal(n as int));
    } else {
        push_decimal(out, n as u64);
    }
}

pub open spec fn pow10(k: nat) -> nat
    decreases k,
{
    if k == 0 {
        1
    } else {
        10 * pow10((k - 1) as nat)
    }
}

proof fn lemma_decimal_len_bound(n: nat, k: nat)
    requires
        n < pow10(k),
        k >= 1,
    ensures
        decimal(n).len() <= k,
    decreases k,
{
    if n >= 10 {
        if k == 1 {
            assert(pow10(1) == 10 * pow10(0));
        }
        assert(k >= 2);
        let p = pow10((k - 1) as nat);
        assert(n < 10 * p);
        assert(n / 10 < p);
        lemma_decimal_len_bound(n / 10, (k - 1) as nat);
    }
}

/// The number of decimal digits of `n`.
pub fn decimal_len(n: u64) -> (len: usize)
    ensures
        len == decimal(n as nat).len(),
        len <= 20,
    decreases n,
{
    proof {
        reveal_with_fuel(pow10, 21);
        assert(pow10(20) == 100_000_000_000_000_000_000);
        lemma_decimal_len_bound(n as nat, 20);
    }
    if n < 10 {
        1
    } else {
        decimal_len(n / 10) + 1
    }
}

/// Appends `n` written with at least `width` digits.
pub fn push_zero_padded(out: &mut String, n: u64, width: usize)
    ensures
        final(out)@ == old(out)@ + zero_padded(decimal(n as nat), width as nat),
{
    let ghost start = out@;
    let len = decimal_len(n);
    if len < width {
        push_repeat(out, '0', width - len);
    }
    push_decimal(out, n);
    assert(out@ =~= start + zero_padded(decimal(n as nat), width as nat));
}

/// Appends `n` in decimal, `width` characters wide at least, zero-padded after the sign.
pub fn push_padded_decimal(out: &mut String, n: i64, width: usize)
    ensures
        final(out)@ == old(out)@ + padded_decimal(n as int, width as nat),
{
    let ghost start = out@;
    if n < 0 {
        push_char(out, '-');
        let m: u64 = (0i128 - (n as i128)) as u64;
        let w: usize = if width > 0 {
            width - 1
        } else {
            0
        };
        push_zero_padded(out, m, w);
    } else {
        push_zero_padded(out, n as u64, width);
    }
    assert(out@ =~= start + padded_decimal(n as int, width as nat));
}

/// serde_json's `to_string` of a string: a JSON string literal. The contract
/// states serde_json's escaping (its `ESCAPE` table and `HEX_DIGITS`), which
/// `json_escape` writes out: the quote, the backslash and the control
/// characters below U+0020 are escaped (a backslash and `b`, `t`, `n`, `f` or
/// `r` where such a short form exists, else a backslash, `u00` and two
/// lower-case hexadecimal digits); every other character is written as it
/// is. Serializing a string into memory does not fail.
#[verifier::external_body]
fn json_string_literal(s: &str) -> (t: String)
    ensures
        t@ == json_quote(s@),
{
    match serde_json::to_string(s) {
        Ok(t) => t,
        Err(_) => String::new(),
    }
}

/// Appends `s` as a JSON string literal.
pub fn push_json_str(out: &mut String, s: &str)
    ensures
        final(out)@ == old(out)@ + json_quote(s@),
{
    let literal = json_string_literal(s);
    push_str(out, literal.as_str());
}

pub proof fn lemma_json_escaped_printable(s: Seq<char>)
    ensures
        forall|i: int| 0 <= i < json_escaped(s).len() ==> (#[trigger] json_escaped(s)[i] as u32) >= 32,
    decreases s.len(),
{
    if s.len() > 0 {
        lemma_json_escaped_printable(s.drop_last());
        let a = json_escaped(s.drop_last());
        let b = json_escape(s.last());
        assert(forall|i: int| 0 <= i < b.len() ==> (#[trigger] b[i] as u32) >= 32) by {
            let c = s.last();
            if (c as u32) < 32 && c != '\u{8}' && c != '\u{c}' && c != '\n' && c != '\r' && c
                != '\t' {
                let v = c as u32;
                assert(v / 16 < 2 && v % 16 < 16);
            }
        }
        assert forall|i: int| 0 <= i < json_escaped(s).len() implies (#[trigger] json_escaped(
            s,
        )[i] as u32) >= 32 by {
            if i < a.len() {
                assert(json_escaped(s)[i] == a[i]);
            } else {
                assert(json_escaped(s)[i] == b[i - a.len()]);
            }
        }
    }
}

/// A JSON string literal is one line: it holds no control character below
/// U+0020 (so no line break), and it begins and ends with a quote.
pub proof fn law_json_string_is_one_line(s: Seq<char>)
    ensures
        forall|i: int| 0 <= i < json_quote(s).len() ==> (#[trigger] json_quote(s)[i] as u32) >= 32,
        json_quote(s).len() >= 2,
        json_quote(s)[0] == '"',
        json_quote(s)[json_quote(s).len() - 1] == '"',
{
    lemma_json_escaped_printable(s);
    let e = json_escaped(s);
    assert forall|i: int| 0 <= i < json_quote(s).len() implies (#[trigger] json_quote(s)[i] as u32)
        >= 32 by {
        if 1 <= i < 1 + e.len() {
            assert(json_quote(s)[i] == e[i - 1]);
        }
    }
}

proof fn lemma_escape_nonempty(c: char)
    ensures
        json_escape(c).len() >= 1,
        json_escape(c).len() == 1 <==> json_escape(c) == seq![c],
        json_escape(c).len() > 1 ==> json_escape(c)[0] == '\\',
        json_escape(c).len() == 1 ==> c != '\\' && c != '"',
{
}

proof fn lemma_escaped_prepend(c: char, s: Seq<char>)
    ensures
        json_escaped(seq![c] + s) == json_escape(c) + json_escaped(s),
    decreases s.len(),
{
    if s.len() == 0 {
        assert(seq![c] + s =~= seq![c]);
        assert(seq![c].drop_last() =~= Seq::<char>::empty());
        assert(json_escaped(Seq::<char>::empty()) == Seq::<char>::empty());
        assert(json_escaped(seq![c]) == json_escaped(seq![c].drop_last()) + json_escape(c));
        assert(json_escaped(seq![c]) =~= json_escape(c));
        assert(json_escape(c) + json_escaped(s) =~= json_escape(c));
    } else {
        assert((seq![c] + s).drop_last() =~= seq![c] + s.drop_last());
        assert((seq![c] + s).last() == s.last());
        lemma_escaped_prepend(c, s.drop_last());
        assert(json_escape(c) + json_escaped(s.drop_last()) + json_escape(s.last()) =~= json_escape(c)
            + json_escaped(s));
    }
}

proof fn lemma_hex_digit_code(d: nat)
    requires
        d < 16,
    ensures
        (hex_digit(d) as int) == if d < 10 {
            48 + d
        } else {
            87 + d
        },
{
}

/// No escape is the beginning of another character's escape.
proof fn lemma_escape_prefix_free(x: char, y: char)
    requires
        json_escape(x).len() <= json_escape(y).len(),
        json_escape(y).take(json_escape(x).len() as int) == json_escape(x),
    ensures
        x == y,
{
    let ex = json_escape(x);
    let ey = json_escape(y);
    lemma_escape_nonempty(x);
    lemma_escape_nonempty(y);
    assert(ey[0] == ex[0]) by {
        assert(ey.take(ex.len() as int)[0] == ey[0]);
    }
    if ex.len() == 1 {
        if ey.len() > 1 {
            assert(ex[0] == x);
            assert(false);
        }
    } else {
        assert(ey[1] == ex[1]) by {
            assert(ey.take(ex.len() as int)[1] == ey[1]);
        }
        if (x as u32) < 32 && x != '\u{8}' && x != '\u{c}' && x != '\n' && x != '\r' && x != '\t' {
            assert(ex.len() == 6);
            assert(ey[1] == 'u');
            assert(ey.len() == 6);
            assert(ey == ex);
            let vx = (x as u32) as nat;
            let vy = (y as u32) as nat;
            assert(ey[4] == ex[4] && ey[5] == ex[5]);
            lemma_hex_digit_code(vx / 16);
            lemma_hex_digit_code(vx % 16);
            lemma_hex_digit_code(vy / 16);
            lemma_hex_digit_code(vy % 16);
            assert(vx / 16 == vy / 16);
            assert(vx % 16 == vy % 16);
            assert(vx == vy);
        }
    }
}

proof fn lemma_escaped_injective(a: Seq<char>, b: Seq<char>)
    requires
        json_escaped(a) == json_escaped(b),
    ensures
        a == b,
    decreases a.len() + b.len(),
{
    if a.len() == 0 || b.len() == 0 {
        assert(json_escaped(Seq::<char>::empty()).len() == 0);
        if a.len() > 0 {
            lemma_escape_nonempty(a.last());
            assert(json_escaped(a) == json_escaped(a.drop_last()) + json_escape(a.last()));
            assert(b.len() == 0);
            assert(false);
        }
        if b.len() > 0 {
            lemma_escape_nonempty(b.last());
            assert(json_escaped(b) == json_escaped(b.drop_last()) + json_escape(b.last()));
            assert(a.len() == 0);
            assert(false);
        }
        assert(a =~= b);
    } else {
        let x = a[0];
        let y = b[0];
        let ra = a.skip(1);
        let rb = b.skip(1);
        assert(a =~= seq![x] + ra);
        assert(b =~= seq![y] + rb);
        lemma_escaped_prepend(x, ra);
        lemma_escaped_prepend(y, rb);
        let ex = json_escape(x);
        let ey = json_escape(y);
        let whole = json_escaped(a);
        assert(whole == ex + json_escaped(ra));
        assert(whole == ey + json_escaped(rb));
        if ex.len() <= ey.len() {
            assert(ey.take(ex.len() as int) =~= whole.take(ex.len() as int));
            assert(ex =~= whole.take(ex.len() as int));
            lemma_escape_prefix_free(x, y);
        } else {
            assert(ex.take(ey.len() as int) =~= whole.take(ey.len() as int));
            assert(ey =~= whole.take(ey.len() as int));
            lemma_escape_prefix_free(y, x);
        }
        assert(json_escaped(ra) =~= whole.skip(ex.len() as int));
        assert(json_escaped(rb) =~= whole.skip(ey.len() as int));
        lemma_escaped_injective(ra, rb);
    }
}

/// A JSON string literal determines its string: different strings are
/// written as different literals.
pub proof fn law_json_quote_injective(a: Seq<char>, b: Seq<char>)
    requires
        json_quote(a) == json_quote(b),
    ensures
        a == b,
{
    let qa = json_quote(a);
    assert(json_escaped(a) =~= qa.subrange(1, qa.len() - 1));
    assert(json_escaped(b) =~= json_quote(b).subrange(1, json_quote(b).len() - 1));
    lemma_escaped_injective(a, b);
}

/// The second character of a JSON string literal (the first after the
/// quote) is `-` exactly when the string begins with `-`.
pub proof fn lemma_json_escaped_first(s: Seq<char>)
    requires
        s.len() >= 1,
    ensures
        (json_quote(s)[1] == '-') == (s[0] == '-'),
{
    let c = s[0];
    assert(s =~= seq![c] + s.skip(1));
    lemma_escaped_prepend(c, s.skip(1));
    lemma_escape_nonempty(c);
    let e = json_escaped(s);
    assert(e[0] == json_escape(c)[0]);
    assert(json_quote(s)[1] == e[0]);
}

/// A number below `10^k` has at most `k` digits.
pub proof fn lemma_decimal_len(n: nat, k: nat)
    requires
        n < pow10(k),
        k >= 1,
    ensures
        1 <= decimal(n).len() <= k,
{
    lemma_decimal_len_bound(n, k);
    lemma_decimal_nonempty(n);
}

proof fn lemma_decimal_nonempty(n: nat)
    ensures
        decimal(n).len() >= 1,
    decreases n,
{
    if n >= 10 {
        lemma_decimal_nonempty(n / 10);
    }
}

} // verus!
