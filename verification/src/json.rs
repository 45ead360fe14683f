//! The JSON wire form of the protocol's payloads, written and parsed by
//! the library itself. The form is strict and canonical: objects carry
//! their keys in a fixed order with no blanks, strings escape exactly
//! the quote and the backslash, and numbers are decimal with no leading
//! zeros. Parsers accept exactly what the encoders produce.

use vstd::prelude::*;

use vstd::string::{StrSliceExecFns, StringExecFns};

verus! {

broadcast use vstd::seq::group_seq_axioms;

/// Relies on `String::push` of std: appends the character to the end of
/// the string.
pub assume_specification[ String::push ](s: &mut String, ch: char)
    ensures
        final(s)@ == old(s)@.push(ch),
;

/// The escape of one character: the quote and the backslash take a
/// leading backslash, every other character stands for itself.
pub open spec fn esc_char(c: char) -> Seq<char> {
    if c == '"' || c == '\\' {
        seq!['\\', c]
    } else {
        seq![c]
    }
}

/// A string's characters, escaped.
pub open spec fn escaped(s: Seq<char>) -> Seq<char>
    decreases s.len(),
{
    if s.len() == 0 {
        Seq::<char>::empty()
    } else {
        esc_char(s[0]) + escaped(s.drop_first())
    }
}

/// The JSON form of a string: its escaped characters between quotes.
pub open spec fn json_string(s: Seq<char>) -> Seq<char> {
    seq!['"'] + escaped(s) + seq!['"']
}

/// The JSON form of a boolean.
pub open spec fn json_bool(b: bool) -> Seq<char> {
    if b {
        seq!['t', 'r', 'u', 'e']
    } else {
        seq!['f', 'a', 'l', 's', 'e']
    }
}

/// Escaping distributes over concatenation.
pub proof fn lemma_escaped_add(a: Seq<char>, b: Seq<char>)
    ensures
        escaped(a + b) == escaped(a) + escaped(b),
    decreases a.len(),
{
    if a.len() == 0 {
        assert(a + b =~= b);
        assert(escaped(a) + escaped(b) =~= escaped(b));
    } else {
        assert((a + b).drop_first() =~= a.drop_first() + b);
        lemma_escaped_add(a.drop_first(), b);
        assert(escaped(a + b) =~= escaped(a) + escaped(b));
    }
}

/// Escaping one appended character appends its escape.
pub proof fn lemma_escaped_snoc(s: Seq<char>, c: char)
    ensures
        escaped(s.push(c)) == escaped(s) + esc_char(c),
{
    assert(s.push(c) =~= s + seq![c]);
    lemma_escaped_add(s, seq![c]);
    assert(seq![c].drop_first() =~= Seq::<char>::empty());
    assert(escaped(Seq::<char>::empty()) =~= Seq::<char>::empty());
    assert(escaped(seq![c]) =~= esc_char(c));
}

/// What reading an escaped string up to its closing quote yields: the
/// unescaped characters and how many characters were consumed, or
/// nothing where the text is not a correctly escaped, quote-terminated
/// string.
pub open spec fn spec_unescape(t: Seq<char>) -> Option<(Seq<char>, int)>
    decreases t.len(),
{
    if t.len() == 0 {
        None
    } else if t[0] == '"' {
        Some((Seq::<char>::empty(), 1))
    } else if t[0] == '\\' {
        if t.len() < 2 || !(t[1] == '"' || t[1] == '\\') {
            None
        } else {
            match spec_unescape(t.skip(2)) {
                Some(p) => Some((seq![t[1]] + p.0, p.1 + 2)),
                None => None,
            }
        }
    } else {
        match spec_unescape(t.skip(1)) {
            Some(p) => Some((seq![t[0]] + p.0, p.1 + 1)),
            None => None,
        }
    }
}

/// Round trip of string escaping: an escaped string followed by its
/// closing quote reads back exactly, whatever follows.
pub proof fn lemma_unescape_escaped(v: Seq<char>, rest: Seq<char>)
    ensures
        spec_unescape(escaped(v) + seq!['"'] + rest) == Some((v, escaped(v).len() + 1 as int)),
    decreases v.len(),
{
    let t = escaped(v) + seq!['"'] + rest;
    if v.len() == 0 {
        assert(t =~= seq!['"'] + rest);
        assert(t[0] == '"');
    } else {
        let c = v[0];
        let v2 = v.drop_first();
        assert(escaped(v) == esc_char(c) + escaped(v2));
        lemma_unescape_escaped(v2, rest);
        if c == '"' || c == '\\' {
            assert(t[0] == '\\' && t[1] == c);
            assert(t.skip(2) =~= escaped(v2) + seq!['"'] + rest);
            assert(seq![c] + v2 =~= v);
        } else {
            assert(t[0] == c);
            assert(t.skip(1) =~= escaped(v2) + seq!['"'] + rest);
            assert(seq![c] + v2 =~= v);
        }
    }
}

/// Soundness of string reading: what was consumed is exactly the escape
/// of what was read, plus the closing quote.
pub proof fn lemma_unescape_sound(t: Seq<char>)
    ensures
        spec_unescape(t) matches Some(p) ==> {
            &&& 1 <= p.1 <= t.len()
            &&& t.subrange(0, p.1) == escaped(p.0) + seq!['"']
        },
    decreases t.len(),
{
    if t.len() == 0 {
    } else if t[0] == '"' {
        assert(t.subrange(0, 1) =~= escaped(Seq::<char>::empty()) + seq!['"']);
    } else if t[0] == '\\' {
        if t.len() < 2 || !(t[1] == '"' || t[1] == '\\') {
        } else {
            lemma_unescape_sound(t.skip(2));
            match spec_unescape(t.skip(2)) {
                Some(p) => {
                    let v = seq![t[1]] + p.0;
                    assert(escaped(v) == esc_char(v[0]) + escaped(v.drop_first()));
                    assert(v.drop_first() =~= p.0);
                    assert(esc_char(t[1]) =~= seq!['\\', t[1]]);
                    assert(t.subrange(0, p.1 + 2) =~= seq!['\\', t[1]] + t.skip(2).subrange(
                        0,
                        p.1,
                    ));
                    assert(t.subrange(0, p.1 + 2) =~= escaped(v) + seq!['"']);
                },
                None => {},
            }
        }
    } else {
        lemma_unescape_sound(t.skip(1));
        match spec_unescape(t.skip(1)) {
            Some(p) => {
                let v = seq![t[0]] + p.0;
                assert(escaped(v) == esc_char(v[0]) + escaped(v.drop_first()));
                assert(v.drop_first() =~= p.0);
                assert(t.subrange(0, p.1 + 1) =~= seq![t[0]] + t.skip(1).subrange(0, p.1));
                assert(t.subrange(0, p.1 + 1) =~= escaped(v) + seq!['"']);
            },
            None => {},
        }
    }
}

/// Whether a character is a decimal digit.
pub open spec fn is_digit(c: char) -> bool {
    '0' <= c <= '9'
}

/// The value of a decimal digit.
pub open spec fn digit_val(c: char) -> int {
    c as int - '0' as int
}

/// The decimal digit of a value below ten.
pub open spec fn digit_of(n: int) -> char {
    if n == 0 {
        '0'
    } else if n == 1 {
        '1'
    } else if n == 2 {
        '2'
    } else if n == 3 {
        '3'
    } else if n == 4 {
        '4'
    } else if n == 5 {
        '5'
    } else if n == 6 {
        '6'
    } else if n == 7 {
        '7'
    } else if n == 8 {
        '8'
    } else {
        '9'
    }
}

/// The canonical decimal form of a non-negative number: no leading
/// zeros, a single zero for zero.
pub open spec fn spec_dec(n: int) -> Seq<char>
    recommends
        n >= 0,
    decreases n,
{
    if n < 10 {
        seq![digit_of(n)]
    } else {
        spec_dec(n / 10) + seq![digit_of(n % 10)]
    }
}

/// How many leading characters of the text are digits.
pub open spec fn digits_prefix_len(t: Seq<char>) -> int
    decreases t.len(),
{
    if t.len() == 0 || !is_digit(t[0]) {
        0
    } else {
        1 + digits_prefix_len(t.skip(1))
    }
}

/// The value of the first `k` characters of the text read as decimal
/// digits.
pub open spec fn digits_val(t: Seq<char>, k: int) -> int
    decreases k,
{
    if k <= 0 {
        0
    } else {
        digits_val(t, k - 1) * 10 + digit_val(t[k - 1])
    }
}

/// What reading a decimal number yields: its value and how many
/// characters were consumed; nothing where no digit leads or a leading
/// zero precedes further digits.
pub open spec fn spec_parse_number(t: Seq<char>) -> Option<(int, int)> {
    let k = digits_prefix_len(t);
    if k == 0 {
        None
    } else if k > 1 && t[0] == '0' {
        None
    } else {
        Some((digits_val(t, k), k))
    }
}

/// The canonical decimal form is all digits and starts with zero only
/// for zero itself.
pub proof fn lemma_dec_shape(n: int)
    requires
        n >= 0,
    ensures
        spec_dec(n).len() >= 1,
        forall|i: int| 0 <= i < spec_dec(n).len() ==> is_digit(#[trigger] spec_dec(n)[i]),
        spec_dec(n)[0] == '0' ==> n == 0,
        n < 10 ==> spec_dec(n).len() == 1,
    decreases n,
{
    if n >= 10 {
        lemma_dec_shape(n / 10);
        assert(is_digit(digit_of(n % 10)));
        assert(spec_dec(n)[0] == spec_dec(n / 10)[0]);
        assert(n / 10 >= 1);
        assert forall|i: int| 0 <= i < spec_dec(n).len() implies is_digit(
            #[trigger] spec_dec(n)[i],
        ) by {
            if i < spec_dec(n / 10).len() {
                assert(spec_dec(n)[i] == spec_dec(n / 10)[i]);
            } else {
                assert(spec_dec(n)[i] == digit_of(n % 10));
            }
        }
    } else {
        assert(is_digit(digit_of(n)));
    }
}

/// Helper: the digit count of the canonical form, for splitting.
proof fn lemma_digits_prefix_of_dec(n: int, rest: Seq<char>)
    requires
        n >= 0,
        rest.len() == 0 || !is_digit(rest[0]),
    ensures
        digits_prefix_len(spec_dec(n) + rest) == spec_dec(n).len(),
        forall|j: int|
            0 <= j <= spec_dec(n).len() ==> digits_val(spec_dec(n) + rest, j) == digits_val(
                spec_dec(n),
                j,
            ),
    decreases spec_dec(n).len(),
{
    let t = spec_dec(n) + rest;
    lemma_dec_shape(n);
    assert forall|j: int|
        0 <= j <= spec_dec(n).len() implies digits_val(t, j) == digits_val(spec_dec(n), j) by {
        lemma_digits_val_same(spec_dec(n), t, j);
    }
    lemma_digits_prefix_stops(t, spec_dec(n).len() as int);
}

/// Two texts agreeing on a prefix read the same value over it.
proof fn lemma_digits_val_same(a: Seq<char>, b: Seq<char>, k: int)
    requires
        0 <= k <= a.len(),
        k <= b.len(),
        forall|i: int| 0 <= i < k ==> a[i] == b[i],
    ensures
        digits_val(a, k) == digits_val(b, k),
    decreases k,
{
    if k > 0 {
        lemma_digits_val_same(a, b, k - 1);
    }
}

/// A text whose first `k` characters are digits and whose next is not
/// has exactly `k` leading digits.
proof fn lemma_digits_prefix_stops(t: Seq<char>, k: int)
    requires
        0 <= k <= t.len(),
        forall|i: int| 0 <= i < k ==> is_digit(#[trigger] t[i]),
        k == t.len() || !is_digit(t[k]),
    ensures
        digits_prefix_len(t) == k,
    decreases k,
{
    if k == 0 {
    } else {
        assert(is_digit(t[0]));
        assert forall|i: int| 0 <= i < k - 1 implies is_digit(#[trigger] t.skip(1)[i]) by {
            assert(t.skip(1)[i] == t[i + 1]);
        }
        if k - 1 < t.skip(1).len() {
            assert(t.skip(1)[k - 1] == t[k]);
        }
        lemma_digits_prefix_stops(t.skip(1), k - 1);
    }
}

/// The canonical form reads back to its value.
proof fn lemma_dec_val(n: int)
    requires
        n >= 0,
    ensures
        digits_val(spec_dec(n), spec_dec(n).len() as int) == n,
    decreases n,
{
    lemma_dec_shape(n);
    if n < 10 {
        assert(digits_val(spec_dec(n), 0) == 0);
        assert(spec_dec(n)[0] == digit_of(n));
        assert(digit_val(digit_of(n)) == n);
    } else {
        lemma_dec_val(n / 10);
        let d = spec_dec(n);
        let a = spec_dec(n / 10);
        assert forall|j: int| 0 <= j <= a.len() implies digits_val(d, j) == digits_val(a, j) by {
            lemma_digits_val_same(a, d, j);
        }
        assert(d[d.len() - 1] == digit_of(n % 10));
        assert(digit_val(digit_of(n % 10)) == n % 10);
        assert(digits_val(d, d.len() as int) == digits_val(d, d.len() - 1) * 10 + digit_val(
            d[d.len() - 1],
        ));
        assert(n / 10 * 10 + n % 10 == n) by (nonlinear_arith)
            requires
                n >= 10,
        ;
    }
}

/// Round trip of numbers: the canonical decimal form of a value,
/// followed by anything that is not a digit, reads back to the value.
pub proof fn lemma_parse_number_dec(n: int, rest: Seq<char>)
    requires
        n >= 0,
        rest.len() == 0 || !is_digit(rest[0]),
    ensures
        spec_parse_number(spec_dec(n) + rest) == Some((n, spec_dec(n).len() as int)),
{
    let t = spec_dec(n) + rest;
    lemma_dec_shape(n);
    lemma_digits_prefix_of_dec(n, rest);
    lemma_dec_val(n);
    assert(t[0] == spec_dec(n)[0]);
    assert(digits_val(t, spec_dec(n).len() as int) == digits_val(
        spec_dec(n),
        spec_dec(n).len() as int,
    ));
}

/// A value read from `k` digits without a leading zero writes back to
/// the same `k` digits.
proof fn lemma_val_dec(t: Seq<char>, k: int)
    requires
        1 <= k <= t.len(),
        forall|i: int| 0 <= i < k ==> is_digit(#[trigger] t[i]),
        k > 1 ==> t[0] != '0',
    ensures
        digits_val(t, k) >= 0,
        spec_dec(digits_val(t, k)) == t.subrange(0, k),
        digits_val(t, k) < 10 <==> k == 1,
    decreases k,
{
    if k == 1 {
        assert(is_digit(t[0]));
        assert(digits_val(t, 0) == 0);
        assert(digits_val(t, 1) == digit_val(t[0]));
        assert(digit_of(digit_val(t[0])) == t[0]);
        assert(spec_dec(digits_val(t, 1)) =~= t.subrange(0, 1));
    } else {
        lemma_val_dec(t, k - 1);
        let a = digits_val(t, k - 1);
        let d = digit_val(t[k - 1]);
        assert(0 <= d < 10);
        assert(a >= 1) by {
            if a == 0 {
                lemma_dec_shape(0);
                assert(spec_dec(0) =~= seq!['0']);
                assert(t.subrange(0, k - 1).len() == 1);
                assert(t[0] == '0');
            }
        }
        assert(digits_val(t, k) == a * 10 + d);
        assert((a * 10 + d) / 10 == a && (a * 10 + d) % 10 == d && a * 10 + d >= 10)
            by (nonlinear_arith)
            requires
                a >= 1,
                0 <= d < 10,
        ;
        assert(spec_dec(a * 10 + d) == spec_dec(a) + seq![digit_of(d)]);
        assert(digit_of(d) == t[k - 1]);
        assert(spec_dec(a) == t.subrange(0, k - 1));
        assert(t.subrange(0, k) =~= t.subrange(0, k - 1) + seq![t[k - 1]]);
    }
}

/// Soundness of number reading: what was consumed is exactly the
/// canonical decimal form of the value, and the next character, if any,
/// is not a digit.
pub proof fn lemma_parse_number_sound(t: Seq<char>)
    ensures
        spec_parse_number(t) matches Some(p) ==> {
            &&& p.0 >= 0
            &&& 1 <= p.1 <= t.len()
            &&& t.subrange(0, p.1) == spec_dec(p.0)
            &&& (p.1 == t.len() || !is_digit(t[p.1]))
        },
{
    let k = digits_prefix_len(t);
    lemma_digits_prefix_props(t);
    if k >= 1 && !(k > 1 && t[0] == '0') {
        lemma_val_dec(t, k);
    }
}

/// Append the JSON form of a string.
pub fn append_json_string(out: &mut String, s: &str)
    ensures
        final(out)@ == old(out)@ + json_string(s@),
{
    out.push('"');
    let n = s.unicode_len();
    let ghost start = out@;
    let mut i: usize = 0;
    while i < n
        invariant
            n == s@.len(),
            i <= n,
            out@ == start + escaped(s@.subrange(0, i as int)),
        decreases n - i,
    {
        let c = s.get_char(i);
        let ghost done = s@.subrange(0, i as int);
        if c == '"' || c == '\\' {
            out.push('\\');
            out.push(c);
        } else {
            out.push(c);
        }
        proof {
            lemma_escaped_snoc(done, c);
            assert(done.push(c) =~= s@.subrange(0, i + 1));
            assert(out@ =~= start + escaped(s@.subrange(0, i + 1)));
        }
        i += 1;
    }
    out.push('"');
    proof {
        assert(s@.subrange(0, n as int) =~= s@);
        assert(final(out)@ =~= old(out)@ + json_string(s@));
    }
}

/// The decimal digit character of a value below ten.
fn digit_char(d: u64) -> (c: char)
    requires
        d < 10,
    ensures
        c == digit_of(d as int),
{
    match d {
        0 => '0',
        1 => '1',
        2 => '2',
        3 => '3',
        4 => '4',
        5 => '5',
        6 => '6',
        7 => '7',
        8 => '8',
        _ => '9',
    }
}

/// Append the canonical decimal form of a number.
pub fn append_dec_u64(out: &mut String, n: u64)
    ensures
        final(out)@ == old(out)@ + spec_dec(n as int),
    decreases n,
{
    if n < 10 {
        out.push(digit_char(n));
        proof {
            assert(final(out)@ =~= old(out)@ + spec_dec(n as int));
        }
    } else {
        append_dec_u64(out, n / 10);
        out.push(digit_char(n % 10));
        proof {
            assert(n as int / 10 == (n / 10) as int && n as int % 10 == (n % 10) as int);
            assert(final(out)@ =~= old(out)@ + spec_dec(n as int));
        }
    }
}

/// Append the JSON form of a boolean.
pub fn append_json_bool(out: &mut String, b: bool)
    ensures
        final(out)@ == old(out)@ + json_bool(b),
{
    if b {
        out.append("true");
        proof {
            reveal_strlit("true");
            assert("true"@ =~= json_bool(true));
        }
    } else {
        out.append("false");
        proof {
            reveal_strlit("false");
            assert("false"@ =~= json_bool(false));
        }
    }
}

/// Read an escaped string up to its closing quote, starting at a
/// character position; the behaviour is that of [`spec_unescape`] on the
/// text from that position.
pub fn unescape_at(s: &str, i: usize) -> (r: Option<(String, usize)>)
    requires
        i <= s@.len(),
    ensures
        spec_unescape(s@.skip(i as int)) is None ==> r is None,
        spec_unescape(s@.skip(i as int)) matches Some(p) ==> (r matches Some(q) && q.0@ == p.0
            && q.1 as int == i + p.1 && q.1 <= s@.len()),
    decreases s@.len() - i,
{
    let ghost t = s@.skip(i as int);
    let n = s.unicode_len();
    if i >= n {
        return None;
    }
    let c = s.get_char(i);
    proof {
        assert(t[0] == s@[i as int]);
    }
    if c == '"' {
        return Some((String::new(), i + 1));
    }
    if c == '\\' {
        if i + 1 >= n {
            return None;
        }
        let c2 = s.get_char(i + 1);
        proof {
            assert(t[1] == s@[i + 1]);
        }
        if c2 == '"' || c2 == '\\' {
            proof {
                assert(t.skip(2) =~= s@.skip(i + 2));
            }
            match unescape_at(s, i + 2) {
                Some((v, j)) => {
                    let mut w = String::new();
                    w.push(c2);
                    w.append(v.as_str());
                    proof {
                        assert(w@ =~= seq![t[1]] + v@);
                    }
                    Some((w, j))
                },
                None => None,
            }
        } else {
            None
        }
    } else {
        proof {
            assert(t.skip(1) =~= s@.skip(i + 1));
        }
        match unescape_at(s, i + 1) {
            Some((v, j)) => {
                let mut w = String::new();
                w.push(c);
                w.append(v.as_str());
                proof {
                    assert(w@ =~= seq![t[0]] + v@);
                }
                Some((w, j))
            },
            None => None,
        }
    }
}

/// Read a JSON string starting at a character position: an opening
/// quote, escaped characters, and the closing quote.
pub fn parse_json_string_at(s: &str, i: usize) -> (r: Option<(String, usize)>)
    requires
        i <= s@.len(),
    ensures
        ({
            let t = s@.skip(i as int);
            &&& ((t.len() == 0 || t[0] != '"' || spec_unescape(t.skip(1)) is None) ==> r is None)
            &&& (t.len() > 0 && t[0] == '"' ==> (spec_unescape(t.skip(1)) matches Some(p) ==> (
            r matches Some(q) && q.0@ == p.0 && q.1 as int == i + 1 + p.1 && q.1 <= s@.len())))
        }),
{
    let ghost t = s@.skip(i as int);
    if i >= s.unicode_len() {
        return None;
    }
    let c = s.get_char(i);
    proof {
        assert(t[0] == s@[i as int]);
    }
    if c != '"' {
        return None;
    }
    proof {
        assert(t.skip(1) =~= s@.skip(i + 1));
    }
    unescape_at(s, i + 1)
}

/// Whether the text at a character position begins with the given
/// literal; on success the position just past it.
pub fn expect_lit_at(s: &str, i: usize, lit: &str) -> (r: Option<usize>)
    requires
        i <= s@.len(),
    ensures
        r matches Some(j) ==> j as int == i + lit@.len() && j <= s@.len() && s@.subrange(
            i as int,
            i + lit@.len(),
        ) == lit@,
        r is None ==> !(i + lit@.len() <= s@.len() && s@.subrange(i as int, i + lit@.len())
            == lit@),
{
    let m = lit.unicode_len();
    let n = s.unicode_len();
    if m > n - i {
        proof {
            if i + lit@.len() <= s@.len() {
                assert(false);
            }
        }
        return None;
    }
    let mut k: usize = 0;
    while k < m
        invariant
            i + m <= n,
            n == s@.len(),
            m == lit@.len(),
            k <= m,
            forall|w: int| 0 <= w < k ==> s@[i + w] == lit@[w],
        decreases m - k,
    {
        if s.get_char(i + k) != lit.get_char(k) {
            proof {
                if s@.subrange(i as int, i + lit@.len()) == lit@ {
                    assert(s@.subrange(i as int, i + lit@.len())[k as int] == s@[i + k]);
                }
            }
            return None;
        }
        k += 1;
    }
    proof {
        assert(s@.subrange(i as int, i + lit@.len()) =~= lit@);
    }
    Some(i + m)
}

/// Read a decimal number starting at a character position; the value
/// must fit a `u64`.
pub fn parse_u64_at(s: &str, i: usize) -> (r: Option<(u64, usize)>)
    requires
        i <= s@.len(),
    ensures
        ({
            let t = s@.skip(i as int);
            &&& (spec_parse_number(t) is None ==> r is None)
            &&& (spec_parse_number(t) matches Some(p) ==> (if p.0 <= u64::MAX {
                r matches Some(q) && q.0 as int == p.0 && q.1 as int == i + p.1 && q.1 <= s@.len()
            } else {
                r is None
            }))
        }),
{
    let ghost t = s@.skip(i as int);
    let n = s.unicode_len();
    let mut k: usize = 0;
    let mut acc: u64 = 0;
    let mut overflow: bool = false;
    while i + k < n && is_digit_char(s.get_char(i + k))
        invariant
            i <= s@.len(),
            n == s@.len(),
            i + k <= n,
            t == s@.skip(i as int),
            forall|w: int| 0 <= w < k ==> is_digit(#[trigger] t[w]),
            !overflow ==> acc as int == digits_val(t, k as int),
            overflow ==> digits_val(t, k as int) > u64::MAX,
        decreases n - i - k,
    {
        let c = s.get_char(i + k);
        proof {
            assert(t[k as int] == s@[i + k]);
        }
        let d = digit_char_val(c);
        proof {
            assert(digits_val(t, k + 1) == digits_val(t, k as int) * 10 + digit_val(t[k as int]));
            if !overflow && acc > (u64::MAX - d as u64) / 10 {
                assert(acc * 10 + d > u64::MAX) by (nonlinear_arith)
                    requires
                        acc > (u64::MAX - d as u64) / 10,
                        d < 10,
                ;
            }
            if overflow {
                assert(digits_val(t, k + 1) > u64::MAX) by (nonlinear_arith)
                    requires
                        digits_val(t, k as int) > u64::MAX,
                        digits_val(t, k + 1) == digits_val(t, k as int) * 10 + digit_val(
                            t[k as int],
                        ),
                        digit_val(t[k as int]) >= 0,
                ;
            }
        }
        if !overflow {
            if acc > (u64::MAX - d as u64) / 10 {
                overflow = true;
            } else {
                acc = acc * 10 + d as u64;
            }
        }
        k += 1;
    }
    proof {
        if i + (k as int) < n {
            assert(t[k as int] == s@[i + k]);
        }
        lemma_digits_prefix_stops(t, k as int);
    }
    if k == 0 {
        return None;
    }
    if k > 1 {
        let c0 = s.get_char(i);
        proof {
            assert(t[0] == s@[i as int]);
        }
        if c0 == '0' {
            return None;
        }
    }
    if overflow {
        return None;
    }
    Some((acc, i + k))
}

/// Whether a character is a decimal digit.
fn is_digit_char(c: char) -> (r: bool)
    ensures
        r == is_digit(c),
{
    '0' <= c && c <= '9'
}

/// The value of a decimal digit character.
fn digit_char_val(c: char) -> (d: u32)
    requires
        is_digit(c),
    ensures
        d as int == digit_val(c),
        d < 10,
{
    c as u32 - 48
}

/// The JSON form of an object with one string field: the opening brace,
/// the quoted key and the colon — given together as the prefix — then
/// the JSON string of the value and the closing brace.
pub open spec fn json_obj1(prefix: Seq<char>, v: Seq<char>) -> Seq<char> {
    prefix + json_string(v) + seq!['}']
}

/// Write an object with one string field.
pub fn encode_obj1(prefix: &str, v: &str) -> (r: String)
    ensures
        r@ == json_obj1(prefix@, v@),
{
    let mut out = String::new();
    out.append(prefix);
    append_json_string(&mut out, v);
    out.push('}');
    proof {
        assert(out@ =~= json_obj1(prefix@, v@));
    }
    out
}

/// Read an object with one string field, exactly as
/// [`encode_obj1`] writes it: on success the value, and failure exactly
/// when the text is no such object.
pub fn parse_obj1(s: &str, prefix: &str) -> (r: Option<String>)
    ensures
        r matches Some(v) ==> s@ == json_obj1(prefix@, v@),
        r is None ==> forall|v: Seq<char>| s@ != json_obj1(prefix@, v),
{
    let j0 = match expect_lit_at(s, 0, prefix) {
        Some(j) => j,
        None => {
            proof {
                assert forall|v: Seq<char>| s@ != json_obj1(prefix@, v) by {
                    if s@ == json_obj1(prefix@, v) {
                        assert(s@.subrange(0, prefix@.len() as int) =~= prefix@);
                    }
                }
            }
            return None;
        },
    };
    let ghost t = s@.skip(j0 as int);
    let (v, j1) = match parse_json_string_at(s, j0) {
        Some(p) => p,
        None => {
            proof {
                assert forall|v: Seq<char>| s@ != json_obj1(prefix@, v) by {
                    if s@ == json_obj1(prefix@, v) {
                        lemma_unescape_escaped(v, seq!['}']);
                        assert(t =~= json_string(v) + seq!['}']);
                        assert(t[0] == '"');
                        assert(t.skip(1) =~= escaped(v) + seq!['"'] + seq!['}']);
                    }
                }
            }
            return None;
        },
    };
    let n = s.unicode_len();
    if j1 < n && j1 + 1 == n && s.get_char(j1) == '}' {
        proof {
            // the consumed pieces assemble to exactly the object form
            assert(t.len() > 0 && t[0] == '"');
            let p = spec_unescape(t.skip(1)).unwrap();
            lemma_unescape_sound(t.skip(1));
            assert(t.skip(1).subrange(0, p.1) == escaped(v@) + seq!['"']);
            assert(s@[j1 as int] == '}');
            assert(s@ =~= s@.subrange(0, j0 as int) + seq![t[0]] + t.skip(1).subrange(0, p.1)
                + seq!['}']);
            assert(s@ =~= json_obj1(prefix@, v@));
        }
        Some(v)
    } else {
        proof {
            assert forall|w: Seq<char>| s@ != json_obj1(prefix@, w) by {
                if s@ == json_obj1(prefix@, w) {
                    lemma_unescape_escaped(w, seq!['}']);
                    assert(t =~= json_string(w) + seq!['}']);
                    assert(t[0] == '"');
                    assert(t.skip(1) =~= escaped(w) + seq!['"'] + seq!['}']);
                    assert(v@ == w && j1 as int == j0 + 1 + escaped(w).len() + 1);
                    assert(s@.len() == j0 + json_string(w).len() + 1);
                    assert(s@[j1 as int] == (json_string(w) + seq!['}'])[j1 - j0]);
                }
            }
        }
        None
    }
}

/// The comma-separated items of a JSON array of numbers.
pub open spec fn json_num_items(a: Seq<int>) -> Seq<char>
    decreases a.len(),
{
    if a.len() == 0 {
        Seq::<char>::empty()
    } else if a.len() == 1 {
        spec_dec(a[0])
    } else {
        spec_dec(a[0]) + seq![','] + json_num_items(a.skip(1))
    }
}

/// The JSON array of numbers.
pub open spec fn json_num_array(a: Seq<int>) -> Seq<char> {
    seq!['['] + json_num_items(a) + seq![']']
}

/// The comma-separated items of a JSON array of strings.
pub open spec fn json_string_items(a: Seq<Seq<char>>) -> Seq<char>
    decreases a.len(),
{
    if a.len() == 0 {
        Seq::<char>::empty()
    } else if a.len() == 1 {
        json_string(a[0])
    } else {
        json_string(a[0]) + seq![','] + json_string_items(a.skip(1))
    }
}

/// The JSON array of strings.
pub open spec fn json_string_array(a: Seq<Seq<char>>) -> Seq<char> {
    seq!['['] + json_string_items(a) + seq![']']
}

/// Appending an item to a number array appends a comma where items
/// precede, then the item.
pub proof fn lemma_num_items_snoc(a: Seq<int>, x: int)
    ensures
        json_num_items(a.push(x)) == if a.len() == 0 {
            spec_dec(x)
        } else {
            json_num_items(a) + seq![','] + spec_dec(x)
        },
    decreases a.len(),
{
    if a.len() == 0 {
        assert(a.push(x) =~= seq![x]);
        assert(json_num_items(seq![x]) == spec_dec(x));
    } else {
        assert(a.push(x).skip(1) =~= a.skip(1).push(x));
        lemma_num_items_snoc(a.skip(1), x);
        assert(a.push(x)[0] == a[0]);
        if a.len() == 1 {
            assert(a.skip(1).len() == 0);
            assert(json_num_items(a.push(x)) =~= json_num_items(a) + seq![','] + spec_dec(x));
        } else {
            assert(json_num_items(a.push(x)) =~= json_num_items(a) + seq![','] + spec_dec(x));
        }
    }
}

/// Appending an item to a string array appends a comma where items
/// precede, then the item.
pub proof fn lemma_string_items_snoc(a: Seq<Seq<char>>, x: Seq<char>)
    ensures
        json_string_items(a.push(x)) == if a.len() == 0 {
            json_string(x)
        } else {
            json_string_items(a) + seq![','] + json_string(x)
        },
    decreases a.len(),
{
    if a.len() == 0 {
        assert(a.push(x) =~= seq![x]);
        assert(json_string_items(seq![x]) == json_string(x));
    } else {
        assert(a.push(x).skip(1) =~= a.skip(1).push(x));
        lemma_string_items_snoc(a.skip(1), x);
        assert(a.push(x)[0] == a[0]);
        if a.len() == 1 {
            assert(a.skip(1).len() == 0);
            assert(json_string_items(a.push(x)) =~= json_string_items(a) + seq![','] + json_string(
                x,
            ));
        } else {
            assert(json_string_items(a.push(x)) =~= json_string_items(a) + seq![','] + json_string(
                x,
            ));
        }
    }
}

/// A number array's items pin the numbers: equal texts carry equal
/// values.
pub proof fn lemma_num_items_injective(a: Seq<int>, b: Seq<int>)
    requires
        forall|i: int| 0 <= i < a.len() ==> a[i] >= 0,
        forall|i: int| 0 <= i < b.len() ==> b[i] >= 0,
        json_num_items(a) == json_num_items(b),
    ensures
        a == b,
    decreases a.len(),
{
    if a.len() == 0 {
        if b.len() > 0 {
            lemma_dec_shape(b[0]);
        }
        assert(a =~= b);
    } else if b.len() == 0 {
        lemma_dec_shape(a[0]);
    } else {
        let t = json_num_items(a);
        let rest_a: Seq<char> = if a.len() == 1 {
            Seq::<char>::empty()
        } else {
            seq![','] + json_num_items(a.skip(1))
        };
        let rest_b: Seq<char> = if b.len() == 1 {
            Seq::<char>::empty()
        } else {
            seq![','] + json_num_items(b.skip(1))
        };
        assert(t =~= spec_dec(a[0]) + rest_a);
        assert(t =~= spec_dec(b[0]) + rest_b);
        lemma_parse_number_dec(a[0], rest_a);
        lemma_parse_number_dec(b[0], rest_b);
        assert(a[0] == b[0] && spec_dec(a[0]).len() == spec_dec(b[0]).len());
        assert(rest_a =~= t.skip(spec_dec(a[0]).len() as int));
        assert(rest_b =~= t.skip(spec_dec(b[0]).len() as int));
        assert(rest_a == rest_b);
        if a.len() == 1 {
            if b.len() > 1 {
                assert(rest_b.len() > 0);
            }
            assert(a =~= b);
        } else {
            assert(rest_a.len() > 0);
            assert(b.len() > 1);
            assert(json_num_items(a.skip(1)) =~= rest_a.skip(1));
            assert(json_num_items(b.skip(1)) =~= rest_b.skip(1));
            lemma_num_items_injective(a.skip(1), b.skip(1));
            assert(a =~= seq![a[0]] + a.skip(1));
            assert(b =~= seq![b[0]] + b.skip(1));
        }
    }
}

/// A string array's items pin the strings: equal texts carry equal
/// values.
pub proof fn lemma_string_items_injective(a: Seq<Seq<char>>, b: Seq<Seq<char>>)
    requires
        json_string_items(a) == json_string_items(b),
    ensures
        a == b,
    decreases a.len(),
{
    if a.len() == 0 {
        assert(a =~= b);
    } else if b.len() == 0 {
        assert(json_string_items(a).len() > 0);
    } else {
        let t = json_string_items(a);
        let rest_a: Seq<char> = if a.len() == 1 {
            Seq::<char>::empty()
        } else {
            seq![','] + json_string_items(a.skip(1))
        };
        let rest_b: Seq<char> = if b.len() == 1 {
            Seq::<char>::empty()
        } else {
            seq![','] + json_string_items(b.skip(1))
        };
        assert(t =~= json_string(a[0]) + rest_a);
        assert(t =~= json_string(b[0]) + rest_b);
        assert(t.skip(1) =~= escaped(a[0]) + seq!['"'] + rest_a);
        assert(t.skip(1) =~= escaped(b[0]) + seq!['"'] + rest_b);
        lemma_unescape_escaped(a[0], rest_a);
        lemma_unescape_escaped(b[0], rest_b);
        assert(a[0] == b[0] && escaped(a[0]).len() == escaped(b[0]).len());
        assert(rest_a =~= t.skip(escaped(a[0]).len() as int + 2));
        assert(rest_b =~= t.skip(escaped(b[0]).len() as int + 2));
        assert(rest_a == rest_b);
        if a.len() == 1 {
            if b.len() > 1 {
                assert(rest_b.len() > 0);
            }
            assert(a =~= b);
        } else {
            assert(rest_a.len() > 0);
            assert(b.len() > 1);
            assert(json_string_items(a.skip(1)) =~= rest_a.skip(1));
            assert(json_string_items(b.skip(1)) =~= rest_b.skip(1));
            lemma_string_items_injective(a.skip(1), b.skip(1));
            assert(a =~= seq![a[0]] + a.skip(1));
            assert(b =~= seq![b[0]] + b.skip(1));
        }
    }
}

/// A quoted string pins its value and what follows it: two texts that
/// agree carry the same string and the same remainder.
pub proof fn lemma_json_string_prefix_injective(
    a: Seq<char>,
    b: Seq<char>,
    r1: Seq<char>,
    r2: Seq<char>,
)
    requires
        json_string(a) + r1 == json_string(b) + r2,
    ensures
        a == b,
        r1 == r2,
{
    let t = json_string(a) + r1;
    assert(t.skip(1) =~= escaped(a) + seq!['"'] + r1);
    assert(t.skip(1) =~= escaped(b) + seq!['"'] + r2);
    lemma_unescape_escaped(a, r1);
    lemma_unescape_escaped(b, r2);
    assert(a == b && escaped(a).len() == escaped(b).len());
    assert(r1 =~= t.skip(escaped(a).len() as int + 2));
    assert(r2 =~= t.skip(escaped(b).len() as int + 2));
}

/// A closed string array pins its items and what follows the closing
/// bracket.
pub proof fn lemma_string_items_prefix_injective(
    a: Seq<Seq<char>>,
    b: Seq<Seq<char>>,
    r1: Seq<char>,
    r2: Seq<char>,
)
    requires
        json_string_items(a) + seq![']'] + r1 == json_string_items(b) + seq![']'] + r2,
    ensures
        a == b,
        r1 == r2,
    decreases a.len(),
{
    let t = json_string_items(a) + seq![']'] + r1;
    if a.len() == 0 {
        assert(t =~= seq![']'] + r1);
        if b.len() > 0 {
            assert(t[0] == '"');
        }
        assert(a =~= b);
        assert(r1 =~= t.skip(1));
        assert(r2 =~= t.skip(1));
    } else if b.len() == 0 {
        assert(t[0] == ']');
        assert(t[0] == '"');
    } else {
        let rest_a: Seq<char> = if a.len() == 1 {
            seq![']'] + r1
        } else {
            seq![','] + json_string_items(a.skip(1)) + seq![']'] + r1
        };
        let rest_b: Seq<char> = if b.len() == 1 {
            seq![']'] + r2
        } else {
            seq![','] + json_string_items(b.skip(1)) + seq![']'] + r2
        };
        assert(t =~= json_string(a[0]) + rest_a);
        assert(t =~= json_string(b[0]) + rest_b);
        lemma_json_string_prefix_injective(a[0], b[0], rest_a, rest_b);
        if a.len() == 1 && b.len() == 1 {
            assert(r1 =~= rest_a.skip(1));
            assert(r2 =~= rest_b.skip(1));
            assert(a =~= b);
        } else if a.len() == 1 {
            assert(rest_a[0] == ']' && rest_b[0] == ',');
        } else if b.len() == 1 {
            assert(rest_a[0] == ',' && rest_b[0] == ']');
        } else {
            assert(rest_a.skip(1) =~= json_string_items(a.skip(1)) + seq![']'] + r1);
            assert(rest_b.skip(1) =~= json_string_items(b.skip(1)) + seq![']'] + r2);
            lemma_string_items_prefix_injective(a.skip(1), b.skip(1), r1, r2);
            assert(a =~= seq![a[0]] + a.skip(1));
            assert(b =~= seq![b[0]] + b.skip(1));
        }
    }
}

/// A decimal number followed by a non-digit pins its value and what
/// follows it.
pub proof fn lemma_dec_prefix_injective(n1: int, n2: int, r1: Seq<char>, r2: Seq<char>)
    requires
        n1 >= 0,
        n2 >= 0,
        r1.len() > 0 && !is_digit(r1[0]),
        r2.len() > 0 && !is_digit(r2[0]),
        spec_dec(n1) + r1 == spec_dec(n2) + r2,
    ensures
        n1 == n2,
        r1 == r2,
{
    let t = spec_dec(n1) + r1;
    lemma_parse_number_dec(n1, r1);
    lemma_parse_number_dec(n2, r2);
    assert(n1 == n2 && spec_dec(n1).len() == spec_dec(n2).len());
    assert(r1 =~= t.skip(spec_dec(n1).len() as int));
    assert(r2 =~= t.skip(spec_dec(n2).len() as int));
}

/// A boolean pins its value and what follows it.
pub proof fn lemma_bool_prefix_injective(b1: bool, b2: bool, r1: Seq<char>, r2: Seq<char>)
    requires
        json_bool(b1) + r1 == json_bool(b2) + r2,
    ensures
        b1 == b2,
        r1 == r2,
{
    let t = json_bool(b1) + r1;
    assert(t[0] == json_bool(b1)[0]);
    assert(t[0] == json_bool(b2)[0]);
    if b1 != b2 {
        assert(false);
    }
    assert(r1 =~= t.skip(json_bool(b1).len() as int));
    assert(r2 =~= t.skip(json_bool(b2).len() as int));
}

/// Aligning a parsed prefix against a full number array: what was
/// consumed is an initial run of the array's items, and the rest of the
/// text is the remaining items before the closing bracket.
pub proof fn lemma_num_items_align(p: Seq<int>, a: Seq<int>, u: Seq<char>, r2: Seq<char>)
    requires
        p.len() >= 1,
        forall|k: int| 0 <= k < p.len() ==> p[k] >= 0,
        forall|k: int| 0 <= k < a.len() ==> a[k] >= 0,
        json_num_items(p) + seq![','] + u == json_num_items(a) + seq![']'] + r2,
    ensures
        p.len() < a.len(),
        p == a.subrange(0, p.len() as int),
        u == json_num_items(a.skip(p.len() as int)) + seq![']'] + r2,
    decreases p.len(),
{
    let t = json_num_items(p) + seq![','] + u;
    if a.len() == 0 {
        assert(t[0] == (json_num_items(a) + seq![']'] + r2)[0]);
        assert(t[0] == spec_dec(p[0])[0]);
        lemma_dec_shape(p[0]);
        assert((json_num_items(a) + seq![']'] + r2)[0] == ']');
    } else {
        let rest_p: Seq<char> = if p.len() == 1 {
            seq![','] + u
        } else {
            seq![','] + json_num_items(p.skip(1)) + seq![','] + u
        };
        let rest_a: Seq<char> = if a.len() == 1 {
            seq![']'] + r2
        } else {
            seq![','] + json_num_items(a.skip(1)) + seq![']'] + r2
        };
        assert(t =~= spec_dec(p[0]) + rest_p);
        assert(t =~= spec_dec(a[0]) + rest_a);
        lemma_dec_prefix_injective(p[0], a[0], rest_p, rest_a);
        if p.len() == 1 {
            if a.len() == 1 {
                assert(rest_p[0] == ',' && rest_a[0] == ']');
            }
            assert(u =~= rest_p.skip(1));
            assert(json_num_items(a.skip(1)) + seq![']'] + r2 =~= rest_a.skip(1));
            assert(p =~= a.subrange(0, 1));
            assert(u == json_num_items(a.skip(1)) + seq![']'] + r2);
        } else {
            if a.len() == 1 {
                assert(rest_p[0] == ',' && rest_a[0] == ']');
            }
            assert(rest_p.skip(1) =~= json_num_items(p.skip(1)) + seq![','] + u);
            assert(rest_a.skip(1) =~= json_num_items(a.skip(1)) + seq![']'] + r2);
            lemma_num_items_align(p.skip(1), a.skip(1), u, r2);
            assert(p =~= seq![p[0]] + p.skip(1));
            assert(a.subrange(0, p.len() as int) =~= seq![a[0]] + a.skip(1).subrange(
                0,
                p.len() - 1,
            ));
            assert(a.skip(1).skip(p.len() - 1) =~= a.skip(p.len() as int));
        }
    }
}

/// Aligning a parsed prefix against a full string array.
pub proof fn lemma_string_items_align(
    p: Seq<Seq<char>>,
    a: Seq<Seq<char>>,
    u: Seq<char>,
    r2: Seq<char>,
)
    requires
        p.len() >= 1,
        json_string_items(p) + seq![','] + u == json_string_items(a) + seq![']'] + r2,
    ensures
        p.len() < a.len(),
        p == a.subrange(0, p.len() as int),
        u == json_string_items(a.skip(p.len() as int)) + seq![']'] + r2,
    decreases p.len(),
{
    let t = json_string_items(p) + seq![','] + u;
    if a.len() == 0 {
        assert(t[0] == (json_string_items(a) + seq![']'] + r2)[0]);
        assert(t[0] == '"');
        assert((json_string_items(a) + seq![']'] + r2)[0] == ']');
    } else {
        let rest_p: Seq<char> = if p.len() == 1 {
            seq![','] + u
        } else {
            seq![','] + json_string_items(p.skip(1)) + seq![','] + u
        };
        let rest_a: Seq<char> = if a.len() == 1 {
            seq![']'] + r2
        } else {
            seq![','] + json_string_items(a.skip(1)) + seq![']'] + r2
        };
        assert(t =~= json_string(p[0]) + rest_p);
        assert(t =~= json_string(a[0]) + rest_a);
        lemma_json_string_prefix_injective(p[0], a[0], rest_p, rest_a);
        if p.len() == 1 {
            if a.len() == 1 {
                assert(rest_p[0] == ',' && rest_a[0] == ']');
            }
            assert(u =~= rest_p.skip(1));
            assert(json_string_items(a.skip(1)) + seq![']'] + r2 =~= rest_a.skip(1));
            assert(p =~= a.subrange(0, 1));
            assert(u == json_string_items(a.skip(1)) + seq![']'] + r2);
        } else {
            if a.len() == 1 {
                assert(rest_p[0] == ',' && rest_a[0] == ']');
            }
            assert(rest_p.skip(1) =~= json_string_items(p.skip(1)) + seq![','] + u);
            assert(rest_a.skip(1) =~= json_string_items(a.skip(1)) + seq![']'] + r2);
            lemma_string_items_align(p.skip(1), a.skip(1), u, r2);
            assert(p =~= seq![p[0]] + p.skip(1));
            assert(a.subrange(0, p.len() as int) =~= seq![a[0]] + a.skip(1).subrange(
                0,
                p.len() - 1,
            ));
            assert(a.skip(1).skip(p.len() - 1) =~= a.skip(p.len() as int));
        }
    }
}

/// Append the JSON array of the numbers.
pub fn append_num_array(out: &mut String, a: &Vec<u32>)
    ensures
        final(out)@ == old(out)@ + json_num_array(
            a@.map_values(|x: u32| x as int),
        ),
{
    let ghost model = a@.map_values(|x: u32| x as int);
    out.push('[');
    let mut k: usize = 0;
    let ghost start = out@;
    while k < a.len()
        invariant
            model == a@.map_values(|x: u32| x as int),
            model.len() == a@.len(),
            k <= a@.len(),
            out@ == start + json_num_items(model.subrange(0, k as int)),
        decreases a@.len() - k,
    {
        if k > 0 {
            out.push(',');
        }
        append_dec_u64(out, a[k] as u64);
        proof {
            assert(model.subrange(0, k as int).push(model[k as int]) =~= model.subrange(
                0,
                k + 1,
            ));
            lemma_num_items_snoc(model.subrange(0, k as int), model[k as int]);
            assert(out@ =~= start + json_num_items(model.subrange(0, k + 1)));
        }
        k += 1;
    }
    out.push(']');
    proof {
        assert(model.subrange(0, model.len() as int) =~= model);
        assert(final(out)@ =~= old(out)@ + json_num_array(model));
    }
}

/// Append the JSON array of the strings.
pub fn append_string_array(out: &mut String, a: &Vec<String>)
    ensures
        final(out)@ == old(out)@ + json_string_array(a.deep_view()),
{
    let ghost model = a.deep_view();
    out.push('[');
    let mut k: usize = 0;
    let ghost start = out@;
    while k < a.len()
        invariant
            model == a.deep_view(),
            model.len() == a@.len(),
            forall|w: int| 0 <= w < model.len() ==> model[w] == (#[trigger] a@[w])@,
            k <= a@.len(),
            out@ == start + json_string_items(model.subrange(0, k as int)),
        decreases a@.len() - k,
    {
        if k > 0 {
            out.push(',');
        }
        append_json_string(out, a[k].as_str());
        proof {
            assert(model.subrange(0, k as int).push(model[k as int]) =~= model.subrange(
                0,
                k + 1,
            ));
            lemma_string_items_snoc(model.subrange(0, k as int), model[k as int]);
            assert(out@ =~= start + json_string_items(model.subrange(0, k + 1)));
        }
        k += 1;
    }
    out.push(']');
    proof {
        assert(model.subrange(0, model.len() as int) =~= model);
        assert(final(out)@ =~= old(out)@ + json_string_array(model));
    }
}

/// A closed number array pins its items and what follows the closing
/// bracket.
pub proof fn lemma_num_array_prefix_injective(
    p: Seq<int>,
    a: Seq<int>,
    u: Seq<char>,
    w: Seq<char>,
)
    requires
        forall|k: int| 0 <= k < p.len() ==> p[k] >= 0,
        forall|k: int| 0 <= k < a.len() ==> a[k] >= 0,
        json_num_items(p) + seq![']'] + u == json_num_items(a) + seq![']'] + w,
    ensures
        p == a,
        u == w,
    decreases p.len(),
{
    let t = json_num_items(p) + seq![']'] + u;
    if p.len() == 0 {
        if a.len() > 0 {
            lemma_dec_shape(a[0]);
            assert(t[0] == ']');
            assert(t[0] == spec_dec(a[0])[0]);
        }
        assert(p =~= a);
        assert(u =~= t.skip(1));
        assert(w =~= t.skip(1));
    } else if a.len() == 0 {
        lemma_dec_shape(p[0]);
        assert(t[0] == spec_dec(p[0])[0]);
        assert(t[0] == ']');
    } else {
        let rest_p: Seq<char> = if p.len() == 1 {
            seq![']'] + u
        } else {
            seq![','] + json_num_items(p.skip(1)) + seq![']'] + u
        };
        let rest_a: Seq<char> = if a.len() == 1 {
            seq![']'] + w
        } else {
            seq![','] + json_num_items(a.skip(1)) + seq![']'] + w
        };
        assert(t =~= spec_dec(p[0]) + rest_p);
        assert(t =~= spec_dec(a[0]) + rest_a);
        lemma_dec_prefix_injective(p[0], a[0], rest_p, rest_a);
        if p.len() == 1 && a.len() == 1 {
            assert(u =~= rest_p.skip(1));
            assert(w =~= rest_a.skip(1));
            assert(p =~= a);
        } else if p.len() == 1 || a.len() == 1 {
            assert(rest_p[0] == rest_a[0]);
        } else {
            assert(rest_p.skip(1) =~= json_num_items(p.skip(1)) + seq![']'] + u);
            assert(rest_a.skip(1) =~= json_num_items(a.skip(1)) + seq![']'] + w);
            lemma_num_array_prefix_injective(p.skip(1), a.skip(1), u, w);
            assert(p =~= seq![p[0]] + p.skip(1));
            assert(a =~= seq![a[0]] + a.skip(1));
        }
    }
}

/// A closed string array pins its items and what follows the closing
/// bracket.
pub proof fn lemma_string_array_prefix_injective(
    p: Seq<Seq<char>>,
    a: Seq<Seq<char>>,
    u: Seq<char>,
    w: Seq<char>,
)
    requires
        json_string_items(p) + seq![']'] + u == json_string_items(a) + seq![']'] + w,
    ensures
        p == a,
        u == w,
    decreases p.len(),
{
    let t = json_string_items(p) + seq![']'] + u;
    if p.len() == 0 {
        if a.len() > 0 {
            assert(t[0] == ']');
            assert(t[0] == '"');
        }
        assert(p =~= a);
        assert(u =~= t.skip(1));
        assert(w =~= t.skip(1));
    } else if a.len() == 0 {
        assert(t[0] == '"');
        assert(t[0] == ']');
    } else {
        let rest_p: Seq<char> = if p.len() == 1 {
            seq![']'] + u
        } else {
            seq![','] + json_string_items(p.skip(1)) + seq![']'] + u
        };
        let rest_a: Seq<char> = if a.len() == 1 {
            seq![']'] + w
        } else {
            seq![','] + json_string_items(a.skip(1)) + seq![']'] + w
        };
        assert(t =~= json_string(p[0]) + rest_p);
        assert(t =~= json_string(a[0]) + rest_a);
        lemma_json_string_prefix_injective(p[0], a[0], rest_p, rest_a);
        if p.len() == 1 && a.len() == 1 {
            assert(u =~= rest_p.skip(1));
            assert(w =~= rest_a.skip(1));
            assert(p =~= a);
        } else if p.len() == 1 || a.len() == 1 {
            assert(rest_p[0] == rest_a[0]);
        } else {
            assert(rest_p.skip(1) =~= json_string_items(p.skip(1)) + seq![']'] + u);
            assert(rest_a.skip(1) =~= json_string_items(a.skip(1)) + seq![']'] + w);
            lemma_string_array_prefix_injective(p.skip(1), a.skip(1), u, w);
            assert(p =~= seq![p[0]] + p.skip(1));
            assert(a =~= seq![a[0]] + a.skip(1));
        }
    }
}

/// Whether a bounded number array, followed by anything, stands at a
/// position of the text.
pub open spec fn num_array_at(s: Seq<char>, i: int) -> bool {
    exists|a: Seq<int>, rest: Seq<char>|
        (forall|k: int| 0 <= k < a.len() ==> 0 <= #[trigger] a[k] <= u32::MAX) && s.skip(i)
            == #[trigger] (json_num_array(a) + rest)
}

/// Where a parse of a number array stands mid-way: the items read so far
/// are an initial run of any array standing at the start, and the rest
/// of that array follows.
proof fn lemma_num_array_progress(
    s: Seq<char>,
    i: int,
    cur: int,
    parsed: Seq<int>,
    a: Seq<int>,
    rest: Seq<char>,
)
    requires
        0 <= i < cur <= s.len(),
        s[i] == '[',
        i + 1 >= s.len() || s[i + 1] != ']',
        s.subrange(i + 1, cur) == (if parsed.len() == 0 {
            Seq::<char>::empty()
        } else {
            json_num_items(parsed) + seq![',']
        }),
        forall|k: int| 0 <= k < parsed.len() ==> parsed[k] >= 0,
        forall|k: int| 0 <= k < a.len() ==> a[k] >= 0,
        s.skip(i) == json_num_array(a) + rest,
    ensures
        parsed.len() < a.len(),
        parsed == a.subrange(0, parsed.len() as int),
        s.skip(cur) == json_num_items(a.skip(parsed.len() as int)) + seq![']'] + rest,
{
    assert(s.skip(i).skip(1) =~= s.skip(i + 1));
    assert((json_num_array(a) + rest).skip(1) =~= json_num_items(a) + seq![']'] + rest);
    assert(s.skip(i + 1) =~= json_num_items(a) + seq![']'] + rest);
    if a.len() == 0 {
        assert(s.skip(i + 1)[0] == ']');
        assert(s[i + 1] == ']');
        assert(i + 1 < s.len());
    }
    assert(s.skip(i + 1) =~= s.subrange(i + 1, cur) + s.skip(cur));
    if parsed.len() == 0 {
        assert(s.skip(cur) =~= s.skip(i + 1));
        assert(a.skip(0) =~= a);
        assert(parsed =~= a.subrange(0, 0));
    } else {
        assert(json_num_items(parsed) + seq![','] + s.skip(cur) =~= json_num_items(a) + seq![']']
            + rest);
        lemma_num_items_align(parsed, a, s.skip(cur), rest);
    }
}

/// The head of the remaining items reads back as a number, stopped by
/// the delimiter that follows it.
proof fn lemma_num_items_head(rem: Seq<int>, tail: Seq<char>, t: Seq<char>)
    requires
        rem.len() >= 1,
        forall|k: int| 0 <= k < rem.len() ==> rem[k] >= 0,
        t == json_num_items(rem) + seq![']'] + tail,
    ensures
        spec_parse_number(t) == Some((rem[0], spec_dec(rem[0]).len() as int)),
        t.len() > spec_dec(rem[0]).len(),
        t[spec_dec(rem[0]).len() as int] == (if rem.len() == 1 {
            ']'
        } else {
            ','
        }),
{
    if rem.len() == 1 {
        let delim = seq![']'] + tail;
        assert(t =~= spec_dec(rem[0]) + delim);
        assert(!is_digit(']'));
        lemma_parse_number_dec(rem[0], delim);
        assert(t[spec_dec(rem[0]).len() as int] == delim[0]);
    } else {
        let delim = seq![','] + json_num_items(rem.skip(1)) + seq![']'] + tail;
        assert(t =~= spec_dec(rem[0]) + delim);
        assert(!is_digit(','));
        lemma_parse_number_dec(rem[0], delim);
        assert(t[spec_dec(rem[0]).len() as int] == delim[0]);
    }
}

/// Read a JSON array of numbers that fit a `u32`, starting at a
/// character position. On success, the consumed text is exactly the
/// canonical array form of the result; the read fails only where no
/// such array stands at the position.
#[verifier::rlimit(100)]
pub fn parse_u32_array_at(s: &str, i: usize) -> (r: Option<(Vec<u32>, usize)>)
    requires
        i <= s@.len(),
    ensures
        r matches Some(p) ==> i <= p.1 as int <= s@.len() && s@.subrange(i as int, p.1 as int)
            == json_num_array(p.0@.map_values(|x: u32| x as int)),
        r is None ==> !num_array_at(s@, i as int),
{
    let n = s.unicode_len();
    if i >= n || s.get_char(i) != '[' {
        proof {
            if num_array_at(s@, i as int) {
                let (a, rest): (Seq<int>, Seq<char>) = choose|a: Seq<int>, rest: Seq<char>|
                    (forall|k: int| 0 <= k < a.len() ==> 0 <= #[trigger] a[k] <= u32::MAX)
                        && s@.skip(i as int) == #[trigger] (json_num_array(a) + rest);
                assert(s@.skip(i as int).len() >= 2);
                assert((i as int) < s@.len());
                assert(s@.skip(i as int)[0] == s@[i as int]);
                assert(s@.skip(i as int)[0] == '[');
            }
        }
        return None;
    }
    let mut items: Vec<u32> = Vec::new();
    let mut cur: usize = i + 1;
    if cur < n && s.get_char(cur) == ']' {
        proof {
            assert(items@.map_values(|x: u32| x as int) =~= Seq::<int>::empty());
            assert(s@.subrange(i as int, cur + 1) =~= json_num_array(Seq::<int>::empty()));
        }
        return Some((items, cur + 1));
    }
    loop
        invariant
            i < cur <= n,
            n == s@.len(),
            s@[i as int] == '[',
            i + 1 >= s@.len() || s@[i + 1] != ']',
            forall|k: int| 0 <= k < items@.len() ==> (#[trigger] items@[k]) <= u32::MAX,
            s@.subrange(i + 1, cur as int) == (if items@.len() == 0 {
                Seq::<char>::empty()
            } else {
                json_num_items(items@.map_values(|x: u32| x as int)) + seq![',']
            }),
        decreases n - cur,
    {
        let ghost model = items@.map_values(|x: u32| x as int);
        let parse_result = parse_u64_at(s, cur);
        proof {
            if num_array_at(s@, i as int) {
                let (a, rest): (Seq<int>, Seq<char>) = choose|a: Seq<int>, rest: Seq<char>|
                    (forall|k: int| 0 <= k < a.len() ==> 0 <= #[trigger] a[k] <= u32::MAX)
                        && s@.skip(i as int) == #[trigger] (json_num_array(a) + rest);
                lemma_num_array_progress(s@, i as int, cur as int, model, a, rest);
                let rem = a.skip(model.len() as int);
                lemma_num_items_head(rem, rest, s@.skip(cur as int));
                assert(parse_result matches Some(q) && q.0 as int == rem[0]
                    && q.0 <= u32::MAX as u64);
            }
        }
        let (v, j) = match parse_result {
            Some(p) => p,
            None => {
                proof {
                    assert(!num_array_at(s@, i as int));
                }
                return None;
            },
        };
        if v > u32::MAX as u64 {
            proof {
                assert(!num_array_at(s@, i as int));
            }
            return None;
        }
        proof {
            lemma_parse_number_sound(s@.skip(cur as int));
            let p = spec_parse_number(s@.skip(cur as int)).unwrap();
            assert(s@.skip(cur as int).subrange(0, p.1) =~= s@.subrange(cur as int, j as int));
            assert(s@.subrange(cur as int, j as int) == spec_dec(v as int));
            lemma_num_items_snoc(model, v as int);
            assert(items@.push(v as u32).map_values(|x: u32| x as int) =~= model.push(v as int));
            assert(s@.subrange(i + 1, j as int) =~= s@.subrange(i + 1, cur as int) + s@.subrange(
                cur as int,
                j as int,
            ));
        }
        items.push(v as u32);
        if j < n && s.get_char(j) == ',' {
            proof {
                assert(s@.subrange(i + 1, j + 1) =~= s@.subrange(i + 1, j as int) + seq![',']);
            }
            cur = j + 1;
            if cur >= n {
                proof {
                    if num_array_at(s@, i as int) {
                        let (a, rest): (Seq<int>, Seq<char>) = choose|
                            a: Seq<int>,
                            rest: Seq<char>,
                        |
                            (forall|k: int| 0 <= k < a.len() ==> 0 <= #[trigger] a[k] <= u32::MAX)
                                && s@.skip(i as int) == #[trigger] (json_num_array(a) + rest);
                        lemma_num_array_progress(
                            s@,
                            i as int,
                            cur as int,
                            items@.map_values(|x: u32| x as int),
                            a,
                            rest,
                        );
                        assert(s@.skip(cur as int).len() > 0);
                    }
                }
                return None;
            }
        } else if j < n && s.get_char(j) == ']' {
            proof {
                let full = items@.map_values(|x: u32| x as int);
                assert(s@.subrange(i as int, j + 1) =~= seq!['['] + s@.subrange(i + 1, j as int)
                    + seq![']']);
                assert(s@.subrange(i as int, j + 1) =~= json_num_array(full));
            }
            return Some((items, j + 1));
        } else {
            proof {
                if num_array_at(s@, i as int) {
                    let (a, rest): (Seq<int>, Seq<char>) = choose|a: Seq<int>, rest: Seq<char>|
                        (forall|k: int| 0 <= k < a.len() ==> 0 <= #[trigger] a[k] <= u32::MAX)
                            && s@.skip(i as int) == #[trigger] (json_num_array(a) + rest);
                    lemma_num_array_progress(s@, i as int, cur as int, model, a, rest);
                    let rem = a.skip(model.len() as int);
                    lemma_num_items_head(rem, rest, s@.skip(cur as int));
                    // the character after the number is the delimiter
                    assert(s@[j as int] == s@.skip(cur as int)[spec_dec(rem[0]).len() as int]);
                    assert(j < n);
                }
                assert(!num_array_at(s@, i as int));
            }
            return None;
        }
    }
}

/// Whether a string array, followed by anything, stands at a position
/// of the text.
pub open spec fn string_array_at(s: Seq<char>, i: int) -> bool {
    exists|a: Seq<Seq<char>>, rest: Seq<char>| s.skip(i) == #[trigger] (json_string_array(a) + rest)
}

/// Where a parse of a string array stands mid-way.
proof fn lemma_string_array_progress(
    s: Seq<char>,
    i: int,
    cur: int,
    parsed: Seq<Seq<char>>,
    a: Seq<Seq<char>>,
    rest: Seq<char>,
)
    requires
        0 <= i < cur <= s.len(),
        s[i] == '[',
        i + 1 >= s.len() || s[i + 1] != ']',
        s.subrange(i + 1, cur) == (if parsed.len() == 0 {
            Seq::<char>::empty()
        } else {
            json_string_items(parsed) + seq![',']
        }),
        s.skip(i) == json_string_array(a) + rest,
    ensures
        parsed.len() < a.len(),
        parsed == a.subrange(0, parsed.len() as int),
        s.skip(cur) == json_string_items(a.skip(parsed.len() as int)) + seq![']'] + rest,
{
    assert(s.skip(i).skip(1) =~= s.skip(i + 1));
    assert((json_string_array(a) + rest).skip(1) =~= json_string_items(a) + seq![']'] + rest);
    assert(s.skip(i + 1) =~= json_string_items(a) + seq![']'] + rest);
    if a.len() == 0 {
        assert(s.skip(i + 1)[0] == ']');
        assert(s[i + 1] == ']');
        assert(i + 1 < s.len());
    }
    assert(s.skip(i + 1) =~= s.subrange(i + 1, cur) + s.skip(cur));
    if parsed.len() == 0 {
        assert(s.skip(cur) =~= s.skip(i + 1));
        assert(a.skip(0) =~= a);
        assert(parsed =~= a.subrange(0, 0));
    } else {
        assert(json_string_items(parsed) + seq![','] + s.skip(cur) =~= json_string_items(a)
            + seq![']'] + rest);
        lemma_string_items_align(parsed, a, s.skip(cur), rest);
    }
}

/// The head of the remaining items reads back as a string, with the
/// delimiter that follows it.
proof fn lemma_string_items_head(rem: Seq<Seq<char>>, tail: Seq<char>, t: Seq<char>)
    requires
        rem.len() >= 1,
        t == json_string_items(rem) + seq![']'] + tail,
    ensures
        t.len() > 0,
        t[0] == '"',
        spec_unescape(t.skip(1)) == Some((rem[0], escaped(rem[0]).len() + 1 as int)),
        t.len() > escaped(rem[0]).len() as int + 2,
        t[escaped(rem[0]).len() as int + 2] == (if rem.len() == 1 {
            ']'
        } else {
            ','
        }),
{
    if rem.len() == 1 {
        let delim = seq![']'] + tail;
        assert(t =~= json_string(rem[0]) + delim);
        assert(t.skip(1) =~= escaped(rem[0]) + seq!['"'] + delim);
        lemma_unescape_escaped(rem[0], delim);
        assert(t[escaped(rem[0]).len() as int + 2] == delim[0]);
    } else {
        let delim = seq![','] + json_string_items(rem.skip(1)) + seq![']'] + tail;
        assert(t =~= json_string(rem[0]) + delim);
        assert(t.skip(1) =~= escaped(rem[0]) + seq!['"'] + delim);
        lemma_unescape_escaped(rem[0], delim);
        assert(t[escaped(rem[0]).len() as int + 2] == delim[0]);
    }
}

/// Read a JSON array of strings, starting at a character position. On
/// success, the consumed text is exactly the canonical array form of the
/// result; the read fails only where no such array stands at the
/// position.
#[verifier::rlimit(100)]
pub fn parse_string_array_at(s: &str, i: usize) -> (r: Option<(Vec<String>, usize)>)
    requires
        i <= s@.len(),
    ensures
        r matches Some(p) ==> i <= p.1 as int <= s@.len() && s@.subrange(i as int, p.1 as int)
            == json_string_array(p.0.deep_view()),
        r is None ==> !string_array_at(s@, i as int),
{
    let n = s.unicode_len();
    if i >= n || s.get_char(i) != '[' {
        proof {
            if string_array_at(s@, i as int) {
                let (a, rest): (Seq<Seq<char>>, Seq<char>) = choose|
                    a: Seq<Seq<char>>,
                    rest: Seq<char>,
                |
                    s@.skip(i as int) == #[trigger] (json_string_array(a) + rest);
                assert(s@.skip(i as int).len() >= 2);
                assert((i as int) < s@.len());
                assert(s@.skip(i as int)[0] == s@[i as int]);
                assert(s@.skip(i as int)[0] == '[');
            }
        }
        return None;
    }
    let mut items: Vec<String> = Vec::new();
    let mut cur: usize = i + 1;
    if cur < n && s.get_char(cur) == ']' {
        proof {
            assert(items.deep_view() =~= Seq::<Seq<char>>::empty());
            assert(s@.subrange(i as int, cur + 1) =~= json_string_array(
                Seq::<Seq<char>>::empty(),
            ));
        }
        return Some((items, cur + 1));
    }
    loop
        invariant
            i < cur <= n,
            n == s@.len(),
            s@[i as int] == '[',
            i + 1 >= s@.len() || s@[i + 1] != ']',
            s@.subrange(i + 1, cur as int) == (if items.deep_view().len() == 0 {
                Seq::<char>::empty()
            } else {
                json_string_items(items.deep_view()) + seq![',']
            }),
        decreases n - cur,
    {
        let ghost model = items.deep_view();
        let parse_result = parse_json_string_at(s, cur);
        proof {
            if string_array_at(s@, i as int) {
                let (a, rest): (Seq<Seq<char>>, Seq<char>) = choose|
                    a: Seq<Seq<char>>,
                    rest: Seq<char>,
                |
                    s@.skip(i as int) == #[trigger] (json_string_array(a) + rest);
                lemma_string_array_progress(s@, i as int, cur as int, model, a, rest);
                let rem = a.skip(model.len() as int);
                lemma_string_items_head(rem, rest, s@.skip(cur as int));
                assert(s@.skip(cur as int).skip(1) =~= s@.skip(cur as int + 1));
                assert(parse_result is Some);
            }
        }
        let (v, j) = match parse_result {
            Some(p) => p,
            None => {
                proof {
                    assert(!string_array_at(s@, i as int));
                }
                return None;
            },
        };
        proof {
            let t = s@.skip(cur as int);
            assert(t.len() > 0 && t[0] == '"' && spec_unescape(t.skip(1)) is Some);
            let p = spec_unescape(t.skip(1)).unwrap();
            lemma_unescape_sound(t.skip(1));
            assert(t.skip(1).subrange(0, p.1) =~= s@.subrange(cur + 1, j as int));
            assert(s@.subrange(cur as int, j as int) =~= seq![t[0]] + s@.subrange(
                cur + 1,
                j as int,
            ));
            assert(s@.subrange(cur as int, j as int) == json_string(v@));
            lemma_string_items_snoc(model, v@);
            assert(s@.subrange(i + 1, j as int) =~= s@.subrange(i + 1, cur as int) + s@.subrange(
                cur as int,
                j as int,
            ));
        }
        let ghost vview = v@;
        items.push(v);
        proof {
            assert(items.deep_view() =~= model.push(vview));
        }
        if j < n && s.get_char(j) == ',' {
            proof {
                assert(s@.subrange(i + 1, j + 1) =~= s@.subrange(i + 1, j as int) + seq![',']);
            }
            cur = j + 1;
            if cur >= n {
                proof {
                    if string_array_at(s@, i as int) {
                        let (a, rest): (Seq<Seq<char>>, Seq<char>) = choose|
                            a: Seq<Seq<char>>,
                            rest: Seq<char>,
                        |
                            s@.skip(i as int) == #[trigger] (json_string_array(a) + rest);
                        lemma_string_array_progress(
                            s@,
                            i as int,
                            cur as int,
                            items.deep_view(),
                            a,
                            rest,
                        );
                        assert(s@.skip(cur as int).len() > 0);
                    }
                }
                return None;
            }
        } else if j < n && s.get_char(j) == ']' {
            proof {
                let full = items.deep_view();
                assert(s@.subrange(i as int, j + 1) =~= seq!['['] + s@.subrange(i + 1, j as int)
                    + seq![']']);
                assert(s@.subrange(i as int, j + 1) =~= json_string_array(full));
            }
            return Some((items, j + 1));
        } else {
            proof {
                if string_array_at(s@, i as int) {
                    let (a, rest): (Seq<Seq<char>>, Seq<char>) = choose|
                        a: Seq<Seq<char>>,
                        rest: Seq<char>,
                    |
                        s@.skip(i as int) == #[trigger] (json_string_array(a) + rest);
                    lemma_string_array_progress(s@, i as int, cur as int, model, a, rest);
                    let rem = a.skip(model.len() as int);
                    lemma_string_items_head(rem, rest, s@.skip(cur as int));
                    // the parsed string is the head item, so the next
                    // character is the delimiter
                    assert(s@.skip(cur as int).skip(1) =~= s@.skip(cur as int + 1));
                    assert(v@ == rem[0] && j as int == cur + escaped(rem[0]).len() + 2);
                    assert(s@[j as int] == s@.skip(cur as int)[escaped(rem[0]).len() as int + 2]);
                    assert(j < n);
                }
                assert(!string_array_at(s@, i as int));
            }
            return None;
        }
    }
}

/// The leading digit count is bounded by the length, covers only
/// digits, and stops at a non-digit.
proof fn lemma_digits_prefix_props(t: Seq<char>)
    ensures
        0 <= digits_prefix_len(t) <= t.len(),
        forall|i: int| 0 <= i < digits_prefix_len(t) ==> is_digit(#[trigger] t[i]),
        digits_prefix_len(t) == t.len() || !is_digit(t[digits_prefix_len(t)]),
    decreases t.len(),
{
    if t.len() == 0 || !is_digit(t[0]) {
    } else {
        lemma_digits_prefix_props(t.skip(1));
        let k = digits_prefix_len(t);
        assert forall|i: int| 0 <= i < k implies is_digit(#[trigger] t[i]) by {
            if i > 0 {
                assert(is_digit(t.skip(1)[i - 1]));
                assert(t.skip(1)[i - 1] == t[i]);
            }
        }
        if k < t.len() {
            assert(t.skip(1)[k - 1] == t[k]);
        }
    }
}

} // verus!
