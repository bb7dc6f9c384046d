//! Decoding of the escape sequences that may appear in quoted characters and
//! strings of a grammar file.
use vstd::prelude::*;
use vstd::utf8::is_scalar;

verus! {

/// A hexadecimal digit, in either case.
pub open spec fn is_hex_digit(c: char) -> bool {
    ||| ('0' as u32 <= c as u32 && c as u32 <= '9' as u32)
    ||| ('a' as u32 <= c as u32 && c as u32 <= 'f' as u32)
    ||| ('A' as u32 <= c as u32 && c as u32 <= 'F' as u32)
}

/// The value of a hexadecimal digit.
pub open spec fn hex_digit_value(c: char) -> nat {
    if '0' as u32 <= c as u32 && c as u32 <= '9' as u32 {
        (c as u32 - '0' as u32) as nat
    } else if 'a' as u32 <= c as u32 && c as u32 <= 'f' as u32 {
        (c as u32 - 'a' as u32 + 10) as nat
    } else {
        (c as u32 - 'A' as u32 + 10) as nat
    }
}

pub open spec fn all_hex_digits(d: Seq<char>) -> bool {
    forall|i: int| 0 <= i < d.len() ==> #[trigger] is_hex_digit(d[i])
}

/// The number that a sequence of hexadecimal digits denotes, most significant first.
pub open spec fn hex_digits_value(d: Seq<char>) -> nat
    decreases d.len(),
{
    if d.len() == 0 {
        0
    } else {
        hex_digits_value(d.drop_last()) * 16 + hex_digit_value(d.last())
    }
}

/// What an unsigned `from_str_radix(_, 16)` of std accepts and gives: an optional
/// `+` followed by at least one hexadecimal digit.
pub open spec fn parse_hex(s: Seq<char>) -> Option<nat> {
    let d = if s.len() > 0 && s[0] == '+' { s.drop_first() } else { s };
    if d.len() > 0 && all_hex_digits(d) {
        Some(hex_digits_value(d))
    } else {
        None
    }
}

/// The number of characters before the first `}` of `s`, or the length of `s` if
/// it holds none.
pub open spec fn brace_end(s: Seq<char>) -> nat
    decreases s.len(),
{
    if s.len() == 0 {
        0
    } else if s[0] == '}' {
        0
    } else {
        1 + brace_end(s.drop_first())
    }
}

/// The character that a one-letter escape `\e` stands for.
pub open spec fn simple_escape(e: char) -> Option<char> {
    if e == '"' {
        Some('"')
    } else if e == '\\' {
        Some('\\')
    } else if e == 'r' {
        Some('\r')
    } else if e == 'n' {
        Some('\n')
    } else if e == 't' {
        Some('\t')
    } else if e == '0' {
        Some('\0')
    } else if e == '\'' {
        Some('\'')
    } else {
        None
    }
}

pub open spec fn prepend(c: char, r: Option<Seq<char>>) -> Option<Seq<char>> {
    match r {
        Some(t) => Some(seq![c] + t),
        None => None,
    }
}

/// The text that `s` denotes once its escape sequences are decoded, or `None`
/// where `s` holds a malformed one. The escapes are `\"`, `\\`, `\r`, `\n`, `\t`,
/// `\0`, `\'`, `\xHH` (a byte value, given as two characters that `parse_hex`
/// accepts) and `\u{H..}` (a Unicode scalar value given by two to six such
/// characters).
pub open spec fn spec_unescape(s: Seq<char>) -> Option<Seq<char>>
    decreases s.len(),
{
    if s.len() == 0 {
        Some(Seq::empty())
    } else if s[0] != '\\' {
        prepend(s[0], spec_unescape(s.skip(1)))
    } else if s.len() == 1 {
        None
    } else if simple_escape(s[1]) is Some {
        prepend(simple_escape(s[1])->0, spec_unescape(s.skip(2)))
    } else if s[1] == 'x' {
        if s.len() >= 4 && parse_hex(s.subrange(2, 4)) is Some {
            prepend((parse_hex(s.subrange(2, 4))->0) as char, spec_unescape(s.skip(4)))
        } else {
            None
        }
    } else if s[1] == 'u' {
        if s.len() >= 3 && s[2] == '{' {
            let k = brace_end(s.skip(3)) as int;
            if 2 <= k <= 6 && 3 + k < s.len() && parse_hex(s.subrange(3, 3 + k)) is Some
                && is_scalar((parse_hex(s.subrange(3, 3 + k))->0) as u32) {
                prepend(
                    (parse_hex(s.subrange(3, 3 + k))->0) as char,
                    spec_unescape(s.skip(4 + k)),
                )
            } else {
                None
            }
        } else {
            None
        }
    } else {
        None
    }
}

/// `unescape_qouted` cuts its argument by bytes and panics unless it holds at
/// least two characters, the first and the last of which take one byte each.
pub open spec fn is_quoted(s: Seq<char>) -> bool {
    &&& s.len() >= 2
    &&& (s[0] as u32) < 128
    &&& (s.last() as u32) < 128
}

/// The view of an optional string.
pub open spec fn opt_view(r: Option<String>) -> Option<Seq<char>> {
    match r {
        Some(t) => Some(t@),
        None => None,
    }
}

pub open spec fn append_opt(p: Seq<char>, r: Option<Seq<char>>) -> Option<Seq<char>> {
    match r {
        Some(t) => Some(p + t),
        None => None,
    }
}

pub open spec fn pow16(n: nat) -> nat
    decreases n,
{
    if n == 0 {
        1
    } else {
        16 * pow16((n - 1) as nat)
    }
}

proof fn lemma_hex_digits_bound(d: Seq<char>)
    requires
        all_hex_digits(d),
    ensures
        hex_digits_value(d) < pow16(d.len()),
    decreases d.len(),
{
    if d.len() > 0 {
        let p = d.drop_last();
        assert(all_hex_digits(p)) by {
            assert forall|i: int| 0 <= i < p.len() implies #[trigger] is_hex_digit(p[i]) by {
                assert(is_hex_digit(d[i]));
            }
        }
        lemma_hex_digits_bound(p);
        assert(is_hex_digit(d[d.len() - 1]));
        let a = hex_digits_value(p);
        let b = pow16(p.len());
        let c = hex_digit_value(d.last());
        assert(c < 16);
        assert(a * 16 + c < 16 * b) by (nonlinear_arith)
            requires
                a < b,
                c < 16,
        ;
    }
}

proof fn lemma_brace_end(x: Seq<char>, k: int)
    requires
        0 <= k <= x.len(),
        forall|m: int| 0 <= m < k ==> x[m] != '}',
        k == x.len() || x[k] == '}',
    ensures
        brace_end(x) == k,
    decreases x.len(),
{
    if x.len() > 0 && k > 0 {
        assert(x[0] != '}');
        lemma_brace_end(x.drop_first(), k - 1);
    }
}

/// Appends a character to a string.
#[verifier::external_body]
fn push_char(s: &mut String, c: char)
    ensures
        final(s)@ == old(s)@.push(c),
{
    s.push(c);
}

/// `char::from_u32`: the character of a Unicode scalar value, `None` for any
/// other number.
#[verifier::external_body]
fn char_from_u32(v: u32) -> (r: Option<char>)
    ensures
        r is Some <==> is_scalar(v),
        r matches Some(c) ==> c as u32 == v,
{
    char::from_u32(v)
}

fn is_hex_digit_exec(c: char) -> (b: bool)
    ensures
        b == is_hex_digit(c),
{
    ('0' <= c && c <= '9') || ('a' <= c && c <= 'f') || ('A' <= c && c <= 'F')
}

fn hex_digit_value_exec(c: char) -> (v: u32)
    requires
        is_hex_digit(c),
    ensures
        v == hex_digit_value(c),
        v < 16,
{
    if '0' <= c && c <= '9' {
        (c as u32) - ('0' as u32)
    } else if 'a' <= c && c <= 'f' {
        (c as u32) - ('a' as u32) + 10
    } else {
        (c as u32) - ('A' as u32) + 10
    }
}

/// Reads `s[lo..hi]` as `parse_hex` does.
fn parse_hex_exec(s: &Vec<char>, lo: usize, hi: usize) -> (r: Option<u32>)
    requires
        lo <= hi <= s.len(),
        hi - lo <= 6,
    ensures
        match r {
            Some(v) => parse_hex(s@.subrange(lo as int, hi as int)) == Some(v as nat),
            None => parse_hex(s@.subrange(lo as int, hi as int)) is None,
        },
        r matches Some(v) ==> v < pow16((hi - lo) as nat),
{
    let ghost t = s@.subrange(lo as int, hi as int);
    let mut start = lo;
    if start < hi && s[start] == '+' {
        start = start + 1;
    }
    let ghost d = s@.subrange(start as int, hi as int);
    assert(d == (if t.len() > 0 && t[0] == '+' { t.drop_first() } else { t }));
    if start == hi {
        return None;
    }
    let mut v: u32 = 0;
    let mut i = start;
    proof {
        assert(s@.subrange(start as int, start as int) =~= Seq::<char>::empty());
        lemma_pow16_mono(0, 6);
    }
    while i < hi
        invariant
            lo <= start <= i <= hi <= s.len(),
            hi - lo <= 6,
            d == s@.subrange(start as int, hi as int),
            t == s@.subrange(lo as int, hi as int),
            d == (if t.len() > 0 && t[0] == '+' { t.drop_first() } else { t }),
            d.len() > 0,
            all_hex_digits(s@.subrange(start as int, i as int)),
            v == hex_digits_value(s@.subrange(start as int, i as int)),
            v < pow16((i - start) as nat),
            pow16((i - start) as nat) <= pow16(6),
        decreases hi - i,
    {
        let c = s[i];
        if !is_hex_digit_exec(c) {
            proof {
                assert(d[i - start] == c);
                assert(!is_hex_digit(d[i - start]));
                assert(!all_hex_digits(d));
            }
            return None;
        }
        let dv = hex_digit_value_exec(c);
        let ghost pre = s@.subrange(start as int, i as int);
        let ghost nxt = s@.subrange(start as int, i + 1);
        proof {
            assert(nxt.drop_last() =~= pre);
            assert(nxt.last() == c);
            assert(all_hex_digits(nxt)) by {
                assert forall|j: int| 0 <= j < nxt.len() implies #[trigger] is_hex_digit(nxt[j]) by {
                    if j < pre.len() {
                        assert(nxt[j] == pre[j]);
                    }
                }
            }
            assert(pow16(6) == 16777216) by {
                reveal_with_fuel(pow16, 7);
            }
            lemma_pow16_mono((i + 1 - start) as nat, 6);
            lemma_hex_digits_bound(nxt);
        }
        v = v * 16 + dv;
        i = i + 1;
    }
    proof {
        assert(s@.subrange(start as int, i as int) =~= d);
    }
    Some(v)
}

proof fn lemma_pow16_mono(a: nat, b: nat)
    requires
        a <= b,
    ensures
        pow16(a) <= pow16(b),
    decreases b,
{
    if a < b {
        lemma_pow16_mono(a, (b - 1) as nat);
    }
}

proof fn lemma_append_prepend(p: Seq<char>, c: char, r: Option<Seq<char>>)
    ensures
        append_opt(p, prepend(c, r)) == append_opt(p.push(c), r),
{
    if let Some(t) = r {
        assert(p + (seq![c] + t) =~= p.push(c) + t);
    }
}

fn simple_escape_exec(e: char) -> (r: Option<char>)
    ensures
        r == simple_escape(e),
{
    if e == '"' {
        Some('"')
    } else if e == '\\' {
        Some('\\')
    } else if e == 'r' {
        Some('\r')
    } else if e == 'n' {
        Some('\n')
    } else if e == 't' {
        Some('\t')
    } else if e == '0' {
        Some('\0')
    } else if e == '\'' {
        Some('\'')
    } else {
        None
    }
}

/// Decodes the unicode escape `\u{..}` that starts at `s[i]`: the decoded
/// character and the number of characters the escape takes.
fn decode_unicode_escape(s: &Vec<char>, i: usize, hi: usize) -> (r: Option<(char, usize)>)
    requires
        i + 2 <= hi <= s.len(),
        s@[i as int] == '\\',
        s@[i + 1] == 'u',
    ensures
        ({
            let t = s@.subrange(i as int, hi as int);
            match r {
                Some((d, n)) => i + n <= hi && n > 0 && spec_unescape(t) == prepend(
                    d,
                    spec_unescape(t.skip(n as int)),
                ),
                None => spec_unescape(t) is None,
            }
        }),
{
    let ghost t = s@.subrange(i as int, hi as int);
    assert(t[0] == '\\' && t[1] == 'u');
    assert(simple_escape(t[1]) is None);
    if i + 2 == hi {
        return None;
    }
    if s[i + 2] != '{' {
        assert(t[2] == s@[i + 2]);
        return None;
    }
    assert(t[2] == '{');
    let mut j = i + 3;
    while j < hi && s[j] != '}'
        invariant
            i + 3 <= j <= hi <= s.len(),
            forall|m: int| i + 3 <= m < j ==> s@[m] != '}',
        decreases hi - j,
    {
        j = j + 1;
    }
    let k = j - (i + 3);
    proof {
        let x = t.skip(3);
        assert forall|m: int| 0 <= m < k implies x[m] != '}' by {
            assert(x[m] == s@[i + 3 + m]);
        }
        if j < hi {
            assert(x[k as int] == s@[j as int]);
        }
        lemma_brace_end(x, k as int);
    }
    if k < 2 || k > 6 || j == hi {
        return None;
    }
    proof {
        assert(t.subrange(3, 3 + k) =~= s@.subrange(i + 3, j as int));
    }
    match parse_hex_exec(s, i + 3, j) {
        Some(v) => {
            match char_from_u32(v) {
                Some(d) => {
                    proof {
                        lemma_char_of_u32(d, v);
                    }
                    Some((d, k + 4))
                },
                None => None,
            }
        },
        None => None,
    }
}

proof fn lemma_char_of_u32(d: char, v: u32)
    requires
        d as u32 == v,
    ensures
        (v as nat) as char == d,
{
}

proof fn lemma_char_of_u8(v: u32)
    requires
        v < 256,
    ensures
        (v as nat) as char == (v as u8) as char,
{
}

/// Decodes the escape sequence that starts at `s[i]`: the decoded character and
/// the number of characters the escape takes.
fn decode_escape(s: &Vec<char>, i: usize, hi: usize) -> (r: Option<(char, usize)>)
    requires
        i < hi <= s.len(),
        s@[i as int] == '\\',
    ensures
        ({
            let t = s@.subrange(i as int, hi as int);
            match r {
                Some((d, n)) => i + n <= hi && n > 0 && spec_unescape(t) == prepend(
                    d,
                    spec_unescape(t.skip(n as int)),
                ),
                None => spec_unescape(t) is None,
            }
        }),
{
    let ghost t = s@.subrange(i as int, hi as int);
    assert(t[0] == '\\');
    if i + 1 == hi {
        return None;
    }
    let e = s[i + 1];
    assert(t[1] == e);
    match simple_escape_exec(e) {
        Some(d) => Some((d, 2)),
        None => {
            if e == 'x' {
                if hi - i < 4 {
                    return None;
                }
                proof {
                    assert(t.subrange(2, 4) =~= s@.subrange(i + 2, i + 4));
                }
                match parse_hex_exec(s, i + 2, i + 4) {
                    Some(v) => {
                        proof {
                            assert(pow16(2) == 256) by {
                                reveal_with_fuel(pow16, 3);
                            }
                            lemma_char_of_u8(v);
                        }
                        Some(((v as u8) as char, 4))
                    },
                    None => None,
                }
            } else if e == 'u' {
                decode_unicode_escape(s, i, hi)
            } else {
                None
            }
        },
    }
}

/// Decodes the escape sequences of `s[lo..hi]`.
fn unescape_range(s: &Vec<char>, lo: usize, hi: usize) -> (r: Option<String>)
    requires
        lo <= hi <= s.len(),
    ensures
        opt_view(r) == spec_unescape(s@.subrange(lo as int, hi as int)),
{
    let mut result = String::new();
    let mut i = lo;
    proof {
        let x = spec_unescape(s@.subrange(lo as int, hi as int));
        if let Some(t) = x {
            assert(result@ + t =~= t);
        }
    }
    while i < hi
        invariant
            lo <= i <= hi <= s.len(),
            spec_unescape(s@.subrange(lo as int, hi as int)) == append_opt(
                result@,
                spec_unescape(s@.subrange(i as int, hi as int)),
            ),
        decreases hi - i,
    {
        let ghost t = s@.subrange(i as int, hi as int);
        let c = s[i];
        assert(t[0] == c);
        if c != '\\' {
            proof {
                assert(t.skip(1) =~= s@.subrange(i + 1, hi as int));
                lemma_append_prepend(result@, c, spec_unescape(t.skip(1)));
            }
            push_char(&mut result, c);
            i = i + 1;
        } else {
            match decode_escape(s, i, hi) {
                Some((d, n)) => {
                    proof {
                        assert(t.skip(n as int) =~= s@.subrange(i + n, hi as int));
                        lemma_append_prepend(result@, d, spec_unescape(t.skip(n as int)));
                    }
                    push_char(&mut result, d);
                    i = i + n;
                },
                None => {
                    return None;
                },
            }
        }
    }
    proof {
        assert(s@.subrange(i as int, hi as int) =~= Seq::<char>::empty());
        assert(result@ + Seq::<char>::empty() =~= result@);
    }
    Some(result)
}

/// The characters of `s`, in order.
pub(crate) fn chars_of(s: &str) -> (v: Vec<char>)
    ensures
        v@ == s@,
{
    broadcast use vstd::string::group_string_axioms;

    let mut v: Vec<char> = Vec::new();
    for c in it: s.chars()
        invariant
            v@ == it.seq().take(it.index() as int),
            it.seq() == s@,
    {
        v.push(c);
    }
    v
}

/// Decodes the escape sequences of `string`; `None` where one is malformed.
pub fn unescape(string: &str) -> (r: Option<String>)
    ensures
        opt_view(r) == spec_unescape(string@),
{
    let chars = chars_of(string);
    proof {
        assert(chars@.subrange(0, chars@.len() as int) =~= chars@);
    }
    unescape_range(&chars, 0, chars.len())
}

/// Decodes the escape sequences between the first and the last character of
/// `string`, which are its quotes.
pub fn unescape_qouted(string: &str) -> (r: Option<String>)
    requires
        is_quoted(string@),
    ensures
        opt_view(r) == spec_unescape(string@.subrange(1, string@.len() - 1)),
{
    let chars = chars_of(string);
    unescape_range(&chars, 1, chars.len() - 1)
}

/// Text without a backslash decodes to itself.
pub proof fn law_unescape_plain_text(s: Seq<char>)
    requires
        forall|i: int| 0 <= i < s.len() ==> s[i] != '\\',
    ensures
        spec_unescape(s) == Some(s),
    decreases s.len(),
{
    if s.len() > 0 {
        assert(s[0] != '\\');
        assert forall|i: int| 0 <= i < s.skip(1).len() implies s.skip(1)[i] != '\\' by {
            assert(s.skip(1)[i] == s[i + 1]);
        }
        law_unescape_plain_text(s.skip(1));
        assert(seq![s[0]] + s.skip(1) =~= s);
    }
}

/// Decoding works piece by piece: text without a backslash followed by any text
/// decodes to the first part followed by the decoding of the second.
pub proof fn law_unescape_prefix(p: Seq<char>, s: Seq<char>)
    requires
        forall|i: int| 0 <= i < p.len() ==> p[i] != '\\',
    ensures
        spec_unescape(p + s) == append_opt(p, spec_unescape(s)),
    decreases p.len(),
{
    if p.len() == 0 {
        assert(p + s =~= s);
        if let Some(t) = spec_unescape(s) {
            assert(p + t =~= t);
        }
    } else {
        let q = p.skip(1);
        assert forall|i: int| 0 <= i < q.len() implies q[i] != '\\' by {
            assert(q[i] == p[i + 1]);
        }
        law_unescape_prefix(q, s);
        assert((p + s)[0] == p[0]);
        assert((p + s).skip(1) =~= q + s);
        if let Some(t) = spec_unescape(s) {
            assert(seq![p[0]] + (q + t) =~= p + t);
        }
    }
}

proof fn lemma_brace_end_concat(x: Seq<char>, y: Seq<char>)
    requires
        brace_end(x) < x.len(),
    ensures
        brace_end(x + y) == brace_end(x),
    decreases x.len(),
{
    if x[0] != '}' {
        assert((x + y).drop_first() =~= x.drop_first() + y);
        lemma_brace_end_concat(x.drop_first(), y);
    }
}

/// Decoding works piece by piece: text that decodes, followed by any text,
/// decodes to the decoding of the first part followed by that of the second
/// (and fails where the second part fails).
pub proof fn law_unescape_concat(p: Seq<char>, s: Seq<char>)
    requires
        spec_unescape(p) is Some,
    ensures
        spec_unescape(p + s) == append_opt(spec_unescape(p)->0, spec_unescape(s)),
    decreases p.len(),
{
    let q = p + s;
    if p.len() == 0 {
        assert(q =~= s);
        assert(spec_unescape(p) == Some(Seq::<char>::empty()));
        if let Some(t) = spec_unescape(s) {
            assert(Seq::<char>::empty() + t =~= t);
        }
    } else {
        assert(q[0] == p[0]);
        let n: int = if p[0] != '\\' {
            1
        } else if simple_escape(p[1]) is Some {
            2
        } else if p[1] == 'x' {
            4
        } else {
            4 + brace_end(p.skip(3)) as int
        };
        if p[0] == '\\' {
            assert(q[1] == p[1]);
            if simple_escape(p[1]) is None && p[1] == 'x' {
                assert(q.subrange(2, 4) =~= p.subrange(2, 4));
            } else if simple_escape(p[1]) is None {
                let k = brace_end(p.skip(3)) as int;
                assert(q[2] == p[2]);
                assert(q.skip(3) =~= p.skip(3) + s);
                lemma_brace_end_concat(p.skip(3), s);
                assert(q.subrange(3, 3 + k) =~= p.subrange(3, 3 + k));
            }
        }
        assert(q.skip(n) =~= p.skip(n) + s);
        law_unescape_concat(p.skip(n), s);
        let d = spec_unescape(p.skip(n))->0;
        if let Some(t) = spec_unescape(s) {
            assert(seq![spec_unescape(p)->0[0]] + (d + t) =~= (seq![spec_unescape(p)->0[0]] + d) + t);
        }
    }
}

/// Each backslash of `s` doubled.
pub open spec fn escape_backslashes(s: Seq<char>) -> Seq<char>
    decreases s.len(),
{
    if s.len() == 0 {
        Seq::empty()
    } else if s[0] == '\\' {
        seq!['\\', '\\'] + escape_backslashes(s.skip(1))
    } else {
        seq![s[0]] + escape_backslashes(s.skip(1))
    }
}

/// Hexadecimal digits have their standard values: `0` is zero, `a` and `A` are
/// ten, each digit is one more than the one before it in its run (`0`-`9`,
/// `a`-`f`, `A`-`F`), every digit is below sixteen, and an upper-case letter
/// digit has the value of its lower-case form.
pub proof fn law_hex_digit_values(c: char, d: char)
    ensures
        hex_digit_value('0') == 0,
        hex_digit_value('a') == 10,
        hex_digit_value('A') == 10,
        is_hex_digit(c) ==> hex_digit_value(c) < 16,
        is_hex_digit(c) && is_hex_digit(d) && d as u32 == c as u32 + 1 ==> hex_digit_value(d)
            == hex_digit_value(c) + 1,
        'A' as u32 <= d as u32 <= 'F' as u32 && c as u32 == d as u32 + 32 ==> is_hex_digit(c)
            && hex_digit_value(c) == hex_digit_value(d),
{
}

/// Hexadecimal digits are read most significant first: a leading digit counts
/// sixteen to the power of the number of digits after it.
pub proof fn law_hex_leading_digit(c: char, d: Seq<char>)
    ensures
        hex_digits_value(seq![c] + d) == hex_digit_value(c) * pow16(d.len()) + hex_digits_value(d),
    decreases d.len(),
{
    let s = seq![c] + d;
    if d.len() == 0 {
        assert(s.drop_last() =~= Seq::<char>::empty());
        assert(s.last() == c);
        assert(hex_digits_value(s) == hex_digits_value(s.drop_last()) * 16 + hex_digit_value(c));
        assert(hex_digit_value(c) * 1 == hex_digit_value(c));
    } else {
        assert(s.drop_last() =~= seq![c] + d.drop_last());
        assert(s.last() == d.last());
        law_hex_leading_digit(c, d.drop_last());
        let a = hex_digit_value(c);
        let p = pow16((d.len() - 1) as nat);
        let h = hex_digits_value(d.drop_last());
        assert(pow16(d.len()) == 16 * p);
        assert(hex_digits_value(d) == h * 16 + hex_digit_value(d.last()));
        assert(hex_digits_value(s) == hex_digits_value(s.drop_last()) * 16 + hex_digit_value(d.last()));
        assert((a * p + h) * 16 == a * (16 * p) + h * 16) by (nonlinear_arith);
    }
}

/// After text that decodes, a backslash that ends the text, or one followed by a
/// character that starts no escape, makes the whole text fail to decode,
/// whatever follows it.
pub proof fn law_unescape_bad_escape(p: Seq<char>, c: char, s: Seq<char>)
    requires
        spec_unescape(p) is Some,
        simple_escape(c) is None,
        c != 'x',
        c != 'u',
    ensures
        spec_unescape(p + seq!['\\']) is None,
        spec_unescape(p + seq!['\\', c] + s) is None,
{
    law_unescape_concat(p, seq!['\\']);
    let t = seq!['\\', c] + s;
    assert(t[0] == '\\' && t[1] == c);
    law_unescape_concat(p, t);
    assert(p + seq!['\\', c] + s =~= p + t);
}

/// Doubling the backslashes of any text gives a text that decodes to it.
pub proof fn law_unescape_escaped_backslashes(s: Seq<char>)
    ensures
        spec_unescape(escape_backslashes(s)) == Some(s),
    decreases s.len(),
{
    if s.len() > 0 {
        law_unescape_escaped_backslashes(s.skip(1));
        let chunk = if s[0] == '\\' { seq!['\\', '\\'] } else { seq![s[0]] };
        assert(chunk.skip(chunk.len() as int) =~= Seq::<char>::empty());
        assert(spec_unescape(chunk) == Some(seq![s[0]])) by {
            reveal_with_fuel(spec_unescape, 2);
            assert(seq![s[0]] + Seq::<char>::empty() =~= seq![s[0]]);
        }
        law_unescape_concat(chunk, escape_backslashes(s.skip(1)));
        assert(seq![s[0]] + s.skip(1) =~= s);
    }
}

/// The lower-case hexadecimal digit of a number below sixteen.
pub open spec fn hex_digit_char(d: nat) -> char {
    if d < 10 {
        ('0' as u32 + d) as char
    } else {
        ('a' as u32 + d - 10) as char
    }
}

/// The last `n` hexadecimal digits of `v`, most significant first.
pub open spec fn hex_fixed(v: nat, n: nat) -> Seq<char>
    decreases n,
{
    if n == 0 {
        Seq::empty()
    } else {
        hex_fixed(v / 16, (n - 1) as nat).push(hex_digit_char(v % 16))
    }
}

/// Every character of `s` written as `\u{hhhhhh}`, with six hexadecimal digits.
pub open spec fn escape_unicode(s: Seq<char>) -> Seq<char>
    decreases s.len(),
{
    if s.len() == 0 {
        Seq::empty()
    } else {
        seq!['\\', 'u', '{'] + hex_fixed(s[0] as nat, 6) + seq!['}'] + escape_unicode(s.skip(1))
    }
}

proof fn lemma_hex_fixed(v: nat, n: nat)
    requires
        v < pow16(n),
    ensures
        hex_fixed(v, n).len() == n,
        all_hex_digits(hex_fixed(v, n)),
        hex_digits_value(hex_fixed(v, n)) == v,
        forall|i: int| 0 <= i < n ==> #[trigger] hex_fixed(v, n)[i] != '}' && hex_fixed(v, n)[i] != '+',
    decreases n,
{
    if n == 0 {
        assert(v == 0);
    } else {
        let p = pow16((n - 1) as nat);
        assert(v / 16 < p && v % 16 < 16 && v == (v / 16) * 16 + v % 16) by (nonlinear_arith)
            requires
                v < 16 * p,
        ;
        lemma_hex_fixed(v / 16, (n - 1) as nat);
        let h = hex_fixed(v, n);
        let d = v % 16;
        let c = hex_digit_char(d);
        assert(h.drop_last() =~= hex_fixed(v / 16, (n - 1) as nat));
        assert(is_hex_digit(c) && hex_digit_value(c) == d);
        assert forall|i: int| 0 <= i < h.len() implies #[trigger] is_hex_digit(h[i]) by {
            if i < n - 1 {
                assert(h[i] == h.drop_last()[i]);
            }
        }
        assert forall|i: int| 0 <= i < n implies #[trigger] h[i] != '}' && h[i] != '+' by {
            if i < n - 1 {
                assert(h[i] == h.drop_last()[i]);
            }
        }
    }
}

/// Writing every character as a six-digit unicode escape gives a text that
/// decodes to the original text.
pub proof fn law_unescape_unicode_escapes(s: Seq<char>)
    ensures
        spec_unescape(escape_unicode(s)) == Some(s),
    decreases s.len(),
{
    if s.len() > 0 {
        law_unescape_unicode_escapes(s.skip(1));
        let c = s[0];
        let v = c as nat;
        vstd::utf8::char_is_scalar(c);
        vstd::utf8::char_u32_cast(c, c as u32);
        assert(pow16(6) == 16777216) by {
            reveal_with_fuel(pow16, 7);
        }
        assert(v <= 0x10FFFF);
        lemma_hex_fixed(v, 6);
        let h = hex_fixed(v, 6);
        let chunk = seq!['\\', 'u', '{'] + h + seq!['}'];
        assert(chunk.len() == 10);
        assert(chunk.skip(3) =~= h + seq!['}']);
        assert forall|m: int| 0 <= m < 6 implies chunk.skip(3)[m] != '}' by {
            assert(chunk.skip(3)[m] == h[m]);
        }
        lemma_brace_end(chunk.skip(3), 6);
        assert(chunk.subrange(3, 9) =~= h);
        assert(h[0] != '+');
        assert(parse_hex(h) == Some(v));
        assert(is_scalar(v as u32));
        assert((v as u32) as char == c);
        assert(chunk.skip(10) =~= Seq::<char>::empty());
        assert(spec_unescape(chunk) == Some(seq![c])) by {
            reveal_with_fuel(spec_unescape, 2);
            assert(seq![c] + Seq::<char>::empty() =~= seq![c]);
        }
        assert(escape_unicode(s) =~= chunk + escape_unicode(s.skip(1)));
        law_unescape_concat(chunk, escape_unicode(s.skip(1)));
        assert(seq![c] + s.skip(1) =~= s);
    }
}

} // verus!
