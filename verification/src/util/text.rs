//! Character-level text helpers shared by the codec and the record emitter.
//!
//! Verified code here works on `Vec<char>` buffers, whose mathematical model
//! is the same `Seq<char>` that models `String` and `&str`; one trusted
//! function turns a finished buffer into a `String`.

use vstd::prelude::*;
use vstd::std_specs::iter::IteratorSpec;
use vstd::string::*;

verus! {

/// The numeric facts every `char` value carries: it is a Unicode scalar
/// value, and casting it to `u32` loses nothing.
pub proof fn char_code(c: char)
    ensures
        0 <= c as int <= 0x10FFFF,
        c as u32 == c as int,
{
}

/// Relies on `core::iter::Iterator::collect` for `String`: collecting chars
/// yields a string made of exactly those chars.
#[verifier::external_body]
pub fn string_from_chars(chars: &Vec<char>) -> (s: String)
    ensures
        s@ == chars@,
{
    chars.iter().collect()
}

/// The characters of a string slice, as a buffer.
pub fn chars_vec(s: &str) -> (out: Vec<char>)
    ensures
        out@ == s@,
{
    broadcast use vstd::string::group_string_axioms;

    let mut out: Vec<char> = Vec::new();
    let mut it = s.chars();
    loop
        invariant
            out@ + it.remaining() == s@,
            it.decrease() is Some,
        ensures
            out@ == s@,
        decreases it.decrease()->0,
    {
        let ghost prev = it.remaining();
        match it.next() {
            Some(c) => {
                out.push(c);
            },
            None => {
                proof {
                    assert(out@ =~= out@ + it.remaining());
                }
                break ;
            },
        }
    }
    out
}

/// Appends every character of `s` to `out`.
pub fn push_chars(out: &mut Vec<char>, s: &Vec<char>)
    ensures
        final(out)@ == old(out)@ + s@,
{
    let mut i: usize = 0;
    while i < s.len()
        invariant
            i <= s@.len(),
            out@ == old(out)@ + s@.take(i as int),
        decreases s@.len() - i,
    {
        out.push(s[i]);
        proof {
            assert(s@.take(i + 1) =~= s@.take(i as int) + seq![s@[i as int]]);
        }
        i = i + 1;
    }
    proof {
        assert(s@.take(s@.len() as int) =~= s@);
    }
}

/// Appends every character of a string slice to `out`.
pub fn push_str_chars(out: &mut Vec<char>, s: &str)
    ensures
        final(out)@ == old(out)@ + s@,
{
    let cs = chars_vec(s);
    push_chars(out, &cs);
}

/// Whether two character buffers hold the same text.
pub fn chars_eq(a: &Vec<char>, b: &Vec<char>) -> (r: bool)
    ensures
        r == (a@ == b@),
{
    if a.len() != b.len() {
        return false;
    }
    let mut i: usize = 0;
    while i < a.len()
        invariant
            a@.len() == b@.len(),
            i <= a@.len(),
            forall|j: int| 0 <= j < i ==> a@[j] == b@[j],
        decreases a@.len() - i,
    {
        if a[i] != b[i] {
            return false;
        }
        i = i + 1;
    }
    proof {
        assert(a@ =~= b@);
    }
    true
}

/// Strict lexicographic order on character sequences, by code point.
pub open spec fn seq_lt(a: Seq<char>, b: Seq<char>) -> bool
    decreases a.len(),
{
    if b.len() == 0 {
        false
    } else if a.len() == 0 {
        true
    } else if (a[0] as u32) < (b[0] as u32) {
        true
    } else if (a[0] as u32) == (b[0] as u32) {
        seq_lt(a.drop_first(), b.drop_first())
    } else {
        false
    }
}

/// Three-way comparison of two character buffers in lexicographic order.
pub fn chars_cmp_lt(a: &Vec<char>, b: &Vec<char>) -> (r: bool)
    ensures
        r == seq_lt(a@, b@),
{
    proof {
        assert(a@.skip(0) =~= a@);
        assert(b@.skip(0) =~= b@);
    }
    let mut i: usize = 0;
    loop
        invariant
            i <= a@.len(),
            i <= b@.len(),
            seq_lt(a@, b@) == seq_lt(a@.skip(i as int), b@.skip(i as int)),
        decreases a@.len() - i,
    {
        if i == b.len() {
            proof {
                assert(b@.skip(i as int) =~= Seq::<char>::empty());
            }
            return false;
        }
        if i == a.len() {
            proof {
                assert(a@.skip(i as int) =~= Seq::<char>::empty());
            }
            return true;
        }
        let ca: u32 = a[i] as u32;
        let cb: u32 = b[i] as u32;
        if ca < cb {
            return true;
        }
        if ca != cb {
            return false;
        }
        proof {
            lemma_seq_lt_step(a@.skip(i as int), b@.skip(i as int));
            assert(a@.skip(i as int).drop_first() =~= a@.skip(i + 1));
            assert(b@.skip(i as int).drop_first() =~= b@.skip(i + 1));
        }
        i = i + 1;
    }
}

proof fn lemma_seq_lt_step(a: Seq<char>, b: Seq<char>)
    requires
        a.len() > 0,
        b.len() > 0,
        (a[0] as u32) == (b[0] as u32),
    ensures
        seq_lt(a, b) == seq_lt(a.drop_first(), b.drop_first()),
{
}

/// The character for one decimal or hexadecimal digit, lower case.
pub open spec fn digit_char(d: int) -> char
    recommends
        0 <= d < 16,
{
    if d < 10 {
        ((d + 48) as u8) as char
    } else {
        ((d + 87) as u8) as char
    }
}

/// The decimal digits of a non-negative number, most significant first.
pub open spec fn dec_digits(n: int) -> Seq<char>
    recommends
        n >= 0,
    decreases n,
{
    if n < 10 {
        seq![digit_char(n)]
    } else {
        dec_digits(n / 10) + seq![digit_char(n % 10)]
    }
}

/// The decimal text of a possibly negative number.
pub open spec fn dec_str(n: int) -> Seq<char> {
    if n < 0 {
        seq!['-'] + dec_digits(-n)
    } else {
        dec_digits(n)
    }
}

/// The digit character for one value below 16.
pub fn digit_char_exec(d: u8) -> (c: char)
    requires
        d < 16,
    ensures
        c == digit_char(d as int),
{
    if d < 10 {
        (d + 48) as char
    } else {
        (d + 87) as char
    }
}

/// Appends the decimal digits of `n` to `out`.
pub fn push_dec_u128(out: &mut Vec<char>, n: u128)
    ensures
        final(out)@ == old(out)@ + dec_digits(n as int),
{
    let mut digits: Vec<char> = Vec::new();
    let mut m: u128 = n;
    loop
        invariant_except_break
            dec_digits(n as int) == dec_digits(m as int) + digits@.reverse(),
        ensures
            dec_digits(n as int) == digits@.reverse(),
            digits@.len() >= 1,
        decreases m,
    {
        let d = digit_char_exec((m % 10) as u8);
        let ghost before = digits@;
        digits.push(d);
        proof {
            assert(digits@.reverse() =~= seq![d] + before.reverse());
            if m >= 10 {
                assert(dec_digits((m / 10) as int) + digits@.reverse() =~= dec_digits(m as int)
                    + before.reverse());
            } else {
                assert(dec_digits(m as int) =~= seq![d]);
                assert(dec_digits(n as int) =~= digits@.reverse());
            }
        }
        if m < 10 {
            break ;
        }
        m = m / 10;
    }
    let mut i: usize = digits.len();
    while i > 0
        invariant
            i <= digits@.len(),
            out@ == old(out)@ + digits@.reverse().take((digits@.len() - i) as int),
        decreases i,
    {
        i = i - 1;
        out.push(digits[i]);
        proof {
            let k = (digits@.len() - i) as int;
            assert(digits@.reverse().take(k) =~= digits@.reverse().take(k - 1) + seq![
                digits@.reverse()[k - 1],
            ]);
        }
    }
    proof {
        assert(digits@.reverse().take(digits@.len() as int) =~= digits@.reverse());
    }
}

/// Appends the decimal digits of `n` to `out`.
pub fn push_dec_u64(out: &mut Vec<char>, n: u64)
    ensures
        final(out)@ == old(out)@ + dec_digits(n as int),
{
    push_dec_u128(out, n as u128);
}

/// Appends the decimal text of `n`, with a leading minus sign when negative.
pub fn push_dec_i64(out: &mut Vec<char>, n: i64)
    ensures
        final(out)@ == old(out)@ + dec_str(n as int),
{
    if n < 0 {
        out.push('-');
        let mag: u128 = (-(n as i128)) as u128;
        push_dec_u128(out, mag);
        proof {
            assert(old(out)@ + seq!['-'] + dec_digits(mag as int) =~= old(out)@ + (seq!['-']
                + dec_digits(-(n as int))));
        }
    } else {
        push_dec_u128(out, n as u128);
    }
}

/// How one character is written inside a JSON string literal: quote and
/// backslash get a backslash escape, control characters get their short or
/// hexadecimal escape, everything else stands as itself.
pub open spec fn escape_char(c: char) -> Seq<char> {
    let u = c as u32;
    if u == 34 {
        seq!['\\', '"']
    } else if u == 92 {
        seq!['\\', '\\']
    } else if u == 8 {
        seq!['\\', 'b']
    } else if u == 9 {
        seq!['\\', 't']
    } else if u == 10 {
        seq!['\\', 'n']
    } else if u == 12 {
        seq!['\\', 'f']
    } else if u == 13 {
        seq!['\\', 'r']
    } else if u < 32 {
        seq!['\\', 'u', '0', '0', digit_char(u as int / 16), digit_char(u as int % 16)]
    } else {
        seq![c]
    }
}

/// A whole text, escaped for a JSON string literal.
pub open spec fn escape_json(s: Seq<char>) -> Seq<char>
    decreases s.len(),
{
    if s.len() == 0 {
        Seq::empty()
    } else {
        escape_json(s.drop_last()) + escape_char(s.last())
    }
}

/// A JSON string literal: quotes around the escaped text.
pub open spec fn json_str(s: Seq<char>) -> Seq<char> {
    seq!['"'] + escape_json(s) + seq!['"']
}

fn push_escaped_char(out: &mut Vec<char>, c: char)
    ensures
        final(out)@ == old(out)@ + escape_char(c),
{
    let u = c as u32;
    if u == 34 {
        out.push('\\');
        out.push('"');
    } else if u == 92 {
        out.push('\\');
        out.push('\\');
    } else if u == 8 {
        out.push('\\');
        out.push('b');
    } else if u == 9 {
        out.push('\\');
        out.push('t');
    } else if u == 10 {
        out.push('\\');
        out.push('n');
    } else if u == 12 {
        out.push('\\');
        out.push('f');
    } else if u == 13 {
        out.push('\\');
        out.push('r');
    } else if u < 32 {
        out.push('\\');
        out.push('u');
        out.push('0');
        out.push('0');
        out.push(digit_char_exec((u / 16) as u8));
        out.push(digit_char_exec((u % 16) as u8));
    } else {
        out.push(c);
    }
    proof {
        assert(final(out)@ =~= old(out)@ + escape_char(c));
    }
}

/// Appends `s` as a JSON string literal, quotes included.
pub fn push_json_str(out: &mut Vec<char>, s: &Vec<char>)
    ensures
        final(out)@ == old(out)@ + json_str(s@),
{
    out.push('"');
    let mut i: usize = 0;
    while i < s.len()
        invariant
            i <= s@.len(),
            out@ == old(out)@ + seq!['"'] + escape_json(s@.take(i as int)),
        decreases s@.len() - i,
    {
        proof {
            let t = s@.take(i + 1);
            assert(t.drop_last() =~= s@.take(i as int));
            assert(t.last() == s@[i as int]);
        }
        push_escaped_char(out, s[i]);
        i = i + 1;
    }
    out.push('"');
    proof {
        assert(s@.take(s@.len() as int) =~= s@);
        assert(final(out)@ =~= old(out)@ + json_str(s@));
    }
}

/// Whether two string slices hold the same text.
pub fn str_eq(a: &str, b: &str) -> (r: bool)
    ensures
        r == (a@ == b@),
{
    let av = chars_vec(a);
    let bv = chars_vec(b);
    chars_eq(&av, &bv)
}

/// Whether `needle` occurs in `hay` starting at position `i`.
pub open spec fn occurs_at(hay: Seq<char>, needle: Seq<char>, i: int) -> bool {
    &&& 0 <= i
    &&& i + needle.len() <= hay.len()
    &&& forall|j: int| 0 <= j < needle.len() ==> hay[i + j] == #[trigger] needle[j]
}

/// Whether `needle` occurs somewhere in `hay`.
pub open spec fn contains_seq(hay: Seq<char>, needle: Seq<char>) -> bool {
    exists|i: int| occurs_at(hay, needle, i)
}

fn matches_at(hay: &Vec<char>, needle: &Vec<char>, i: usize) -> (r: bool)
    requires
        i + needle@.len() <= hay@.len(),
    ensures
        r == occurs_at(hay@, needle@, i as int),
{
    let hl = hay.len();
    let mut j: usize = 0;
    while j < needle.len()
        invariant
            hl == hay@.len(),
            i + needle@.len() <= hay@.len(),
            j <= needle@.len(),
            forall|k: int| 0 <= k < j ==> hay@[i + k] == #[trigger] needle@[k],
        decreases needle@.len() - j,
    {
        if hay[i + j] != needle[j] {
            return false;
        }
        j = j + 1;
    }
    true
}

/// Whether one text occurs inside another.
#[verifier::loop_isolation(false)]
pub fn str_contains(hay: &str, needle: &str) -> (r: bool)
    ensures
        r == contains_seq(hay@, needle@),
{
    let h = chars_vec(hay);
    let n = chars_vec(needle);
    if n.len() > h.len() {
        proof {
            assert(forall|i: int| !occurs_at(hay@, needle@, i));
        }
        return false;
    }
    let last = h.len() - n.len();
    let mut i: usize = 0;
    while i <= last
        invariant
            h@ == hay@,
            n@ == needle@,
            n@.len() <= h@.len(),
            last == h@.len() - n@.len(),
            i <= last + 1,
            forall|k: int| 0 <= k < i ==> !occurs_at(hay@, needle@, k),
        decreases last + 1 - i,
    {
        if matches_at(&h, &n, i) {
            proof {
                assert(occurs_at(hay@, needle@, i as int));
            }
            return true;
        }
        i = i + 1;
    }
    proof {
        assert(forall|k: int| k > last ==> !occurs_at(hay@, needle@, k));
    }
    false
}

/// The value denoted by a sequence of decimal digits, most significant
/// first, or -1 if any character is not a digit or the sequence is empty.
pub open spec fn dec_value(s: Seq<char>) -> int
    decreases s.len(),
{
    if s.len() == 0 {
        -1
    } else if s.len() == 1 {
        if 48 <= s[0] as u32 <= 57 {
            s[0] as u32 - 48
        } else {
            -1
        }
    } else if dec_value(s.drop_last()) < 0 || !(48 <= s.last() as u32 <= 57) {
        -1
    } else {
        dec_value(s.drop_last()) * 10 + (s.last() as u32 - 48)
    }
}

/// What `str::parse::<u64>` accepts: an optional plus sign, then decimal
/// digits denoting a value that fits in 64 bits.
pub open spec fn parse_u64_spec(s: Seq<char>) -> Option<u64> {
    let digits = if s.len() > 0 && s[0] as u32 == 43 {
        s.drop_first()
    } else {
        s
    };
    if 0 <= dec_value(digits) < 0x10000000000000000 {
        Some(dec_value(digits) as u64)
    } else {
        None
    }
}

/// A prefix denoting no value, or one already out of range, leaves the whole
/// sequence without a 64-bit value.
proof fn lemma_dec_value_out(s: Seq<char>, k: int)
    requires
        0 < k <= s.len(),
        dec_value(s.take(k)) < 0 || dec_value(s.take(k)) > 0xFFFFFFFFFFFFFFFFu64,
    ensures
        dec_value(s) < 0 || dec_value(s) > 0xFFFFFFFFFFFFFFFFu64,
    decreases s.len() - k,
{
    if k == s.len() {
        assert(s.take(k) =~= s);
    } else {
        let t = s.take(k + 1);
        assert(t.drop_last() =~= s.take(k));
        lemma_dec_value_out(s, k + 1);
    }
}

/// Parses a decimal number as `str::parse::<u64>` does: an optional leading
/// plus sign and digits, rejecting anything else and values out of range.
#[verifier::loop_isolation(false)]
pub fn parse_u64(s: &str) -> (r: Option<u64>)
    ensures
        r == parse_u64_spec(s@),
{
    let cs = chars_vec(s);
    let mut has_plus = false;
    if cs.len() > 0 {
        let c0 = cs[0];
        proof {
            char_code(c0);
        }
        if c0 as u32 == 43 {
            has_plus = true;
        }
    }
    let ghost base: int = if has_plus {
        1int
    } else {
        0int
    };
    let ghost digits: Seq<char> = cs@.skip(base);
    proof {
        if has_plus {
            assert(digits =~= cs@.drop_first());
        } else {
            assert(digits =~= cs@);
        }
    }
    let mut i: usize = if has_plus {
        1
    } else {
        0
    };
    if i == cs.len() {
        proof {
            assert(digits.len() == 0);
        }
        return None;
    }
    let mut n: u64 = 0;
    while i < cs.len()
        invariant
            base <= i <= cs@.len(),
            digits == cs@.skip(base),
            i == base ==> n == 0,
            i > base ==> dec_value(digits.take(i - base)) == n,
        decreases cs@.len() - i,
    {
        let c = cs[i];
        proof {
            char_code(c);
        }
        let u = c as u32;
        proof {
            let t = digits.take(i + 1 - base);
            assert(t.drop_last() =~= digits.take(i - base));
            assert(t.last() == digits[i - base]);
            assert(digits[i - base] == cs@[i as int]);
        }
        if u < 48 || u > 57 {
            proof {
                assert(dec_value(digits.take(i + 1 - base)) < 0);
                lemma_dec_value_out(digits, i + 1 - base);
            }
            return None;
        }
        let d = (u - 48) as u64;
        if n > 0xFFFFFFFFFFFFFFFF / 10 || (n == 0xFFFFFFFFFFFFFFFF / 10 && d > 0xFFFFFFFFFFFFFFFF
            % 10) {
            proof {
                assert(dec_value(digits.take(i + 1 - base)) == n * 10 + d
                    > 0xFFFFFFFFFFFFFFFFu64);
                lemma_dec_value_out(digits, i + 1 - base);
            }
            return None;
        }
        n = n * 10 + d;
        i = i + 1;
    }
    proof {
        assert(digits.take(cs@.len() - base) =~= digits);
    }
    Some(n)
}

} // verus!
