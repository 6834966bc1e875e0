//! Compact base-32 text codec for 128-bit identifiers.
//!
//! An identifier is rendered as a sequence of 5-bit groups, most significant
//! group first, through the 32-symbol alphabet `0123456789abcdefghijklmnopqrstuv`.
//! Leading zero groups are omitted, except that the value zero encodes to the
//! single symbol `0`. The text form is at most 26 symbols long.

use vstd::prelude::*;

verus! {

/// The symbol that stands for a single 5-bit group.
pub open spec fn symbol_of(d: int) -> char
    recommends
        0 <= d < 32,
{
    if d < 10 {
        ((d + 48) as u8) as char
    } else {
        ((d + 87) as u8) as char
    }
}

/// The value of one symbol, or -1 for a character outside the alphabet.
pub open spec fn symbol_value(c: char) -> int {
    if 48 <= c as int <= 57 {
        c as int - 48
    } else if 97 <= c as int <= 118 {
        c as int - 87
    } else {
        -1
    }
}

pub open spec fn is_symbol(c: char) -> bool {
    symbol_value(c) >= 0
}

/// The text encoding of `n`: 5-bit groups, most significant first, without
/// leading zero groups.
pub open spec fn encode_spec(n: u128) -> Seq<char>
    decreases n,
{
    if n < 32 {
        seq![symbol_of(n as int)]
    } else {
        encode_spec((n / 32) as u128) + seq![symbol_of((n % 32) as int)]
    }
}

/// The number denoted by a sequence of symbols, most significant first.
pub open spec fn decode_num(s: Seq<char>) -> int
    decreases s.len(),
{
    if s.len() == 0 {
        0
    } else {
        decode_num(s.drop_last()) * 32 + symbol_value(s.last())
    }
}

/// What decoding yields: `None` for an empty or over-long string, one with a
/// character outside the alphabet, or one denoting a value past the 128-bit
/// range; otherwise the denoted value. An invalid identifier is an explicit
/// `None`, never a numeric default.
pub open spec fn decode_spec(s: Seq<char>) -> Option<u128> {
    if s.len() < 1 || s.len() > 26 {
        None
    } else if exists|i: int| 0 <= i < s.len() && !is_symbol(s[i]) {
        None
    } else if decode_num(s) >= 0x100000000000000000000000000000000int {
        None
    } else {
        Some(decode_num(s) as u128)
    }
}

fn symbol_char(d: u8) -> (c: char)
    requires
        d < 32,
    ensures
        c == symbol_of(d as int),
{
    if d < 10 {
        (d + 48) as char
    } else {
        (d + 87) as char
    }
}

/// The symbols of `n` with no special case for zero: the empty sequence for
/// zero, otherwise the 5-bit groups, most significant first.
pub open spec fn groups_of(n: u128) -> Seq<char>
    decreases n,
{
    if n == 0 {
        Seq::empty()
    } else {
        groups_of((n / 32) as u128) + seq![symbol_of((n % 32) as int)]
    }
}

proof fn lemma_encode_groups(n: u128)
    requires
        n > 0,
    ensures
        encode_spec(n) == groups_of(n),
    decreases n,
{
    if n >= 32 {
        lemma_encode_groups((n / 32) as u128);
    } else {
        assert(groups_of((n / 32) as u128) =~= Seq::<char>::empty());
        assert(groups_of(n) =~= seq![symbol_of((n % 32) as int)]);
    }
}

/// A value wrapping a 128-bit identifier for rendering in the compact base-32
/// text form.
pub struct Radix32(u128);

impl View for Radix32 {
    type V = u128;

    closed spec fn view(&self) -> u128 {
        self.0
    }
}

/// Wraps `n` for rendering.
pub fn radix_32(n: u128) -> (r: Radix32)
    ensures
        r@ == n,
{
    Radix32(n)
}

impl Radix32 {
    /// The compact text form of the wrapped identifier.
    pub fn to_text(&self) -> (s: String)
        ensures
            s@ == encode_spec(self@),
    {
        let out = encode_chars(self.0);
        crate::util::text::string_from_chars(&out)
    }
}

/// The compact text form of an identifier, as a character buffer.
pub fn encode_chars(n: u128) -> (out: Vec<char>)
    ensures
        out@ == encode_spec(n),
{
    {
        if n == 0 {
            let digits: Vec<char> = vec!['0'];
            proof {
                assert(encode_spec(0) =~= seq![symbol_of(0)]);
                assert(symbol_of(0) == '0');
                assert(digits@ =~= encode_spec(0));
            }
            return digits;
        }
        let mut digits: Vec<char> = Vec::new();
        let mut m: u128 = n;
        loop
            invariant_except_break
                m > 0,
                groups_of(n) == groups_of(m) + digits@.reverse(),
            ensures
                groups_of(n) == digits@.reverse(),
                digits@.len() >= 1,
            decreases m,
        {
            let d = symbol_char((m % 32) as u8);
            let ghost before = digits@;
            digits.push(d);
            proof {
                assert(digits@.reverse() =~= seq![d] + before.reverse());
                assert(groups_of((m / 32) as u128) + digits@.reverse() =~= groups_of(m)
                    + before.reverse());
            }
            m = m / 32;
            if m == 0 {
                break ;
            }
        }
        let mut out: Vec<char> = Vec::new();
        let mut i: usize = digits.len();
        while i > 0
            invariant
                i <= digits@.len(),
                out@ == digits@.reverse().take((digits@.len() - i) as int),
            decreases i,
        {
            i = i - 1;
            out.push(digits[i]);
            proof {
                let k = (digits@.len() - i) as int;
                assert(digits@.reverse().take(k) =~= digits@.reverse().take(k - 1) + seq![
                    digits@.reverse()[k - 1],
                ]);
            }
        }
        proof {
            assert(digits@.reverse().take(digits@.len() as int) =~= digits@.reverse());
            lemma_encode_groups(n);
        }
        out
    }
}
/// Decodes the compact text form back to an identifier. Yields `None` exactly
/// for the empty string, a string longer than 26 characters, a string with a
/// character outside the alphabet, or a string denoting a value past the
/// 128-bit range.
#[verifier::loop_isolation(false)]
pub fn from_radix_32(s: &str) -> (r: Option<u128>)
    ensures
        r == decode_spec(s@),
{
    let cs = crate::util::text::chars_vec(s);
    if cs.len() < 1 || cs.len() > 26 {
        return None;
    }
    let mut n: u128 = 0;
    let mut i: usize = 0;
    while i < cs.len()
        invariant
            1 <= cs@.len() <= 26,
            i <= cs@.len(),
            cs@ == s@,
            forall|j: int| 0 <= j < i ==> is_symbol(cs@[j]),
            n == decode_num(cs@.take(i as int)),
        decreases cs@.len() - i,
    {
        let c = cs[i];
        proof {
            crate::util::text::char_code(c);
        }
        let u = c as u32;
        let v: u128;
        if 48 <= u && u <= 57 {
            v = (u - 48) as u128;
        } else if 97 <= u && u <= 118 {
            v = (u - 87) as u128;
        } else {
            proof {
                assert(!is_symbol(cs@[i as int]));
            }
            return None;
        }
        proof {
            let t = cs@.take(i + 1);
            assert(t.drop_last() =~= cs@.take(i as int));
            assert(t.last() == cs@[i as int]);
            assert(decode_num(t) == n * 32 + v);
        }
        if n >= 0x8000000000000000000000000000000 {
            proof {
                lemma_decode_num_grows(cs@, i + 1);
                if decode_num(cs@) < 0 {
                    lemma_decode_num_negative(cs@);
                }
            }
            return None;
        }
        n = n * 32 + v;
        i = i + 1;
    }
    proof {
        assert(cs@.take(cs@.len() as int) =~= cs@);
    }
    Some(n)
}

/// Once a prefix of the text already denotes a value past the 128-bit range,
/// the whole text denotes one too, or no value at all.
proof fn lemma_decode_num_grows(s: Seq<char>, k: int)
    requires
        0 < k <= s.len(),
        decode_num(s.take(k)) >= 0x100000000000000000000000000000000int,
    ensures
        decode_num(s) < 0 || decode_num(s) >= 0x100000000000000000000000000000000int,
    decreases s.len() - k,
{
    if k == s.len() {
        assert(s.take(k) =~= s);
    } else {
        let t = s.take(k + 1);
        assert(t.drop_last() =~= s.take(k));
        lemma_decode_num_grows(s, k + 1);
    }
}

/// A text denoting no value holds a character outside the alphabet.
proof fn lemma_decode_num_negative(s: Seq<char>)
    requires
        decode_num(s) < 0,
    ensures
        exists|i: int| 0 <= i < s.len() && !is_symbol(#[trigger] s[i]),
    decreases s.len(),
{
    if s.len() == 0 {
    } else if !is_symbol(s.last()) {
        assert(0 <= s.len() - 1 < s.len() && !is_symbol(s[s.len() - 1]));
    } else {
        assert(decode_num(s.drop_last()) < 0);
        lemma_decode_num_negative(s.drop_last());
        let i = choose|i: int|
            0 <= i < s.drop_last().len() && !is_symbol(#[trigger] s.drop_last()[i]);
        assert(s.drop_last()[i] == s[i]);
        assert(0 <= i < s.len() && !is_symbol(s[i]));
    }
}

/// Decoding inverts encoding digit by digit.
proof fn lemma_decode_encode(n: u128)
    ensures
        decode_num(encode_spec(n)) == n,
    decreases n,
{
    if n < 32 {
        let e = encode_spec(n);
        assert(e =~= seq![symbol_of(n as int)]);
        assert(e.drop_last() =~= Seq::<char>::empty());
        assert(symbol_value(symbol_of(n as int)) == n);
        assert(decode_num(e.drop_last()) == 0);
        assert(e.last() == symbol_of(n as int));
        assert(decode_num(e) == decode_num(e.drop_last()) * 32 + symbol_value(e.last()));
        assert(decode_num(e) == n);
    } else {
        lemma_decode_encode((n / 32) as u128);
        let e = encode_spec(n);
        assert(e.drop_last() =~= encode_spec((n / 32) as u128));
        assert(e.last() == symbol_of((n % 32) as int));
        assert(symbol_value(symbol_of((n % 32) as int)) == n % 32);
        vstd::arithmetic::div_mod::lemma_fundamental_div_mod(n as int, 32);
    }
}

/// Every character of an encoding belongs to the alphabet.
proof fn lemma_encode_symbols(n: u128)
    ensures
        forall|i: int| 0 <= i < encode_spec(n).len() ==> is_symbol(#[trigger] encode_spec(n)[i]),
    decreases n,
{
    if n < 32 {
        assert(is_symbol(symbol_of(n as int)));
    } else {
        lemma_encode_symbols((n / 32) as u128);
        assert(is_symbol(symbol_of((n % 32) as int)));
        assert(forall|i: int|
            0 <= i < encode_spec(n).len() ==> is_symbol(#[trigger] encode_spec(n)[i])) by {
            let e = encode_spec((n / 32) as u128);
            assert(forall|i: int| 0 <= i < encode_spec(n).len() ==> #[trigger] encode_spec(n)[i]
                == if i < e.len() {
                    e[i]
                } else {
                    symbol_of((n % 32) as int)
                });
        }
    }
}

proof fn lemma_encode_len_aux(n: u128, k: nat)
    requires
        1 <= k,
        n < vstd::arithmetic::power2::pow2((5 * k) as nat),
    ensures
        encode_spec(n).len() <= k,
    decreases k,
{
    if n < 32 {
    } else {
        vstd::arithmetic::power2::lemma2_to64();
        vstd::arithmetic::power2::lemma_pow2_adds(5, (5 * (k - 1)) as nat);
        assert(n / 32 < vstd::arithmetic::power2::pow2((5 * (k - 1)) as nat));
        lemma_encode_len_aux((n / 32) as u128, (k - 1) as nat);
    }
}

/// An encoding is between 1 and 26 characters long.
pub proof fn lemma_encode_len(n: u128)
    ensures
        1 <= encode_spec(n).len() <= 26,
{
    assert(n < vstd::arithmetic::power2::pow2(130)) by {
        vstd::arithmetic::power2::lemma2_to64();
        vstd::arithmetic::power2::lemma2_to64_rest();
        vstd::arithmetic::power2::lemma_pow2_adds(64, 64);
        vstd::arithmetic::power2::lemma_pow2_adds(128, 2);
    }
    lemma_encode_len_aux(n, 26);
}

/// The encoded form of every identifier stays inside the codec's bounds: it
/// is 1 to 26 characters long, every character belongs to the alphabet, and
/// zero encodes to the single symbol `0`.
pub proof fn lemma_codec_bounds(n: u128)
    ensures
        1 <= encode_spec(n).len() <= 26,
        forall|i: int| 0 <= i < encode_spec(n).len() ==> is_symbol(#[trigger] encode_spec(n)[i]),
        encode_spec(0) =~= seq!['0'],
{
    lemma_encode_len(n);
    lemma_encode_symbols(n);
    assert(symbol_of(0) == '0');
}

/// The codec round trip: decoding an encoded identifier gives the identifier
/// back, for every 128-bit value.
pub proof fn lemma_codec_round_trip(n: u128)
    ensures
        decode_spec(encode_spec(n)) == Some(n),
{
    lemma_codec_bounds(n);
    lemma_decode_encode(n);
    vstd::arithmetic::div_mod::lemma_small_mod(
        n as nat,
        0x100000000000000000000000000000000 as nat,
    );
}

} // verus!
