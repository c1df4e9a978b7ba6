//! Small text utilities the rest of the library builds on: exact string
//! comparison, decimal rendering of the numbers that appear in
//! messages, and decimal parsing for the values that arrive as text.

use vstd::prelude::*;

verus! {

/// Character-wise equality of two string slices.
pub fn str_eq(a: &str, b: &str) -> (r: bool)
    ensures
        r == (a@ == b@),
{
    let la = a.unicode_len();
    let lb = b.unicode_len();
    if la != lb {
        return false;
    }
    let mut i: usize = 0;
    while i < la
        invariant
            i <= la,
            la == a@.len(),
            lb == b@.len(),
            la == lb,
            forall|k: int| 0 <= k < i ==> a@[k] == b@[k],
        decreases la - i,
    {
        if a.get_char(i) != b.get_char(i) {
            return false;
        }
        i += 1;
    }
    proof {
        assert(a@ =~= b@);
    }
    true
}

/// Relies on `String`'s `FromIterator` over `char`: collecting
/// characters yields the string of exactly those characters.
#[verifier::external_body]
pub(crate) fn chars_to_string(v: &Vec<char>) -> (r: String)
    ensures
        r@ == v@,
{
    v.iter().collect()
}

/// The decimal digit character for a value below ten.
pub open spec fn digit_char(d: nat) -> char {
    if d == 0 {
        '0'
    } else if d == 1 {
        '1'
    } else if d == 2 {
        '2'
    } else if d == 3 {
        '3'
    } else if d == 4 {
        '4'
    } else if d == 5 {
        '5'
    } else if d == 6 {
        '6'
    } else if d == 7 {
        '7'
    } else if d == 8 {
        '8'
    } else {
        '9'
    }
}

/// The decimal rendering of a natural number, without sign or leading
/// zeros (zero itself renders as `0`).
pub open spec fn dec_rep(n: nat) -> Seq<char>
    decreases n,
{
    if n < 10 {
        seq![digit_char(n)]
    } else {
        dec_rep(n / 10).push(digit_char(n % 10))
    }
}

/// The decimal rendering of an integer: a minus sign ahead of the
/// magnitude when it is negative.
pub open spec fn dec_rep_int(n: int) -> Seq<char> {
    if n < 0 {
        seq!['-'] + dec_rep((-n) as nat)
    } else {
        dec_rep(n as nat)
    }
}

fn digit_exec(d: u64) -> (c: char)
    requires
        d < 10,
    ensures
        c == digit_char(d as nat),
{
    if d == 0 {
        '0'
    } else if d == 1 {
        '1'
    } else if d == 2 {
        '2'
    } else if d == 3 {
        '3'
    } else if d == 4 {
        '4'
    } else if d == 5 {
        '5'
    } else if d == 6 {
        '6'
    } else if d == 7 {
        '7'
    } else if d == 8 {
        '8'
    } else {
        '9'
    }
}

fn push_dec(out: &mut Vec<char>, n: u64)
    ensures
        final(out)@ == old(out)@ + dec_rep(n as nat),
    decreases n,
{
    if n < 10 {
        out.push(digit_exec(n));
        proof {
            assert(old(out)@ + dec_rep(n as nat) =~= old(out)@.push(digit_char(n as nat)));
        }
    } else {
        push_dec(out, n / 10);
        let ghost mid = out@;
        out.push(digit_exec(n % 10));
        proof {
            assert(dec_rep(n as nat) == dec_rep(n as nat / 10).push(digit_char(n as nat % 10)));
            assert(old(out)@ + dec_rep(n as nat) =~= mid.push(digit_char(n as nat % 10)));
        }
    }
}

/// The decimal text of a 64-bit unsigned number.
pub fn u64_to_string(n: u64) -> (r: String)
    ensures
        r@ == dec_rep(n as nat),
{
    let mut v: Vec<char> = Vec::new();
    push_dec(&mut v, n);
    proof {
        assert(Seq::<char>::empty() + dec_rep(n as nat) =~= dec_rep(n as nat));
    }
    chars_to_string(&v)
}

/// The decimal text of a 64-bit signed number.
pub fn i64_to_string(n: i64) -> (r: String)
    ensures
        r@ == dec_rep_int(n as int),
{
    if n < 0 {
        let m: u64 = (-(n as i128)) as u64;
        let mut v: Vec<char> = Vec::new();
        v.push('-');
        push_dec(&mut v, m);
        proof {
            assert(seq!['-'] =~= Seq::<char>::empty().push('-'));
            assert(seq!['-'] + dec_rep(m as nat) =~= dec_rep_int(n as int));
        }
        chars_to_string(&v)
    } else {
        u64_to_string(n as u64)
    }
}

/// A decimal digit.
pub open spec fn is_digit(c: char) -> bool {
    48 <= c as u32 <= 57
}

/// Its value.
pub open spec fn digit_val(c: char) -> nat {
    (c as u32 - 48) as nat
}

/// Every character is a decimal digit.
pub open spec fn all_digits(s: Seq<char>) -> bool {
    forall|i: int| 0 <= i < s.len() ==> is_digit(#[trigger] s[i])
}

/// The value of a digit string, most significant digit first.
pub open spec fn dec_val(s: Seq<char>) -> nat
    decreases s.len(),
{
    if s.len() == 0 {
        0nat
    } else {
        dec_val(s.drop_last()) * 10 + digit_val(s.last())
    }
}

/// A longer prefix of a digit string never has a larger value than the
/// whole.
proof fn lemma_dec_val_take_le(s: Seq<char>, i: int)
    requires
        0 <= i <= s.len(),
    ensures
        dec_val(s.take(i)) <= dec_val(s),
    decreases s.len() - i,
{
    if i < s.len() {
        assert(s.take(i + 1).drop_last() =~= s.take(i));
        assert(s.take(i + 1).last() == s[i]);
        lemma_dec_val_take_le(s, i + 1);
    } else {
        assert(s.take(i) =~= s);
    }
}

/// Parses an unsigned decimal number: every character must be a digit,
/// at least one is needed, and the value must fit 64 bits.  Exactly the
/// strings violating one of those yield `None`.
#[verifier::loop_isolation(false)]
pub fn parse_u64(s: &str) -> (r: Option<u64>)
    ensures
        r matches Some(v) ==> s@.len() > 0 && all_digits(s@) && v == dec_val(s@),
        r is Some <==> (s@.len() > 0 && all_digits(s@) && dec_val(s@) <= u64::MAX),
{
    let n = s.unicode_len();
    if n == 0 {
        return None;
    }
    let mut acc: u64 = 0;
    let mut i: usize = 0;
    while i < n
        invariant
            i <= n,
            n == s@.len(),
            all_digits(s@.take(i as int)),
            acc == dec_val(s@.take(i as int)),
        decreases n - i,
    {
        let c = s.get_char(i);
        let code = c as u32;
        if code < 48 || code > 57 {
            assert(!is_digit(s@[i as int]));
            return None;
        }
        let d: u64 = (code - 48) as u64;
        let wide: u128 = acc as u128 * 10 + d as u128;
        proof {
            assert(s@.take(i + 1).drop_last() =~= s@.take(i as int));
            assert(s@.take(i + 1).last() == s@[i as int]);
        }
        if wide > u64::MAX as u128 {
            proof {
                lemma_dec_val_take_le(s@, i + 1);
            }
            return None;
        }
        acc = wide as u64;
        i += 1;
    }
    proof {
        assert(s@.take(n as int) =~= s@);
    }
    Some(acc)
}

/// Parses an unsigned decimal number into 16 bits, under the same rule.
pub fn parse_u16(s: &str) -> (r: Option<u16>)
    ensures
        r matches Some(v) ==> s@.len() > 0 && all_digits(s@) && v == dec_val(s@),
        r is Some <==> (s@.len() > 0 && all_digits(s@) && dec_val(s@) <= u16::MAX),
{
    match parse_u64(s) {
        Some(v) => if v <= 65535 {
            Some(v as u16)
        } else {
            None
        },
        None => None,
    }
}

} // verus!
