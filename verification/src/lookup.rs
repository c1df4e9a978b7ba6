//! What the out-of-process username-lookup boundary needs from the
//! library: whether a handle is worth sending at all, and how the
//! service's textual answer is read back as a numeric identity.

use vstd::prelude::*;
use crate::store::lemma_filter_push;
use crate::text::all_digits;
use crate::text::chars_to_string;
use crate::text::dec_val;
use crate::text::parse_u64;

verus! {

/// A character the handle alphabet accepts: an ASCII letter of either
/// case, a digit, an underscore or the at sign.
pub open spec fn allowed_char(c: char) -> bool {
    ||| 97 <= c as u32 <= 122
    ||| 65 <= c as u32 <= 90
    ||| 48 <= c as u32 <= 57
    ||| c == '_'
    ||| c == '@'
}

/// A handle worth sending to the lookup service: five to thirty-two
/// characters, all from the handle alphabet (letter case does not
/// matter).
pub open spec fn spec_username_valid(s: Seq<char>) -> bool {
    5 <= s.len() <= 32 && forall|i: int| 0 <= i < s.len() ==> allowed_char(#[trigger] s[i])
}

/// Whether a handle may be sent to the username-lookup service.
#[verifier::loop_isolation(false)]
pub fn is_username_valid(username: &str) -> (r: bool)
    ensures
        r == spec_username_valid(username@),
{
    let n = username.unicode_len();
    if n < 5 || n > 32 {
        return false;
    }
    let mut i: usize = 0;
    while i < n
        invariant
            i <= n,
            n == username@.len(),
            forall|k: int| 0 <= k < i ==> allowed_char(#[trigger] username@[k]),
        decreases n - i,
    {
        let c = username.get_char(i);
        let code = c as u32;
        let ok = (97 <= code && code <= 122) || (65 <= code && code <= 90) || (48 <= code && code
            <= 57) || c == '_' || c == '@';
        if !ok {
            return false;
        }
        i += 1;
    }
    true
}

/// The answer with every newline removed.
pub open spec fn without_newlines(s: Seq<char>) -> Seq<char> {
    s.filter(|c: char| c != '\n')
}

/// Strips every newline character.
#[verifier::loop_isolation(false)]
fn remove_newlines(s: &str) -> (r: String)
    ensures
        r@ == without_newlines(s@),
{
    let ghost pred = |c: char| c != '\n';
    let n = s.unicode_len();
    let mut out: Vec<char> = Vec::new();
    let mut i: usize = 0;
    proof {
        assert(s@.take(0) =~= Seq::<char>::empty());
        assert(Seq::<char>::empty().filter(pred) =~= Seq::<char>::empty()) by {
            reveal(Seq::filter);
        }
    }
    while i < n
        invariant
            i <= n,
            n == s@.len(),
            out@ == s@.take(i as int).filter(pred),
        decreases n - i,
    {
        let c = s.get_char(i);
        proof {
            assert(s@.take(i + 1) =~= s@.take(i as int).push(s@[i as int]));
            lemma_filter_push(s@.take(i as int), s@[i as int], pred);
        }
        if c != '\n' {
            out.push(c);
        }
        i += 1;
    }
    proof {
        assert(s@.take(n as int) =~= s@);
    }
    chars_to_string(&out)
}

/// Reads the lookup service's answer: a decimal identity, tolerating
/// newlines anywhere in the text.  `None` exactly when, after removing
/// newlines, no digits remain, a non-digit remains, or the value
/// overflows 64 bits.
pub fn parse_user_id(s: &str) -> (r: Option<u64>)
    ensures
        r matches Some(v) ==> v == dec_val(without_newlines(s@)),
        r is Some <==> (without_newlines(s@).len() > 0 && all_digits(without_newlines(s@))
            && dec_val(without_newlines(s@)) <= u64::MAX),
{
    let cleaned = remove_newlines(s);
    parse_u64(cleaned.as_str())
}

} // verus!
