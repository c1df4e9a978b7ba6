//! The one computation the interactive command surface owes the core:
//! reading a `year/month/day` date out of a command's text, with the
//! store's deliberately loose bounds (a day up to 31 passes in every
//! month).

use vstd::prelude::*;
use crate::compose::views_of;
use crate::text::all_digits;
use crate::text::chars_to_string;
use crate::text::dec_val;
use crate::text::parse_u16;

verus! {

/// The text split on every `/`: always at least one segment, the
/// separators consumed.
pub open spec fn split_slash(s: Seq<char>) -> Seq<Seq<char>>
    decreases s.len(),
{
    if s.len() == 0 {
        seq![Seq::<char>::empty()]
    } else if s[0] == '/' {
        seq![Seq::<char>::empty()] + split_slash(s.drop_first())
    } else {
        let r = split_slash(s.drop_first());
        seq![seq![s[0]] + r[0]] + r.drop_first()
    }
}

pub proof fn lemma_split_slash_len(s: Seq<char>)
    ensures
        split_slash(s).len() >= 1,
    decreases s.len(),
{
    if s.len() > 0 {
        lemma_split_slash_len(s.drop_first());
    }
}

/// A segment that reads as an unsigned 16-bit decimal number.
pub open spec fn num_ok(p: Seq<char>) -> bool {
    p.len() > 0 && all_digits(p) && dec_val(p) <= u16::MAX
}

/// What a date command's argument means: the first three `/`-separated
/// segments must read as numbers, the month must lie in `1..=12` and
/// the day in `1..=31` — nothing more; a fourth segment is ignored, as
/// is a day impossible for its month.
pub open spec fn spec_parse_date(s: Seq<char>) -> Option<(u16, u8, u8)> {
    let parts = split_slash(s);
    if parts.len() >= 3 && num_ok(parts[0]) && num_ok(parts[1]) && num_ok(parts[2]) {
        if 1 <= dec_val(parts[1]) <= 12 && 1 <= dec_val(parts[2]) <= 31 {
            Some(
                (
                    dec_val(parts[0]) as u16,
                    dec_val(parts[1]) as u8,
                    dec_val(parts[2]) as u8,
                ),
            )
        } else {
            None
        }
    } else {
        None
    }
}

/// `prefix` glued onto the front of the first segment.
pub open spec fn prepend_first(p: Seq<char>, segs: Seq<Seq<char>>) -> Seq<Seq<char>> {
    seq![p + segs[0]] + segs.drop_first()
}

/// Splits the text on every `/`.
#[verifier::loop_isolation(false)]
fn split_on_slash(s: &str) -> (r: Vec<String>)
    ensures
        views_of(r@) == split_slash(s@),
{
    let n = s.unicode_len();
    let mut done: Vec<String> = Vec::new();
    let mut cur: Vec<char> = Vec::new();
    let mut i: usize = 0;
    proof {
        assert(s@.skip(0) =~= s@);
        assert(cur@ + split_slash(s@)[0] =~= split_slash(s@)[0]);
        lemma_split_slash_len(s@);
        assert(prepend_first(cur@, split_slash(s@)) =~= split_slash(s@));
        assert(views_of(done@) + split_slash(s@) =~= split_slash(s@));
    }
    while i < n
        invariant
            i <= n,
            n == s@.len(),
            split_slash(s@) == views_of(done@) + prepend_first(cur@, split_slash(s@.skip(i as int))),
        decreases n - i,
    {
        let ghost rest = split_slash(s@.skip(i as int));
        proof {
            assert(s@.skip(i as int)[0] == s@[i as int]);
            assert(s@.skip(i as int).drop_first() =~= s@.skip(i + 1));
            lemma_split_slash_len(s@.skip(i + 1));
        }
        let ghost next = split_slash(s@.skip(i + 1));
        let c = s.get_char(i);
        if c == '/' {
            proof {
                assert(rest == seq![Seq::<char>::empty()] + next);
                assert(rest[0] == Seq::<char>::empty());
                assert(rest.drop_first() =~= next);
                assert(prepend_first(cur@, rest) =~= seq![cur@] + next);
            }
            let done_str = chars_to_string(&cur);
            done.push(done_str);
            cur = Vec::new();
            proof {
                assert(views_of(done@) =~= views_of(done@.drop_last()).push(done@.last()@));
                assert(views_of(done@.drop_last()) + (seq![done@.last()@] + next) =~= views_of(
                    done@,
                ) + next);
                assert(prepend_first(cur@, next) =~= next);
                assert(views_of(done@) + prepend_first(cur@, next) =~= views_of(done@) + next);
            }
        } else {
            proof {
                assert(rest == seq![seq![s@[i as int]] + next[0]] + next.drop_first());
                assert(rest[0] == seq![s@[i as int]] + next[0]);
                assert(rest.drop_first() =~= next.drop_first());
                assert(cur@ + (seq![s@[i as int]] + next[0]) =~= cur@.push(s@[i as int]) + next[0]);
                assert(prepend_first(cur@, rest) =~= prepend_first(
                    cur@.push(s@[i as int]),
                    next,
                ));
            }
            cur.push(c);
        }
        i += 1;
    }
    proof {
        assert(s@.skip(n as int) =~= Seq::<char>::empty());
        let last = split_slash(s@.skip(n as int));
        assert(last == seq![Seq::<char>::empty()]);
        assert(cur@ + last[0] =~= cur@);
        assert(last.drop_first() =~= Seq::<Seq<char>>::empty());
        assert(prepend_first(cur@, last) =~= seq![cur@]);
    }
    let tail = chars_to_string(&cur);
    done.push(tail);
    proof {
        assert(views_of(done@) =~= views_of(done@.drop_last()).push(done@.last()@));
        assert(views_of(done@.drop_last()) + seq![done@.last()@] =~= views_of(done@));
        assert(views_of(done@) =~= split_slash(s@));
    }
    done
}

/// Reads a `year/month/day` date: the first three `/`-separated
/// segments must be decimal numbers, the month in `1..=12`, the day in
/// `1..=31`; any further segments are ignored, and no per-month day
/// count is checked.
pub fn parse_date(s: &str) -> (r: Option<(u16, u8, u8)>)
    ensures
        r == spec_parse_date(s@),
{
    let parts = split_on_slash(s);
    if parts.len() < 3 {
        return None;
    }
    proof {
        assert(views_of(parts@)[0] == parts@[0]@);
        assert(views_of(parts@)[1] == parts@[1]@);
        assert(views_of(parts@)[2] == parts@[2]@);
    }
    let year = match parse_u16(parts[0].as_str()) {
        Some(v) => v,
        None => {
            return None;
        },
    };
    let month = match parse_u16(parts[1].as_str()) {
        Some(v) => v,
        None => {
            return None;
        },
    };
    let day = match parse_u16(parts[2].as_str()) {
        Some(v) => v,
        None => {
            return None;
        },
    };
    if month < 1 || month > 12 || day < 1 || day > 31 {
        return None;
    }
    Some((year, month as u8, day as u8))
}

} // verus!
