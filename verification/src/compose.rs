//! The message composer: renders a template whose `&` markers are
//! consumed left to right by substitution values, and reports where each
//! value landed as an `(offset, length)` span measured in UTF-16 code
//! units — the unit the rich-text mention annotation needs.

use vstd::prelude::*;
use crate::text::chars_to_string;

verus! {

/// UTF-16 code units one character occupies: one for the Basic
/// Multilingual Plane, two for a surrogate pair.
pub open spec fn utf16_len_char(c: char) -> nat {
    if (c as u32) < 0x10000 {
        1nat
    } else {
        2nat
    }
}

/// UTF-16 code units of a character sequence.
pub open spec fn utf16_len(s: Seq<char>) -> nat
    decreases s.len(),
{
    if s.len() == 0 {
        0nat
    } else {
        utf16_len_char(s[0]) + utf16_len(s.drop_first())
    }
}

pub proof fn lemma_utf16_len_add(a: Seq<char>, b: Seq<char>)
    ensures
        utf16_len(a + b) == utf16_len(a) + utf16_len(b),
    decreases a.len(),
{
    if a.len() == 0 {
        assert(a + b =~= b);
    } else {
        assert((a + b).drop_first() =~= a.drop_first() + b);
        assert((a + b)[0] == a[0]);
        lemma_utf16_len_add(a.drop_first(), b);
    }
}

pub proof fn lemma_utf16_len_singleton(c: char)
    ensures
        utf16_len(seq![c]) == utf16_len_char(c),
{
    assert(utf16_len(Seq::<char>::empty()) == 0);
    assert(seq![c].drop_first() =~= Seq::<char>::empty());
    assert(seq![c][0] == c);
}

pub proof fn lemma_utf16_len_push(s: Seq<char>, c: char)
    ensures
        utf16_len(s.push(c)) == utf16_len(s) + utf16_len_char(c),
{
    assert(s.push(c) =~= s + seq![c]);
    lemma_utf16_len_add(s, seq![c]);
    lemma_utf16_len_singleton(c);
}

/// The views of a list of substitution values.
pub open spec fn views_of(args: Seq<String>) -> Seq<Seq<char>> {
    args.map_values(|a: String| a@)
}

/// Spans as the mathematics sees them.
pub open spec fn span_view(s: Seq<(usize, usize)>) -> Seq<(int, int)> {
    s.map_values(|p: (usize, usize)| (p.0 as int, p.1 as int))
}

/// What composing renders and where the substitutions land, processing
/// the template from the front: `k` values are already consumed and the
/// output so far is `off` UTF-16 units long.
pub open spec fn spec_compose(t: Seq<char>, args: Seq<Seq<char>>, k: int, off: int) -> (
    Seq<char>,
    Seq<(int, int)>,
)
    decreases t.len(),
{
    if t.len() == 0 {
        (Seq::<char>::empty(), Seq::<(int, int)>::empty())
    } else if t[0] == '&' && k < args.len() {
        let a = args[k];
        let rest = spec_compose(t.drop_first(), args, k + 1, off + utf16_len(a));
        (a + rest.0, seq![(off, utf16_len(a) as int)] + rest.1)
    } else {
        let rest = spec_compose(t.drop_first(), args, k, off + utf16_len_char(t[0]));
        (seq![t[0]] + rest.0, rest.1)
    }
}

/// The rendered text.
pub open spec fn spec_rendered(t: Seq<char>, args: Seq<Seq<char>>) -> Seq<char> {
    spec_compose(t, args, 0, 0).0
}

/// The substitution spans, in template order.
pub open spec fn spec_spans(t: Seq<char>, args: Seq<Seq<char>>) -> Seq<(int, int)> {
    spec_compose(t, args, 0, 0).1
}

#[verifier::rlimit(100)]
proof fn lemma_spans_rec(t: Seq<char>, args: Seq<Seq<char>>, k: int, off: int)
    requires
        0 <= k <= args.len(),
        0 <= off,
    ensures
        forall|j: int|
            0 <= j < spec_compose(t, args, k, off).1.len() ==> {
                let sp = #[trigger] spec_compose(t, args, k, off).1[j];
                &&& sp.1 == utf16_len(args[k + j])
                &&& off <= sp.0
                &&& sp.0 + sp.1 <= off + utf16_len(spec_compose(t, args, k, off).0)
            },
        forall|j: int|
            0 <= j && j + 1 < spec_compose(t, args, k, off).1.len() ==> (#[trigger] spec_compose(
                t,
                args,
                k,
                off,
            ).1[j]).0 + spec_compose(t, args, k, off).1[j].1 <= spec_compose(t, args, k, off).1[j
                + 1].0,
    decreases t.len(),
{
    if t.len() == 0 {
    } else if t[0] == '&' && k < args.len() {
        let a = args[k];
        let la = utf16_len(a);
        let rest = spec_compose(t.drop_first(), args, k + 1, off + la);
        lemma_spans_rec(t.drop_first(), args, k + 1, off + la);
        lemma_utf16_len_add(a, rest.0);
        let full = spec_compose(t, args, k, off);
        assert(full.1 == seq![(off, la as int)] + rest.1);
        assert forall|j: int| 0 <= j < full.1.len() implies {
            let sp = #[trigger] full.1[j];
            &&& sp.1 == utf16_len(args[k + j])
            &&& off <= sp.0
            &&& sp.0 + sp.1 <= off + utf16_len(full.0)
        } by {
            if j == 0 {
                assert(full.1[0] == (off, la as int));
            } else {
                assert(full.1[j] == rest.1[j - 1]);
            }
        }
        assert forall|j: int| 0 <= j && j + 1 < full.1.len() implies (#[trigger] full.1[j]).0
            + full.1[j].1 <= full.1[j + 1].0 by {
            if j == 0 {
                assert(full.1[0] == (off, la as int));
                assert(full.1[1] == rest.1[0]);
            } else {
                assert(full.1[j] == rest.1[j - 1]);
                assert(full.1[j + 1] == rest.1[j]);
            }
        }
    } else {
        let lc = utf16_len_char(t[0]);
        let rest = spec_compose(t.drop_first(), args, k, off + lc);
        lemma_spans_rec(t.drop_first(), args, k, off + lc);
        lemma_utf16_len_add(seq![t[0]], rest.0);
        lemma_utf16_len_singleton(t[0]);
        let full = spec_compose(t, args, k, off);
        assert(full.1 == rest.1);
        assert forall|j: int| 0 <= j < full.1.len() implies {
            let sp = #[trigger] full.1[j];
            &&& sp.1 == utf16_len(args[k + j])
            &&& off <= sp.0
            &&& sp.0 + sp.1 <= off + utf16_len(full.0)
        } by {
            assert(full.1[j] == rest.1[j]);
        }
        assert forall|j: int| 0 <= j && j + 1 < full.1.len() implies (#[trigger] full.1[j]).0
            + full.1[j].1 <= full.1[j + 1].0 by {
            assert(full.1[j] == rest.1[j]);
            assert(full.1[j + 1] == rest.1[j + 1]);
        }
    }
}

/// Law: every reported span is exactly as long, in UTF-16 units, as the
/// substitution value it stands for; spans lie inside the rendered text
/// and follow each other without overlap, in template order.
pub proof fn lemma_compose_span_exact(t: Seq<char>, args: Seq<Seq<char>>)
    ensures
        forall|j: int|
            0 <= j < spec_spans(t, args).len() ==> (#[trigger] spec_spans(t, args)[j]).1
                == utf16_len(args[j]),
        forall|j: int|
            0 <= j < spec_spans(t, args).len() ==> 0 <= (#[trigger] spec_spans(t, args)[j]).0
                && spec_spans(t, args)[j].0 + spec_spans(t, args)[j].1 <= utf16_len(
                spec_rendered(t, args),
            ),
        forall|j: int|
            0 <= j && j + 1 < spec_spans(t, args).len() ==> (#[trigger] spec_spans(t, args)[j]).0
                + spec_spans(t, args)[j].1 <= spec_spans(t, args)[j + 1].0,
{
    lemma_spans_rec(t, args, 0, 0);
}

/// The substitution value `arg` sits in `text` at the span starting at
/// `offset`: some character position carries exactly `arg`, and the
/// UTF-16 length of everything before it, counted from `base`, is the
/// span's offset.
pub open spec fn span_points_at(text: Seq<char>, arg: Seq<char>, offset: int, base: int) -> bool {
    exists|c0: int|
        #![auto]
        0 <= c0 && c0 + arg.len() <= text.len() && text.subrange(c0, c0 + arg.len()) == arg && base
            + utf16_len(text.take(c0)) == offset
}

#[verifier::rlimit(100)]
proof fn lemma_spans_content_rec(t: Seq<char>, args: Seq<Seq<char>>, k: int, off: int)
    requires
        0 <= k <= args.len(),
    ensures
        forall|j: int|
            0 <= j < spec_compose(t, args, k, off).1.len() ==> span_points_at(
                spec_compose(t, args, k, off).0,
                args[k + j],
                (#[trigger] spec_compose(t, args, k, off).1[j]).0,
                off,
            ),
    decreases t.len(),
{
    if t.len() == 0 {
    } else if t[0] == '&' && k < args.len() {
        let a = args[k];
        let la = utf16_len(a);
        let rest = spec_compose(t.drop_first(), args, k + 1, off + la);
        lemma_spans_content_rec(t.drop_first(), args, k + 1, off + la);
        let full = spec_compose(t, args, k, off);
        assert(full.0 == a + rest.0);
        assert(full.1 == seq![(off, la as int)] + rest.1);
        assert forall|j: int| 0 <= j < full.1.len() implies span_points_at(
            full.0,
            args[k + j],
            (#[trigger] full.1[j]).0,
            off,
        ) by {
            if j == 0 {
                assert(full.1[0] == (off, la as int));
                assert(full.0.subrange(0, a.len() as int) =~= a);
                assert(full.0.take(0) =~= Seq::<char>::empty());
                assert(utf16_len(full.0.take(0)) == 0);
                assert(0 + a.len() <= full.0.len());
            } else {
                assert(full.1[j] == rest.1[j - 1]);
                let arg = args[k + j];
                assert(span_points_at(rest.0, arg, rest.1[j - 1].0, off + la));
                let c0 = choose|c0: int|
                    #![auto]
                    0 <= c0 && c0 + arg.len() <= rest.0.len() && rest.0.subrange(c0, c0 + arg.len())
                        == arg && (off + la) + utf16_len(rest.0.take(c0)) == rest.1[j - 1].0;
                let c1 = a.len() + c0;
                assert(full.0.subrange(c1, c1 + arg.len()) =~= rest.0.subrange(c0, c0 + arg.len()));
                assert(full.0.take(c1) =~= a + rest.0.take(c0));
                lemma_utf16_len_add(a, rest.0.take(c0));
            }
        }
    } else {
        let lc = utf16_len_char(t[0]);
        let rest = spec_compose(t.drop_first(), args, k, off + lc);
        lemma_spans_content_rec(t.drop_first(), args, k, off + lc);
        lemma_utf16_len_singleton(t[0]);
        let full = spec_compose(t, args, k, off);
        assert(full.0 == seq![t[0]] + rest.0);
        assert(full.1 == rest.1);
        assert forall|j: int| 0 <= j < full.1.len() implies span_points_at(
            full.0,
            args[k + j],
            (#[trigger] full.1[j]).0,
            off,
        ) by {
            assert(full.1[j] == rest.1[j]);
            let arg = args[k + j];
            assert(span_points_at(rest.0, arg, rest.1[j].0, off + lc));
            let c0 = choose|c0: int|
                #![auto]
                0 <= c0 && c0 + arg.len() <= rest.0.len() && rest.0.subrange(c0, c0 + arg.len())
                    == arg && (off + lc) + utf16_len(rest.0.take(c0)) == rest.1[j].0;
            let c1 = 1 + c0;
            assert(full.0.subrange(c1, c1 + arg.len()) =~= rest.0.subrange(c0, c0 + arg.len()));
            assert(full.0.take(c1) =~= seq![t[0]] + rest.0.take(c0));
            lemma_utf16_len_add(seq![t[0]], rest.0.take(c0));
        }
    }
}

/// Law: every reported span points exactly at its substitution value in
/// the rendered text — the value's characters sit there, and the
/// UTF-16 length of everything before them is the reported offset.
pub proof fn lemma_compose_span_content(t: Seq<char>, args: Seq<Seq<char>>)
    ensures
        forall|j: int|
            0 <= j < spec_spans(t, args).len() ==> span_points_at(
                spec_rendered(t, args),
                args[j],
                (#[trigger] spec_spans(t, args)[j]).0,
                0,
            ),
{
    lemma_spans_content_rec(t, args, 0, 0);
}

/// Renders `template`, substituting one value of `args` for each `&`
/// marker, left to right, and reports each substitution's UTF-16
/// `(offset, length)` span.  `None` only when the rendered text would
/// not fit a `usize` of UTF-16 units.  Deterministic: the result is a
/// function of the arguments alone.
#[verifier::loop_isolation(false)]
pub fn compose(template: &str, args: &Vec<String>) -> (r: Option<(String, Vec<(usize, usize)>)>)
    ensures
        r matches Some(p) ==> p.0@ == spec_rendered(template@, views_of(args@)) && span_view(p.1@)
            == spec_spans(template@, views_of(args@)),
        r is Some <==> utf16_len(spec_rendered(template@, views_of(args@))) <= usize::MAX,
{
    let ghost t = template@;
    let ghost vargs = views_of(args@);
    let ghost full = spec_compose(t, vargs, 0, 0);
    let tlen = template.unicode_len();
    let mut out: Vec<char> = Vec::new();
    let mut spans: Vec<(usize, usize)> = Vec::new();
    let mut utf16_size: usize = 0;
    let mut arg_n: usize = 0;
    let mut i: usize = 0;
    proof {
        assert(t.skip(0) =~= t);
        assert(out@ + full.0 =~= full.0);
        assert(span_view(spans@) =~= Seq::<(int, int)>::empty());
        assert(span_view(spans@) + full.1 =~= full.1);
        assert(utf16_len(out@) == 0);
    }
    while i < tlen
        invariant
            i <= tlen,
            arg_n <= args.len(),
            utf16_size == utf16_len(out@),
            full.0 == out@ + spec_compose(t.skip(i as int), vargs, arg_n as int, utf16_size as int).0,
            full.1 == span_view(spans@) + spec_compose(
                t.skip(i as int),
                vargs,
                arg_n as int,
                utf16_size as int,
            ).1,
        decreases tlen - i,
    {
        let ghost restpair = spec_compose(t.skip(i as int), vargs, arg_n as int, utf16_size as int);
        proof {
            assert(t.skip(i as int)[0] == t[i as int]);
            assert(t.skip(i as int).drop_first() =~= t.skip(i + 1));
        }
        let c = template.get_char(i);
        if c == '&' && arg_n < args.len() {
            let ghost a = vargs[arg_n as int];
            let ghost la = utf16_len(a);
            let ghost nextpair = spec_compose(t.skip(i + 1), vargs, arg_n + 1, utf16_size + la);
            proof {
                assert(restpair.0 == a + nextpair.0);
                assert(restpair.1 == seq![(utf16_size as int, la as int)] + nextpair.1);
            }
            let start = utf16_size;
            let arg = &args[arg_n];
            let alen = arg.as_str().unicode_len();
            let mut j: usize = 0;
            let ghost out_before = out@;
            proof {
                assert(a == arg@);
                assert(a.take(0) =~= Seq::<char>::empty());
                assert(out@ + a.take(0) =~= out@);
                assert(utf16_len(a.take(0)) == 0);
            }
            while j < alen
                invariant
                    j <= alen,
                    alen == a.len(),
                    a == arg@,
                    out@ == out_before + a.take(j as int),
                    utf16_size == start + utf16_len(a.take(j as int)),
                    utf16_len(out@) == utf16_size,
                    start == utf16_len(out_before),
                decreases alen - j,
            {
                let ac = arg.as_str().get_char(j);
                let add: usize = if (ac as u32) < 0x10000 {
                    1
                } else {
                    2
                };
                proof {
                    lemma_utf16_len_push(a.take(j as int), a[j as int]);
                    assert(a.take(j + 1) =~= a.take(j as int).push(a[j as int]));
                    lemma_utf16_len_push(out@, ac);
                }
                if utf16_size > usize::MAX - add {
                    // The rendered text cannot be addressed in UTF-16
                    // units: report the overflow instead of wrapping.
                    proof {
                        lemma_utf16_len_add(out_before, a.take(j as int));
                        lemma_utf16_len_add(a.take(j as int), a.skip(j as int));
                        assert(a.take(j as int) + a.skip(j as int) =~= a);
                        assert(utf16_len(a.skip(j as int)) >= utf16_len_char(a[j as int])) by {
                            assert(a.skip(j as int)[0] == a[j as int]);
                        }
                        lemma_utf16_len_add(out_before + a.take(j as int), a.skip(j as int));
                        assert(out_before + a.take(j as int) + a.skip(j as int) =~= out_before + a);
                        lemma_utf16_len_add(a, nextpair.0);
                        lemma_utf16_len_add(out_before, a + nextpair.0);
                        assert(out_before + (a + nextpair.0) =~= out_before + a + nextpair.0);
                        assert(full.0 =~= out_before + a + nextpair.0);
                        assert(utf16_len(full.0) > usize::MAX);
                    }
                    return None;
                }
                out.push(ac);
                utf16_size = utf16_size + add;
                j += 1;
            }
            proof {
                assert(a.take(alen as int) =~= a);
            }
            spans.push((start, utf16_size - start));
            arg_n = arg_n + 1;
            proof {
                assert(span_view(spans@) =~= span_view(spans@.drop_last()).push(
                    (start as int, la as int),
                ));
                assert(span_view(spans@.drop_last()) + (seq![(start as int, la as int)]
                    + nextpair.1) =~= span_view(spans@) + nextpair.1);
                assert(out_before + (a + nextpair.0) =~= (out_before + a) + nextpair.0);
            }
        } else {
            let add: usize = if (c as u32) < 0x10000 {
                1
            } else {
                2
            };
            let ghost nextpair = spec_compose(
                t.skip(i + 1),
                vargs,
                arg_n as int,
                utf16_size + utf16_len_char(c),
            );
            proof {
                assert(restpair.0 == seq![c] + nextpair.0);
                assert(restpair.1 == nextpair.1);
            }
            if utf16_size > usize::MAX - add {
                proof {
                    lemma_utf16_len_add(seq![c], nextpair.0);
                    lemma_utf16_len_singleton(c);
                    lemma_utf16_len_add(out@, seq![c] + nextpair.0);
                    assert(utf16_len(full.0) > usize::MAX);
                }
                return None;
            }
            let ghost out_old = out@;
            out.push(c);
            utf16_size = utf16_size + add;
            proof {
                lemma_utf16_len_push(out_old, c);
                assert(out@ == out_old.push(c));
                assert(out_old + (seq![c] + nextpair.0) =~= out@ + nextpair.0);
            }
        }
        i += 1;
    }
    proof {
        assert(t.skip(tlen as int) =~= Seq::<char>::empty());
        assert(full.0 == out@);
        assert(full.1 == span_view(spans@));
    }
    Some((chars_to_string(&out), spans))
}

} // verus!
