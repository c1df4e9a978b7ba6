//! The localized label table: a mapping from `(locale, key)` to text
//! with one explicit fallback rule — an unknown pair falls back to the
//! default locale, and a key the default locale lacks is a
//! configuration fault the caller must surface at startup, never a
//! runtime panic.

use vstd::prelude::*;
use crate::text::str_eq;

verus! {

/// The table as the mathematics sees it: `(locale, key, text)` rows.
pub type LabelRow = (Seq<char>, Seq<char>, Seq<char>);

/// The locale an unknown pair falls back to.
pub open spec fn default_locale() -> Seq<char> {
    "en"@
}

/// The text stored for `(lang, key)`, if any.
pub open spec fn spec_lookup(t: Seq<LabelRow>, lang: Seq<char>, key: Seq<char>) -> Option<
    Seq<char>,
> {
    if exists|i: int|
        0 <= i < t.len() && (#[trigger] t[i]).0 == lang && t[i].1 == key {
        Some(
            t[choose|i: int|
                0 <= i < t.len() && (#[trigger] t[i]).0 == lang && t[i].1 == key].2,
        )
    } else {
        None
    }
}

/// The fallback rule: the pair itself, else the same key in the default
/// locale.
pub open spec fn spec_resolved(t: Seq<LabelRow>, lang: Seq<char>, key: Seq<char>) -> Option<
    Seq<char>,
> {
    match spec_lookup(t, lang, key) {
        Option::Some(v) => Option::Some(v),
        Option::None => spec_lookup(t, default_locale(), key),
    }
}

/// The localized label table.
pub struct Langs {
    entries: Vec<(String, String, String)>,
}

impl Langs {
    /// The rows, in insertion order.
    pub closed spec fn table(&self) -> Seq<LabelRow> {
        self.entries@.map_values(|e: (String, String, String)| (e.0@, e.1@, e.2@))
    }

    /// No `(locale, key)` pair occurs twice.
    pub open spec fn wf(&self) -> bool {
        forall|i: int, j: int|
            0 <= i < j < self.table().len() ==> !((#[trigger] self.table()[i]).0 == (
            #[trigger] self.table()[j]).0 && self.table()[i].1 == self.table()[j].1)
    }

    /// An empty table.
    pub fn new() -> (r: Langs)
        ensures
            r.wf(),
            r.table() == Seq::<LabelRow>::empty(),
    {
        let r = Langs { entries: Vec::new() };
        proof {
            assert(r.table() =~= Seq::<LabelRow>::empty());
        }
        r
    }

    /// The row index holding `(lang, key)`, if any.
    #[verifier::loop_isolation(false)]
    fn find(&self, lang: &str, key: &str) -> (r: Option<usize>)
        requires
            self.wf(),
        ensures
            r matches Some(i) ==> i < self.table().len() && self.table()[i as int].0 == lang@
                && self.table()[i as int].1 == key@,
            r is None ==> spec_lookup(self.table(), lang@, key@) is None,
    {
        let mut i: usize = 0;
        while i < self.entries.len()
            invariant
                i <= self.table().len(),
                forall|k: int|
                    0 <= k < i ==> !((#[trigger] self.table()[k]).0 == lang@ && self.table()[k].1
                        == key@),
            decreases self.table().len() - i,
        {
            let hit = str_eq(self.entries[i].0.as_str(), lang) && str_eq(
                self.entries[i].1.as_str(),
                key,
            );
            if hit {
                return Some(i);
            }
            i += 1;
        }
        None
    }

    /// Stores (or replaces) the text for `(lang, key)`.  Every other
    /// pair keeps its text.
    #[verifier::loop_isolation(false)]
    pub fn set(&mut self, lang: &str, key: &str, text: &str)
        requires
            old(self).wf(),
        ensures
            final(self).wf(),
            spec_lookup(final(self).table(), lang@, key@) == Option::Some(text@),
            forall|l: Seq<char>, k: Seq<char>|
                !(l == lang@ && k == key@) ==> #[trigger] spec_lookup(final(self).table(), l, k)
                    == spec_lookup(old(self).table(), l, k),
    {
        let row = (String::from_str(lang), String::from_str(key), String::from_str(text));
        match self.find(lang, key) {
            Some(i) => {
                self.entries[i] = row;
                proof {
                    let s = old(self).table();
                    let t = self.table();
                    assert(t =~= s.update(i as int, (lang@, key@, text@)));
                    Self::lemma_update(s, t, i as int, lang@, key@, text@);
                }
            },
            None => {
                self.entries.push(row);
                proof {
                    let s = old(self).table();
                    let t = self.table();
                    assert(t =~= s.push((lang@, key@, text@)));
                    assert(t[t.len() - 1] == (lang@, key@, text@));
                    assert forall|i2: int, j2: int| 0 <= i2 < j2 < t.len() implies !((
                    #[trigger] t[i2]).0 == (#[trigger] t[j2]).0 && t[i2].1 == t[j2].1) by {
                        if j2 < s.len() {
                            assert(t[i2] == s[i2] && t[j2] == s[j2]);
                        } else {
                            assert(t[i2] == s[i2]);
                        }
                    }
                    assert(spec_lookup(t, lang@, key@) == Option::Some(text@)) by {
                        let w = choose|i2: int|
                            0 <= i2 < t.len() && (#[trigger] t[i2]).0 == lang@ && t[i2].1 == key@;
                        assert(t[t.len() - 1].0 == lang@ && t[t.len() - 1].1 == key@);
                        assert(w == t.len() - 1);
                    }
                    assert forall|l: Seq<char>, k: Seq<char>|
                        !(l == lang@ && k == key@) implies #[trigger] spec_lookup(t, l, k)
                        == spec_lookup(s, l, k) by {
                        if exists|i2: int|
                            0 <= i2 < t.len() && (#[trigger] t[i2]).0 == l && t[i2].1 == k {
                            let w = choose|i2: int|
                                0 <= i2 < t.len() && (#[trigger] t[i2]).0 == l && t[i2].1 == k;
                            assert(w < s.len());
                            assert(s[w] == t[w]);
                            let w2 = choose|i2: int|
                                0 <= i2 < s.len() && (#[trigger] s[i2]).0 == l && s[i2].1 == k;
                            assert(w2 == w);
                        } else {
                            assert forall|i2: int| 0 <= i2 < s.len() implies !((
                            #[trigger] s[i2]).0 == l && s[i2].1 == k) by {
                                assert(t[i2] == s[i2]);
                            }
                        }
                    }
                }
            },
        }
    }

    /// After replacing row `at` (which already carried the pair) the
    /// pair resolves to the new text and every other pair is untouched.
    proof fn lemma_update(
        s: Seq<LabelRow>,
        t: Seq<LabelRow>,
        at: int,
        lang: Seq<char>,
        key: Seq<char>,
        text: Seq<char>,
    )
        requires
            forall|i: int, j: int|
                0 <= i < j < s.len() ==> !((#[trigger] s[i]).0 == (#[trigger] s[j]).0 && s[i].1
                    == s[j].1),
            0 <= at < s.len(),
            s[at].0 == lang,
            s[at].1 == key,
            t == s.update(at, (lang, key, text)),
        ensures
            forall|i: int, j: int|
                0 <= i < j < t.len() ==> !((#[trigger] t[i]).0 == (#[trigger] t[j]).0 && t[i].1
                    == t[j].1),
            spec_lookup(t, lang, key) == Option::Some(text),
            forall|l: Seq<char>, k: Seq<char>|
                !(l == lang && k == key) ==> #[trigger] spec_lookup(t, l, k) == spec_lookup(
                    s,
                    l,
                    k,
                ),
    {
        assert forall|i: int, j: int| 0 <= i < j < t.len() implies !((#[trigger] t[i]).0 == (
        #[trigger] t[j]).0 && t[i].1 == t[j].1) by {
            assert(!(s[i].0 == s[j].0 && s[i].1 == s[j].1));
            assert(t[i].0 == s[i].0 && t[i].1 == s[i].1);
            assert(t[j].0 == s[j].0 && t[j].1 == s[j].1);
        }
        assert(spec_lookup(t, lang, key) == Option::Some(text)) by {
            assert(t[at].0 == lang && t[at].1 == key);
            let w = choose|i: int|
                0 <= i < t.len() && (#[trigger] t[i]).0 == lang && t[i].1 == key;
            assert(w == at);
        }
        assert forall|l: Seq<char>, k: Seq<char>|
            !(l == lang && k == key) implies #[trigger] spec_lookup(t, l, k) == spec_lookup(
            s,
            l,
            k,
        ) by {
            assert(forall|i: int|
                0 <= i < t.len() ==> (#[trigger] t[i]).0 == s[i].0 && t[i].1 == s[i].1);
            if exists|i: int| 0 <= i < t.len() && (#[trigger] t[i]).0 == l && t[i].1 == k {
                let w = choose|i: int|
                    0 <= i < t.len() && (#[trigger] t[i]).0 == l && t[i].1 == k;
                assert(s[w].0 == l && s[w].1 == k);
                let w2 = choose|i: int|
                    0 <= i < s.len() && (#[trigger] s[i]).0 == l && s[i].1 == k;
                assert(w2 == w);
                assert(w != at);
                assert(t[w] == s[w]);
            } else {
                assert forall|i: int| 0 <= i < s.len() implies !((#[trigger] s[i]).0 == l && s[i].1
                    == k) by {
                    assert(t[i].0 == s[i].0 && t[i].1 == s[i].1);
                }
            }
        }
    }

    /// The label for `(lang, msg)` under the fallback rule: the pair's
    /// own text when stored, else the default locale's text for the
    /// key, else nothing.
    pub fn get(&self, lang: &str, msg: &str) -> (r: Option<String>)
        requires
            self.wf(),
        ensures
            r matches Some(v) ==> spec_resolved(self.table(), lang@, msg@) == Option::Some(v@),
            r is Some <==> spec_resolved(self.table(), lang@, msg@) is Some,
    {
        match self.find(lang, msg) {
            Some(i) => {
                proof {
                    let t = self.table();
                    let w = choose|k: int|
                        0 <= k < t.len() && (#[trigger] t[k]).0 == lang@ && t[k].1 == msg@;
                    assert(w == i as int);
                }
                Some(self.entries[i].2.clone())
            },
            None => {
                match self.find("en", msg) {
                    Some(i) => {
                        proof {
                            let t = self.table();
                            let w = choose|k: int|
                                0 <= k < t.len() && (#[trigger] t[k]).0 == default_locale() && t[k].1
                                    == msg@;
                            assert(w == i as int);
                        }
                        Some(self.entries[i].2.clone())
                    },
                    None => None,
                }
            },
        }
    }

    /// Whether the pair itself is stored (no fallback).
    pub fn has(&self, lang: &str, key: &str) -> (r: bool)
        requires
            self.wf(),
        ensures
            r == (spec_lookup(self.table(), lang@, key@) is Some),
    {
        match self.find(lang, key) {
            Some(_) => true,
            None => false,
        }
    }
}

} // verus!
