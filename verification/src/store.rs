//! The record store: one birthday row per user-in-group, plus the two
//! time-zone override tables and the precedence rule that resolves the
//! effective UTC offset at registration time.
//!
//! The store owns its invariants: `(user_id, group_id)` is unique among
//! birthday rows, each override table is keyed uniquely, and every stored
//! date is within the loosely validated `1..=12` / `1..=31` bounds.

use vstd::prelude::*;

verus! {

/// One birthday record tying a user to a group.
pub struct Birthday {
    pub user_id: u64,
    pub group_id: i64,
    pub user_lang: String,
    pub year: u32,
    pub month: u8,
    pub day: u8,
    /// UTC hour offset captured from the resolver when the row was added;
    /// never recomputed afterwards.
    pub timezone: i8,
}

impl Clone for Birthday {
    fn clone(&self) -> (r: Self)
        ensures
            r == *self,
    {
        Birthday {
            user_id: self.user_id,
            group_id: self.group_id,
            user_lang: self.user_lang.clone(),
            year: self.year,
            month: self.month,
            day: self.day,
            timezone: self.timezone,
        }
    }
}

/// Which rows a removal targets: a whole group, a user across every
/// group, or exactly one user-in-group row.
#[derive(Clone, Copy)]
pub enum RemoveBirthday {
    RemoveGroup(i64),
    RemoveUser(u64),
    RemoveUserInGroup { group_id: i64, user_id: u64 },
}

/// The loose date bounds the store accepts: no per-month day count is
/// enforced, so February 30 is deliberately accepted.
pub open spec fn valid_date(month: u8, day: u8) -> bool {
    1 <= month <= 12 && 1 <= day <= 31
}

/// Two records address the same row of the store.
pub open spec fn same_key(a: Birthday, b: Birthday) -> bool {
    a.user_id == b.user_id && a.group_id == b.group_id
}

/// A removal selector matches a record.
pub open spec fn selected(action: RemoveBirthday, b: Birthday) -> bool {
    match action {
        RemoveBirthday::RemoveGroup(g) => b.group_id == g,
        RemoveBirthday::RemoveUser(u) => b.user_id == u,
        RemoveBirthday::RemoveUserInGroup { group_id, user_id } => b.group_id == group_id
            && b.user_id == user_id,
    }
}

/// A record with the given key is present.
pub open spec fn has_key(s: Seq<Birthday>, user_id: u64, group_id: i64) -> bool {
    exists|i: int|
        0 <= i < s.len() && (#[trigger] s[i]).user_id == user_id && s[i].group_id == group_id
}

/// A record's stored month and day equal the queried ones.
pub open spec fn matches_date(b: Birthday, month: u32, day: u32) -> bool {
    b.month as u32 == month && b.day as u32 == day
}

/// No two records address the same row.
pub open spec fn distinct_keys(s: Seq<Birthday>) -> bool {
    forall|i: int, j: int|
        0 <= i < j < s.len() ==> !same_key(#[trigger] s[i], #[trigger] s[j])
}

/// Every record respects the loose date bounds.
pub open spec fn all_valid_dates(s: Seq<Birthday>) -> bool {
    forall|i: int| 0 <= i < s.len() ==> valid_date((#[trigger] s[i]).month, s[i].day)
}

/// The override a keyed table holds for `key`, if any.
pub open spec fn tz_of<K>(s: Seq<(K, i8)>, key: K) -> Option<i8> {
    if exists|i: int| 0 <= i < s.len() && (#[trigger] s[i]).0 == key {
        Some(s[choose|i: int| 0 <= i < s.len() && (#[trigger] s[i]).0 == key].1)
    } else {
        None
    }
}

/// The user-level override for `user_id`, if one exists.
pub open spec fn tz_of_user(s: Seq<(u64, i8)>, user_id: u64) -> Option<i8> {
    tz_of(s, user_id)
}

/// The group-level override for `group_id`, if one exists.
pub open spec fn tz_of_group(s: Seq<(i64, i8)>, group_id: i64) -> Option<i8> {
    tz_of(s, group_id)
}

/// The precedence rule: a user override beats a group override beats the
/// zero default.
pub open spec fn spec_effective_offset(
    user_tzs: Seq<(u64, i8)>,
    group_tzs: Seq<(i64, i8)>,
    user_id: u64,
    group_id: i64,
) -> i8 {
    match tz_of_user(user_tzs, user_id) {
        Option::Some(t) => t,
        Option::None => match tz_of_group(group_tzs, group_id) {
            Option::Some(t) => t,
            Option::None => 0i8,
        },
    }
}

/// The record as the store keeps it: the caller's fields with the
/// resolved offset in place of whatever the caller put there.
pub open spec fn spec_stored(b: Birthday, tz: i8) -> Birthday {
    Birthday { timezone: tz, ..b }
}

/// What an add does to the table: nothing when the key is present,
/// otherwise an append of the resolved record.
pub open spec fn spec_add(s: Seq<Birthday>, b: Birthday, tz: i8) -> Seq<Birthday> {
    if has_key(s, b.user_id, b.group_id) {
        s
    } else {
        s.push(spec_stored(b, tz))
    }
}

/// What a removal does to the table: every selected row goes, every
/// other row stays, in order.
pub open spec fn spec_remove(s: Seq<Birthday>, action: RemoveBirthday) -> Seq<Birthday> {
    s.filter(|b: Birthday| !selected(action, b))
}

/// How many rows carry the given key.
pub open spec fn count_key(s: Seq<Birthday>, user_id: u64, group_id: i64) -> nat {
    s.filter(|b: Birthday| b.user_id == user_id && b.group_id == group_id).len()
}

/// Filtering a sequence one element longer either appends the last
/// element or leaves the filtered sequence as it was.
pub(crate) proof fn lemma_filter_push<A>(s: Seq<A>, x: A, pred: spec_fn(A) -> bool)
    ensures
        s.push(x).filter(pred) == if pred(x) {
            s.filter(pred).push(x)
        } else {
            s.filter(pred)
        },
{
    reveal(Seq::filter);
    assert(s.push(x).drop_last() =~= s);
    assert(s.push(x).last() == x);
}

/// A filter keeps key-distinctness and date validity, and produces only
/// elements of its source.
proof fn lemma_filter_wf(s: Seq<Birthday>, pred: spec_fn(Birthday) -> bool)
    requires
        distinct_keys(s),
        all_valid_dates(s),
    ensures
        distinct_keys(s.filter(pred)),
        all_valid_dates(s.filter(pred)),
        forall|a: int| 0 <= a < s.filter(pred).len() ==> s.contains(#[trigger] s.filter(pred)[a]),
    decreases s.len(),
{
    reveal(Seq::filter);
    if s.len() > 0 {
        let t = s.drop_last();
        assert(distinct_keys(t)) by {
            assert(forall|i: int| 0 <= i < t.len() ==> t[i] == s[i]);
        }
        assert(all_valid_dates(t)) by {
            assert(forall|i: int| 0 <= i < t.len() ==> t[i] == s[i]);
        }
        lemma_filter_wf(t, pred);
        let ft = t.filter(pred);
        assert(forall|a: int| 0 <= a < ft.len() ==> s.contains(#[trigger] ft[a])) by {
            assert forall|a: int| 0 <= a < ft.len() implies s.contains(#[trigger] ft[a]) by {
                let j = choose|j: int| 0 <= j < t.len() && t[j] == ft[a];
                assert(s[j] == ft[a]);
            }
        }
        if pred(s.last()) {
            let fs = s.filter(pred);
            assert(fs == ft.push(s.last()));
            assert(distinct_keys(fs)) by {
                assert forall|i: int, j: int| 0 <= i < j < fs.len() implies !same_key(
                    #[trigger] fs[i],
                    #[trigger] fs[j],
                ) by {
                    if j < ft.len() {
                        assert(fs[i] == ft[i] && fs[j] == ft[j]);
                    } else {
                        assert(fs[j] == s.last());
                        assert(fs[i] == ft[i]);
                        let k = choose|k: int| 0 <= k < t.len() && t[k] == ft[i];
                        assert(s[k] == ft[i]);
                        assert(!same_key(s[k], s[s.len() - 1]));
                    }
                }
            }
            assert(all_valid_dates(fs)) by {
                assert forall|i: int| 0 <= i < fs.len() implies valid_date(
                    (#[trigger] fs[i]).month,
                    fs[i].day,
                ) by {
                    if i < ft.len() {
                        assert(fs[i] == ft[i]);
                    } else {
                        assert(fs[i] == s.last());
                        assert(valid_date(s[s.len() - 1].month, s[s.len() - 1].day));
                    }
                }
            }
        }
    }
}

/// A table without the key filters to nothing under the key's predicate.
proof fn lemma_no_key_count_zero(s: Seq<Birthday>, user_id: u64, group_id: i64)
    requires
        !has_key(s, user_id, group_id),
    ensures
        count_key(s, user_id, group_id) == 0,
    decreases s.len(),
{
    reveal(Seq::filter);
    if s.len() > 0 {
        let t = s.drop_last();
        assert(!has_key(t, user_id, group_id)) by {
            assert(forall|i: int| 0 <= i < t.len() ==> t[i] == s[i]);
        }
        lemma_no_key_count_zero(t, user_id, group_id);
    }
}

/// Law: for any table without the key, the first add with that key
/// appends the resolved record, a second add with the same key reports
/// the row as existing and writes nothing, and exactly one row with the
/// key is stored.
pub proof fn lemma_add_twice(s: Seq<Birthday>, b1: Birthday, b2: Birthday, tz1: i8, tz2: i8)
    requires
        !has_key(s, b1.user_id, b1.group_id),
        b2.user_id == b1.user_id,
        b2.group_id == b1.group_id,
    ensures
        spec_add(s, b1, tz1) == s.push(spec_stored(b1, tz1)),
        has_key(spec_add(s, b1, tz1), b2.user_id, b2.group_id),
        spec_add(spec_add(s, b1, tz1), b2, tz2) == spec_add(s, b1, tz1),
        count_key(spec_add(s, b1, tz1), b1.user_id, b1.group_id) == 1,
{
    let s1 = s.push(spec_stored(b1, tz1));
    assert(s1[s.len() as int] == spec_stored(b1, tz1));
    assert(has_key(s1, b1.user_id, b1.group_id));
    let pred = |b: Birthday| b.user_id == b1.user_id && b.group_id == b1.group_id;
    lemma_no_key_count_zero(s, b1.user_id, b1.group_id);
    lemma_filter_push(s, spec_stored(b1, tz1), pred);
    assert(s.filter(pred).push(spec_stored(b1, tz1)).len() == 1);
}

/// Law: removing by user leaves no row of that user and keeps every row
/// of every other user.
pub proof fn lemma_remove_user(s: Seq<Birthday>, user_id: u64)
    ensures
        forall|i: int|
            0 <= i < spec_remove(s, RemoveBirthday::RemoveUser(user_id)).len() ==> (
            #[trigger] spec_remove(s, RemoveBirthday::RemoveUser(user_id))[i]).user_id != user_id,
        forall|j: int|
            0 <= j < s.len() && (#[trigger] s[j]).user_id != user_id ==> spec_remove(
                s,
                RemoveBirthday::RemoveUser(user_id),
            ).contains(s[j]),
{
    broadcast use vstd::seq_lib::group_filter_ensures;

    let action = RemoveBirthday::RemoveUser(user_id);
    let r = spec_remove(s, action);
    assert forall|i: int| 0 <= i < r.len() implies (#[trigger] r[i]).user_id != user_id by {
        assert(!selected(action, r[i]));
    }
    assert forall|j: int|
        0 <= j < s.len() && (#[trigger] s[j]).user_id != user_id implies r.contains(s[j]) by {
        assert(!selected(action, s[j]));
    }
}

/// The rows on a given month and day, in storage order.
pub open spec fn spec_on_date(s: Seq<Birthday>, month: u32, day: u32) -> Seq<Birthday> {
    s.filter(|b: Birthday| matches_date(b, month, day))
}

/// Law: a date query returns exactly the rows whose stored month and day
/// match — never a row with another date, and never misses one.
pub proof fn lemma_birthdays_on_exact(s: Seq<Birthday>, month: u32, day: u32)
    ensures
        forall|i: int|
            0 <= i < spec_on_date(s, month, day).len() ==> matches_date(
                #[trigger] spec_on_date(s, month, day)[i],
                month,
                day,
            ),
        forall|j: int|
            0 <= j < s.len() && matches_date(#[trigger] s[j], month, day) ==> spec_on_date(
                s,
                month,
                day,
            ).contains(s[j]),
{
    broadcast use vstd::seq_lib::group_filter_ensures;

    let f = spec_on_date(s, month, day);
    assert forall|i: int| 0 <= i < f.len() implies matches_date(#[trigger] f[i], month, day) by {
        assert((|b: Birthday| matches_date(b, month, day))(f[i]));
    }
    assert forall|j: int|
        0 <= j < s.len() && matches_date(#[trigger] s[j], month, day) implies f.contains(s[j]) by {
        assert((|b: Birthday| matches_date(b, month, day))(s[j]));
    }
}

/// Law: the resolver returns the user override when one exists, else the
/// group override when one exists, else zero.
pub proof fn lemma_offset_precedence(
    user_tzs: Seq<(u64, i8)>,
    group_tzs: Seq<(i64, i8)>,
    user_id: u64,
    group_id: i64,
)
    ensures
        tz_of_user(user_tzs, user_id) matches Option::Some(t) ==> spec_effective_offset(
            user_tzs,
            group_tzs,
            user_id,
            group_id,
        ) == t,
        tz_of_user(user_tzs, user_id) is None ==> (tz_of_group(group_tzs, group_id) matches
            Option::Some(t) ==> spec_effective_offset(user_tzs, group_tzs, user_id, group_id) == t),
        tz_of_user(user_tzs, user_id) is None && tz_of_group(group_tzs, group_id) is None
            ==> spec_effective_offset(user_tzs, group_tzs, user_id, group_id) == 0i8,
{
}

/// The record store.  It alone enforces the uniqueness invariants; all
/// other components go through its operations.
pub struct Database {
    birthdays: Vec<Birthday>,
    user_timezones: Vec<(u64, i8)>,
    group_timezones: Vec<(i64, i8)>,
}

impl Database {
    /// The birthday table, in storage order.
    pub closed spec fn records(&self) -> Seq<Birthday> {
        self.birthdays@
    }

    /// The user-level override table.
    pub closed spec fn user_tzs(&self) -> Seq<(u64, i8)> {
        self.user_timezones@
    }

    /// The group-level override table.
    pub closed spec fn group_tzs(&self) -> Seq<(i64, i8)> {
        self.group_timezones@
    }

    /// The store's invariant: unique row keys, uniquely keyed override
    /// tables, and loosely valid dates throughout.
    pub open spec fn wf(&self) -> bool {
        &&& distinct_keys(self.records())
        &&& all_valid_dates(self.records())
        &&& forall|i: int, j: int|
            0 <= i < j < self.user_tzs().len() ==> (#[trigger] self.user_tzs()[i]).0 != (
            #[trigger] self.user_tzs()[j]).0
        &&& forall|i: int, j: int|
            0 <= i < j < self.group_tzs().len() ==> (#[trigger] self.group_tzs()[i]).0 != (
            #[trigger] self.group_tzs()[j]).0
    }

    /// An empty store.
    pub fn new() -> (d: Database)
        ensures
            d.wf(),
            d.records() == Seq::<Birthday>::empty(),
            d.user_tzs() == Seq::<(u64, i8)>::empty(),
            d.group_tzs() == Seq::<(i64, i8)>::empty(),
    {
        Database { birthdays: Vec::new(), user_timezones: Vec::new(), group_timezones: Vec::new() }
    }

    /// Whether a row with the key is stored.
    #[verifier::loop_isolation(false)]
    fn contains_key(&self, user_id: u64, group_id: i64) -> (r: bool)
        ensures
            r == has_key(self.records(), user_id, group_id),
    {
        let mut i: usize = 0;
        while i < self.birthdays.len()
            invariant
                i <= self.records().len(),
                forall|k: int|
                    0 <= k < i ==> !((#[trigger] self.records()[k]).user_id == user_id
                        && self.records()[k].group_id == group_id),
            decreases self.records().len() - i,
        {
            if self.birthdays[i].user_id == user_id && self.birthdays[i].group_id == group_id {
                return true;
            }
            i += 1;
        }
        false
    }

    /// The effective UTC hour offset for a registration: the precedence
    /// rule evaluated against the override tables as they stand now.
    #[verifier::loop_isolation(false)]
    pub fn get_timezone(&self, user_id: u64, group_id: i64) -> (tz: i8)
        requires
            self.wf(),
        ensures
            tz == spec_effective_offset(self.user_tzs(), self.group_tzs(), user_id, group_id),
    {
        let mut i: usize = 0;
        while i < self.user_timezones.len()
            invariant
                self.wf(),
                i <= self.user_tzs().len(),
                forall|k: int| 0 <= k < i ==> (#[trigger] self.user_tzs()[k]).0 != user_id,
            decreases self.user_tzs().len() - i,
        {
            if self.user_timezones[i].0 == user_id {
                proof {
                    let w = choose|j: int|
                        0 <= j < self.user_tzs().len() && (#[trigger] self.user_tzs()[j]).0
                            == user_id;
                    assert(w == i as int);
                }
                return self.user_timezones[i].1;
            }
            i += 1;
        }
        assert(tz_of_user(self.user_tzs(), user_id) is None);
        let mut j: usize = 0;
        while j < self.group_timezones.len()
            invariant
                self.wf(),
                j <= self.group_tzs().len(),
                tz_of_user(self.user_tzs(), user_id) is None,
                forall|k: int| 0 <= k < j ==> (#[trigger] self.group_tzs()[k]).0 != group_id,
            decreases self.group_tzs().len() - j,
        {
            if self.group_timezones[j].0 == group_id {
                proof {
                    let w = choose|k: int|
                        0 <= k < self.group_tzs().len() && (#[trigger] self.group_tzs()[k]).0
                            == group_id;
                    assert(w == j as int);
                }
                return self.group_timezones[j].1;
            }
            j += 1;
        }
        assert(tz_of_group(self.group_tzs(), group_id) is None);
        0
    }

    /// Registers a birthday.  When the `(user, group)` key is already
    /// present this is a no-op that reports `false`; otherwise the row is
    /// stored with the offset the resolver gives right now, and `true`
    /// comes back.  The caller's `timezone` field is ignored.
    pub fn add_birthday(&mut self, birthday: Birthday) -> (added: bool)
        requires
            old(self).wf(),
            valid_date(birthday.month, birthday.day),
        ensures
            final(self).wf(),
            added == !has_key(old(self).records(), birthday.user_id, birthday.group_id),
            final(self).records() == spec_add(
                old(self).records(),
                birthday,
                spec_effective_offset(
                    old(self).user_tzs(),
                    old(self).group_tzs(),
                    birthday.user_id,
                    birthday.group_id,
                ),
            ),
            final(self).user_tzs() == old(self).user_tzs(),
            final(self).group_tzs() == old(self).group_tzs(),
    {
        if self.contains_key(birthday.user_id, birthday.group_id) {
            return false;
        }
        let tz = self.get_timezone(birthday.user_id, birthday.group_id);
        let rec = Birthday { timezone: tz, ..birthday };
        self.birthdays.push(rec);
        proof {
            let s = old(self).records();
            let t = self.records();
            let r = t[t.len() - 1];
            assert(t == spec_add(
                s,
                birthday,
                spec_effective_offset(
                    old(self).user_tzs(),
                    old(self).group_tzs(),
                    birthday.user_id,
                    birthday.group_id,
                ),
            ));
            assert forall|i: int, j: int| 0 <= i < j < t.len() implies !same_key(
                #[trigger] t[i],
                #[trigger] t[j],
            ) by {
                if j < s.len() {
                    assert(t[i] == s[i] && t[j] == s[j]);
                } else {
                    assert(t[i] == s[i]);
                    if same_key(s[i], r) {
                        assert(has_key(s, birthday.user_id, birthday.group_id));
                    }
                }
            }
            assert forall|i: int| 0 <= i < t.len() implies valid_date(
                (#[trigger] t[i]).month,
                t[i].day,
            ) by {
                if i < s.len() {
                    assert(t[i] == s[i]);
                }
            }
        }
        true
    }

    /// Puts back a row exactly as it was once stored — the offset it
    /// carries is kept, not re-resolved.  For reloading the durable
    /// table at startup; a duplicate key is refused as in `add_birthday`.
    pub fn restore(&mut self, birthday: Birthday) -> (added: bool)
        requires
            old(self).wf(),
            valid_date(birthday.month, birthday.day),
        ensures
            final(self).wf(),
            added == !has_key(old(self).records(), birthday.user_id, birthday.group_id),
            final(self).records() == if added {
                old(self).records().push(birthday)
            } else {
                old(self).records()
            },
            final(self).user_tzs() == old(self).user_tzs(),
            final(self).group_tzs() == old(self).group_tzs(),
    {
        if self.contains_key(birthday.user_id, birthday.group_id) {
            return false;
        }
        let ghost b = birthday;
        self.birthdays.push(birthday);
        proof {
            assert(self.user_tzs() == old(self).user_tzs());
            assert(self.group_tzs() == old(self).group_tzs());
            let s = old(self).records();
            let t = self.records();
            assert(t == s.push(b));
            assert forall|i: int, j: int| 0 <= i < j < t.len() implies !same_key(
                #[trigger] t[i],
                #[trigger] t[j],
            ) by {
                if j < s.len() {
                    assert(t[i] == s[i] && t[j] == s[j]);
                } else {
                    assert(t[i] == s[i]);
                    if same_key(s[i], b) {
                        assert(has_key(s, b.user_id, b.group_id));
                    }
                }
            }
            assert forall|i: int| 0 <= i < t.len() implies valid_date(
                (#[trigger] t[i]).month,
                t[i].day,
            ) by {
                if i < s.len() {
                    assert(t[i] == s[i]);
                }
            }
        }
        true
    }

    /// Deletes every row the selector matches; deleting nothing is not
    /// an error.  Order among the remaining rows is kept.
    #[verifier::loop_isolation(false)]
    pub fn rm_birthday(&mut self, action: RemoveBirthday)
        requires
            old(self).wf(),
        ensures
            final(self).wf(),
            final(self).records() == spec_remove(old(self).records(), action),
            final(self).user_tzs() == old(self).user_tzs(),
            final(self).group_tzs() == old(self).group_tzs(),
    {
        let ghost pred = |b: Birthday| !selected(action, b);
        let mut kept: Vec<Birthday> = Vec::new();
        let mut i: usize = 0;
        while i < self.birthdays.len()
            invariant
                i <= self.records().len(),
                kept@ == self.records().take(i as int).filter(pred),
            decreases self.records().len() - i,
        {
            let b = &self.birthdays[i];
            let keep = match action {
                RemoveBirthday::RemoveGroup(g) => b.group_id != g,
                RemoveBirthday::RemoveUser(u) => b.user_id != u,
                RemoveBirthday::RemoveUserInGroup { group_id, user_id } => !(b.group_id == group_id
                    && b.user_id == user_id),
            };
            proof {
                let s = self.records();
                assert(s.take(i + 1) =~= s.take(i as int).push(s[i as int]));
                lemma_filter_push(s.take(i as int), s[i as int], pred);
            }
            if keep {
                kept.push(self.birthdays[i].clone());
            }
            i += 1;
        }
        proof {
            assert(self.records().take(self.records().len() as int) =~= self.records());
            lemma_filter_wf(self.records(), pred);
        }
        self.birthdays = kept;
        proof {
            assert(self.user_tzs() == old(self).user_tzs());
            assert(self.group_tzs() == old(self).group_tzs());
            let r = self.records();
            let s = old(self).records();
            assert forall|a: int| 0 <= a < r.len() implies valid_date(
                (#[trigger] r[a]).month,
                r[a].day,
            ) by {
                assert(all_valid_dates(s.filter(pred)));
            }
        }
    }

    /// All rows whose stored month and day equal the arguments, in
    /// storage order.  A snapshot: later writes do not affect the
    /// returned rows.
    #[verifier::loop_isolation(false)]
    pub fn get_birthdays(&self, month: u32, day: u32) -> (r: Vec<Birthday>)
        ensures
            r@ == self.records().filter(|b: Birthday| matches_date(b, month, day)),
    {
        let ghost pred = |b: Birthday| matches_date(b, month, day);
        let mut out: Vec<Birthday> = Vec::new();
        let mut i: usize = 0;
        while i < self.birthdays.len()
            invariant
                i <= self.records().len(),
                out@ == self.records().take(i as int).filter(pred),
            decreases self.records().len() - i,
        {
            let b = &self.birthdays[i];
            let hit = (b.month as u32) == month && (b.day as u32) == day;
            proof {
                let s = self.records();
                assert(s.take(i + 1) =~= s.take(i as int).push(s[i as int]));
                lemma_filter_push(s.take(i as int), s[i as int], pred);
            }
            if hit {
                out.push(self.birthdays[i].clone());
            }
            i += 1;
        }
        proof {
            assert(self.records().take(self.records().len() as int) =~= self.records());
        }
        out
    }

    /// Sets (or replaces) the user-level override.  Other users' entries,
    /// the group table and the birthday rows are untouched.
    #[verifier::loop_isolation(false)]
    pub fn set_user_timezone(&mut self, user_id: u64, timezone: i8)
        requires
            old(self).wf(),
        ensures
            final(self).wf(),
            tz_of_user(final(self).user_tzs(), user_id) == Option::Some(timezone),
            forall|u: u64|
                u != user_id ==> #[trigger] tz_of_user(final(self).user_tzs(), u) == tz_of_user(
                    old(self).user_tzs(),
                    u,
                ),
            final(self).records() == old(self).records(),
            final(self).group_tzs() == old(self).group_tzs(),
    {
        let mut i: usize = 0;
        while i < self.user_timezones.len()
            invariant
                old(self).wf(),
                *self == *old(self),
                i <= self.user_tzs().len(),
                forall|k: int| 0 <= k < i ==> (#[trigger] self.user_tzs()[k]).0 != user_id,
            decreases self.user_tzs().len() - i,
        {
            if self.user_timezones[i].0 == user_id {
                self.user_timezones[i] = (user_id, timezone);
                proof {
                    Self::lemma_tz_update(
                        old(self).user_tzs(),
                        self.user_tzs(),
                        i as int,
                        user_id,
                        timezone,
                    );
                    assert(self.records() == old(self).records());
                    assert(self.group_tzs() == old(self).group_tzs());
                }
                return ;
            }
            i += 1;
        }
        self.user_timezones.push((user_id, timezone));
        proof {
            assert(self.records() == old(self).records());
            assert(self.group_tzs() == old(self).group_tzs());
            let s = old(self).user_tzs();
            let t = self.user_tzs();
            assert(t[t.len() - 1] == (user_id, timezone));
            assert forall|i2: int, j2: int| 0 <= i2 < j2 < t.len() implies (#[trigger] t[i2]).0 != (
            #[trigger] t[j2]).0 by {
                if j2 < s.len() {
                    assert(t[i2] == s[i2] && t[j2] == s[j2]);
                } else {
                    assert(t[i2] == s[i2]);
                }
            }
            assert(tz_of_user(t, user_id) == Option::Some(timezone)) by {
                let w = choose|j: int| 0 <= j < t.len() && (#[trigger] t[j]).0 == user_id;
                assert(t[t.len() - 1].0 == user_id);
                assert(w == t.len() - 1);
            }
            assert forall|u: u64| u != user_id implies #[trigger] tz_of_user(t, u) == tz_of_user(
                s,
                u,
            ) by {
                if exists|j: int| 0 <= j < t.len() && (#[trigger] t[j]).0 == u {
                    let w = choose|j: int| 0 <= j < t.len() && (#[trigger] t[j]).0 == u;
                    assert(w < s.len());
                    assert(s[w].0 == u);
                    let w2 = choose|j: int| 0 <= j < s.len() && (#[trigger] s[j]).0 == u;
                    assert(w2 == w);
                } else {
                    assert forall|j: int| 0 <= j < s.len() implies (#[trigger] s[j]).0 != u by {
                        assert(t[j] == s[j]);
                    }
                }
            }
        }
    }

    /// Sets (or replaces) the group-level override.  Other groups'
    /// entries, the user table and the birthday rows are untouched.
    #[verifier::loop_isolation(false)]
    pub fn set_group_timezone(&mut self, group_id: i64, timezone: i8)
        requires
            old(self).wf(),
        ensures
            final(self).wf(),
            tz_of_group(final(self).group_tzs(), group_id) == Option::Some(timezone),
            forall|g: i64|
                g != group_id ==> #[trigger] tz_of_group(final(self).group_tzs(), g) == tz_of_group(
                    old(self).group_tzs(),
                    g,
                ),
            final(self).records() == old(self).records(),
            final(self).user_tzs() == old(self).user_tzs(),
    {
        let mut i: usize = 0;
        while i < self.group_timezones.len()
            invariant
                old(self).wf(),
                *self == *old(self),
                i <= self.group_tzs().len(),
                forall|k: int| 0 <= k < i ==> (#[trigger] self.group_tzs()[k]).0 != group_id,
            decreases self.group_tzs().len() - i,
        {
            if self.group_timezones[i].0 == group_id {
                self.group_timezones[i] = (group_id, timezone);
                proof {
                    Self::lemma_tz_update(
                        old(self).group_tzs(),
                        self.group_tzs(),
                        i as int,
                        group_id,
                        timezone,
                    );
                    assert(self.records() == old(self).records());
                    assert(self.user_tzs() == old(self).user_tzs());
                }
                return ;
            }
            i += 1;
        }
        self.group_timezones.push((group_id, timezone));
        proof {
            assert(self.records() == old(self).records());
            assert(self.user_tzs() == old(self).user_tzs());
            let s = old(self).group_tzs();
            let t = self.group_tzs();
            assert(t[t.len() - 1] == (group_id, timezone));
            assert forall|i2: int, j2: int| 0 <= i2 < j2 < t.len() implies (#[trigger] t[i2]).0 != (
            #[trigger] t[j2]).0 by {
                if j2 < s.len() {
                    assert(t[i2] == s[i2] && t[j2] == s[j2]);
                } else {
                    assert(t[i2] == s[i2]);
                }
            }
            assert(tz_of_group(t, group_id) == Option::Some(timezone)) by {
                let w = choose|j: int| 0 <= j < t.len() && (#[trigger] t[j]).0 == group_id;
                assert(t[t.len() - 1].0 == group_id);
                assert(w == t.len() - 1);
            }
            assert forall|g: i64| g != group_id implies #[trigger] tz_of_group(t, g) == tz_of_group(
                s,
                g,
            ) by {
                if exists|j: int| 0 <= j < t.len() && (#[trigger] t[j]).0 == g {
                    let w = choose|j: int| 0 <= j < t.len() && (#[trigger] t[j]).0 == g;
                    assert(w < s.len());
                    assert(s[w].0 == g);
                    let w2 = choose|j: int| 0 <= j < s.len() && (#[trigger] s[j]).0 == g;
                    assert(w2 == w);
                } else {
                    assert forall|j: int| 0 <= j < s.len() implies (#[trigger] s[j]).0 != g by {
                        assert(t[j] == s[j]);
                    }
                }
            }
        }
    }

    /// After replacing the entry at `at` (whose key already was `key`)
    /// the lookup for `key` yields the new offset and no other key's
    /// lookup moves.
    proof fn lemma_tz_update<K>(s: Seq<(K, i8)>, t: Seq<(K, i8)>, at: int, key: K, timezone: i8)
        requires
            forall|i: int, j: int| 0 <= i < j < s.len() ==> (#[trigger] s[i]).0 != (#[trigger] s[j]).0,
            0 <= at < s.len(),
            s[at].0 == key,
            t == s.update(at, (key, timezone)),
        ensures
            forall|i: int, j: int| 0 <= i < j < t.len() ==> (#[trigger] t[i]).0 != (#[trigger] t[j]).0,
            tz_of(t, key) == Option::Some(timezone),
            forall|k: K| k != key ==> #[trigger] tz_of(t, k) == tz_of(s, k),
    {
        assert forall|i: int, j: int| 0 <= i < j < t.len() implies (#[trigger] t[i]).0 != (
        #[trigger] t[j]).0 by {
            assert(s[i].0 != s[j].0);
            assert(t[i].0 == s[i].0 && t[j].0 == s[j].0);
        }
        assert(tz_of(t, key) == Option::Some(timezone)) by {
            assert(t[at].0 == key);
            let w = choose|j: int| 0 <= j < t.len() && (#[trigger] t[j]).0 == key;
            assert(w == at);
        }
        assert forall|k: K| k != key implies #[trigger] tz_of(t, k) == tz_of(s, k) by {
            assert(forall|j: int| 0 <= j < t.len() ==> (#[trigger] t[j]).0 == s[j].0);
            if exists|j: int| 0 <= j < t.len() && (#[trigger] t[j]).0 == k {
                let w = choose|j: int| 0 <= j < t.len() && (#[trigger] t[j]).0 == k;
                assert(s[w].0 == k);
                let w2 = choose|j: int| 0 <= j < s.len() && (#[trigger] s[j]).0 == k;
                assert(w2 == w);
                assert(w != at);
                assert(t[w] == s[w]);
            } else {
                assert forall|j: int| 0 <= j < s.len() implies (#[trigger] s[j]).0 != k by {
                    assert(t[j].0 == s[j].0);
                }
            }
        }
    }
}

} // verus!
