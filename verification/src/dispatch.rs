//! One dispatch run: for every birthday row matching today's date the
//! platform is asked for the member, a congratulatory message is
//! composed and sent, and the sent message is pinned.  Each recipient is
//! handled independently; a platform error is classified once, as a
//! closed variant, and either heals the store (the chat or the member is
//! gone) or skips just that recipient.
//!
//! The functions here are the decisions of that loop, from plain values
//! to plain values; the caller performs the platform calls and reports
//! their outcomes.

use vstd::prelude::*;
use crate::compose::compose;
use crate::compose::span_view;
use crate::compose::spec_rendered;
use crate::compose::spec_spans;
use crate::compose::utf16_len;
use crate::compose::views_of;
use crate::lang::LabelRow;
use crate::lang::Langs;
use crate::lang::spec_resolved;
use crate::schedule::Date;
use crate::store::Birthday;
use crate::store::Database;
use crate::store::RemoveBirthday;
use crate::store::spec_remove;
use crate::text::dec_rep;
use crate::text::dec_rep_int;
use crate::text::i64_to_string;
use crate::text::u64_to_string;

verus! {

/// How a platform failure is classified, decided once at the boundary.
#[derive(Clone, Copy, PartialEq, Eq, Structural, Debug)]
pub enum PlatformError {
    /// The whole chat is gone: no birthday in it is ever actionable.
    ChatNotFound,
    /// This member is gone from the chat.
    UserNotFound,
    /// Anything else: transient or unexpected; never heals the store.
    Other,
}

/// What resolving the member produced.
pub enum MemberOutcome {
    Member { first_name: String },
    Failed(PlatformError),
}

/// What sending the message produced.
pub enum SendOutcome {
    Sent { message_id: i64 },
    Failed(PlatformError),
}

/// What pinning the sent message produced.
#[derive(Clone, Copy, PartialEq, Eq, Structural, Debug)]
pub enum PinOutcome {
    Pinned,
    /// Pinning needs a right the sender lacks: the group gets a notice.
    NoPermission,
    /// Any other pin failure is logged and ignored.
    Failed,
}

/// The platform's answers for one record, in the order the stages ask.
pub struct RecordOutcomes {
    pub member: MemberOutcome,
    pub send: SendOutcome,
    pub pin: PinOutcome,
}

/// What one record's processing amounted to.
#[derive(Clone, Copy, PartialEq, Eq, Structural, Debug)]
pub enum RecordResult {
    /// The chat was reported gone: every row of the group was deleted.
    GroupRemoved,
    /// The member was reported gone: exactly this row was deleted.
    UserRemoved,
    /// An unclassified platform error at the member stage: skipped.
    Skipped,
    /// No message could be rendered (label missing, or no marker for
    /// the mention, or the text would not fit): skipped.
    NoMessage,
    /// An unclassified platform error at the send stage: skipped.
    SendFailed,
    /// The message went out; `pinned` tells whether the pin succeeded,
    /// `notice` whether a missing-permission notice is owed.
    Notified { pinned: bool, notice: bool },
}

/// The label key of the congratulatory template.
pub open spec fn wish_key() -> Seq<char> {
    "WISH_HAPPY_BDAY"@
}

/// The label key of the missing-pin-permission notice.
pub open spec fn no_pin_key() -> Seq<char> {
    "NO_PIN_PERM"@
}

/// What healing does to the birthday table for a classified error.
pub open spec fn spec_heal(
    s: Seq<Birthday>,
    group_id: i64,
    user_id: u64,
    err: PlatformError,
) -> Seq<Birthday> {
    match err {
        PlatformError::ChatNotFound => spec_remove(s, RemoveBirthday::RemoveGroup(group_id)),
        PlatformError::UserNotFound => spec_remove(
            s,
            RemoveBirthday::RemoveUserInGroup { group_id, user_id },
        ),
        PlatformError::Other => s,
    }
}

/// Deletes what a classified platform error says is gone: the whole
/// group on `ChatNotFound`, exactly this row on `UserNotFound`, and
/// nothing otherwise.
pub fn heal(db: &mut Database, group_id: i64, user_id: u64, err: PlatformError)
    requires
        old(db).wf(),
    ensures
        final(db).wf(),
        final(db).records() == spec_heal(old(db).records(), group_id, user_id, err),
        final(db).user_tzs() == old(db).user_tzs(),
        final(db).group_tzs() == old(db).group_tzs(),
{
    match err {
        PlatformError::ChatNotFound => db.rm_birthday(RemoveBirthday::RemoveGroup(group_id)),
        PlatformError::UserNotFound => db.rm_birthday(
            RemoveBirthday::RemoveUserInGroup { group_id, user_id },
        ),
        PlatformError::Other => {},
    }
}

/// The date as the message prints it: `year/month/day`.
pub open spec fn spec_date_text(today: Date) -> Seq<char> {
    dec_rep_int(today.year as int) + seq!['/'] + dec_rep(today.month as nat) + seq!['/'] + dec_rep(
        today.day as nat,
    )
}

/// The substitution values of the congratulatory message: the display
/// name, the age this year, and today's date.
pub open spec fn spec_args(name: Seq<char>, b: Birthday, today: Date) -> Seq<Seq<char>> {
    seq![name, dec_rep_int(today.year - b.year), spec_date_text(today)]
}

/// The record's template under the locale fallback rule.
pub open spec fn spec_template(t: Seq<LabelRow>, b: Birthday) -> Option<Seq<char>> {
    spec_resolved(t, b.user_lang@, wish_key())
}

/// A message can be rendered: the template resolves, the text fits, and
/// the template carries a marker for the mention span.
pub open spec fn spec_renderable(
    t: Seq<LabelRow>,
    b: Birthday,
    name: Seq<char>,
    today: Date,
) -> bool {
    match spec_template(t, b) {
        Option::Some(tm) => utf16_len(spec_rendered(tm, spec_args(name, b, today))) <= usize::MAX
            && spec_spans(tm, spec_args(name, b, today)).len() >= 1,
        Option::None => false,
    }
}

/// Composes the congratulatory message for one record: the rendered
/// text and the UTF-16 span of the display name, to be annotated as a
/// mention of the recipient.  `None` exactly when no message can be
/// rendered.
pub fn birthday_message(langs: &Langs, b: &Birthday, first_name: &String, today: Date) -> (r:
    Option<(String, usize, usize)>)
    requires
        langs.wf(),
    ensures
        r is Some <==> spec_renderable(langs.table(), *b, first_name@, today),
        spec_template(langs.table(), *b) matches Some(tm) ==> (r matches Some(p) ==> p.0@
            == spec_rendered(tm, spec_args(first_name@, *b, today)) && (
        p.1 as int,
        p.2 as int,
        ) == spec_spans(tm, spec_args(first_name@, *b, today))[0]),
{
    let template = match langs.get(b.user_lang.as_str(), "WISH_HAPPY_BDAY") {
        Some(t) => t,
        None => {
            return None;
        },
    };
    let age: i64 = (today.year as i64) - (b.year as i64);
    let age_s = i64_to_string(age);
    let mut ds = i64_to_string(today.year as i64);
    proof {
        reveal_strlit("/");
        assert("/"@ =~= seq!['/']);
    }
    ds.append("/");
    let ms = u64_to_string(today.month as u64);
    ds.append(ms.as_str());
    ds.append("/");
    let das = u64_to_string(today.day as u64);
    ds.append(das.as_str());
    proof {
        assert(ds@ =~= spec_date_text(today));
    }
    let mut args: Vec<String> = Vec::new();
    args.push(first_name.clone());
    args.push(age_s);
    args.push(ds);
    proof {
        assert(views_of(args@) =~= spec_args(first_name@, *b, today));
    }
    match compose(template.as_str(), &args) {
        Some(p) => {
            let (text, spans) = p;
            if spans.len() >= 1 {
                let span = spans[0];
                proof {
                    assert(span_view(spans@)[0] == (spans@[0].0 as int, spans@[0].1 as int));
                }
                Some((text, span.0, span.1))
            } else {
                None
            }
        },
        None => None,
    }
}

/// The notice owed after a pin attempt: only a missing permission asks
/// for one, worded by the record's locale under the fallback rule.
pub fn pin_notice(langs: &Langs, b: &Birthday, outcome: PinOutcome) -> (r: Option<String>)
    requires
        langs.wf(),
    ensures
        r is Some <==> (outcome is NoPermission && spec_resolved(
            langs.table(),
            b.user_lang@,
            no_pin_key(),
        ) is Some),
        r matches Some(s) ==> spec_resolved(langs.table(), b.user_lang@, no_pin_key())
            == Some(s@),
{
    match outcome {
        PinOutcome::NoPermission => langs.get(b.user_lang.as_str(), "NO_PIN_PERM"),
        _ => None,
    }
}

/// What one record's processing does to the birthday table.
pub open spec fn spec_record_step(
    t: Seq<LabelRow>,
    s: Seq<Birthday>,
    b: Birthday,
    today: Date,
    oc: RecordOutcomes,
) -> Seq<Birthday> {
    match oc.member {
        MemberOutcome::Failed(e) => spec_heal(s, b.group_id, b.user_id, e),
        MemberOutcome::Member { first_name } => if spec_renderable(t, b, first_name@, today) {
            match oc.send {
                SendOutcome::Failed(e) => spec_heal(s, b.group_id, b.user_id, e),
                SendOutcome::Sent { .. } => s,
            }
        } else {
            s
        },
    }
}

/// What one record's processing reports, independent of the store.
pub open spec fn spec_record_result(
    t: Seq<LabelRow>,
    b: Birthday,
    today: Date,
    oc: RecordOutcomes,
) -> RecordResult {
    match oc.member {
        MemberOutcome::Failed(PlatformError::ChatNotFound) => RecordResult::GroupRemoved,
        MemberOutcome::Failed(PlatformError::UserNotFound) => RecordResult::UserRemoved,
        MemberOutcome::Failed(PlatformError::Other) => RecordResult::Skipped,
        MemberOutcome::Member { first_name } => if !spec_renderable(t, b, first_name@, today) {
            RecordResult::NoMessage
        } else {
            match oc.send {
                SendOutcome::Failed(PlatformError::ChatNotFound) => RecordResult::GroupRemoved,
                SendOutcome::Failed(PlatformError::UserNotFound) => RecordResult::UserRemoved,
                SendOutcome::Failed(PlatformError::Other) => RecordResult::SendFailed,
                SendOutcome::Sent { .. } => RecordResult::Notified {
                    pinned: oc.pin is Pinned,
                    notice: oc.pin is NoPermission,
                },
            }
        },
    }
}

/// Processes one record of the snapshot against the platform's reported
/// outcomes: classifies failures, heals the store, and says what
/// happened.  The record need not still be stored — deletions are
/// idempotent, so a row removed since the snapshot is simply absent.
pub fn process_record(
    db: &mut Database,
    langs: &Langs,
    b: &Birthday,
    today: Date,
    oc: &RecordOutcomes,
) -> (r: RecordResult)
    requires
        old(db).wf(),
        langs.wf(),
    ensures
        final(db).wf(),
        final(db).records() == spec_record_step(langs.table(), old(db).records(), *b, today, *oc),
        final(db).user_tzs() == old(db).user_tzs(),
        final(db).group_tzs() == old(db).group_tzs(),
        r == spec_record_result(langs.table(), *b, today, *oc),
{
    match &oc.member {
        MemberOutcome::Failed(e) => {
            heal(db, b.group_id, b.user_id, *e);
            match e {
                PlatformError::ChatNotFound => RecordResult::GroupRemoved,
                PlatformError::UserNotFound => RecordResult::UserRemoved,
                PlatformError::Other => RecordResult::Skipped,
            }
        },
        MemberOutcome::Member { first_name } => {
            match birthday_message(langs, b, first_name, today) {
                None => RecordResult::NoMessage,
                Some(_message) => {
                    match &oc.send {
                        SendOutcome::Failed(e) => {
                            heal(db, b.group_id, b.user_id, *e);
                            match e {
                                PlatformError::ChatNotFound => RecordResult::GroupRemoved,
                                PlatformError::UserNotFound => RecordResult::UserRemoved,
                                PlatformError::Other => RecordResult::SendFailed,
                            }
                        },
                        SendOutcome::Sent { .. } => {
                            let pinned = match oc.pin {
                                PinOutcome::Pinned => true,
                                _ => false,
                            };
                            let notice = match oc.pin {
                                PinOutcome::NoPermission => true,
                                _ => false,
                            };
                            RecordResult::Notified { pinned, notice }
                        },
                    }
                },
            }
        },
    }
}

/// What a whole run does to the birthday table: the records of the
/// snapshot are processed once each, in order, every one against its
/// own outcomes.
pub open spec fn spec_run(
    t: Seq<LabelRow>,
    s: Seq<Birthday>,
    recs: Seq<Birthday>,
    today: Date,
    ocs: Seq<RecordOutcomes>,
) -> Seq<Birthday>
    decreases recs.len(),
{
    if recs.len() == 0 {
        s
    } else {
        spec_run(
            t,
            spec_record_step(t, s, recs[0], today, ocs[0]),
            recs.drop_first(),
            today,
            ocs.drop_first(),
        )
    }
}

proof fn lemma_run_push(
    t: Seq<LabelRow>,
    s: Seq<Birthday>,
    p: Seq<Birthday>,
    x: Birthday,
    today: Date,
    q: Seq<RecordOutcomes>,
    y: RecordOutcomes,
)
    requires
        p.len() == q.len(),
    ensures
        spec_run(t, s, p.push(x), today, q.push(y)) == spec_record_step(
            t,
            spec_run(t, s, p, today, q),
            x,
            today,
            y,
        ),
    decreases p.len(),
{
    if p.len() == 0 {
        assert(p.push(x)[0] == x);
        assert(q.push(y)[0] == y);
        assert(p.push(x).drop_first() =~= p);
        assert(q.push(y).drop_first() =~= q);
        assert(spec_run(t, s, p, today, q) == s);
        assert(spec_run(t, s, p.push(x), today, q.push(y)) == spec_run(
            t,
            spec_record_step(t, s, x, today, y),
            p,
            today,
            q,
        ));
    } else {
        assert(p.push(x)[0] == p[0]);
        assert(q.push(y)[0] == q[0]);
        assert(p.push(x).drop_first() =~= p.drop_first().push(x));
        assert(q.push(y).drop_first() =~= q.drop_first().push(y));
        assert(spec_run(t, s, p, today, q) == spec_run(
            t,
            spec_record_step(t, s, p[0], today, q[0]),
            p.drop_first(),
            today,
            q.drop_first(),
        ));
        assert(spec_run(t, s, p.push(x), today, q.push(y)) == spec_run(
            t,
            spec_record_step(t, s, p[0], today, q[0]),
            p.drop_first().push(x),
            today,
            q.drop_first().push(y),
        ));
        lemma_run_push(
            t,
            spec_record_step(t, s, p[0], today, q[0]),
            p.drop_first(),
            x,
            today,
            q.drop_first(),
            y,
        );
    }
}

/// One full dispatch run over a snapshot, against the platform's
/// reported outcomes.  Every record is processed exactly once, in
/// order; no recipient's outcome affects another's report, and the
/// store ends as the per-record steps folded over the snapshot leave
/// it.
#[verifier::loop_isolation(false)]
pub fn dispatch_run(
    db: &mut Database,
    langs: &Langs,
    records: &Vec<Birthday>,
    today: Date,
    outcomes: &Vec<RecordOutcomes>,
) -> (results: Vec<RecordResult>)
    requires
        old(db).wf(),
        langs.wf(),
        records.len() == outcomes.len(),
    ensures
        final(db).wf(),
        final(db).records() == spec_run(
            langs.table(),
            old(db).records(),
            records@,
            today,
            outcomes@,
        ),
        final(db).user_tzs() == old(db).user_tzs(),
        final(db).group_tzs() == old(db).group_tzs(),
        results@.len() == records@.len(),
        forall|i: int|
            0 <= i < records@.len() ==> results@[i] == spec_record_result(
                langs.table(),
                records@[i],
                today,
                outcomes@[i],
            ),
{
    let mut results: Vec<RecordResult> = Vec::new();
    let mut i: usize = 0;
    proof {
        assert(records@.take(0) =~= Seq::<Birthday>::empty());
        assert(outcomes@.take(0) =~= Seq::<RecordOutcomes>::empty());
    }
    while i < records.len()
        invariant
            i <= records.len(),
            db.wf(),
            db.records() == spec_run(
                langs.table(),
                old(db).records(),
                records@.take(i as int),
                today,
                outcomes@.take(i as int),
            ),
            db.user_tzs() == old(db).user_tzs(),
            db.group_tzs() == old(db).group_tzs(),
            results@.len() == i,
            forall|k: int|
                0 <= k < i ==> results@[k] == spec_record_result(
                    langs.table(),
                    records@[k],
                    today,
                    outcomes@[k],
                ),
        decreases records.len() - i,
    {
        let r = process_record(db, langs, &records[i], today, &outcomes[i]);
        results.push(r);
        proof {
            assert(records@.take(i + 1) =~= records@.take(i as int).push(records@[i as int]));
            assert(outcomes@.take(i + 1) =~= outcomes@.take(i as int).push(outcomes@[i as int]));
            lemma_run_push(
                langs.table(),
                old(db).records(),
                records@.take(i as int),
                records@[i as int],
                today,
                outcomes@.take(i as int),
                outcomes@[i as int],
            );
        }
        i += 1;
    }
    proof {
        assert(records@.take(records@.len() as int) =~= records@);
        assert(outcomes@.take(outcomes@.len() as int) =~= outcomes@);
    }
    results
}

} // verus!
