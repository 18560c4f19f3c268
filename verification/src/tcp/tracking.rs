//! What the stream server knows: which streams are awaited, which instance each
//! belongs to, and which instances are gone.
use crate::tcp::instance::InstanceView;
use crate::tcp::table::{age, recent};
use crate::text::decimal;
use vstd::prelude::*;

verus! {

/// How long the removal of an instance is remembered, in nanoseconds: five
/// seconds. It bridges the time between the registration of a stream and its
/// association with an instance, and bounds how much is remembered.
pub const TOMBSTONE_TTL: u64 = 5_000_000_000;

/// What the stream server knows.
#[verifier::ext_equal]
pub struct ServerView<S, R> {
    /// The address that it listens on.
    pub local_ip: Seq<char>,
    /// The port that it listens on, or is to listen on.
    pub local_port: u16,
    /// It was told to listen.
    pub started: bool,
    /// Who awaits a request stream, by subject.
    pub tx_subjects: Map<Seq<char>, S>,
    /// Who awaits a response stream, by subject.
    pub rx_subjects: Map<Seq<char>, R>,
    /// The instance that a subject was associated with last.
    pub subject_instance: Map<Seq<char>, InstanceView>,
    /// The subjects of each instance.
    pub instance_subjects: Map<InstanceView, Set<Seq<char>>>,
    /// The instances that were removed, with the time of removal.
    pub removed_instances: Map<InstanceView, u64>,
}

/// A server that knows of no stream.
pub open spec fn fresh_server<S, R>(local_ip: Seq<char>, local_port: u16) -> ServerView<S, R> {
    ServerView {
        local_ip,
        local_port,
        started: false,
        tx_subjects: Map::empty(),
        rx_subjects: Map::empty(),
        subject_instance: Map::empty(),
        instance_subjects: Map::empty(),
        removed_instances: Map::empty(),
    }
}

/// The address and the port.
pub open spec fn address_text<S, R>(s: ServerView<S, R>) -> Seq<char> {
    s.local_ip + ":"@ + decimal(s.local_port as nat)
}

/// The subjects of an instance.
pub open spec fn subjects_of<S, R>(s: ServerView<S, R>, id: InstanceView) -> Set<Seq<char>> {
    if s.instance_subjects.contains_key(id) {
        s.instance_subjects[id]
    } else {
        Set::empty()
    }
}

/// The streams of an instance: those of its subjects that someone awaits.
pub open spec fn streams_of<S, R>(s: ServerView<S, R>, id: InstanceView) -> Set<Seq<char>> {
    subjects_of(s, id).intersect(s.rx_subjects.dom())
}

/// Every subject is among those of its instance, and every instance in the record
/// has some subject.
pub open spec fn links_hold<S, R>(s: ServerView<S, R>) -> bool {
    &&& forall|subject: Seq<char>| #[trigger]
        s.subject_instance.contains_key(subject) ==> subjects_of(
            s,
            s.subject_instance[subject],
        ).contains(subject)
    &&& forall|id: InstanceView| #[trigger]
        s.instance_subjects.contains_key(id) ==> s.instance_subjects[id].finite()
            && s.instance_subjects[id].len() > 0
}

/// Removals that are too long ago are forgotten.
pub open spec fn pruned<S, R>(s: ServerView<S, R>, now: u64) -> ServerView<S, R> {
    ServerView { removed_instances: recent(s.removed_instances, now, TOMBSTONE_TTL), ..s }
}

/// A subject is associated with an instance, unless the instance was removed
/// shortly before: then whoever awaits the stream is let go.
pub open spec fn associated<S, R>(
    s: ServerView<S, R>,
    subject: Seq<char>,
    id: InstanceView,
    now: u64,
) -> (ServerView<S, R>, bool) {
    let p = pruned(s, now);
    if p.removed_instances.contains_key(id) {
        (ServerView { rx_subjects: p.rx_subjects.remove(subject), ..p }, false)
    } else {
        (
            ServerView {
                subject_instance: p.subject_instance.insert(subject, id),
                instance_subjects: p.instance_subjects.insert(
                    id,
                    subjects_of(p, id).insert(subject),
                ),
                ..p
            },
            true,
        )
    }
}

/// A subject is no longer that of its instance.
pub open spec fn unlinked<S, R>(s: ServerView<S, R>, subject: Seq<char>) -> ServerView<S, R> {
    if s.subject_instance.contains_key(subject) {
        let id = s.subject_instance[subject];
        let rest = subjects_of(s, id).remove(subject);
        ServerView {
            subject_instance: s.subject_instance.remove(subject),
            instance_subjects: if s.instance_subjects.contains_key(id) {
                if rest == Set::<Seq<char>>::empty() {
                    s.instance_subjects.remove(id)
                } else {
                    s.instance_subjects.insert(id, rest)
                }
            } else {
                s.instance_subjects
            },
            ..s
        }
    } else {
        s
    }
}

/// A response stream is no longer awaited.
pub open spec fn recv_forgotten<S, R>(s: ServerView<S, R>, subject: Seq<char>) -> ServerView<S, R> {
    unlinked(ServerView { rx_subjects: s.rx_subjects.remove(subject), ..s }, subject)
}

/// A request stream is no longer awaited.
pub open spec fn send_forgotten<S, R>(s: ServerView<S, R>, subject: Seq<char>) -> ServerView<S, R> {
    ServerView { tx_subjects: s.tx_subjects.remove(subject), ..s }
}

/// An instance was removed: whoever awaits a stream of it is let go, and the
/// removal is remembered.
pub open spec fn instance_cancelled<S, R>(
    s: ServerView<S, R>,
    id: InstanceView,
    now: u64,
) -> ServerView<S, R> {
    let p = pruned(s, now);
    let subjects = subjects_of(s, id);
    ServerView {
        rx_subjects: p.rx_subjects.remove_keys(subjects),
        subject_instance: p.subject_instance.remove_keys(subjects),
        instance_subjects: p.instance_subjects.remove(id),
        removed_instances: p.removed_instances.insert(id, now),
        ..p
    }
}

/// The removal of an instance is forgotten.
pub open spec fn tombstone_cleared<S, R>(
    s: ServerView<S, R>,
    id: InstanceView,
) -> ServerView<S, R> {
    ServerView { removed_instances: s.removed_instances.remove(id), ..s }
}

/// Someone awaits a request stream.
pub open spec fn send_awaited<S, R>(
    s: ServerView<S, R>,
    subject: Seq<char>,
    connection: S,
) -> ServerView<S, R> {
    ServerView { tx_subjects: s.tx_subjects.insert(subject, connection), ..s }
}

/// Someone awaits a response stream.
pub open spec fn recv_awaited<S, R>(
    s: ServerView<S, R>,
    subject: Seq<char>,
    connection: R,
) -> ServerView<S, R> {
    ServerView { rx_subjects: s.rx_subjects.insert(subject, connection), ..s }
}

/// A step of the server.
pub enum Step<S, R> {
    /// Someone awaits a request stream.
    AwaitSend { subject: Seq<char>, connection: S },
    /// Someone awaits a response stream.
    AwaitRecv { subject: Seq<char>, connection: R },
    /// A request stream is no longer awaited.
    ForgetSend { subject: Seq<char> },
    /// A response stream is no longer awaited, or was handed over.
    ForgetRecv { subject: Seq<char> },
    /// A subject is associated with an instance.
    Associate { subject: Seq<char>, id: InstanceView, now: u64 },
    /// An instance was removed.
    CancelInstance { id: InstanceView, now: u64 },
    /// The removal of an instance is forgotten.
    ClearTombstone { id: InstanceView },
}

/// What the server knows after a step.
pub open spec fn after<S, R>(s: ServerView<S, R>, step: Step<S, R>) -> ServerView<S, R> {
    match step {
        Step::AwaitSend { subject, connection } => send_awaited(s, subject, connection),
        Step::AwaitRecv { subject, connection } => recv_awaited(s, subject, connection),
        Step::ForgetSend { subject } => send_forgotten(s, subject),
        Step::ForgetRecv { subject } => recv_forgotten(s, subject),
        Step::Associate { subject, id, now } => associated(s, subject, id, now).0,
        Step::CancelInstance { id, now } => instance_cancelled(s, id, now),
        Step::ClearTombstone { id } => tombstone_cleared(s, id),
    }
}

/// What the server knows after some steps.
pub open spec fn after_all<S, R>(s: ServerView<S, R>, steps: Seq<Step<S, R>>) -> ServerView<S, R>
    decreases steps.len(),
{
    if steps.len() == 0 {
        s
    } else {
        after(after_all(s, steps.drop_last()), steps.last())
    }
}

/// Every step keeps the links: every subject is among those of its instance, and
/// every instance in the record has some subject.
pub proof fn links_survive<S, R>(s: ServerView<S, R>, step: Step<S, R>)
    requires
        links_hold(s),
    ensures
        links_hold(after(s, step)),
{
    let t = after(s, step);
    assert forall|id: InstanceView| #[trigger] t.instance_subjects.contains_key(id) implies
        t.instance_subjects[id].finite() && t.instance_subjects[id].len() > 0 by {
        let before = subjects_of(s, id);
        if s.instance_subjects.contains_key(id) {
            assert(before.finite());
        }
        match step {
            Step::ForgetRecv { subject } => {
                if t.instance_subjects[id] != before {
                    let rest = before.remove(subject);
                    assert(t.instance_subjects[id] == rest);
                    if rest.len() == 0 {
                        assert(rest =~= Set::empty());
                    }
                }
            },
            Step::Associate { subject, id: to, now } => {
                if id == to && t.instance_subjects[id] != before {
                    assert(before.insert(subject).contains(subject));
                    assert(before.insert(subject).len() > 0);
                }
            },
            _ => {},
        }
    }
    assert forall|subject: Seq<char>| #[trigger]
        t.subject_instance.contains_key(subject) implies subjects_of(
        t,
        t.subject_instance[subject],
    ).contains(subject) by {
        let id = t.subject_instance[subject];
        if s.subject_instance.contains_key(subject) {
            assert(subjects_of(s, s.subject_instance[subject]).contains(subject));
        }
        match step {
            Step::ForgetRecv { subject: gone } => {
                assert(subject != gone || !s.subject_instance.contains_key(gone));
            },
            Step::Associate { subject: new, id: to, now } => {},
            Step::CancelInstance { id: gone, now } => {
                assert(!subjects_of(s, gone).contains(subject));
            },
            _ => {},
        }
    }
}

/// After any steps of a fresh server the links hold.
pub proof fn links_always_survive<S, R>(
    local_ip: Seq<char>,
    local_port: u16,
    steps: Seq<Step<S, R>>,
)
    ensures
        links_hold(after_all(fresh_server::<S, R>(local_ip, local_port), steps)),
    decreases steps.len(),
{
    if steps.len() > 0 {
        links_always_survive(local_ip, local_port, steps.drop_last());
        links_survive(
            after_all(fresh_server::<S, R>(local_ip, local_port), steps.drop_last()),
            steps.last(),
        );
    }
}

/// The time of a step, where it looks at the clock.
pub open spec fn time_of<S, R>(step: Step<S, R>) -> Option<u64> {
    match step {
        Step::Associate { now, .. } => Some(now),
        Step::CancelInstance { now, .. } => Some(now),
        _ => None,
    }
}

/// A time less than the life of a tombstone behind `from`.
pub open spec fn soon_after(from: u64, now: u64) -> bool {
    from <= now < from + TOMBSTONE_TTL
}

/// A step that happens soon after `from` and does not forget the removal of `id`.
pub open spec fn keeps_removal<S, R>(step: Step<S, R>, id: InstanceView, from: u64) -> bool {
    &&& step != Step::<S, R>::ClearTombstone { id }
    &&& time_of(step) matches Some(now) ==> soon_after(from, now)
}

/// The removal of an instance is remembered whatever happens soon after it, unless
/// the instance comes back.
pub proof fn removal_is_remembered<S, R>(
    s: ServerView<S, R>,
    id: InstanceView,
    from: u64,
    steps: Seq<Step<S, R>>,
)
    requires
        s.removed_instances.contains_key(id),
        soon_after(from, s.removed_instances[id]),
        forall|i: int| 0 <= i < steps.len() ==> keeps_removal(#[trigger] steps[i], id, from),
    ensures
        after_all(s, steps).removed_instances.contains_key(id),
        soon_after(from, after_all(s, steps).removed_instances[id]),
    decreases steps.len(),
{
    if steps.len() > 0 {
        let rest = steps.drop_last();
        assert forall|i: int| 0 <= i < rest.len() implies keeps_removal(
            #[trigger] rest[i],
            id,
            from,
        ) by {
            assert(rest[i] == steps[i]);
        }
        removal_is_remembered(s, id, from, rest);
        assert(keeps_removal(steps[steps.len() - 1], id, from));
    }
}

/// An association that comes late is cancelled: once an instance was removed, then,
/// whatever happens meanwhile, short of its return, a subject that is associated
/// with it soon after is refused and no longer awaited.
pub proof fn late_association_is_cancelled<S, R>(
    s: ServerView<S, R>,
    id: InstanceView,
    removed: u64,
    steps: Seq<Step<S, R>>,
    subject: Seq<char>,
    now: u64,
)
    requires
        forall|i: int| 0 <= i < steps.len() ==> keeps_removal(#[trigger] steps[i], id, removed),
        soon_after(removed, now),
    ensures
        ({
            let (t, accepted) = associated(
                after_all(instance_cancelled(s, id, removed), steps),
                subject,
                id,
                now,
            );
            !accepted && !t.rx_subjects.contains_key(subject)
        }),
{
    removal_is_remembered(instance_cancelled(s, id, removed), id, removed, steps);
}

/// A removal that is too long ago no longer stands in the way: a subject is
/// associated as with any other instance, and the removal is forgotten.
pub proof fn old_removal_expires<S, R>(
    s: ServerView<S, R>,
    subject: Seq<char>,
    id: InstanceView,
    now: u64,
)
    requires
        s.removed_instances.contains_key(id) ==> age(now, s.removed_instances[id])
            >= TOMBSTONE_TTL,
    ensures
        ({
            let (t, accepted) = associated(s, subject, id, now);
            &&& accepted
            &&& !t.removed_instances.contains_key(id)
            &&& t.subject_instance.contains_key(subject) && t.subject_instance[subject] == id
            &&& subjects_of(t, id) == subjects_of(s, id).insert(subject)
            &&& t.rx_subjects == s.rx_subjects
        }),
{
}

/// What is remembered of removals is bounded by recent ones: no removal that is too
/// long ago outlives an association or another removal.
pub proof fn only_recent_removals_remain<S, R>(
    s: ServerView<S, R>,
    subject: Seq<char>,
    id: InstanceView,
    other: InstanceView,
    now: u64,
)
    ensures
        associated(s, subject, id, now).0.removed_instances.contains_key(other)
            <==> s.removed_instances.contains_key(other) && age(now, s.removed_instances[other])
            < TOMBSTONE_TTL,
        instance_cancelled(s, id, now).removed_instances.contains_key(other) <==> other == id
            || s.removed_instances.contains_key(other) && age(now, s.removed_instances[other])
            < TOMBSTONE_TTL,
{
}

/// A removal concerns one instance in full: an instance that differs in its
/// namespace, component, endpoint or number keeps its subjects, and whether it can
/// be associated with is as before.
pub proof fn removal_is_scoped<S, R>(
    s: ServerView<S, R>,
    id: InstanceView,
    other: InstanceView,
    subject: Seq<char>,
    removed: u64,
    now: u64,
)
    requires
        id != other,
        removed <= now,
    ensures
        ({
            let t = instance_cancelled(s, id, removed);
            &&& subjects_of(t, other) == subjects_of(s, other)
            &&& associated(t, subject, other, now).1 == associated(s, subject, other, now).1
        }),
        ({
            let t = tombstone_cleared(s, id);
            &&& subjects_of(t, other) == subjects_of(s, other)
            &&& t.removed_instances.contains_key(other) == s.removed_instances.contains_key(other)
            &&& associated(t, subject, other, now).1 == associated(s, subject, other, now).1
        }),
{
}

/// Cancelling an instance lets go of its streams and of no others: a stream is
/// awaited afterwards if and only if it was before and is not one of the instance.
pub proof fn cancelling_spares_other_streams<S, R>(
    s: ServerView<S, R>,
    id: InstanceView,
    subject: Seq<char>,
    now: u64,
)
    ensures
        ({
            let t = instance_cancelled(s, id, now);
            &&& t.rx_subjects.contains_key(subject) <==> s.rx_subjects.contains_key(subject)
                && !subjects_of(s, id).contains(subject)
            &&& t.rx_subjects.contains_key(subject) ==> t.rx_subjects[subject]
                == s.rx_subjects[subject]
            &&& t.tx_subjects == s.tx_subjects
        }),
{
}

/// A stream that was associated with an instance is cancelled with it, and counts
/// once among those cancelled; cancelling again finds none.
pub proof fn associated_stream_is_cancelled<S, R>(
    s: ServerView<S, R>,
    id: InstanceView,
    subject: Seq<char>,
    then: u64,
    now: u64,
)
    requires
        links_hold(s),
        s.rx_subjects.contains_key(subject),
        associated(s, subject, id, then).1,
    ensures
        ({
            let t = associated(s, subject, id, then).0;
            let u = instance_cancelled(t, id, now);
            &&& streams_of(t, id) == streams_of(s, id).insert(subject)
            &&& streams_of(t, id).len() == streams_of(s, id).len() + (if streams_of(
                s,
                id,
            ).contains(subject) {
                0int
            } else {
                1int
            })
            &&& !u.rx_subjects.contains_key(subject)
            &&& !u.subject_instance.contains_key(subject)
            &&& streams_of(u, id).len() == 0
        }),
{
    let t = associated(s, subject, id, then).0;
    let u = instance_cancelled(t, id, now);
    assert(subjects_of(s, id).finite());
    assert(streams_of(s, id).finite());
    assert(streams_of(t, id) =~= streams_of(s, id).insert(subject));
    assert(streams_of(u, id) =~= Set::empty());
}

/// No stream is cancelled twice: whichever instances a subject was associated with,
/// once one of them was cancelled, it is not among the streams of another.
pub proof fn stream_is_cancelled_once<S, R>(
    s: ServerView<S, R>,
    id: InstanceView,
    other: InstanceView,
    subject: Seq<char>,
    now: u64,
)
    requires
        streams_of(s, id).contains(subject),
    ensures
        !streams_of(instance_cancelled(s, id, now), other).contains(subject),
{
}

/// As many streams are let go as are counted: those of the instance, and no others.
pub proof fn count_is_that_of_streams_let_go<S, R>(
    s: ServerView<S, R>,
    id: InstanceView,
    now: u64,
)
    requires
        links_hold(s),
    ensures
        s.rx_subjects.dom().difference(instance_cancelled(s, id, now).rx_subjects.dom())
            == streams_of(s, id),
        streams_of(s, id).finite(),
{
    assert(s.rx_subjects.dom().difference(instance_cancelled(s, id, now).rx_subjects.dom())
        =~= streams_of(s, id));
}

/// The return of an instance allows associations with it again.
pub proof fn return_allows_association<S, R>(
    s: ServerView<S, R>,
    id: InstanceView,
    subject: Seq<char>,
    now: u64,
)
    ensures
        ({
            let (t, accepted) = associated(tombstone_cleared(s, id), subject, id, now);
            accepted && subjects_of(t, id).contains(subject)
        }),
{
}

/// Cancelling one stream cleans up behind it: its instance no longer has it, an
/// instance that had no other stream is no longer on record, and the other
/// streams of the instance stay.
pub proof fn cancelled_stream_leaves_no_trace<S, R>(
    s: ServerView<S, R>,
    subject: Seq<char>,
    other: Seq<char>,
)
    requires
        links_hold(s),
        s.subject_instance.contains_key(subject),
        subject != other,
    ensures
        ({
            let t = recv_forgotten(s, subject);
            let id = s.subject_instance[subject];
            &&& !t.rx_subjects.contains_key(subject)
            &&& !t.subject_instance.contains_key(subject)
            &&& subjects_of(t, id) == subjects_of(s, id).remove(subject)
            &&& subjects_of(s, id) == set![subject] ==> !t.instance_subjects.contains_key(id)
            &&& t.rx_subjects.contains_key(other) == s.rx_subjects.contains_key(other)
            &&& subjects_of(t, id).contains(other) == subjects_of(s, id).contains(other)
        }),
{
    let t = recv_forgotten(s, subject);
    let id = s.subject_instance[subject];
    assert(subjects_of(s, id).contains(subject));
    let rest = subjects_of(s, id).remove(subject);
    assert(subjects_of(t, id) =~= rest);
    if subjects_of(s, id) == set![subject] {
        assert(rest =~= Set::empty());
    }
}

/// A stream is handed over at most once, and to whom it was registered for: it is
/// awaited from its registration on, and no longer once it was taken.
pub proof fn stream_is_handed_over_once<S, R>(
    s: ServerView<S, R>,
    subject: Seq<char>,
    connection: R,
)
    ensures
        recv_awaited(s, subject, connection).rx_subjects.contains_key(subject),
        recv_awaited(s, subject, connection).rx_subjects[subject] == connection,
        !recv_forgotten(recv_awaited(s, subject, connection), subject).rx_subjects.contains_key(
            subject,
        ),
{
}

/// A step that may let go of whoever awaits the response stream of a subject, or
/// put someone in their place.
pub open spec fn touches<S, R>(s: ServerView<S, R>, step: Step<S, R>, subject: Seq<char>) -> bool {
    match step {
        Step::AwaitRecv { subject: x, .. } => x == subject,
        Step::ForgetRecv { subject: x } => x == subject,
        Step::Associate { subject: x, id, now } => x == subject && !associated(s, x, id, now).1,
        Step::CancelInstance { id, .. } => subjects_of(s, id).contains(subject),
        _ => false,
    }
}

/// Whoever awaits a stream keeps waiting until the stream is handed over or
/// cancelled, or its instance is removed: no other step concerns them.
pub proof fn waiting_goes_on<S, R>(s: ServerView<S, R>, step: Step<S, R>, subject: Seq<char>)
    requires
        s.rx_subjects.contains_key(subject),
        !touches(s, step, subject),
    ensures
        after(s, step).rx_subjects.contains_key(subject),
        after(s, step).rx_subjects[subject] == s.rx_subjects[subject],
{
}

/// The record is exact: the subjects of an instance are those that were last
/// associated with it.
pub open spec fn record_is_exact<S, R>(s: ServerView<S, R>) -> bool {
    forall|subject: Seq<char>, id: InstanceView|
        #![trigger subjects_of(s, id).contains(subject)]
        subjects_of(s, id).contains(subject) ==> s.subject_instance.contains_key(subject)
            && s.subject_instance[subject] == id
}

/// The record stays exact as long as no subject is associated with a second
/// instance.
pub proof fn record_stays_exact<S, R>(s: ServerView<S, R>, step: Step<S, R>)
    requires
        record_is_exact(s),
        step matches Step::Associate { subject, id, .. } ==> s.subject_instance.contains_key(
            subject,
        ) ==> s.subject_instance[subject] == id,
    ensures
        record_is_exact(after(s, step)),
{
    let t = after(s, step);
    assert forall|subject: Seq<char>, id: InstanceView|
        #![trigger subjects_of(t, id).contains(subject)]
        subjects_of(t, id).contains(subject) implies t.subject_instance.contains_key(subject)
        && t.subject_instance[subject] == id by {
        match step {
            Step::Associate { subject: new, id: to, now } => {
                if subject != new || id != to {
                    assert(subjects_of(s, id).contains(subject));
                }
            },
            Step::ForgetRecv { subject: gone } => {
                assert(subjects_of(s, id).contains(subject));
                if subject == gone {
                    assert(s.subject_instance[gone] == id);
                    assert(!subjects_of(t, id).contains(gone));
                }
            },
            Step::CancelInstance { id: gone, now } => {
                assert(subjects_of(s, id).contains(subject));
                if subjects_of(s, gone).contains(subject) {
                    assert(gone == id);
                }
            },
            _ => {
                assert(subjects_of(s, id).contains(subject));
            },
        }
    }
}

/// The removal of an instance is remembered at some time: it happened less than five
/// seconds before.
pub open spec fn removed_lately<S, R>(s: ServerView<S, R>, id: InstanceView, now: u64) -> bool {
    s.removed_instances.get(id) matches Some(removed) && now < removed + 5_000_000_000
}

/// An association is refused if and only if the instance was removed less than five
/// seconds before.
pub proof fn association_is_refused_for_five_seconds<S, R>(
    s: ServerView<S, R>,
    subject: Seq<char>,
    id: InstanceView,
    now: u64,
)
    ensures
        associated(s, subject, id, now).1 <==> !removed_lately(s, id, now),
{
}

/// Who awaits the streams of a subject after a step. A request stream is awaited by
/// whoever asked for it last, until it is no longer awaited. A response stream is
/// awaited by whoever asked for it last, until it is no longer awaited, an association
/// of it is refused, or an instance that has the subject is removed.
pub proof fn who_awaits_after_a_step<S, R>(s: ServerView<S, R>, step: Step<S, R>, x: Seq<char>)
    ensures
        after(s, step).tx_subjects.get(x) == match step {
            Step::AwaitSend { subject, connection } => if x == subject {
                Some(connection)
            } else {
                s.tx_subjects.get(x)
            },
            Step::ForgetSend { subject } => if x == subject {
                None
            } else {
                s.tx_subjects.get(x)
            },
            _ => s.tx_subjects.get(x),
        },
        after(s, step).rx_subjects.get(x) == match step {
            Step::AwaitRecv { subject, connection } => if x == subject {
                Some(connection)
            } else {
                s.rx_subjects.get(x)
            },
            Step::ForgetRecv { subject } => if x == subject {
                None
            } else {
                s.rx_subjects.get(x)
            },
            Step::Associate { subject, id, now } => if x == subject && removed_lately(s, id, now) {
                None
            } else {
                s.rx_subjects.get(x)
            },
            Step::CancelInstance { id, .. } => if subjects_of(s, id).contains(x) {
                None
            } else {
                s.rx_subjects.get(x)
            },
            _ => s.rx_subjects.get(x),
        },
        after(s, step).local_ip == s.local_ip,
        after(s, step).local_port == s.local_port,
        after(s, step).started == s.started,
{
}

/// Which instance a subject belongs to after a step, and which subjects an instance
/// has. A subject belongs to the instance that it was associated with last, unless that
/// was refused, until its stream is no longer awaited or an instance that has it is
/// removed; a removed instance has no subjects.
pub proof fn who_belongs_where_after_a_step<S, R>(
    s: ServerView<S, R>,
    step: Step<S, R>,
    x: Seq<char>,
    i: InstanceView,
)
    requires
        links_hold(s),
    ensures
        after(s, step).subject_instance.get(x) == match step {
            Step::Associate { subject, id, now } => if x == subject && !removed_lately(s, id, now) {
                Some(id)
            } else {
                s.subject_instance.get(x)
            },
            Step::ForgetRecv { subject } => if x == subject {
                None
            } else {
                s.subject_instance.get(x)
            },
            Step::CancelInstance { id, .. } => if subjects_of(s, id).contains(x) {
                None
            } else {
                s.subject_instance.get(x)
            },
            _ => s.subject_instance.get(x),
        },
        subjects_of(after(s, step), i).contains(x) <==> match step {
            Step::Associate { subject, id, now } => subjects_of(s, i).contains(x) || x == subject
                && i == id && !removed_lately(s, id, now),
            Step::ForgetRecv { subject } => subjects_of(s, i).contains(x) && !(x == subject
                && s.subject_instance.get(x) == Some(i)),
            Step::CancelInstance { id, .. } => subjects_of(s, i).contains(x) && i != id,
            _ => subjects_of(s, i).contains(x),
        },
        after(s, step).instance_subjects.contains_key(i) <==> exists|y: Seq<char>| #[trigger]
            subjects_of(after(s, step), i).contains(y),
{
    let t = after(s, step);
    links_survive(s, step);
    if s.subject_instance.contains_key(x) {
        assert(subjects_of(s, s.subject_instance[x]).contains(x));
    }
    match step {
        Step::ForgetRecv { subject } => {
            if s.subject_instance.contains_key(subject) {
                let id = s.subject_instance[subject];
                assert(subjects_of(s, id).contains(subject));
                assert(subjects_of(t, id) =~= subjects_of(s, id).remove(subject));
            }
        },
        _ => {},
    }
    if t.instance_subjects.contains_key(i) {
        assert(subjects_of(t, i).contains(subjects_of(t, i).choose()));
    }
}

/// Which removals are remembered after a step, and since when: that of an instance
/// that was removed, until it comes back; a step that looks at the clock forgets those
/// of five seconds before and more, but for one that it brings itself.
pub proof fn which_removals_are_remembered_after_a_step<S, R>(
    s: ServerView<S, R>,
    step: Step<S, R>,
    i: InstanceView,
)
    ensures
        after(s, step).removed_instances.get(i) == match step {
            Step::CancelInstance { id, now } => if i == id {
                Some(now)
            } else if removed_lately(s, i, now) {
                s.removed_instances.get(i)
            } else {
                None
            },
            Step::Associate { now, .. } => if removed_lately(s, i, now) {
                s.removed_instances.get(i)
            } else {
                None
            },
            Step::ClearTombstone { id } => if i == id {
                None
            } else {
                s.removed_instances.get(i)
            },
            _ => s.removed_instances.get(i),
        },
{
}

} // verus!
