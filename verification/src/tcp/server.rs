//! The stream server: whoever awaits a stream registers with it, and the client
//! that opens the stream is matched with them by subject.
use crate::tcp::instance::{EndpointInstanceId, InstanceView};
use crate::tcp::options::{ServerOptions, ServerOptionsBuilder};
use crate::tcp::resolve::{
    choice_is_an_address, gives_addresses, ip_look, listen_address, may_resolve,
    DefaultIpResolver, IpResolver, PipelineError, PipelineErrorView,
};
use crate::tcp::stream::{
    draw_subject, drawn, info_view, subject_text, ConnectionInfoView, PendingConnections,
    StreamOptions, StreamType, TcpStreamConnectionInfo,
};
use crate::tcp::table::Table;
use crate::tcp::tracking::{
    address_text, associated, fresh_server, instance_cancelled, links_hold, links_survive, pruned,
    recv_awaited, recv_forgotten, send_awaited, send_forgotten, streams_of, subjects_of,
    tombstone_cleared, unlinked, ServerView, Step, TOMBSTONE_TTL,
};
use crate::text::{decimal, decimal_text, joined};
use vstd::prelude::*;
use vstd::string::*;

verus! {

/// A point in time.
#[verifier::external_type_specification]
#[verifier::external_body]
pub struct ExInstant(tokio::time::Instant);

/// Calls `tokio::time::Instant::now`. What it returns rests on the clock.
#[verifier::external_body]
fn clock_now() -> (now: tokio::time::Instant) {
    tokio::time::Instant::now()
}

/// Calls `tokio::time::Instant::elapsed`: the nanoseconds since a point in time.
/// What it returns rests on the clock.
#[verifier::external_body]
fn nanos_since(epoch: &tokio::time::Instant) -> (nanos: u64) {
    epoch.elapsed().as_nanos() as u64
}

/// The clock may show a point in time when it is read.
pub closed spec fn clock_may_show(now: tokio::time::Instant) -> bool {
    call_ensures(clock_now, (), now)
}

/// The clock, read, may show that so many nanoseconds have gone by since a point in
/// time.
pub closed spec fn clock_may_count(epoch: tokio::time::Instant, nanos: u64) -> bool {
    call_ensures(nanos_since, (&epoch,), nanos)
}

/// A service that awaits streams: each is registered under a subject, with what is
/// needed to hand the stream over once a client opens it. `S` is that of a stream
/// of requests, `R` that of a stream of responses.
pub struct TcpStreamServer<S, R> {
    local_ip: String,
    local_port: u16,
    started: bool,
    epoch: tokio::time::Instant,
    latest: u64,
    tx_subjects: Table<String, S>,
    rx_subjects: Table<String, R>,
    subject_instance: Table<String, EndpointInstanceId>,
    instance_subjects: Table<EndpointInstanceId, Table<String, ()>>,
    removed_instances: Table<EndpointInstanceId, u64>,
}

/// The identities that a table holds, by what they hold.
spec fn instance_views(m: Map<Seq<char>, EndpointInstanceId>) -> Map<Seq<char>, InstanceView> {
    m.map_values(|id: EndpointInstanceId| id@)
}

/// The subjects that a table holds for each instance.
spec fn subject_sets(m: Map<InstanceView, Table<String, ()>>) -> Map<InstanceView, Set<Seq<char>>> {
    m.map_values(|subjects: Table<String, ()>| subjects@.dom())
}

impl<S, R> View for TcpStreamServer<S, R> {
    type V = ServerView<S, R>;

    closed spec fn view(&self) -> ServerView<S, R> {
        ServerView {
            local_ip: self.local_ip@,
            local_port: self.local_port,
            started: self.started,
            tx_subjects: self.tx_subjects@,
            rx_subjects: self.rx_subjects@,
            subject_instance: instance_views(self.subject_instance@),
            instance_subjects: subject_sets(self.instance_subjects@),
            removed_instances: self.removed_instances@,
        }
    }
}

/// Every table of subjects has each subject once.
spec fn sets_are_wf(m: Map<InstanceView, Table<String, ()>>) -> bool {
    forall|id: InstanceView| #[trigger] m.contains_key(id) ==> m[id].wf()
}

impl<S, R> TcpStreamServer<S, R> {
    /// The tables have each key once, and every subject is among those of its
    /// instance.
    pub closed spec fn wf(&self) -> bool {
        &&& self.tx_subjects.wf()
        &&& self.rx_subjects.wf()
        &&& self.subject_instance.wf()
        &&& self.instance_subjects.wf()
        &&& self.removed_instances.wf()
        &&& sets_are_wf(self.instance_subjects@)
        &&& links_hold(self@)
    }

    /// When the life of the server began, from which its times count.
    pub closed spec fn epoch(&self) -> tokio::time::Instant {
        self.epoch
    }

    /// The latest time that the server judged anything at by the clock, in nanoseconds
    /// since its epoch.
    pub closed spec fn latest(&self) -> u64 {
        self.latest
    }

    /// What holds of every server: every subject is among those of its instance,
    /// and every instance in the record has some subject.
    pub proof fn links_always_hold(&self)
        requires
            self.wf(),
        ensures
            links_hold(self@),
    {
    }

    /// A builder of options on which nothing is set.
    pub fn options_builder() -> (builder: ServerOptionsBuilder)
        ensures
            builder.port is None,
            builder.interface is None,
    {
        ServerOptions::builder()
    }

    /// A server that is to listen on the given address and port.
    pub fn at_address(local_ip: String, local_port: u16) -> (server: Self)
        ensures
            server.wf(),
            server@ == fresh_server::<S, R>(local_ip@, local_port),
            clock_may_show(server.epoch()),
            server.latest() == 0,
    {
        let server = TcpStreamServer {
            local_ip,
            local_port,
            started: false,
            epoch: clock_now(),
            latest: 0,
            tx_subjects: Table::new(),
            rx_subjects: Table::new(),
            subject_instance: Table::new(),
            instance_subjects: Table::new(),
            removed_instances: Table::new(),
        };
        assert(server@ =~= fresh_server::<S, R>(local_ip@, local_port));
        server
    }

    /// A server on the address that the system gives for this host, or for the
    /// prescribed interface.
    pub fn new(options: ServerOptions) -> (r: Result<Self, PipelineError>)
        ensures
            r matches Ok(server) ==> server.wf() && server@ == fresh_server::<S, R>(
                server@.local_ip,
                options.port,
            ),
            may_resolve(options.interface, &DefaultIpResolver, made_view(r)),
            r matches Ok(server) ==> ip_look(server@.local_ip),
    {
        let ghost interface = options.interface;
        let r = Self::new_with_resolver(options, DefaultIpResolver);
        proof {
            choice_is_an_address(interface, &DefaultIpResolver, made_view(r));
        }
        r
    }

    /// A server on the address that the resolver gives for this host, or on that of
    /// the prescribed interface.
    pub fn new_with_resolver<P: IpResolver>(options: ServerOptions, resolver: P) -> (r: Result<
        Self,
        PipelineError,
    >)
        ensures
            r matches Ok(server) ==> server.wf() && server@ == fresh_server::<S, R>(
                server@.local_ip,
                options.port,
            ),
            may_resolve(options.interface, &resolver, made_view(r)),
            options.interface is Some || gives_addresses(&resolver) ==> (r matches Ok(server)
                ==> ip_look(server@.local_ip)),
    {
        let ghost interface = options.interface;
        let r = match listen_address(&options.interface, &resolver) {
            Ok(local_ip) => Ok(Self::at_address(local_ip, options.port)),
            Err(e) => Err(e),
        };
        proof {
            if interface is Some || gives_addresses(&resolver) {
                choice_is_an_address(interface, &resolver, made_view(r));
            }
        }
        r
    }

    /// The address and the port, as they are bound or handed to a client.
    pub fn address(&self) -> (r: String)
        ensures
            r@ == address_text(self@),
    {
        let mut r = joined(self.local_ip.as_str(), ":");
        let port = decimal_text(self.local_port as u64);
        r.append(port.as_str());
        r
    }

    /// Whether the server was started.
    pub fn is_started(&self) -> (b: bool)
        ensures
            b == self@.started,
    {
        self.started
    }

    /// Marks the server as started, and says which address to bind.
    pub fn start(&mut self) -> (address: String)
        requires
            old(self).wf(),
            !old(self)@.started,
        ensures
            final(self).wf(),
            final(self).epoch() == old(self).epoch(),
            final(self).latest() == old(self).latest(),
            final(self)@ == (ServerView { started: true, ..old(self)@ }),
            address@ == address_text(old(self)@),
    {
        self.started = true;
        let address = self.address();
        proof {
            lemma_links_by_tracking(old(self)@, self@);
        }
        address
    }

    /// Takes note of the port that was bound, or tells why none was.
    pub fn bound(&mut self, outcome: Result<u16, String>) -> (r: Result<u16, PipelineError>)
        requires
            old(self).wf(),
        ensures
            final(self).wf(),
            final(self).epoch() == old(self).epoch(),
            final(self).latest() == old(self).latest(),
            match outcome {
                Ok(port) => r == Ok::<u16, PipelineError>(port) && final(self)@ == (ServerView {
                    local_port: port,
                    ..old(self)@
                }),
                Err(e) => final(self)@ == old(self)@ && r is Err && r->Err_0@
                    == PipelineErrorView::Generic("Failed to start TcpStreamServer: "@ + e@),
            },
    {
        match outcome {
            Ok(port) => {
                self.local_port = port;
                proof {
                    lemma_links_by_tracking(old(self)@, self@);
                }
                Ok(port)
            },
            Err(e) => Err(
                PipelineError::Generic(joined("Failed to start TcpStreamServer: ", e.as_str())),
            ),
        }
    }
}

/// The address of a server, or why there is none.
pub open spec fn made_view<S, R>(r: Result<TcpStreamServer<S, R>, PipelineError>) -> Result<
    Seq<char>,
    PipelineErrorView,
> {
    match r {
        Ok(server) => Ok(server@.local_ip),
        Err(e) => Err(e@),
    }
}

/// Why the listener could not be started, in words.
pub fn listener_error(address: &str, reason: &str) -> (r: String)
    ensures
        r@ == "Failed to start TcpListender on "@ + address@ + ": "@ + reason@,
{
    let mut r = joined("Failed to start TcpListender on ", address);
    r.append(": ");
    r.append(reason);
    r
}

/// Only the record of instances matters for the links.
proof fn lemma_links_by_tracking<S, R>(a: ServerView<S, R>, b: ServerView<S, R>)
    requires
        links_hold(a),
        a.subject_instance == b.subject_instance,
        a.instance_subjects == b.instance_subjects,
    ensures
        links_hold(b),
{
    assert forall|subject: Seq<char>| #[trigger]
        b.subject_instance.contains_key(subject) implies subjects_of(
        b,
        b.subject_instance[subject],
    ).contains(subject) by {
        assert(subjects_of(a, a.subject_instance[subject]).contains(subject));
    }
}

/// What tables of identities and of subjects hold, entry by entry.
proof fn lemma_entry_views(
    ids: Map<Seq<char>, EndpointInstanceId>,
    subject: Seq<char>,
    id: EndpointInstanceId,
    sets: Map<InstanceView, Table<String, ()>>,
    key: InstanceView,
    set: Table<String, ()>,
)
    ensures
        instance_views(ids.insert(subject, id)) == instance_views(ids).insert(subject, id@),
        instance_views(ids.remove(subject)) == instance_views(ids).remove(subject),
        subject_sets(sets.insert(key, set)) == subject_sets(sets).insert(key, set@.dom()),
        subject_sets(sets.remove(key)) == subject_sets(sets).remove(key),
{
    assert(instance_views(ids.insert(subject, id)) =~= instance_views(ids).insert(subject, id@));
    assert(instance_views(ids.remove(subject)) =~= instance_views(ids).remove(subject));
    assert(subject_sets(sets.insert(key, set)) =~= subject_sets(sets).insert(key, set@.dom()));
    assert(subject_sets(sets.remove(key)) =~= subject_sets(sets).remove(key));
}

impl<S, R> TcpStreamServer<S, R> {
    /// Forgets the removals of instances that are too long ago.
    fn prune_tombstones(&mut self, now: u64)
        requires
            old(self).wf(),
        ensures
            final(self).wf(),
            final(self).epoch() == old(self).epoch(),
            final(self).latest() == old(self).latest(),
            final(self)@ == pruned(old(self)@, now),
    {
        self.removed_instances.keep_recent(now, TOMBSTONE_TTL);
        proof {
            lemma_links_by_tracking(old(self)@, self@);
        }
    }

    /// Associates a registered subject with an instance, `now` nanoseconds into the
    /// life of the server. Returns `false` where the instance was removed shortly
    /// before: then the subject is cancelled, and the request should not be sent.
    pub fn associate_instance_at(
        &mut self,
        subject: &str,
        id: &EndpointInstanceId,
        now: u64,
    ) -> (r: bool)
        requires
            old(self).wf(),
        ensures
            final(self).wf(),
            final(self).epoch() == old(self).epoch(),
            final(self).latest() == old(self).latest(),
            (final(self)@, r) == associated(old(self)@, subject@, id@, now),
    {
        proof {
            links_survive(old(self)@, Step::Associate { subject: subject@, id: id@, now });
        }
        self.prune_tombstones(now);
        let ghost p = self@;
        if self.removed_instances.contains_key(id) {
            self.rx_subjects.remove(&subject.to_owned());
            assert(self@ =~= associated(old(self)@, subject@, id@, now).0);
            return false;
        }
        let ghost ids = self.subject_instance@;
        let ghost sets = self.instance_subjects@;
        let mut subjects = match self.instance_subjects.remove(id) {
            Some(subjects) => subjects,
            None => Table::new(),
        };
        let ghost before = subjects@.dom();
        assert(before =~= subjects_of(p, id@));
        subjects.insert(subject.to_owned(), ());
        assert(subjects@.dom() =~= before.insert(subject@));
        self.subject_instance.insert(subject.to_owned(), id.clone());
        self.instance_subjects.insert(id.clone(), subjects);
        proof {
            lemma_entry_views(ids, subject@, self.subject_instance@[subject@], sets, id@, subjects);
            assert(self.instance_subjects@ =~= sets.insert(id@, subjects));
            assert(self@ =~= associated(old(self)@, subject@, id@, now).0);
        }
        true
    }

    /// Reads the clock: the nanoseconds since the epoch of the server, and not less than
    /// at any reading before.
    fn tick(&mut self) -> (now: u64)
        requires
            old(self).wf(),
        ensures
            final(self).wf(),
            final(self)@ == old(self)@,
            final(self).epoch() == old(self).epoch(),
            final(self).latest() == now,
            now >= old(self).latest(),
            exists|reading: u64| #[trigger]
                clock_may_count(old(self).epoch(), reading) && now >= reading && (now == reading
                    || now == old(self).latest()),
    {
        let reading = nanos_since(&self.epoch);
        assert(clock_may_count(self.epoch(), reading));
        if reading > self.latest {
            self.latest = reading;
        }
        self.latest
    }

    /// Associates a registered subject with an instance. Returns `false` where the
    /// instance was removed shortly before: then the subject is cancelled, and the
    /// request should not be sent. The association is judged at the time that has gone by
    /// since the epoch of the server: at a reading of the clock, or, where an earlier one
    /// was later, at that.
    pub fn associate_instance(&mut self, subject: &str, id: &EndpointInstanceId) -> (r: bool)
        requires
            old(self).wf(),
        ensures
            final(self).wf(),
            final(self).epoch() == old(self).epoch(),
            (final(self)@, r) == associated(old(self)@, subject@, id@, final(self).latest()),
            final(self).latest() >= old(self).latest(),
            exists|reading: u64| #[trigger]
                clock_may_count(old(self).epoch(), reading) && final(self).latest() >= reading && (
                final(self).latest() == reading || final(self).latest() == old(self).latest()),
    {
        let now = self.tick();
        self.associate_instance_at(subject, id, now)
    }

    /// A subject is no longer that of its instance.
    fn unlink(&mut self, subject: &String)
        requires
            old(self).wf(),
        ensures
            final(self).wf(),
            final(self).epoch() == old(self).epoch(),
            final(self).latest() == old(self).latest(),
            final(self)@ == unlinked(old(self)@, subject@),
            final(self)@.rx_subjects == old(self)@.rx_subjects,
    {
        let ghost ids = self.subject_instance@;
        let ghost sets = self.instance_subjects@;
        proof {
            lemma_unlinked_links(self@, subject@);
        }
        let id = match self.subject_instance.remove(subject) {
            Some(id) => id,
            None => {
                assert(self@ =~= old(self)@);
                return;
            },
        };
        assert(instance_views(ids).contains_key(subject@));
        match self.instance_subjects.remove(&id) {
            Some(mut subjects) => {
                let ghost before = subjects@.dom();
                assert(before == subjects_of(old(self)@, id@));
                subjects.remove(subject);
                assert(subjects@.dom() =~= before.remove(subject@));
                proof {
                    lemma_entry_views(ids, subject@, id, sets, id@, subjects);
                }
                if subjects.len() > 0 {
                    self.instance_subjects.insert(id, subjects);
                    assert(self.instance_subjects@ =~= sets.insert(id@, subjects));
                    assert(subjects@.dom() != Set::<Seq<char>>::empty());
                } else {
                    assert(subjects@.dom() =~= Set::<Seq<char>>::empty());
                }
                assert(self@ =~= unlinked(old(self)@, subject@));
            },
            None => {
                proof {
                    lemma_entry_views(ids, subject@, id, sets, id@, arbitrary());
                }
                assert(self.instance_subjects@ =~= sets);
                assert(self@ =~= unlinked(old(self)@, subject@));
            },
        }
    }

    /// Cancels one awaited response stream: whoever awaits it is let go.
    pub fn cancel_recv_stream(&mut self, subject: &str)
        requires
            old(self).wf(),
        ensures
            final(self).wf(),
            final(self).epoch() == old(self).epoch(),
            final(self).latest() == old(self).latest(),
            final(self)@ == recv_forgotten(old(self)@, subject@),
    {
        let key = subject.to_owned();
        self.rx_subjects.remove(&key);
        proof {
            lemma_links_by_tracking(old(self)@, self@);
        }
        self.unlink(&key);
    }

    /// Cancels one awaited request stream: whoever awaits it is let go.
    pub fn cancel_send_stream(&mut self, subject: &str)
        requires
            old(self).wf(),
        ensures
            final(self).wf(),
            final(self).epoch() == old(self).epoch(),
            final(self).latest() == old(self).latest(),
            final(self)@ == send_forgotten(old(self)@, subject@),
    {
        self.tx_subjects.remove(&subject.to_owned());
        proof {
            lemma_links_by_tracking(old(self)@, self@);
        }
    }

    /// Hands over whoever awaits the response stream of a subject, for the client
    /// that opens it.
    pub fn take_recv_stream(&mut self, subject: &str) -> (r: Result<R, String>)
        requires
            old(self).wf(),
        ensures
            final(self).wf(),
            final(self).epoch() == old(self).epoch(),
            final(self).latest() == old(self).latest(),
            match r {
                Ok(connection) => {
                    &&& old(self)@.rx_subjects.contains_key(subject@)
                    &&& connection == old(self)@.rx_subjects[subject@]
                    &&& final(self)@ == recv_forgotten(old(self)@, subject@)
                },
                Err(e) => {
                    &&& !old(self)@.rx_subjects.contains_key(subject@)
                    &&& final(self)@ == old(self)@
                    &&& e@ == unknown_subject_text(subject@)
                },
            },
    {
        let key = subject.to_owned();
        match self.rx_subjects.remove(&key) {
            Some(connection) => {
                proof {
                    lemma_links_by_tracking(old(self)@, self@);
                }
                self.unlink(&key);
                Ok(connection)
            },
            None => {
                assert(self@ =~= old(self)@);
                let mut e = joined("Subject not found: ", subject);
                e.append(
                    "; upstream publisher specified a subject unknown to the downsteam subscriber",
                );
                Err(e)
            },
        }
    }

    /// Cancels all awaited response streams of an instance, `now` nanoseconds into
    /// the life of the server, and remembers the removal, so that a late
    /// association with the instance is cancelled too. Returns the number of
    /// streams cancelled.
    pub fn cancel_instance_streams_at(&mut self, id: &EndpointInstanceId, now: u64) -> (n: usize)
        requires
            old(self).wf(),
        ensures
            final(self).wf(),
            final(self).epoch() == old(self).epoch(),
            final(self).latest() == old(self).latest(),
            final(self)@ == instance_cancelled(old(self)@, id@, now),
            n == streams_of(old(self)@, id@).len(),
    {
        proof {
            links_survive(old(self)@, Step::CancelInstance { id: id@, now });
        }
        self.prune_tombstones(now);
        let ghost p = self@;
        self.removed_instances.insert(id.clone(), now);
        let ghost sets = self.instance_subjects@;
        let mut subjects = match self.instance_subjects.remove(id) {
            Some(subjects) => subjects,
            None => {
                assert(subject_sets(sets.remove(id@)) =~= subject_sets(sets).remove(id@));
                assert(self@ =~= instance_cancelled(old(self)@, id@, now));
                assert(streams_of(old(self)@, id@) =~= Set::empty());
                return 0;
            },
        };
        let ghost all = subjects@.dom();
        assert(all == subjects_of(p, id@));
        let bound = subjects.len();
        let mut count: usize = 0;
        let ghost rx = self.rx_subjects@;
        let ghost ids = self.subject_instance@;
        let ghost start = *self;
        assert(all.difference(subjects@.dom()) =~= Set::empty());
        assert(Set::<Seq<char>>::empty().intersect(rx.dom()) =~= Set::empty());
        assert(rx.remove_keys(Set::empty()) =~= rx);
        assert(ids.remove_keys(Set::empty()) =~= ids);
        let mut more = true;
        while more
            invariant
                subjects.wf(),
                subjects@.dom().subset_of(all),
                subjects@.dom().finite(),
                self.rx_subjects.wf(),
                self.subject_instance.wf(),
                self.rx_subjects@ == rx.remove_keys(all.difference(subjects@.dom())),
                self.subject_instance@ == ids.remove_keys(all.difference(subjects@.dom())),
                !more ==> subjects@.dom() == Set::<Seq<char>>::empty(),
                all.difference(subjects@.dom()).finite(),
                count == all.difference(subjects@.dom()).intersect(rx.dom()).len(),
                count + subjects@.dom().len() <= bound,
                self.epoch == start.epoch,
                self.latest == start.latest,
                self.local_ip == start.local_ip,
                self.local_port == start.local_port,
                self.started == start.started,
                self.tx_subjects == start.tx_subjects,
                self.instance_subjects == start.instance_subjects,
                self.removed_instances == start.removed_instances,
            decreases subjects@.dom().len() + (if more {
                1int
            } else {
                0int
            }),
        {
            let ghost left = subjects@.dom();
            match subjects.pop() {
                Some((subject, _)) => {
                    let ghost done = all.difference(left);
                    if self.rx_subjects.remove(&subject).is_some() {
                        count = count + 1;
                    }
                    self.subject_instance.remove(&subject);
                    proof {
                        let next = all.difference(subjects@.dom());
                        assert(subjects@.dom() =~= left.remove(subject@));
                        assert(next =~= done.insert(subject@));
                        assert(!done.contains(subject@));
                        assert(next.intersect(rx.dom()) =~= if rx.contains_key(subject@) {
                            done.intersect(rx.dom()).insert(subject@)
                        } else {
                            done.intersect(rx.dom())
                        });
                        assert(rx.remove_keys(done).remove(subject@) =~= rx.remove_keys(next));
                        assert(ids.remove_keys(done).remove(subject@) =~= ids.remove_keys(next));
                    }
                },
                None => {
                    assert(subjects@.dom() =~= Set::empty());
                    more = false;
                },
            }
        }
        proof {
            assert(all.difference(subjects@.dom()) =~= all);
            assert(all.intersect(rx.dom()) =~= streams_of(old(self)@, id@));
            assert(subject_sets(sets.remove(id@)) =~= subject_sets(sets).remove(id@));
            assert(instance_views(ids.remove_keys(all)) =~= instance_views(ids).remove_keys(all));
            assert(self@ =~= instance_cancelled(old(self)@, id@, now));
        }
        count
    }

    /// Cancels all awaited response streams of an instance, and remembers the
    /// removal, so that a late association with the instance is cancelled too.
    /// Returns the number of streams cancelled.
    pub fn cancel_instance_streams(&mut self, id: &EndpointInstanceId) -> (n: usize)
        requires
            old(self).wf(),
        ensures
            final(self).wf(),
            final(self).epoch() == old(self).epoch(),
            final(self)@ == instance_cancelled(old(self)@, id@, final(self).latest()),
            final(self).latest() >= old(self).latest(),
            exists|reading: u64| #[trigger]
                clock_may_count(old(self).epoch(), reading) && final(self).latest() >= reading && (
                final(self).latest() == reading || final(self).latest() == old(self).latest()),
            n == streams_of(old(self)@, id@).len(),
    {
        let now = self.tick();
        self.cancel_instance_streams_at(id, now)
    }

    /// Forgets the removal of an instance that is back, so that its streams are
    /// awaited as those of any other.
    pub fn clear_instance_tombstone(&mut self, id: &EndpointInstanceId)
        requires
            old(self).wf(),
        ensures
            final(self).wf(),
            final(self).epoch() == old(self).epoch(),
            final(self).latest() == old(self).latest(),
            final(self)@ == tombstone_cleared(old(self)@, id@),
    {
        self.removed_instances.remove(id);
        proof {
            lemma_links_by_tracking(old(self)@, self@);
        }
    }
}

/// What is said of a subject under which nobody awaits a stream.
pub open spec fn unknown_subject_text(subject: Seq<char>) -> Seq<char> {
    "Subject not found: "@ + subject
        + "; upstream publisher specified a subject unknown to the downsteam subscriber"@
}

/// The links survive when a subject is no longer that of its instance.
proof fn lemma_unlinked_links<S, R>(s: ServerView<S, R>, subject: Seq<char>)
    requires
        links_hold(s),
    ensures
        links_hold(unlinked(s, subject)),
{
    let t = recv_forgotten(s, subject);
    links_survive(s, Step::ForgetRecv { subject });
    lemma_links_by_tracking(t, unlinked(s, subject));
}

/// What a client needs to open a stream of the server.
pub open spec fn stream_info<S, R>(
    s: ServerView<S, R>,
    subject: Seq<char>,
    context: Seq<char>,
    stream_type: StreamType,
) -> ConnectionInfoView {
    ConnectionInfoView { address: address_text(s), subject, context, stream_type }
}

/// What the server knows once the streams that were asked for are registered.
pub open spec fn registered<S, R>(
    s: ServerView<S, R>,
    options: StreamOptions,
    sender: (Seq<char>, S),
    receiver: (Seq<char>, R),
) -> ServerView<S, R> {
    let t = if options.enable_request_stream {
        send_awaited(s, sender.0, sender.1)
    } else {
        s
    };
    if options.enable_response_stream {
        recv_awaited(t, receiver.0, receiver.1)
    } else {
        t
    }
}

/// What the server knows once the registration of a stream ended.
pub open spec fn deregistered<S, R>(
    s: ServerView<S, R>,
    info: ConnectionInfoView,
) -> ServerView<S, R> {
    match info.stream_type {
        StreamType::Request => send_forgotten(s, info.subject),
        StreamType::Response => recv_forgotten(s, info.subject),
    }
}

/// Ending the registration of streams undoes it: the server knows what it knew
/// before, where the subjects were new to it.
pub proof fn deregistration_undoes_registration<S, R>(
    s: ServerView<S, R>,
    options: StreamOptions,
    sender: (Seq<char>, S),
    receiver: (Seq<char>, R),
)
    requires
        !s.tx_subjects.contains_key(sender.0),
        !s.rx_subjects.contains_key(receiver.0),
        !s.subject_instance.contains_key(receiver.0),
    ensures
        ({
            let t = registered(s, options, sender, receiver);
            let (send, recv) = registrations(s, options, sender.0, receiver.0);
            let u = match send {
                Some(info) => deregistered(t, info),
                None => t,
            };
            (match recv {
                Some(info) => deregistered(u, info),
                None => u,
            }) == s
        }),
{
    assert(s.tx_subjects.insert(sender.0, sender.1).remove(sender.0) =~= s.tx_subjects);
    assert(s.rx_subjects.insert(receiver.0, receiver.1).remove(receiver.0) =~= s.rx_subjects);
}

/// What clients need to open the streams that were asked for.
pub open spec fn registrations<S, R>(
    s: ServerView<S, R>,
    options: StreamOptions,
    sender_subject: Seq<char>,
    receiver_subject: Seq<char>,
) -> (Option<ConnectionInfoView>, Option<ConnectionInfoView>) {
    (
        if options.enable_request_stream {
            Some(stream_info(s, sender_subject, options.context@, StreamType::Request))
        } else {
            None
        },
        if options.enable_response_stream {
            Some(stream_info(s, receiver_subject, options.context@, StreamType::Response))
        } else {
            None
        },
    )
}

impl<S, R> TcpStreamServer<S, R> {
    /// Registers the streams that are asked for under the given subjects, each with
    /// whoever awaits it. What awaits a stream that is not asked for is dropped.
    pub fn register_as(
        &mut self,
        options: &StreamOptions,
        sender: (String, S),
        receiver: (String, R),
    ) -> (r: PendingConnections)
        requires
            old(self).wf(),
        ensures
            final(self).wf(),
            final(self).epoch() == old(self).epoch(),
            final(self).latest() == old(self).latest(),
            final(self)@ == registered(
                old(self)@,
                *options,
                (sender.0@, sender.1),
                (receiver.0@, receiver.1),
            ),
            (info_view(r.send_stream), info_view(r.recv_stream)) == registrations(
                old(self)@,
                *options,
                sender.0@,
                receiver.0@,
            ),
    {
        let address = self.address();
        let send_stream = if options.enable_request_stream {
            let (subject, connection) = sender;
            self.tx_subjects.insert(subject.clone(), connection);
            proof {
                lemma_links_by_tracking(old(self)@, self@);
            }
            Some(
                TcpStreamConnectionInfo {
                    address: address.clone(),
                    subject,
                    context: options.context.clone(),
                    stream_type: StreamType::Request,
                },
            )
        } else {
            None
        };
        let ghost s = self@;
        let recv_stream = if options.enable_response_stream {
            let (subject, connection) = receiver;
            self.rx_subjects.insert(subject.clone(), connection);
            proof {
                lemma_links_by_tracking(s, self@);
            }
            Some(
                TcpStreamConnectionInfo {
                    address,
                    subject,
                    context: options.context.clone(),
                    stream_type: StreamType::Response,
                },
            )
        } else {
            None
        };
        PendingConnections { send_stream, recv_stream }
    }

    /// Registers the streams that are asked for under new subjects, each with
    /// whoever awaits it. What awaits a stream that is not asked for is dropped.
    pub fn register(
        &mut self,
        options: &StreamOptions,
        send_connection: S,
        recv_connection: R,
    ) -> (r: PendingConnections)
        requires
            old(self).wf(),
        ensures
            final(self).wf(),
            final(self).epoch() == old(self).epoch(),
            final(self).latest() == old(self).latest(),
            exists|a: String, b: String|
                #![trigger drawn(a), drawn(b)]
                drawn(a) && drawn(b) && subject_text(a@) && subject_text(b@) && final(self)@
                    == registered(
                    old(self)@,
                    *options,
                    (a@, send_connection),
                    (b@, recv_connection),
                ) && (info_view(r.send_stream), info_view(r.recv_stream)) == registrations(
                    old(self)@,
                    *options,
                    a@,
                    b@,
                ),
    {
        let sender_subject = draw_subject();
        let receiver_subject = draw_subject();
        let ghost drawn_subjects = (sender_subject, receiver_subject);
        assert(drawn(drawn_subjects.0) && drawn(drawn_subjects.1));
        self.register_as(
            options,
            (sender_subject, send_connection),
            (receiver_subject, recv_connection),
        )
    }

    /// Ends the registration of a stream: whoever awaits it is let go.
    pub fn deregister(&mut self, info: &TcpStreamConnectionInfo)
        requires
            old(self).wf(),
        ensures
            final(self).wf(),
            final(self).epoch() == old(self).epoch(),
            final(self).latest() == old(self).latest(),
            final(self)@ == deregistered(old(self)@, info@),
    {
        match info.stream_type {
            StreamType::Request => self.cancel_send_stream(info.subject.as_str()),
            StreamType::Response => self.cancel_recv_stream(info.subject.as_str()),
        }
    }

    /// Whether someone awaits the response stream of a subject.
    pub fn awaits_recv_stream(&self, subject: &str) -> (b: bool)
        requires
            self.wf(),
        ensures
            b == self@.rx_subjects.contains_key(subject@),
    {
        self.rx_subjects.contains_key(&subject.to_owned())
    }

    /// Whether someone awaits the request stream of a subject.
    pub fn awaits_send_stream(&self, subject: &str) -> (b: bool)
        requires
            self.wf(),
        ensures
            b == self@.tx_subjects.contains_key(subject@),
    {
        self.tx_subjects.contains_key(&subject.to_owned())
    }

    /// Whether the removal of an instance is remembered.
    pub fn has_tombstone(&self, id: &EndpointInstanceId) -> (b: bool)
        requires
            self.wf(),
        ensures
            b == self@.removed_instances.contains_key(id@),
    {
        self.removed_instances.contains_key(id)
    }

    /// How many removals are remembered.
    pub fn tombstone_count(&self) -> (n: usize)
        requires
            self.wf(),
        ensures
            n == self@.removed_instances.dom().len(),
    {
        self.removed_instances.len()
    }
}

/// A call that removes an instance holds for five seconds of the clock: a call that
/// associates a subject with the instance right after it is refused, and the subject no
/// longer awaited, if and only if less than five seconds lie between the times at which
/// the two were judged. Each time is a reading of the clock since the epoch of the
/// server, or that of an earlier call that read a later one, and the second is not
/// earlier than the first.
pub proof fn removal_holds_for_five_seconds_of_the_clock<S, R>(
    removal: &mut TcpStreamServer<S, R>,
    association: &mut TcpStreamServer<S, R>,
    subject: &str,
    id: &EndpointInstanceId,
    other: &EndpointInstanceId,
    n: usize,
    accepted: bool,
)
    requires
        call_ensures(TcpStreamServer::<S, R>::cancel_instance_streams, (removal, id), n),
        *old(association) == *final(removal),
        other@ == id@,
        call_ensures(
            TcpStreamServer::<S, R>::associate_instance,
            (association, subject, other),
            accepted,
        ),
    ensures
        accepted <==> final(association).latest() - final(removal).latest() >= 5_000_000_000,
        !accepted ==> !final(association)@.rx_subjects.contains_key(subject@),
        old(removal).latest() <= final(removal).latest() <= final(association).latest(),
        final(association).epoch() == old(removal).epoch(),
        exists|reading: u64| #[trigger]
            clock_may_count(old(removal).epoch(), reading) && final(removal).latest() >= reading
                && (final(removal).latest() == reading || final(removal).latest() == old(
                removal,
            ).latest()),
        exists|reading: u64| #[trigger]
            clock_may_count(old(removal).epoch(), reading) && final(association).latest()
                >= reading && (final(association).latest() == reading
                || final(association).latest() == final(removal).latest()),
{
}

/// The time at which a call judges an association is a reading of the clock that it
/// takes itself, whenever the clock does not run back: where every reading that the
/// clock may give is later than the times before, the time of the call is one of them.
pub proof fn association_is_judged_by_the_clock<S, R>(
    server: &mut TcpStreamServer<S, R>,
    subject: &str,
    id: &EndpointInstanceId,
    accepted: bool,
)
    requires
        call_ensures(
            TcpStreamServer::<S, R>::associate_instance,
            (server, subject, id),
            accepted,
        ),
        forall|reading: u64| #[trigger]
            clock_may_count(old(server).epoch(), reading) ==> reading > old(server).latest(),
    ensures
        clock_may_count(old(server).epoch(), final(server).latest()),
        final(server).latest() > old(server).latest(),
        accepted <==> !(old(server)@.removed_instances.get(id@) matches Some(removed)
            && final(server).latest() < removed + 5_000_000_000),
{
}

/// A server begins where the clock shows its epoch to be, with no time judged yet.
pub proof fn life_begins_by_the_clock<S, R>(
    local_ip: String,
    local_port: u16,
    server: TcpStreamServer<S, R>,
)
    requires
        call_ensures(TcpStreamServer::<S, R>::at_address, (local_ip, local_port), server),
    ensures
        clock_may_show(server.epoch()),
        server.latest() == 0,
        server@.local_ip == local_ip@,
        server@.local_port == local_port,
        !server@.started,
        forall|x: Seq<char>| #[trigger] server@.rx_subjects.get(x) is None,
        forall|x: Seq<char>| #[trigger] server@.tx_subjects.get(x) is None,
        forall|x: Seq<char>| #[trigger] server@.subject_instance.get(x) is None,
        forall|i: InstanceView| #[trigger] server@.removed_instances.get(i) is None,
        forall|i: InstanceView| #[trigger] subjects_of(server@, i) == Set::<Seq<char>>::empty(),
{
}

/// Registration puts those in place who were handed in, each under the subject of the
/// direction that was asked for, and concerns nobody else; what a client is told names
/// the address, that subject, the context and that direction.
pub proof fn registration_is_for_whoever_asked<S, R>(
    s: ServerView<S, R>,
    options: StreamOptions,
    sender: (Seq<char>, S),
    receiver: (Seq<char>, R),
    x: Seq<char>,
)
    ensures
        ({
            let t = registered(s, options, sender, receiver);
            let (send, recv) = registrations(s, options, sender.0, receiver.0);
            &&& t.tx_subjects.get(x) == if options.enable_request_stream && x == sender.0 {
                Some(sender.1)
            } else {
                s.tx_subjects.get(x)
            }
            &&& t.rx_subjects.get(x) == if options.enable_response_stream && x == receiver.0 {
                Some(receiver.1)
            } else {
                s.rx_subjects.get(x)
            }
            &&& t == (ServerView {
                tx_subjects: t.tx_subjects,
                rx_subjects: t.rx_subjects,
                ..s
            })
            &&& send is Some <==> options.enable_request_stream
            &&& recv is Some <==> options.enable_response_stream
            &&& send matches Some(info) ==> info.subject == sender.0 && info.context
                == options.context@ && info.stream_type == StreamType::Request
            &&& recv matches Some(info) ==> info.subject == receiver.0 && info.context
                == options.context@ && info.stream_type == StreamType::Response
            &&& send matches Some(info) ==> info.address == s.local_ip + ":"@ + decimal(
                s.local_port as nat,
            )
            &&& recv matches Some(info) ==> info.address == s.local_ip + ":"@ + decimal(
                s.local_port as nat,
            )
        }),
{
}

/// Ending the registration of a stream lets go of whoever awaits the stream of that
/// direction under that subject, and of nobody else.
pub proof fn deregistration_is_for_one_stream<S, R>(
    s: ServerView<S, R>,
    info: ConnectionInfoView,
    x: Seq<char>,
)
    ensures
        deregistered(s, info).tx_subjects.get(x) == if info.stream_type == StreamType::Request && x
            == info.subject {
            None
        } else {
            s.tx_subjects.get(x)
        },
        deregistered(s, info).rx_subjects.get(x) == if info.stream_type == StreamType::Response && x
            == info.subject {
            None
        } else {
            s.rx_subjects.get(x)
        },
        deregistered(s, info).subject_instance.get(x) == if info.stream_type == StreamType::Response
            && x == info.subject {
            None
        } else {
            s.subject_instance.get(x)
        },
        deregistered(s, info).removed_instances == s.removed_instances,
{
}

/// A stream of responses is handed over to the client that names its subject if and
/// only if someone awaits it; then it is whoever asked, and nobody awaits it any more.
/// A client that names another subject is told which one was not found, and nothing
/// changes.
pub proof fn stream_is_handed_to_whoever_awaits_it<S, R>(
    server: &mut TcpStreamServer<S, R>,
    subject: &str,
    r: Result<R, String>,
    x: Seq<char>,
)
    requires
        call_ensures(TcpStreamServer::<S, R>::take_recv_stream, (server, subject), r),
    ensures
        r is Ok <==> old(server)@.rx_subjects.get(subject@) is Some,
        r matches Ok(connection) ==> old(server)@.rx_subjects.get(subject@) == Some(connection),
        final(server)@.rx_subjects.get(x) == if x == subject@ {
            None
        } else {
            old(server)@.rx_subjects.get(x)
        },
        r matches Err(e) ==> final(server)@ == old(server)@ && e@ == "Subject not found: "@
            + subject@
            + "; upstream publisher specified a subject unknown to the downsteam subscriber"@,
{
}

/// The port that was bound is the one that clients are told from then on, at the same
/// address; where none was bound, the reason is told and the address stays.
pub proof fn bound_port_is_handed_out<S, R>(
    server: &mut TcpStreamServer<S, R>,
    outcome: Result<u16, String>,
    r: Result<u16, PipelineError>,
    before: String,
    after: String,
)
    requires
        call_ensures(TcpStreamServer::<S, R>::address, (&*old(server),), before),
        call_ensures(TcpStreamServer::<S, R>::bound, (server, outcome), r),
        call_ensures(TcpStreamServer::<S, R>::address, (&*final(server),), after),
    ensures
        before@ == old(server)@.local_ip + ":"@ + decimal(old(server)@.local_port as nat),
        outcome matches Ok(port) ==> r == Ok::<u16, PipelineError>(port) && after@ == old(
            server,
        )@.local_ip + ":"@ + decimal(port as nat),
        outcome matches Err(e) ==> after@ == before@ && r is Err && r->Err_0@
            == PipelineErrorView::Generic("Failed to start TcpStreamServer: "@ + e@),
{
}

/// Starting a server names the address to bind and marks the server as started, which
/// a new server is not; nothing else changes.
pub proof fn start_names_the_address<S, R>(
    server: &mut TcpStreamServer<S, R>,
    bind: String,
    address: String,
    before: bool,
    after: bool,
)
    requires
        !old(server)@.started,
        call_ensures(TcpStreamServer::<S, R>::is_started, (&*old(server),), before),
        call_ensures(TcpStreamServer::<S, R>::address, (&*old(server),), address),
        call_ensures(TcpStreamServer::<S, R>::start, (server,), bind),
        call_ensures(TcpStreamServer::<S, R>::is_started, (&*final(server),), after),
    ensures
        !before,
        after,
        bind@ == address@,
        final(server)@ == (ServerView { started: true, ..old(server)@ }),
{
}

/// Whoever asks learns what happened: a stream that was registered is awaited in the
/// direction that was asked for, and no longer once it was cancelled.
pub proof fn registered_streams_are_awaited_until_cancelled<S, R>(
    registration: &mut TcpStreamServer<S, R>,
    cancellation: &mut TcpStreamServer<S, R>,
    options: &StreamOptions,
    sender: (String, S),
    receiver: (String, R),
    subject: &str,
    r: PendingConnections,
    send: bool,
    recv: bool,
    later: bool,
)
    requires
        call_ensures(
            TcpStreamServer::<S, R>::register_as,
            (registration, options, sender, receiver),
            r,
        ),
        call_ensures(
            TcpStreamServer::<S, R>::awaits_send_stream,
            (&*final(registration), subject),
            send,
        ),
        call_ensures(
            TcpStreamServer::<S, R>::awaits_recv_stream,
            (&*final(registration), subject),
            recv,
        ),
        *old(cancellation) == *final(registration),
        call_ensures(
            TcpStreamServer::<S, R>::cancel_recv_stream,
            (cancellation, subject),
            (),
        ),
        call_ensures(
            TcpStreamServer::<S, R>::awaits_recv_stream,
            (&*final(cancellation), subject),
            later,
        ),
    ensures
        options.enable_request_stream && sender.0@ == subject@ ==> send,
        options.enable_response_stream && receiver.0@ == subject@ ==> recv,
        !options.enable_request_stream && !old(registration)@.tx_subjects.contains_key(subject@)
            ==> !send,
        !options.enable_response_stream && !old(registration)@.rx_subjects.contains_key(subject@)
            ==> !recv,
        !later,
        r.send_stream is Some <==> options.enable_request_stream,
        r.recv_stream is Some <==> options.enable_response_stream,
        final(cancellation)@.tx_subjects == final(registration)@.tx_subjects,
{
}

/// A removed instance has a tombstone until it is back.
pub proof fn removed_instance_has_a_tombstone_until_it_is_back<S, R>(
    removal: &mut TcpStreamServer<S, R>,
    comeback: &mut TcpStreamServer<S, R>,
    id: &EndpointInstanceId,
    n: usize,
    meanwhile: bool,
    later: bool,
)
    requires
        call_ensures(TcpStreamServer::<S, R>::cancel_instance_streams, (removal, id), n),
        call_ensures(
            TcpStreamServer::<S, R>::has_tombstone,
            (&*final(removal), id),
            meanwhile,
        ),
        *old(comeback) == *final(removal),
        call_ensures(TcpStreamServer::<S, R>::clear_instance_tombstone, (comeback, id), ()),
        call_ensures(TcpStreamServer::<S, R>::has_tombstone, (&*final(comeback), id), later),
    ensures
        meanwhile,
        !later,
        n == old(removal)@.rx_subjects.dom().difference(final(removal)@.rx_subjects.dom()).len(),
{
    assert(old(removal)@.rx_subjects.dom().difference(final(removal)@.rx_subjects.dom())
        =~= streams_of(old(removal)@, id@));
}

} // verus!
