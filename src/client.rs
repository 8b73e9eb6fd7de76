use crate::error::Error;
use crate::event::{deliveries, events_view, Event, EventModel, OPERATIONS_ABANDONED, SUBSCRIPTION_REJECTED};
use crate::inflight::{
    after_inbound_publish, after_pubcomp, after_puback, after_pubrec, after_pubrel, in_flight,
    released, retransmissions, retransmitted, Direction, InFlightTable, OperationModel,
};
use crate::message::Message;
use crate::packet::{packets_view, Packet, PacketModel};
use crate::registry::{has_handle, removed_handle, routed, SubscriptionModel, SubscriptionRegistry};
use crate::topic::{chars_of, find_nul, is_first_nul, valid_filter, valid_topic};
use crate::types::{ConnectionState, QoS};
use vstd::prelude::*;

verus! {

/// How reconnection backs off: the first wait, doubled after each failed
/// attempt up to the ceiling.
#[derive(Debug, Clone, Copy, PartialEq, Eq, Structural)]
pub struct ReconnectPolicy {
    pub initial_ms: u64,
    pub max_ms: u64,
}

/// Whether a broker host name is usable: non-empty, with no blank and no `/`.
pub open spec fn valid_host(h: Seq<char>) -> bool {
    &&& h.len() > 0
    &&& forall|i: int|
        0 <= i < h.len() ==> #[trigger] h[i] != ' ' && h[i] != '\t' && h[i] != '\n' && h[i] != '\r'
            && h[i] != '/'
}

/// The next backoff wait after a failed attempt: doubled, at most `max`.
pub open spec fn next_backoff(current: u64, max: u64) -> u64 {
    if current * 2 >= max {
        max
    } else {
        (current * 2) as u64
    }
}

/// The session core: connection state, subscriptions and operations in
/// flight. It performs no I/O: packets for the transport and events for the
/// handlers queue up until the driver takes them.
pub struct Client {
    pub(crate) client_id: String,
    pub(crate) state: ConnectionState,
    pub(crate) registry: SubscriptionRegistry,
    pub(crate) inflight: InFlightTable,
    pub(crate) host: String,
    pub(crate) port: u16,
    pub(crate) policy: Option<ReconnectPolicy>,
    pub(crate) backoff_ms: u64,
    pub(crate) outbox: Vec<Packet>,
    pub(crate) events: Vec<Event>,
}

impl Client {
    pub closed spec fn spec_state(&self) -> ConnectionState {
        self.state
    }

    pub closed spec fn spec_client_id(&self) -> Seq<char> {
        self.client_id@
    }

    pub closed spec fn subscriptions(&self) -> Seq<SubscriptionModel> {
        self.registry@
    }

    pub closed spec fn next_handle(&self) -> i64 {
        self.registry.next_handle_spec()
    }

    pub closed spec fn operations(&self) -> Seq<OperationModel> {
        self.inflight@
    }

    /// Packets queued for the transport.
    pub closed spec fn packets(&self) -> Seq<PacketModel> {
        packets_view(self.outbox@)
    }

    /// Events queued for the handlers.
    pub closed spec fn pending_events(&self) -> Seq<EventModel> {
        events_view(self.events@)
    }

    pub closed spec fn spec_host(&self) -> Seq<char> {
        self.host@
    }

    pub closed spec fn spec_port(&self) -> u16 {
        self.port
    }

    pub closed spec fn spec_policy(&self) -> Option<ReconnectPolicy> {
        self.policy
    }

    pub closed spec fn spec_backoff(&self) -> u64 {
        self.backoff_ms
    }

    pub closed spec fn wf(&self) -> bool {
        &&& self.registry.wf()
        &&& self.inflight.wf()
        &&& self.policy matches Some(p) ==> 1 <= p.initial_ms <= p.max_ms && self.backoff_ms
            <= p.max_ms
    }

    /// What `wf` guarantees of a session: handles increase, each lies in
    /// `[1, next_handle())`, and the operations in flight have unique ids and
    /// consistent stages.
    pub proof fn lemma_wf(&self)
        requires
            self.wf(),
        ensures
            crate::registry::handles_increasing(self.subscriptions()),
            1 <= self.next_handle(),
            forall|i: int|
                0 <= i < self.subscriptions().len() ==> 1 <= #[trigger] self.subscriptions()[i].handle
                    < self.next_handle(),
            crate::inflight::ids_unique(self.operations()),
            crate::inflight::stages_consistent(self.operations()),
    {
        self.registry.lemma_wf();
        self.inflight.lemma_wf();
    }

    /// Whether `h` is the handle of a live subscription.
    pub fn is_subscribed(&self, h: i64) -> (r: bool)
        requires
            self.wf(),
        ensures
            r == has_handle(self.subscriptions(), h),
    {
        self.registry.contains(h)
    }

    /// A disconnected session for `client_id`, with no reconnect policy.
    /// Fails with `NulError` when the identifier holds a NUL character.
    pub fn new(client_id: &str) -> (r: Result<Client, Error>)
        ensures
            match r {
                Ok(c) => {
                    &&& !client_id@.contains('\0')
                    &&& c.wf()
                    &&& c.spec_client_id() == client_id@
                    &&& c.spec_state() == ConnectionState::Disconnected
                    &&& c.subscriptions() == Seq::<SubscriptionModel>::empty()
                    &&& c.next_handle() == 1
                    &&& c.operations() == Seq::<OperationModel>::empty()
                    &&& c.packets() == Seq::<PacketModel>::empty()
                    &&& c.pending_events() == Seq::<EventModel>::empty()
                    &&& c.spec_policy() is None
                },
                Err(e) => exists|k: int| is_first_nul(client_id@, k) && e == Error::NulError(k as usize),
            },
    {
        let chars = chars_of(client_id);
        if let Some(k) = find_nul(&chars) {
            return Err(Error::NulError(k));
        }
        let c = Client {
            client_id: client_id.to_owned(),
            state: ConnectionState::Disconnected,
            registry: SubscriptionRegistry::new(),
            inflight: InFlightTable::new(),
            host: String::new(),
            port: 0,
            policy: None,
            backoff_ms: 0,
            outbox: Vec::new(),
            events: Vec::new(),
        };
        assert(c.packets() =~= Seq::<PacketModel>::empty());
        assert(c.pending_events() =~= Seq::<EventModel>::empty());
        Ok(c)
    }

    /// Sets the reconnect policy: after a lost link or a failed attempt the
    /// session waits `initial_ms`, doubling up to `max_ms`. Fails with
    /// `ConfigurationError`, changing nothing, unless
    /// `1 <= initial_ms <= max_ms`.
    pub fn set_reconnect(&mut self, initial_ms: u64, max_ms: u64) -> (r: Result<(), Error>)
        requires
            old(self).wf(),
        ensures
            final(self).wf(),
            r is Ok <==> 1 <= initial_ms <= max_ms,
            r is Err ==> r == Err::<(), Error>(Error::ConfigurationError) && *final(self) == *old(
                self,
            ),
            r is Ok ==> {
                &&& final(self).spec_policy() == Some(ReconnectPolicy { initial_ms, max_ms })
                &&& final(self).spec_backoff() == initial_ms
                &&& final(self).spec_state() == old(self).spec_state()
                &&& same_registry_and_operations(old(self), final(self))
                &&& final(self).packets() == old(self).packets()
                &&& final(self).pending_events() == old(self).pending_events()
                &&& final(self).spec_client_id() == old(self).spec_client_id()
                &&& final(self).spec_host() == old(self).spec_host()
                &&& final(self).spec_port() == old(self).spec_port()
            },
    {
        if initial_ms == 0 || initial_ms > max_ms {
            return Err(Error::ConfigurationError);
        }
        self.policy = Some(ReconnectPolicy { initial_ms, max_ms });
        self.backoff_ms = initial_ms;
        Ok(())
    }

    /// The latest state; never waits on the network.
    pub fn state(&self) -> (r: ConnectionState)
        ensures
            r == self.spec_state(),
    {
        self.state
    }

    pub fn client_id(&self) -> (r: &str)
        ensures
            r@ == self.spec_client_id(),
    {
        self.client_id.as_str()
    }

    /// The broker host given to the last successful `connect`.
    pub fn host(&self) -> (r: &str)
        ensures
            r@ == self.spec_host(),
    {
        self.host.as_str()
    }

    pub fn port(&self) -> (r: u16)
        ensures
            r == self.spec_port(),
    {
        self.port
    }

    /// How long to wait before the next reconnection attempt.
    pub fn backoff_delay(&self) -> (r: u64)
        ensures
            r == self.spec_backoff(),
    {
        self.backoff_ms
    }

    /// Number of operations awaiting acknowledgement.
    pub fn in_flight_count(&self) -> (r: usize)
        requires
            self.wf(),
        ensures
            r == self.operations().len(),
    {
        self.inflight.len()
    }

    /// Number of live subscriptions.
    pub fn subscription_count(&self) -> (r: usize)
        requires
            self.wf(),
        ensures
            r == self.subscriptions().len(),
    {
        self.registry.len()
    }

    /// Hands the queued packets to the transport, in order.
    pub fn take_packets(&mut self) -> (r: Vec<Packet>)
        requires
            old(self).wf(),
        ensures
            final(self).wf(),
            packets_view(r@) == old(self).packets(),
            final(self).packets() == Seq::<PacketModel>::empty(),
            final(self).pending_events() == old(self).pending_events(),
            final(self).spec_state() == old(self).spec_state(),
            final(self).subscriptions() == old(self).subscriptions(),
            final(self).operations() == old(self).operations(),
    {
        let mut r = Vec::new();
        std::mem::swap(&mut self.outbox, &mut r);
        assert(self.packets() =~= Seq::<PacketModel>::empty());
        r
    }

    /// Hands the queued events to the dispatcher, in order.
    pub fn take_events(&mut self) -> (r: Vec<Event>)
        requires
            old(self).wf(),
        ensures
            final(self).wf(),
            events_view(r@) == old(self).pending_events(),
            final(self).pending_events() == Seq::<EventModel>::empty(),
            final(self).packets() == old(self).packets(),
            final(self).spec_state() == old(self).spec_state(),
            final(self).subscriptions() == old(self).subscriptions(),
            final(self).operations() == old(self).operations(),
    {
        let mut r = Vec::new();
        std::mem::swap(&mut self.events, &mut r);
        assert(self.pending_events() =~= Seq::<EventModel>::empty());
        r
    }
}


/// `b` holds the same subscriptions, handles and operations as `a`.
pub open spec fn same_registry_and_operations(a: &Client, b: &Client) -> bool {
    &&& a.subscriptions() == b.subscriptions()
    &&& a.next_handle() == b.next_handle()
    &&& a.operations() == b.operations()
}

/// `b` has the same connection settings as `a`.
pub open spec fn same_settings(a: &Client, b: &Client) -> bool {
    &&& a.spec_client_id() == b.spec_client_id()
    &&& a.spec_host() == b.spec_host()
    &&& a.spec_port() == b.spec_port()
    &&& a.spec_policy() == b.spec_policy()
}

/// Whether event `e` is a delivery to the subscription `h`.
pub open spec fn delivery_to(e: EventModel, h: i64) -> bool {
    match e {
        EventModel::Delivery { handle, .. } => handle == h,
        _ => false,
    }
}

/// `es` without its deliveries to the subscription `h`.
pub open spec fn without_deliveries_to(es: Seq<EventModel>, h: i64) -> Seq<EventModel> {
    es.filter(|e: EventModel| !delivery_to(e, h))
}

/// Whether `h` is a usable broker host name.
fn is_valid_host(h: &Vec<char>) -> (r: bool)
    ensures
        r == valid_host(h@),
{
    if h.len() == 0 {
        return false;
    }
    let mut i: usize = 0;
    while i < h.len()
        invariant
            i <= h@.len(),
            forall|j: int|
                0 <= j < i ==> #[trigger] h@[j] != ' ' && h@[j] != '\t' && h@[j] != '\n' && h@[j]
                    != '\r' && h@[j] != '/',
        decreases h.len() - i,
    {
        let c = h[i];
        if c == ' ' || c == '\t' || c == '\n' || c == '\r' || c == '/' {
            return false;
        }
        i = i + 1;
    }
    true
}

impl Client {
    /// Moves to state `s`, emitting one state-change event if it differs.
    fn set_state(&mut self, s: ConnectionState)
        requires
            old(self).wf(),
        ensures
            final(self).wf(),
            final(self).spec_state() == s,
            final(self).pending_events() == if old(self).spec_state() == s {
                old(self).pending_events()
            } else {
                old(self).pending_events().push(EventModel::StateChanged(s))
            },
            final(self).registry == old(self).registry,
            final(self).inflight == old(self).inflight,
            final(self).outbox == old(self).outbox,
            final(self).client_id == old(self).client_id,
            final(self).host == old(self).host,
            final(self).port == old(self).port,
            final(self).policy == old(self).policy,
            final(self).backoff_ms == old(self).backoff_ms,
    {
        if self.state != s {
            self.state = s;
            self.events.push(Event::StateChanged(s));
            assert(events_view(self.events@) =~= events_view(old(self).events@).push(
                EventModel::StateChanged(s),
            ));
        }
    }

    /// Drops every queued delivery to the subscription `h`.
    fn drop_deliveries(&mut self, h: i64)
        requires
            old(self).wf(),
        ensures
            final(self).wf(),
            final(self).pending_events() == without_deliveries_to(old(self).pending_events(), h),
            final(self).registry == old(self).registry,
            final(self).inflight == old(self).inflight,
            final(self).outbox == old(self).outbox,
            final(self).state == old(self).state,
            final(self).client_id == old(self).client_id,
            final(self).host == old(self).host,
            final(self).port == old(self).port,
            final(self).policy == old(self).policy,
            final(self).backoff_ms == old(self).backoff_ms,
    {
        let mut rest: Vec<Event> = Vec::new();
        std::mem::swap(&mut self.events, &mut rest);
        let ghost orig = events_view(rest@);
        let ghost pred = |e: EventModel| !delivery_to(e, h);
        let ghost mut k: int = 0;
        proof {
            reveal_with_fuel(Seq::filter, 1);
        }
        assert(events_view(self.events@) =~= orig.take(0).filter(pred));
        assert(events_view(rest@) =~= orig.skip(0));
        while rest.len() > 0
            invariant
                0 <= k <= orig.len(),
                orig == events_view(old(self).events@),
                pred == (|e: EventModel| !delivery_to(e, h)),
                events_view(self.events@) == orig.take(k).filter(pred),
                events_view(rest@) == orig.skip(k),
                self.registry == old(self).registry,
                self.inflight == old(self).inflight,
                self.outbox == old(self).outbox,
                self.state == old(self).state,
                self.client_id == old(self).client_id,
                self.host == old(self).host,
                self.port == old(self).port,
                self.policy == old(self).policy,
                self.backoff_ms == old(self).backoff_ms,
            decreases rest.len(),
        {
            let ghost before_rest = rest@;
            let ghost before_kept = self.events@;
            assert(events_view(before_rest).len() == before_rest.len());
            assert(k < orig.len());
            assert(events_view(before_rest)[0] == orig.skip(k)[0]);
            assert(events_view(before_rest)[0] == orig[k]);
            let e = rest.remove(0);
            proof {
                assert(rest@ == before_rest.remove(0));
                assert forall|j: int| 0 <= j < rest@.len() implies #[trigger] events_view(rest@)[j]
                    == orig.skip(k + 1)[j] by {
                    assert(rest@[j] == before_rest[j + 1]);
                    assert(events_view(before_rest)[j + 1] == orig.skip(k)[j + 1]);
                }
                assert(events_view(rest@) =~= orig.skip(k + 1));
                assert(orig.take(k + 1).drop_last() =~= orig.take(k));
                assert(orig.take(k + 1).last() == orig[k]);
                assert(e@ == orig[k]);
            }
            let keep = match &e {
                Event::Delivery { handle, .. } => *handle != h,
                _ => true,
            };
            assert(keep == pred(e@));
            if keep {
                self.events.push(e);
                assert(events_view(self.events@) =~= events_view(before_kept).push(e@));
            }
            proof {
                let t = orig.take(k + 1);
                assert(t.len() == k + 1);
                reveal_with_fuel(Seq::filter, 1);
                assert(t.filter(pred) == if pred(t.last()) {
                    t.drop_last().filter(pred).push(t.last())
                } else {
                    t.drop_last().filter(pred)
                });
                assert(events_view(self.events@) == t.filter(pred));
                k = k + 1;
            }
        }
        assert(orig.take(k) =~= orig);
    }

    /// Queues one packet for the transport.
    fn send(&mut self, p: Packet)
        ensures
            final(self).outbox@ == old(self).outbox@.push(p),
            packets_view(final(self).outbox@) == packets_view(old(self).outbox@).push(p@),
            final(self).registry == old(self).registry,
            final(self).inflight == old(self).inflight,
            final(self).events == old(self).events,
            final(self).state == old(self).state,
            final(self).client_id == old(self).client_id,
            final(self).host == old(self).host,
            final(self).port == old(self).port,
            final(self).policy == old(self).policy,
            final(self).backoff_ms == old(self).backoff_ms,
    {
        self.outbox.push(p);
        assert(packets_view(self.outbox@) =~= packets_view(old(self).outbox@).push(p@));
    }

    /// Queues the retransmission packets `ps` after those already queued.
    fn send_all(&mut self, ps: Vec<Packet>)
        ensures
            packets_view(final(self).outbox@) == packets_view(old(self).outbox@) + packets_view(ps@),
            final(self).registry == old(self).registry,
            final(self).inflight == old(self).inflight,
            final(self).events == old(self).events,
            final(self).state == old(self).state,
            final(self).client_id == old(self).client_id,
            final(self).host == old(self).host,
            final(self).port == old(self).port,
            final(self).policy == old(self).policy,
            final(self).backoff_ms == old(self).backoff_ms,
    {
        let ghost orig = ps@;
        let mut ps = ps;
        self.outbox.append(&mut ps);
        assert(packets_view(self.outbox@) =~= packets_view(old(self).outbox@) + packets_view(orig));
    }

    /// Hands message `m` to every subscription whose filter matches its
    /// topic, at each one's effective QoS.
    fn deliver(&mut self, m: &Message)
        requires
            old(self).wf(),
        ensures
            final(self).wf(),
            final(self).pending_events() == old(self).pending_events() + deliveries(
                routed(old(self).subscriptions(), m.topic@, m.qos),
                m@,
            ),
            final(self).registry == old(self).registry,
            final(self).inflight == old(self).inflight,
            final(self).outbox == old(self).outbox,
            final(self).state == old(self).state,
            final(self).client_id == old(self).client_id,
            final(self).host == old(self).host,
            final(self).port == old(self).port,
            final(self).policy == old(self).policy,
            final(self).backoff_ms == old(self).backoff_ms,
    {
        let topic = chars_of(m.topic.as_str());
        let routes = self.registry.route(&topic, m.qos);
        let ghost target = deliveries(routes@, m@);
        let ghost start = events_view(self.events@);
        let mut i: usize = 0;
        while i < routes.len()
            invariant
                self.wf(),
                i <= routes@.len(),
                target == deliveries(routes@, m@),
                events_view(self.events@) == start + target.take(i as int),
                self.registry == old(self).registry,
                self.inflight == old(self).inflight,
                self.outbox == old(self).outbox,
                self.state == old(self).state,
                self.client_id == old(self).client_id,
                self.host == old(self).host,
                self.port == old(self).port,
                self.policy == old(self).policy,
                self.backoff_ms == old(self).backoff_ms,
            decreases routes.len() - i,
        {
            let (handle, qos) = routes[i];
            let copy = m.copied();
            let message = Message {
                topic: copy.topic,
                payload: copy.payload,
                qos,
                retained: copy.retained,
            };
            let ghost before = self.events@;
            let ev = Event::Delivery { handle, message };
            assert(ev@ == target[i as int]);
            self.events.push(ev);
            proof {
                assert(events_view(self.events@) =~= events_view(before).push(target[i as int]));
                assert(target.take(i + 1) =~= target.take(i as int).push(target[i as int]));
                assert(events_view(self.events@) =~= start + target.take(i + 1));
            }
            i = i + 1;
        }
        assert(target.take(routes@.len() as int) =~= target);
    }
}


impl Client {
    /// Starts connecting to the broker at `host`:`port`. Fails with
    /// `NulError` when `host` holds a NUL, with `ConfigurationError` when the
    /// host is unusable or the port is 0 (no network action either way), and
    /// with `ConnectionError` unless the session is `Disconnected`. On success
    /// the state is `Connecting` and the driver opens the transport.
    pub fn connect(&mut self, host: &str, port: u16) -> (r: Result<(), Error>)
        requires
            old(self).wf(),
        ensures
            final(self).wf(),
            host@.contains('\0') ==> exists|k: int|
                is_first_nul(host@, k) && r == Err::<(), Error>(Error::NulError(k as usize)),
            !host@.contains('\0') && !(valid_host(host@) && port != 0) ==> r == Err::<(), Error>(
                Error::ConfigurationError,
            ),
            !host@.contains('\0') && valid_host(host@) && port != 0 && old(self).spec_state()
                != ConnectionState::Disconnected ==> r == Err::<(), Error>(Error::ConnectionError),
            r is Err ==> *final(self) == *old(self),
            r is Ok <==> !host@.contains('\0') && valid_host(host@) && port != 0 && old(
                self,
            ).spec_state() == ConnectionState::Disconnected,
            r is Ok ==> {
                &&& final(self).spec_state() == ConnectionState::Connecting
                &&& final(self).pending_events() == old(self).pending_events().push(
                    EventModel::StateChanged(ConnectionState::Connecting),
                )
                &&& final(self).spec_host() == host@
                &&& final(self).spec_port() == port
                &&& final(self).packets() == old(self).packets()
                &&& same_registry_and_operations(old(self), final(self))
                &&& final(self).spec_client_id() == old(self).spec_client_id()
                &&& final(self).spec_policy() == old(self).spec_policy()
            },
    {
        let chars = chars_of(host);
        if let Some(k) = find_nul(&chars) {
            return Err(Error::NulError(k));
        }
        if !is_valid_host(&chars) || port == 0 {
            return Err(Error::ConfigurationError);
        }
        if self.state != ConnectionState::Disconnected {
            return Err(Error::ConnectionError);
        }
        self.host = host.to_owned();
        self.port = port;
        if let Some(p) = self.policy {
            self.backoff_ms = p.initial_ms;
        }
        self.set_state(ConnectionState::Connecting);
        Ok(())
    }

    /// Drives the state to `Disconnected`, cancelling any pending
    /// reconnection. Every operation in flight is discarded, with an
    /// `OPERATIONS_ABANDONED` error event when there were any. Calling it
    /// again changes nothing.
    pub fn disconnect(&mut self)
        requires
            old(self).wf(),
        ensures
            final(self).wf(),
            final(self).spec_state() == ConnectionState::Disconnected,
            final(self).operations() == Seq::<OperationModel>::empty(),
            final(self).subscriptions() == old(self).subscriptions(),
            final(self).next_handle() == old(self).next_handle(),
            final(self).packets() == old(self).packets(),
            same_settings(old(self), final(self)),
            ({
                let with_state = if old(self).spec_state() == ConnectionState::Disconnected {
                    old(self).pending_events()
                } else {
                    old(self).pending_events().push(
                        EventModel::StateChanged(ConnectionState::Disconnected),
                    )
                };
                final(self).pending_events() == if old(self).operations().len() > 0 {
                    with_state.push(
                        EventModel::Error {
                            code: OPERATIONS_ABANDONED,
                            text: "in-flight operations abandoned by disconnect"@,
                        },
                    )
                } else {
                    with_state
                }
            }),
    {
        self.set_state(ConnectionState::Disconnected);
        if self.inflight.len() > 0 {
            self.inflight.clear();
            let ghost before = self.events@;
            let ev = Event::Error {
                code: OPERATIONS_ABANDONED,
                text: "in-flight operations abandoned by disconnect".to_owned(),
            };
            self.events.push(ev);
            assert(events_view(self.events@) =~= events_view(before).push(ev@));
        }
    }

    /// Registers a subscription to `topic` (a filter, wildcards allowed) at
    /// `qos` and queues its SUBSCRIBE. The handle routes at once, before the
    /// broker acknowledges. Fails with `NulError` on a NUL, `InvalidTopic` on
    /// a malformed filter, `SubscriptionError` when handles are exhausted.
    pub fn subscribe(&mut self, topic: &str, qos: QoS) -> (r: Result<i64, Error>)
        requires
            old(self).wf(),
        ensures
            final(self).wf(),
            topic@.contains('\0') ==> exists|k: int|
                is_first_nul(topic@, k) && r == Err::<i64, Error>(Error::NulError(k as usize)),
            !topic@.contains('\0') && !valid_filter(topic@) ==> r == Err::<i64, Error>(
                Error::InvalidTopic,
            ),
            !topic@.contains('\0') && valid_filter(topic@) && old(self).next_handle() == i64::MAX
                ==> r == Err::<i64, Error>(Error::SubscriptionError),
            r is Err ==> *final(self) == *old(self),
            r is Ok <==> !topic@.contains('\0') && valid_filter(topic@) && old(self).next_handle()
                < i64::MAX,
            r is Ok ==> {
                &&& r == Ok::<i64, Error>(old(self).next_handle())
                &&& final(self).subscriptions() == old(self).subscriptions().push(
                    SubscriptionModel { handle: old(self).next_handle(), filter: topic@, qos },
                )
                &&& final(self).next_handle() == old(self).next_handle() + 1
                &&& final(self).packets() == old(self).packets().push(
                    PacketModel::Subscribe { handle: old(self).next_handle(), filter: topic@, qos },
                )
                &&& final(self).operations() == old(self).operations()
                &&& final(self).pending_events() == old(self).pending_events()
                &&& final(self).spec_state() == old(self).spec_state()
                &&& same_settings(old(self), final(self))
            },
    {
        let chars = chars_of(topic);
        if let Some(k) = find_nul(&chars) {
            return Err(Error::NulError(k));
        }
        let ghost snapshot = *self;
        match self.registry.subscribe(topic, chars, qos) {
            Ok(h) => {
                self.send(Packet::Subscribe { handle: h, filter: topic.to_owned(), qos });
                Ok(h)
            },
            Err(e) => {
                assert(self.registry@ == snapshot.registry@);
                Err(e)
            },
        }
    }

    /// Removes the subscription `handle` at once, so that nothing more is
    /// routed to it, drops the deliveries to it still queued, and queues its
    /// UNSUBSCRIBE. Fails with `SubscriptionError` when no subscription has
    /// that handle.
    pub fn unsubscribe(&mut self, handle: i64) -> (r: Result<(), Error>)
        requires
            old(self).wf(),
        ensures
            final(self).wf(),
            r is Ok <==> has_handle(old(self).subscriptions(), handle),
            r is Err ==> r == Err::<(), Error>(Error::SubscriptionError) && final(self).subscriptions()
                == old(self).subscriptions() && final(self).packets() == old(self).packets(),
            r is Ok ==> removed_handle(old(self).subscriptions(), final(self).subscriptions(), handle)
                && final(self).packets() == old(self).packets().push(
                PacketModel::Unsubscribe { handle },
            ),
            !has_handle(final(self).subscriptions(), handle),
            final(self).pending_events() == without_deliveries_to(old(self).pending_events(), handle),
            final(self).next_handle() == old(self).next_handle(),
            final(self).operations() == old(self).operations(),
            final(self).spec_state() == old(self).spec_state(),
            same_settings(old(self), final(self)),
    {
        match self.registry.unsubscribe(handle) {
            Ok(()) => {
                self.send(Packet::Unsubscribe { handle });
                self.drop_deliveries(handle);
                Ok(())
            },
            Err(e) => {
                self.drop_deliveries(handle);
                Err(e)
            },
        }
    }

    /// Publishes `message`, queueing its PUBLISH. Fails with `NulError` on a
    /// NUL in the topic and with `InvalidTopic` when the topic is empty or
    /// holds a wildcard; nothing is tracked then. At QoS 0 the id is 0 and
    /// nothing is tracked. At QoS 1 and 2 a fresh id is allocated and the
    /// publication tracked, sent at `now`; `PublicationError` when every id is
    /// in use. The call does not wait for acknowledgement.
    pub fn publish(&mut self, message: &Message, now: u64) -> (r: Result<i64, Error>)
        requires
            old(self).wf(),
        ensures
            final(self).wf(),
            message.topic@.contains('\0') ==> exists|k: int|
                is_first_nul(message.topic@, k) && r == Err::<i64, Error>(
                    Error::NulError(k as usize),
                ),
            !message.topic@.contains('\0') && !valid_topic(message.topic@) ==> r == Err::<
                i64,
                Error,
            >(Error::InvalidTopic),
            r is Err ==> *final(self) == *old(self),
            !message.topic@.contains('\0') && valid_topic(message.topic@) && message.qos
                == QoS::AtMostOnce ==> {
                &&& r == Ok::<i64, Error>(0)
                &&& final(self).operations() == old(self).operations()
                &&& final(self).packets() == old(self).packets().push(
                    PacketModel::Publish { id: 0, message: message@, duplicate: false },
                )
            },
            !message.topic@.contains('\0') && valid_topic(message.topic@) && message.qos
                != QoS::AtMostOnce ==> {
                ||| r == Err::<i64, Error>(Error::PublicationError) && forall|id: u16|
                    id != 0 ==> #[trigger] in_flight(old(self).operations(), Direction::Outbound, id)
                ||| exists|id: u16|
                    {
                        &&& id != 0
                        &&& r == Ok::<i64, Error>(id as i64)
                        &&& !in_flight(old(self).operations(), Direction::Outbound, id)
                        &&& final(self).operations() == old(self).operations().push(
                            OperationModel {
                                id,
                                direction: Direction::Outbound,
                                stage: crate::inflight::Stage::Sent,
                                message: message@,
                                sent_at: now,
                                duplicate: false,
                            },
                        )
                        &&& final(self).packets() == old(self).packets().push(
                            PacketModel::Publish { id, message: message@, duplicate: false },
                        )
                    }
            },
            r is Ok ==> {
                &&& final(self).subscriptions() == old(self).subscriptions()
                &&& final(self).next_handle() == old(self).next_handle()
                &&& final(self).pending_events() == old(self).pending_events()
                &&& final(self).spec_state() == old(self).spec_state()
                &&& same_settings(old(self), final(self))
            },
    {
        let chars = chars_of(message.topic.as_str());
        if let Some(k) = find_nul(&chars) {
            return Err(Error::NulError(k));
        }
        if !crate::topic::is_valid_topic(&chars) {
            return Err(Error::InvalidTopic);
        }
        if message.qos == QoS::AtMostOnce {
            self.send(Packet::Publish { id: 0, message: message.copied(), duplicate: false });
            return Ok(0);
        }
        let ghost snapshot = *self;
        match self.inflight.allocate_id() {
            Some(id) => {
                self.inflight.track_outbound(id, message.copied(), now);
                self.send(Packet::Publish { id, message: message.copied(), duplicate: false });
                assert(self.inflight@ == snapshot.inflight@.push(
                    OperationModel {
                        id,
                        direction: Direction::Outbound,
                        stage: crate::inflight::Stage::Sent,
                        message: message@,
                        sent_at: now,
                        duplicate: false,
                    },
                ));
                assert(self.packets() == snapshot.packets().push(
                    PacketModel::Publish { id, message: message@, duplicate: false },
                ));
                assert(!in_flight(snapshot.operations(), Direction::Outbound, id));
                Ok(id as i64)
            },
            None => {
                assert(self.inflight@ == snapshot.inflight@);
                assert(forall|id: u16|
                    id != 0 ==> #[trigger] in_flight(snapshot.operations(), Direction::Outbound, id));
                Err(Error::PublicationError)
            },
        }
    }
}


/// The SUBSCRIBE packets that re-issue `subs`, in registration order.
pub open spec fn resubscriptions(subs: Seq<SubscriptionModel>) -> Seq<PacketModel> {
    subs.map_values(
        |s: SubscriptionModel| PacketModel::Subscribe { handle: s.handle, filter: s.filter, qos: s.qos },
    )
}

/// The state after a failed connection attempt or a lost link: with a
/// reconnect policy `Reconnecting`, without one `Disconnected`.
pub open spec fn state_after_failure(policy: Option<ReconnectPolicy>) -> ConnectionState {
    if policy is Some {
        ConnectionState::Reconnecting
    } else {
        ConnectionState::Disconnected
    }
}

impl Client {
    /// Queues a SUBSCRIBE for every live subscription.
    fn resubscribe(&mut self)
        requires
            old(self).wf(),
        ensures
            final(self).wf(),
            final(self).packets() == old(self).packets() + resubscriptions(old(self).subscriptions()),
            final(self).registry == old(self).registry,
            final(self).inflight == old(self).inflight,
            final(self).events == old(self).events,
            final(self).state == old(self).state,
            final(self).client_id == old(self).client_id,
            final(self).host == old(self).host,
            final(self).port == old(self).port,
            final(self).policy == old(self).policy,
            final(self).backoff_ms == old(self).backoff_ms,
    {
        let subs = self.registry.filters();
        let ghost target = resubscriptions(self.registry@);
        let ghost start = self.packets();
        let mut i: usize = 0;
        while i < subs.len()
            invariant
                self.wf(),
                i <= subs@.len(),
                subs@.len() == self.registry@.len(),
                target == resubscriptions(self.registry@),
                forall|k: int|
                    0 <= k < subs@.len() ==> (#[trigger] subs@[k]).0 == self.registry@[k].handle
                        && subs@[k].1@ == self.registry@[k].filter && subs@[k].2
                        == self.registry@[k].qos,
                self.packets() == start + target.take(i as int),
                self.registry == old(self).registry,
                self.inflight == old(self).inflight,
                self.events == old(self).events,
                self.state == old(self).state,
                self.client_id == old(self).client_id,
                self.host == old(self).host,
                self.port == old(self).port,
                self.policy == old(self).policy,
                self.backoff_ms == old(self).backoff_ms,
            decreases subs.len() - i,
        {
            let (handle, filter, qos) = (subs[i].0, subs[i].1.clone(), subs[i].2);
            self.send(Packet::Subscribe { handle, filter, qos });
            assert(target.take(i + 1) =~= target.take(i as int).push(target[i as int]));
            i = i + 1;
        }
        assert(target.take(subs@.len() as int) =~= target);
    }

    /// The broker's answer to the connection attempt. Accepted while
    /// `Connecting`: the state is `Connected`, the backoff starts over, every
    /// outbound operation still in flight is retransmitted with the
    /// duplicate flag whatever its send time (a pass with timeout 0), and, when the broker kept no session, every
    /// subscription is issued again. Refused: as `on_connect_failed`. In any
    /// other state nothing changes.
    pub fn on_connack(&mut self, accepted: bool, session_present: bool, now: u64)
        requires
            old(self).wf(),
        ensures
            final(self).wf(),
            old(self).spec_state() != ConnectionState::Connecting ==> *final(self) == *old(self),
            old(self).spec_state() == ConnectionState::Connecting && accepted ==> {
                &&& final(self).spec_state() == ConnectionState::Connected
                &&& final(self).pending_events() == old(self).pending_events().push(
                    EventModel::StateChanged(ConnectionState::Connected),
                )
                &&& final(self).operations() == old(self).operations().map_values(
                    |o: OperationModel| retransmitted(o, now, 0),
                )
                &&& final(self).packets() == old(self).packets() + retransmissions(
                    old(self).operations(),
                    now,
                    0,
                ) + if session_present {
                    Seq::<PacketModel>::empty()
                } else {
                    resubscriptions(old(self).subscriptions())
                }
                &&& final(self).subscriptions() == old(self).subscriptions()
                &&& final(self).next_handle() == old(self).next_handle()
                &&& same_settings(old(self), final(self))
                &&& (final(self).spec_policy() matches Some(p) ==> final(self).spec_backoff()
                    == p.initial_ms)
            },
            old(self).spec_state() == ConnectionState::Connecting && !accepted ==> {
                &&& final(self).spec_state() == state_after_failure(old(self).spec_policy())
                &&& final(self).pending_events() == old(self).pending_events().push(
                    EventModel::StateChanged(state_after_failure(old(self).spec_policy())),
                )
                &&& same_registry_and_operations(old(self), final(self))
                &&& final(self).packets() == old(self).packets()
                &&& same_settings(old(self), final(self))
            },
    {
        if self.state != ConnectionState::Connecting {
            return;
        }
        if !accepted {
            self.on_connect_failed();
            return;
        }
        self.set_state(ConnectionState::Connected);
        if let Some(p) = self.policy {
            self.backoff_ms = p.initial_ms;
        }
        let ps = self.inflight.retransmit_due(now, 0);
        self.send_all(ps);
        if !session_present {
            self.resubscribe();
        } else {
            assert(self.packets() =~= self.packets() + Seq::<PacketModel>::empty());
        }
    }

    /// The transport could not establish the connection. From `Connecting`
    /// the session moves to `Reconnecting` with a reconnect policy and to
    /// `Disconnected` without one; in-flight operations are kept. In any other
    /// state nothing changes.
    pub fn on_connect_failed(&mut self)
        requires
            old(self).wf(),
        ensures
            final(self).wf(),
            old(self).spec_state() != ConnectionState::Connecting ==> *final(self) == *old(self),
            old(self).spec_state() == ConnectionState::Connecting ==> {
                &&& final(self).spec_state() == state_after_failure(old(self).spec_policy())
                &&& final(self).pending_events() == old(self).pending_events().push(
                    EventModel::StateChanged(state_after_failure(old(self).spec_policy())),
                )
            },
            same_registry_and_operations(old(self), final(self)),
            final(self).packets() == old(self).packets(),
            same_settings(old(self), final(self)),
    {
        if self.state != ConnectionState::Connecting {
            return;
        }
        if self.policy.is_some() {
            self.set_state(ConnectionState::Reconnecting);
        } else {
            self.set_state(ConnectionState::Disconnected);
        }
    }

    /// The link to the broker was lost. From `Connected` the session moves to
    /// `Reconnecting` with a reconnect policy and to `Disconnected` without
    /// one; either way every in-flight operation is kept, to be retransmitted
    /// once connected again. In any other state nothing changes.
    pub fn on_link_lost(&mut self)
        requires
            old(self).wf(),
        ensures
            final(self).wf(),
            old(self).spec_state() != ConnectionState::Connected ==> *final(self) == *old(self),
            old(self).spec_state() == ConnectionState::Connected ==> {
                &&& final(self).spec_state() == state_after_failure(old(self).spec_policy())
                &&& final(self).pending_events() == old(self).pending_events().push(
                    EventModel::StateChanged(state_after_failure(old(self).spec_policy())),
                )
            },
            same_registry_and_operations(old(self), final(self)),
            final(self).packets() == old(self).packets(),
            same_settings(old(self), final(self)),
    {
        if self.state != ConnectionState::Connected {
            return;
        }
        if self.policy.is_some() {
            self.set_state(ConnectionState::Reconnecting);
        } else {
            self.set_state(ConnectionState::Disconnected);
        }
    }

    /// The backoff wait is over: from `Reconnecting` the session moves to
    /// `Connecting`, with the same client identifier and subscriptions, and
    /// the next wait doubles up to the ceiling. In any other state nothing
    /// changes.
    pub fn on_backoff_elapsed(&mut self)
        requires
            old(self).wf(),
        ensures
            final(self).wf(),
            old(self).spec_state() != ConnectionState::Reconnecting ==> *final(self) == *old(self),
            old(self).spec_state() == ConnectionState::Reconnecting ==> {
                &&& final(self).spec_state() == ConnectionState::Connecting
                &&& final(self).pending_events() == old(self).pending_events().push(
                    EventModel::StateChanged(ConnectionState::Connecting),
                )
                &&& (old(self).spec_policy() matches Some(p) ==> final(self).spec_backoff()
                    == next_backoff(old(self).spec_backoff(), p.max_ms))
            },
            same_registry_and_operations(old(self), final(self)),
            final(self).packets() == old(self).packets(),
            same_settings(old(self), final(self)),
    {
        if self.state != ConnectionState::Reconnecting {
            return;
        }
        if let Some(p) = self.policy {
            let cur = self.backoff_ms;
            let max = p.max_ms;
            let nb = if cur >= max - cur {
                max
            } else {
                cur + cur
            };
            self.backoff_ms = nb;
        }
        self.set_state(ConnectionState::Connecting);
    }

    /// Periodic retry: while `Connected`, every outbound operation that has
    /// waited `timeout` since it was last sent is retransmitted with the
    /// duplicate flag (its PUBREL, once PUBREC has come). In any other state
    /// nothing changes.
    pub fn on_tick(&mut self, now: u64, timeout: u64)
        requires
            old(self).wf(),
        ensures
            final(self).wf(),
            old(self).spec_state() != ConnectionState::Connected ==> *final(self) == *old(self),
            old(self).spec_state() == ConnectionState::Connected ==> {
                &&& final(self).operations() == old(self).operations().map_values(
                    |o: OperationModel| retransmitted(o, now, timeout),
                )
                &&& final(self).packets() == old(self).packets() + retransmissions(
                    old(self).operations(),
                    now,
                    timeout,
                )
            },
            final(self).subscriptions() == old(self).subscriptions(),
            final(self).next_handle() == old(self).next_handle(),
            final(self).pending_events() == old(self).pending_events(),
            final(self).spec_state() == old(self).spec_state(),
            same_settings(old(self), final(self)),
    {
        if self.state != ConnectionState::Connected {
            return;
        }
        let ps = self.inflight.retransmit_due(now, timeout);
        self.send_all(ps);
    }
}


impl Client {
    /// An inbound PUBLISH of id `id`. At QoS 0 the message is delivered to
    /// every matching subscription; at QoS 1 too, and a PUBACK is queued. At
    /// QoS 2 the message is held, unless one of that id is held already, and
    /// a PUBREC is queued: delivery waits for PUBREL. A QoS 2 message with id
    /// 0 cannot be acknowledged and is dropped.
    pub fn on_publish(&mut self, id: u16, message: Message, now: u64)
        requires
            old(self).wf(),
        ensures
            final(self).wf(),
            final(self).subscriptions() == old(self).subscriptions(),
            final(self).next_handle() == old(self).next_handle(),
            final(self).spec_state() == old(self).spec_state(),
            same_settings(old(self), final(self)),
            message.qos == QoS::AtMostOnce ==> {
                &&& final(self).pending_events() == old(self).pending_events() + deliveries(
                    routed(old(self).subscriptions(), message.topic@, message.qos),
                    message@,
                )
                &&& final(self).packets() == old(self).packets()
                &&& final(self).operations() == old(self).operations()
            },
            message.qos == QoS::AtLeastOnce ==> {
                &&& final(self).pending_events() == old(self).pending_events() + deliveries(
                    routed(old(self).subscriptions(), message.topic@, message.qos),
                    message@,
                )
                &&& final(self).packets() == old(self).packets().push(PacketModel::Puback(id))
                &&& final(self).operations() == old(self).operations()
            },
            message.qos == QoS::ExactlyOnce && id != 0 ==> {
                &&& final(self).pending_events() == old(self).pending_events()
                &&& final(self).packets() == old(self).packets().push(PacketModel::Pubrec(id))
                &&& final(self).operations() == after_inbound_publish(
                    old(self).operations(),
                    id,
                    message@,
                    now,
                )
            },
            message.qos == QoS::ExactlyOnce && id == 0 ==> *final(self) == *old(self),
    {
        match message.qos {
            QoS::AtMostOnce => {
                self.deliver(&message);
            },
            QoS::AtLeastOnce => {
                self.deliver(&message);
                self.send(Packet::Puback(id));
            },
            QoS::ExactlyOnce => {
                if id == 0 {
                    return;
                }
                self.inflight.on_inbound_publish(id, message, now);
                self.send(Packet::Pubrec(id));
            },
        }
    }

    /// A PUBACK: the QoS 1 publication of that id is acknowledged and leaves
    /// the table.
    pub fn on_puback(&mut self, id: u16)
        requires
            old(self).wf(),
        ensures
            final(self).wf(),
            final(self).operations() == after_puback(old(self).operations(), id),
            final(self).subscriptions() == old(self).subscriptions(),
            final(self).next_handle() == old(self).next_handle(),
            final(self).packets() == old(self).packets(),
            final(self).pending_events() == old(self).pending_events(),
            final(self).spec_state() == old(self).spec_state(),
            same_settings(old(self), final(self)),
    {
        self.inflight.on_puback(id);
    }

    /// A PUBREC: the QoS 2 publication of that id moves on to
    /// `ReleasePending` and a PUBREL is queued; a PUBREC for no such
    /// publication is ignored.
    pub fn on_pubrec(&mut self, id: u16)
        requires
            old(self).wf(),
        ensures
            final(self).wf(),
            final(self).operations() == after_pubrec(old(self).operations(), id),
            final(self).packets() == if crate::inflight::pubrec_known(old(self).operations(), id) {
                old(self).packets().push(PacketModel::Pubrel(id))
            } else {
                old(self).packets()
            },
            final(self).subscriptions() == old(self).subscriptions(),
            final(self).next_handle() == old(self).next_handle(),
            final(self).pending_events() == old(self).pending_events(),
            final(self).spec_state() == old(self).spec_state(),
            same_settings(old(self), final(self)),
    {
        if self.inflight.on_pubrec(id) {
            self.send(Packet::Pubrel(id));
        }
    }

    /// A PUBCOMP: the QoS 2 publication of that id is complete and leaves
    /// the table.
    pub fn on_pubcomp(&mut self, id: u16)
        requires
            old(self).wf(),
        ensures
            final(self).wf(),
            final(self).operations() == after_pubcomp(old(self).operations(), id),
            final(self).subscriptions() == old(self).subscriptions(),
            final(self).next_handle() == old(self).next_handle(),
            final(self).packets() == old(self).packets(),
            final(self).pending_events() == old(self).pending_events(),
            final(self).spec_state() == old(self).spec_state(),
            same_settings(old(self), final(self)),
    {
        self.inflight.on_pubcomp(id);
    }

    /// A PUBREL: the QoS 2 message held under `id`, if any, is delivered to
    /// every subscription that matches it now, and a PUBCOMP is queued.
    pub fn on_pubrel(&mut self, id: u16)
        requires
            old(self).wf(),
        ensures
            final(self).wf(),
            final(self).operations() == after_pubrel(old(self).operations(), id),
            final(self).pending_events() == match released(old(self).operations(), id) {
                Some(m) => old(self).pending_events() + deliveries(
                    routed(old(self).subscriptions(), m.topic, m.qos),
                    m,
                ),
                None => old(self).pending_events(),
            },
            final(self).packets() == old(self).packets().push(PacketModel::Pubcomp(id)),
            final(self).subscriptions() == old(self).subscriptions(),
            final(self).next_handle() == old(self).next_handle(),
            final(self).spec_state() == old(self).spec_state(),
            same_settings(old(self), final(self)),
    {
        if let Some(m) = self.inflight.on_pubrel(id) {
            self.deliver(&m);
        }
        self.send(Packet::Pubcomp(id));
    }

    /// The broker's answer to a SUBSCRIBE. A rejection rolls the
    /// subscription back, drops the deliveries to it still queued and raises
    /// a `SUBSCRIPTION_REJECTED` error event; a grant, or an answer for a
    /// handle no longer live, changes nothing.
    pub fn on_suback(&mut self, handle: i64, granted: bool)
        requires
            old(self).wf(),
        ensures
            final(self).wf(),
            granted || !has_handle(old(self).subscriptions(), handle) ==> *final(self) == *old(self),
            !granted && has_handle(old(self).subscriptions(), handle) ==> {
                &&& removed_handle(old(self).subscriptions(), final(self).subscriptions(), handle)
                &&& !has_handle(final(self).subscriptions(), handle)
                &&& final(self).pending_events() == without_deliveries_to(
                    old(self).pending_events(),
                    handle,
                ).push(
                    EventModel::Error {
                        code: SUBSCRIPTION_REJECTED,
                        text: "subscription rejected by the broker"@,
                    },
                )
            },
            final(self).next_handle() == old(self).next_handle(),
            final(self).operations() == old(self).operations(),
            final(self).packets() == old(self).packets(),
            final(self).spec_state() == old(self).spec_state(),
            same_settings(old(self), final(self)),
    {
        if granted {
            return;
        }
        if self.registry.unsubscribe(handle).is_ok() {
            self.drop_deliveries(handle);
            let ghost before = self.events@;
            let ev = Event::Error {
                code: SUBSCRIPTION_REJECTED,
                text: "subscription rejected by the broker".to_owned(),
            };
            self.events.push(ev);
            assert(events_view(self.events@) =~= events_view(before).push(ev@));
        }
    }
}

/// Unsubscribing stops delivery to the handle at once: once `unsubscribe`
/// has removed `h`, no inbound publication, on any topic and at any QoS, is
/// routed to `h`, including a QoS 2 message already held when it was removed
/// (it is routed when its PUBREL comes).
pub proof fn lemma_unsubscribed_handle_receives_nothing(
    before: Client,
    after: Client,
    h: i64,
    topic: Seq<char>,
    qos: QoS,
)
    requires
        before.wf(),
        removed_handle(before.subscriptions(), after.subscriptions(), h),
    ensures
        forall|k: int|
            0 <= k < routed(after.subscriptions(), topic, qos).len() ==> (#[trigger] routed(
                after.subscriptions(),
                topic,
                qos,
            )[k]).0 != h,
{
    crate::registry::lemma_unsubscribe_stops_routing(before.registry, after.registry, h, topic, qos);
}

} // verus!
