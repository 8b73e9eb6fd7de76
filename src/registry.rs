use crate::error::Error;
use crate::topic::{filter_matches, is_valid_filter, topic_matches, valid_filter};
use crate::types::QoS;
use vstd::prelude::*;

verus! {

/// The content of one subscription.
pub ghost struct SubscriptionModel {
    pub handle: i64,
    pub filter: Seq<char>,
    pub qos: QoS,
}

/// One registered subscription: its handle, its filter and the QoS asked for.
pub struct Subscription {
    pub handle: i64,
    pub filter: String,
    pub filter_chars: Vec<char>,
    pub qos: QoS,
}

impl View for Subscription {
    type V = SubscriptionModel;

    open spec fn view(&self) -> SubscriptionModel {
        SubscriptionModel { handle: self.handle, filter: self.filter@, qos: self.qos }
    }
}

/// The deliveries that an inbound publication on `topic` at `qos` gives:
/// one per subscription whose filter matches, in registration order, each at
/// the lower of the publication's and the subscription's QoS.
pub open spec fn routed(subs: Seq<SubscriptionModel>, topic: Seq<char>, qos: QoS) -> Seq<
    (i64, QoS),
>
    decreases subs.len(),
{
    if subs.len() == 0 {
        Seq::empty()
    } else {
        let rest = routed(subs.drop_last(), topic, qos);
        let s = subs.last();
        if topic_matches(s.filter, topic) {
            rest.push((s.handle, qos.spec_min(s.qos)))
        } else {
            rest
        }
    }
}

/// Whether some subscription of `subs` has handle `h`.
pub open spec fn has_handle(subs: Seq<SubscriptionModel>, h: i64) -> bool {
    exists|i: int| 0 <= i < subs.len() && #[trigger] subs[i].handle == h
}

/// Handles appear in strictly increasing order, so each appears once.
pub open spec fn handles_increasing(subs: Seq<SubscriptionModel>) -> bool {
    forall|i: int, j: int| 0 <= i < j < subs.len() ==> #[trigger] subs[i].handle < #[trigger] subs[j].handle
}

/// `after` is `before` with the one subscription of handle `h` taken out.
pub open spec fn removed_handle(
    before: Seq<SubscriptionModel>,
    after: Seq<SubscriptionModel>,
    h: i64,
) -> bool {
    exists|i: int| 0 <= i < before.len() && before[i].handle == h && after == before.remove(i)
}

/// Once the subscription of handle `h` is removed, no subscription has `h`.
pub proof fn lemma_removed_handle_gone(
    before: Seq<SubscriptionModel>,
    after: Seq<SubscriptionModel>,
    h: i64,
)
    requires
        handles_increasing(before),
        removed_handle(before, after, h),
    ensures
        !has_handle(after, h),
{
    let i = choose|i: int| 0 <= i < before.len() && before[i].handle == h && after == before.remove(i);
    if has_handle(after, h) {
        let j = choose|j: int| 0 <= j < after.len() && #[trigger] after[j].handle == h;
        let j2 = if j < i { j } else { j + 1 };
        assert(after[j] == before[j2]);
        if j2 < i {
            assert(before[j2].handle < before[i].handle);
        } else {
            assert(before[i].handle < before[j2].handle);
        }
    }
}

/// Owns the mapping from subscription handle to filter and QoS.
pub struct SubscriptionRegistry {
    pub(crate) entries: Vec<Subscription>,
    pub(crate) next_handle: i64,
}

impl View for SubscriptionRegistry {
    type V = Seq<SubscriptionModel>;

    closed spec fn view(&self) -> Seq<SubscriptionModel> {
        self.entries@.map_values(|e: Subscription| e@)
    }
}

impl SubscriptionRegistry {
    pub closed spec fn next_handle_spec(&self) -> i64 {
        self.next_handle
    }

    /// Handles increase, every filter is valid and its characters are kept
    /// beside it, and every handle lies below the next one to be issued.
    pub closed spec fn wf(&self) -> bool {
        &&& 1 <= self.next_handle
        &&& handles_increasing(self@)
        &&& forall|i: int|
            0 <= i < self@.len() ==> 1 <= #[trigger] self@[i].handle < self.next_handle
        &&& forall|i: int|
            0 <= i < self.entries@.len() ==> (#[trigger] self.entries@[i]).filter_chars@
                == self.entries@[i].filter@ && valid_filter(self.entries@[i].filter@)
    }

    /// What `wf` guarantees of the registry's content: handles increase and
    /// each lies in `[1, next_handle_spec())`.
    pub proof fn lemma_wf(&self)
        requires
            self.wf(),
        ensures
            handles_increasing(self@),
            1 <= self.next_handle_spec(),
            forall|i: int|
                0 <= i < self@.len() ==> 1 <= #[trigger] self@[i].handle < self.next_handle_spec(),
    {
    }

    /// An empty registry; the first handle issued is 1.
    pub fn new() -> (r: SubscriptionRegistry)
        ensures
            r.wf(),
            r@ == Seq::<SubscriptionModel>::empty(),
            r.next_handle_spec() == 1,
    {
        let r = SubscriptionRegistry { entries: Vec::new(), next_handle: 1 };
        assert(r@ =~= Seq::<SubscriptionModel>::empty());
        r
    }

    /// Whether some subscription has handle `h`.
    pub fn contains(&self, h: i64) -> (r: bool)
        ensures
            r == has_handle(self@, h),
    {
        let mut i: usize = 0;
        while i < self.entries.len()
            invariant
                i <= self@.len(),
                self.entries@.len() == self@.len(),
                forall|k: int| 0 <= k < i ==> #[trigger] self@[k].handle != h,
            decreases self.entries.len() - i,
        {
            if self.entries[i].handle == h {
                assert(self@[i as int].handle == h);
                return true;
            }
            i = i + 1;
        }
        false
    }

    /// Number of registered subscriptions.
    pub fn len(&self) -> (r: usize)
        ensures
            r == self@.len(),
    {
        self.entries.len()
    }

    /// Registers `filter` at `qos` under a fresh handle. Fails with
    /// `InvalidTopic` on a malformed filter and with `SubscriptionError` once
    /// handles are exhausted.
    pub fn subscribe(&mut self, filter: &str, filter_chars: Vec<char>, qos: QoS) -> (r: Result<
        i64,
        Error,
    >)
        requires
            old(self).wf(),
            filter_chars@ == filter@,
        ensures
            final(self).wf(),
            !valid_filter(filter@) ==> r == Err::<i64, Error>(Error::InvalidTopic) && final(self)@
                == old(self)@,
            valid_filter(filter@) && old(self).next_handle_spec() == i64::MAX ==> r == Err::<
                i64,
                Error,
            >(Error::SubscriptionError) && final(self)@ == old(self)@,
            valid_filter(filter@) && old(self).next_handle_spec() < i64::MAX ==> {
                &&& r == Ok::<i64, Error>(old(self).next_handle_spec())
                &&& final(self)@ == old(self)@.push(
                    SubscriptionModel { handle: old(self).next_handle_spec(), filter: filter@, qos },
                )
                &&& final(self).next_handle_spec() == old(self).next_handle_spec() + 1
            },
            r is Err ==> *final(self) == *old(self),
    {
        if !is_valid_filter(&filter_chars) {
            return Err(Error::InvalidTopic);
        }
        if self.next_handle == i64::MAX {
            return Err(Error::SubscriptionError);
        }
        let h = self.next_handle;
        let ghost old_view = self@;
        self.entries.push(Subscription { handle: h, filter: filter.to_owned(), filter_chars, qos });
        self.next_handle = h + 1;
        assert(self@ =~= old_view.push(SubscriptionModel { handle: h, filter: filter@, qos }));
        proof {
            assert forall|i: int| 0 <= i < self.entries@.len() implies (
            #[trigger] self.entries@[i]).filter_chars@ == self.entries@[i].filter@ && valid_filter(
                self.entries@[i].filter@,
            ) by {
                if i < old_view.len() {
                    assert(self@[i] == old_view[i]);
                }
            }
            assert forall|i: int| 0 <= i < self@.len() implies 1 <= #[trigger] self@[i].handle
                < self.next_handle by {
                if i < old_view.len() {
                    assert(self@[i] == old_view[i]);
                }
            }
        }
        Ok(h)
    }

    /// Removes the subscription of handle `h`; from then on nothing is routed
    /// to it. Fails with `SubscriptionError` when no subscription has that
    /// handle.
    pub fn unsubscribe(&mut self, h: i64) -> (r: Result<(), Error>)
        requires
            old(self).wf(),
        ensures
            final(self).wf(),
            final(self).next_handle_spec() == old(self).next_handle_spec(),
            r is Ok <==> has_handle(old(self)@, h),
            r is Ok ==> removed_handle(old(self)@, final(self)@, h),
            !has_handle(final(self)@, h),
            r is Err ==> r == Err::<(), Error>(Error::SubscriptionError) && *final(self) == *old(
                self,
            ),
    {
        let mut i: usize = 0;
        while i < self.entries.len()
            invariant
                *self == *old(self),
                self.wf(),
                i <= self@.len(),
                self.entries@.len() == self@.len(),
                forall|k: int| 0 <= k < i ==> #[trigger] self@[k].handle != h,
            decreases self.entries.len() - i,
        {
            if self.entries[i].handle == h {
                let ghost old_view = self@;
                let ghost old_entries = self.entries@;
                self.entries.remove(i);
                proof {
                    assert(self@ =~= old_view.remove(i as int));
                    assert forall|a: int, b: int| 0 <= a < b < self@.len() implies #[trigger] self@[a].handle
                        < #[trigger] self@[b].handle by {
                        let a2 = if a < i { a } else { a + 1 };
                        let b2 = if b < i { b } else { b + 1 };
                        assert(self@[a] == old_view[a2]);
                        assert(self@[b] == old_view[b2]);
                    }
                    assert forall|k: int| 0 <= k < self@.len() implies 1 <= #[trigger] self@[k].handle
                        < self.next_handle by {
                        let k2 = if k < i { k } else { k + 1 };
                        assert(self@[k] == old_view[k2]);
                    }
                    assert forall|k: int| 0 <= k < self.entries@.len() implies (
                    #[trigger] self.entries@[k]).filter_chars@ == self.entries@[k].filter@
                        && valid_filter(self.entries@[k].filter@) by {
                        let k2 = if k < i { k } else { k + 1 };
                        assert(self.entries@[k] == old_entries[k2]);
                    }
                    assert(old_view[i as int].handle == h);
                    assert(has_handle(old_view, h));
                    lemma_removed_handle_gone(old_view, self@, h);
                }
                return Ok(());
            }
            i = i + 1;
        }
        Err(Error::SubscriptionError)
    }

    /// The handles to deliver an inbound publication on `topic` at `qos` to,
    /// each with its effective QoS.
    pub fn route(&self, topic: &Vec<char>, qos: QoS) -> (r: Vec<(i64, QoS)>)
        requires
            self.wf(),
        ensures
            r@ == routed(self@, topic@, qos),
    {
        let mut r: Vec<(i64, QoS)> = Vec::new();
        let mut i: usize = 0;
        while i < self.entries.len()
            invariant
                self.wf(),
                i <= self@.len(),
                self.entries@.len() == self@.len(),
                r@ == routed(self@.take(i as int), topic@, qos),
            decreases self.entries.len() - i,
        {
            proof {
                assert(self@.take(i + 1).drop_last() =~= self@.take(i as int));
                assert(self.entries@[i as int].filter_chars@ == self@[i as int].filter);
            }
            let e = &self.entries[i];
            if filter_matches(&e.filter_chars, topic) {
                r.push((e.handle, qos.capped_by(e.qos)));
            }
            i = i + 1;
        }
        assert(self@.take(self@.len() as int) =~= self@);
        r
    }

    /// The handles and filters of all subscriptions, in registration order.
    pub fn filters(&self) -> (r: Vec<(i64, String, QoS)>)
        ensures
            r@.len() == self@.len(),
            forall|k: int|
                0 <= k < r@.len() ==> (#[trigger] r@[k]).0 == self@[k].handle && r@[k].1@
                    == self@[k].filter && r@[k].2 == self@[k].qos,
    {
        let mut r: Vec<(i64, String, QoS)> = Vec::new();
        let mut i: usize = 0;
        while i < self.entries.len()
            invariant
                i <= self@.len(),
                self.entries@.len() == self@.len(),
                r@.len() == i,
                forall|k: int|
                    0 <= k < i ==> (#[trigger] r@[k]).0 == self@[k].handle && r@[k].1@
                        == self@[k].filter && r@[k].2 == self@[k].qos,
            decreases self.entries.len() - i,
        {
            let e = &self.entries[i];
            r.push((e.handle, e.filter.clone(), e.qos));
            i = i + 1;
        }
        r
    }
}

} // verus!

verus! {

/// Every handle that routing yields belongs to a subscription of `subs`.
pub proof fn lemma_routed_handles_registered(subs: Seq<SubscriptionModel>, topic: Seq<char>, qos: QoS)
    ensures
        forall|k: int|
            0 <= k < routed(subs, topic, qos).len() ==> has_handle(
                subs,
                #[trigger] routed(subs, topic, qos)[k].0,
            ),
    decreases subs.len(),
{
    if subs.len() > 0 {
        let init = subs.drop_last();
        lemma_routed_handles_registered(init, topic, qos);
        let rs = routed(subs, topic, qos);
        assert forall|k: int| 0 <= k < rs.len() implies has_handle(subs, #[trigger] rs[k].0) by {
            if k < routed(init, topic, qos).len() {
                assert(rs[k] == routed(init, topic, qos)[k]);
                let j = choose|j: int| 0 <= j < init.len() && #[trigger] init[j].handle == rs[k].0;
                assert(subs[j] == init[j]);
            } else {
                assert(subs[subs.len() - 1].handle == rs[k].0);
            }
        }
    }
}

/// Unsubscribing a handle stops routing to it at once: in the registry that
/// `unsubscribe` leaves, no publication on any topic, at any QoS, is routed
/// to that handle.
pub proof fn lemma_unsubscribe_stops_routing(
    before: SubscriptionRegistry,
    after: SubscriptionRegistry,
    h: i64,
    topic: Seq<char>,
    qos: QoS,
)
    requires
        before.wf(),
        removed_handle(before@, after@, h),
    ensures
        forall|k: int|
            0 <= k < routed(after@, topic, qos).len() ==> (#[trigger] routed(after@, topic, qos)[k]).0
                != h,
{
    let i = choose|i: int|
        0 <= i < before@.len() && before@[i].handle == h && after@ == before@.remove(i);
    lemma_routed_handles_registered(after@, topic, qos);
    assert forall|k: int| 0 <= k < routed(after@, topic, qos).len() implies (#[trigger] routed(
        after@,
        topic,
        qos,
    )[k]).0 != h by {
        let x = routed(after@, topic, qos)[k].0;
        let j = choose|j: int| 0 <= j < after@.len() && #[trigger] after@[j].handle == x;
        let j2 = if j < i { j } else { j + 1 };
        assert(after@[j] == before@[j2]);
        assert(handles_increasing(before@));
        if j2 < i {
            assert(before@[j2].handle < before@[i].handle);
        } else {
            assert(before@[i].handle < before@[j2].handle);
        }
    }
}

} // verus!
