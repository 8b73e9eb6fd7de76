use crate::message::{Message, MessageModel};
use crate::packet::{packets_view, Packet, PacketModel};
use crate::types::QoS;
use vstd::prelude::*;

verus! {

/// Who started the publication that an operation tracks.
#[derive(Debug, Clone, Copy, PartialEq, Eq, Structural)]
pub enum Direction {
    Outbound,
    Inbound,
}

/// Handshake stage of a tracked operation.
#[derive(Debug, Clone, Copy, PartialEq, Eq, Structural)]
pub enum Stage {
    /// Outbound publication sent; waiting for PUBACK (QoS 1) or PUBREC (QoS 2).
    Sent,
    /// Outbound QoS 2: PUBREL sent; waiting for PUBCOMP.
    ReleasePending,
    /// Inbound QoS 2: PUBREC sent; the message is held until PUBREL.
    AwaitingRelease,
}

/// The content of one tracked operation.
pub ghost struct OperationModel {
    pub id: u16,
    pub direction: Direction,
    pub stage: Stage,
    pub message: MessageModel,
    pub sent_at: u64,
    pub duplicate: bool,
}

/// One publication awaiting the end of its handshake, with the snapshot of
/// its message that retransmission or delivery needs.
pub struct Operation {
    pub id: u16,
    pub direction: Direction,
    pub stage: Stage,
    pub message: Message,
    pub sent_at: u64,
    pub duplicate: bool,
}

impl View for Operation {
    type V = OperationModel;

    open spec fn view(&self) -> OperationModel {
        OperationModel {
            id: self.id,
            direction: self.direction,
            stage: self.stage,
            message: self.message@,
            sent_at: self.sent_at,
            duplicate: self.duplicate,
        }
    }
}

/// Index of the operation of direction `d` and id `id` (the last such one),
/// or -1 when there is none.
pub open spec fn find_op(ops: Seq<OperationModel>, d: Direction, id: u16) -> int
    decreases ops.len(),
{
    if ops.len() == 0 {
        -1
    } else if ops.last().direction == d && ops.last().id == id {
        ops.len() - 1
    } else {
        find_op(ops.drop_last(), d, id)
    }
}

/// Whether an operation of direction `d` with id `id` is tracked.
pub open spec fn in_flight(ops: Seq<OperationModel>, d: Direction, id: u16) -> bool {
    exists|i: int| 0 <= i < ops.len() && #[trigger] ops[i].direction == d && ops[i].id == id
}

/// No two operations share a direction and an id, and no id is 0.
pub open spec fn ids_unique(ops: Seq<OperationModel>) -> bool {
    &&& forall|i: int| 0 <= i < ops.len() ==> #[trigger] ops[i].id != 0
    &&& forall|i: int, j: int|
        0 <= i < ops.len() && 0 <= j < ops.len() && i != j && #[trigger] ops[i].direction
            == #[trigger] ops[j].direction ==> ops[i].id != ops[j].id
}

/// Stages agree with directions and QoS levels: outbound operations are at
/// QoS 1 or 2, only QoS 2 ones wait for PUBCOMP, inbound ones are QoS 2
/// messages awaiting PUBREL.
pub open spec fn stages_consistent(ops: Seq<OperationModel>) -> bool {
    forall|i: int|
        0 <= i < ops.len() ==> match #[trigger] ops[i].direction {
            Direction::Outbound => {
                ||| ops[i].stage == Stage::Sent && ops[i].message.qos != QoS::AtMostOnce
                ||| ops[i].stage == Stage::ReleasePending && ops[i].message.qos == QoS::ExactlyOnce
            },
            Direction::Inbound => ops[i].stage == Stage::AwaitingRelease
                && ops[i].message.qos == QoS::ExactlyOnce,
        }
}

/// The table after a PUBACK for `id`: a QoS 1 publication reaches
/// `Acknowledged` and leaves the table; anything else is unchanged.
pub open spec fn after_puback(ops: Seq<OperationModel>, id: u16) -> Seq<OperationModel> {
    let i = find_op(ops, Direction::Outbound, id);
    if i >= 0 && ops[i].message.qos == QoS::AtLeastOnce {
        ops.remove(i)
    } else {
        ops
    }
}

/// Whether a PUBREC for `id` concerns a tracked outbound QoS 2 publication
/// (and so asks for a PUBREL).
pub open spec fn pubrec_known(ops: Seq<OperationModel>, id: u16) -> bool {
    let i = find_op(ops, Direction::Outbound, id);
    i >= 0 && ops[i].message.qos == QoS::ExactlyOnce
}

/// The table after a PUBREC for `id`: a QoS 2 publication moves from `Sent`
/// to `ReleasePending`.
pub open spec fn after_pubrec(ops: Seq<OperationModel>, id: u16) -> Seq<OperationModel> {
    let i = find_op(ops, Direction::Outbound, id);
    if pubrec_known(ops, id) && ops[i].stage == Stage::Sent {
        ops.update(i, OperationModel { stage: Stage::ReleasePending, ..ops[i] })
    } else {
        ops
    }
}

/// Whether a PUBCOMP for `id` completes a publication.
pub open spec fn pubcomp_known(ops: Seq<OperationModel>, id: u16) -> bool {
    let i = find_op(ops, Direction::Outbound, id);
    i >= 0 && ops[i].stage == Stage::ReleasePending
}

/// The table after a PUBCOMP for `id`: a QoS 2 publication awaiting it is
/// complete and leaves the table.
pub open spec fn after_pubcomp(ops: Seq<OperationModel>, id: u16) -> Seq<OperationModel> {
    if pubcomp_known(ops, id) {
        ops.remove(find_op(ops, Direction::Outbound, id))
    } else {
        ops
    }
}

/// The table after an inbound QoS 2 PUBLISH of id `id`: the message is held
/// until PUBREL, unless a message of that id is held already.
pub open spec fn after_inbound_publish(
    ops: Seq<OperationModel>,
    id: u16,
    message: MessageModel,
    now: u64,
) -> Seq<OperationModel> {
    if in_flight(ops, Direction::Inbound, id) {
        ops
    } else {
        ops.push(
            OperationModel {
                id,
                direction: Direction::Inbound,
                stage: Stage::AwaitingRelease,
                message,
                sent_at: now,
                duplicate: false,
            },
        )
    }
}

/// The message that a PUBREL for `id` releases to the application, if any.
pub open spec fn released(ops: Seq<OperationModel>, id: u16) -> Option<MessageModel> {
    let i = find_op(ops, Direction::Inbound, id);
    if i >= 0 {
        Some(ops[i].message)
    } else {
        None
    }
}

/// The table after a PUBREL for `id`: the held message leaves the table.
pub open spec fn after_pubrel(ops: Seq<OperationModel>, id: u16) -> Seq<OperationModel> {
    let i = find_op(ops, Direction::Inbound, id);
    if i >= 0 {
        ops.remove(i)
    } else {
        ops
    }
}

/// An outbound operation is due for retransmission once `timeout` has passed
/// since it was last sent. A timeout of 0 makes every outbound operation due,
/// whatever its send time: that is the pass a reconnection performs.
pub open spec fn is_due(op: OperationModel, now: u64, timeout: u64) -> bool {
    &&& op.direction == Direction::Outbound
    &&& (timeout == 0 || (op.sent_at <= now && now - op.sent_at >= timeout))
}

/// An operation after a retransmission pass at `now`.
pub open spec fn retransmitted(op: OperationModel, now: u64, timeout: u64) -> OperationModel {
    if is_due(op, now, timeout) {
        OperationModel { sent_at: now, duplicate: true, ..op }
    } else {
        op
    }
}

/// The packet that retransmits an outbound operation: the publication again
/// with the duplicate flag, or the PUBREL once PUBREC has come.
pub open spec fn retransmission(op: OperationModel) -> PacketModel {
    if op.stage == Stage::Sent {
        PacketModel::Publish { id: op.id, message: op.message, duplicate: true }
    } else {
        PacketModel::Pubrel(op.id)
    }
}

/// The packets of a retransmission pass, in table order.
pub open spec fn retransmissions(ops: Seq<OperationModel>, now: u64, timeout: u64) -> Seq<
    PacketModel,
>
    decreases ops.len(),
{
    if ops.len() == 0 {
        Seq::empty()
    } else {
        let rest = retransmissions(ops.drop_last(), now, timeout);
        if is_due(ops.last(), now, timeout) {
            rest.push(retransmission(ops.last()))
        } else {
            rest
        }
    }
}

pub proof fn lemma_find_op(ops: Seq<OperationModel>, d: Direction, id: u16)
    ensures
        -1 <= find_op(ops, d, id) < ops.len(),
        find_op(ops, d, id) >= 0 ==> ops[find_op(ops, d, id)].direction == d && ops[find_op(
            ops,
            d,
            id,
        )].id == id,
        find_op(ops, d, id) >= 0 <==> in_flight(ops, d, id),
    decreases ops.len(),
{
    if ops.len() > 0 {
        let init = ops.drop_last();
        lemma_find_op(init, d, id);
        if in_flight(ops, d, id) && !(ops.last().direction == d && ops.last().id == id) {
            let i = choose|i: int| 0 <= i < ops.len() && #[trigger] ops[i].direction == d && ops[i].id == id;
            assert(init[i] == ops[i]);
        }
        if in_flight(init, d, id) {
            let i = choose|i: int| 0 <= i < init.len() && #[trigger] init[i].direction == d && init[i].id == id;
            assert(ops[i] == init[i]);
        }
        if ops.last().direction == d && ops.last().id == id {
            assert(ops[ops.len() - 1] == ops.last());
        }
    }
}

/// Removing one entry keeps ids unique and stages consistent.
pub proof fn lemma_remove_keeps(ops: Seq<OperationModel>, i: int)
    requires
        ids_unique(ops),
        stages_consistent(ops),
        0 <= i < ops.len(),
    ensures
        ids_unique(ops.remove(i)),
        stages_consistent(ops.remove(i)),
        !in_flight(ops.remove(i), ops[i].direction, ops[i].id),
        forall|d: Direction, x: u16|
            !(d == ops[i].direction && x == ops[i].id) ==> (#[trigger] in_flight(ops.remove(i), d, x)
                <==> in_flight(ops, d, x)),
{
    let r = ops.remove(i);
    assert forall|a: int| 0 <= a < r.len() implies #[trigger] r[a] == ops[if a < i { a } else { a + 1 }] by {}
    assert forall|a: int, b: int|
        0 <= a < r.len() && 0 <= b < r.len() && a != b && #[trigger] r[a].direction
            == #[trigger] r[b].direction implies r[a].id != r[b].id by {
        let a2 = if a < i { a } else { a + 1 };
        let b2 = if b < i { b } else { b + 1 };
        assert(r[a] == ops[a2] && r[b] == ops[b2]);
    }
    assert forall|a: int| 0 <= a < r.len() implies #[trigger] r[a].id != 0 by {
        assert(r[a] == ops[if a < i { a } else { a + 1 }]);
    }
    assert(stages_consistent(r)) by {
        assert forall|a: int| 0 <= a < r.len() implies #[trigger] r[a] == ops[if a < i { a } else { a + 1 }] by {}
    }
    if in_flight(r, ops[i].direction, ops[i].id) {
        let a = choose|a: int| 0 <= a < r.len() && #[trigger] r[a].direction == ops[i].direction && r[a].id == ops[i].id;
        let a2 = if a < i { a } else { a + 1 };
        assert(r[a] == ops[a2]);
    }
    assert forall|d: Direction, x: u16|
        !(d == ops[i].direction && x == ops[i].id) implies (#[trigger] in_flight(r, d, x)
            <==> in_flight(ops, d, x)) by {
        if in_flight(r, d, x) {
            let a = choose|a: int| 0 <= a < r.len() && #[trigger] r[a].direction == d && r[a].id == x;
            let a2 = if a < i { a } else { a + 1 };
            assert(r[a] == ops[a2]);
        }
        if in_flight(ops, d, x) {
            let a = choose|a: int| 0 <= a < ops.len() && #[trigger] ops[a].direction == d && ops[a].id == x;
            assert(a != i);
            let a2 = if a < i { a } else { a - 1 };
            assert(r[a2] == ops[a]);
        }
    }
}

} // verus!

verus! {

/// The operations awaiting the end of their handshake, outbound and inbound.
pub struct InFlightTable {
    pub(crate) ops: Vec<Operation>,
    pub(crate) next_id: u16,
}

impl View for InFlightTable {
    type V = Seq<OperationModel>;

    closed spec fn view(&self) -> Seq<OperationModel> {
        self.ops@.map_values(|o: Operation| o@)
    }
}

impl InFlightTable {
    /// Ids are unique per direction and never 0; stages are consistent.
    pub closed spec fn wf(&self) -> bool {
        &&& ids_unique(self@)
        &&& stages_consistent(self@)
        &&& 1 <= self.next_id
    }

    /// What `wf` guarantees of the table's content.
    pub proof fn lemma_wf(&self)
        requires
            self.wf(),
        ensures
            ids_unique(self@),
            stages_consistent(self@),
    {
    }

    /// An empty table.
    pub fn new() -> (r: InFlightTable)
        ensures
            r.wf(),
            r@ == Seq::<OperationModel>::empty(),
    {
        let r = InFlightTable { ops: Vec::new(), next_id: 1 };
        assert(r@ =~= Seq::<OperationModel>::empty());
        r
    }

    /// Number of operations in flight.
    pub fn len(&self) -> (r: usize)
        ensures
            r == self@.len(),
    {
        self.ops.len()
    }

    /// Finds the operation of direction `d` and id `id`.
    pub fn find(&self, d: Direction, id: u16) -> (r: Option<usize>)
        ensures
            match r {
                Some(i) => i as int == find_op(self@, d, id),
                None => find_op(self@, d, id) == -1,
            },
    {
        let mut i: usize = self.ops.len();
        assert(self@.take(i as int) =~= self@);
        while i > 0
            invariant
                i <= self@.len(),
                self.ops@.len() == self@.len(),
                find_op(self@, d, id) == find_op(self@.take(i as int), d, id),
            decreases i,
        {
            let ghost pre = self@.take(i as int);
            assert(pre.last() == self@[i - 1]);
            assert(pre.drop_last() =~= self@.take(i - 1));
            if self.ops[i - 1].direction == d && self.ops[i - 1].id == id {
                return Some(i - 1);
            }
            i = i - 1;
        }
        None
    }

    /// Whether an outbound operation uses `id`.
    fn outbound_uses(&self, id: u16) -> (r: bool)
        ensures
            r == in_flight(self@, Direction::Outbound, id),
    {
        proof {
            lemma_find_op(self@, Direction::Outbound, id);
        }
        self.find(Direction::Outbound, id).is_some()
    }

    /// Picks an id that no outbound operation uses, starting after the one
    /// given last time and wrapping round; `None` when all 65535 are in use.
    pub fn allocate_id(&mut self) -> (r: Option<u16>)
        requires
            old(self).wf(),
        ensures
            final(self).wf(),
            final(self)@ == old(self)@,
            r is None ==> *final(self) == *old(self),
            match r {
                Some(id) => id != 0 && !in_flight(old(self)@, Direction::Outbound, id),
                None => forall|id: u16| id != 0 ==> #[trigger] in_flight(old(self)@, Direction::Outbound, id),
            },
    {
        let start = self.next_id;
        let mut c: u32 = start as u32;
        while c <= 65535
            invariant
                *self == *old(self),
                self.wf(),
                start == self.next_id,
                start <= c <= 65536,
                forall|x: u16| start <= x < c ==> #[trigger] in_flight(self@, Direction::Outbound, x),
            decreases 65536 - c,
        {
            if !self.outbound_uses(c as u16) {
                self.next_id = if c == 65535 { 1 } else { (c + 1) as u16 };
                return Some(c as u16);
            }
            c = c + 1;
        }
        let mut c: u32 = 1;
        while c < start as u32
            invariant
                *self == *old(self),
                self.wf(),
                start == self.next_id,
                1 <= c <= start,
                forall|x: u16| start <= x ==> #[trigger] in_flight(self@, Direction::Outbound, x),
                forall|x: u16| 1 <= x < c ==> #[trigger] in_flight(self@, Direction::Outbound, x),
            decreases start - c,
        {
            if !self.outbound_uses(c as u16) {
                self.next_id = if c == 65535 { 1 } else { (c + 1) as u16 };
                return Some(c as u16);
            }
            c = c + 1;
        }
        None
    }

    /// Starts tracking an outbound QoS 1 or 2 publication under `id`.
    pub fn track_outbound(&mut self, id: u16, message: Message, now: u64)
        requires
            old(self).wf(),
            id != 0,
            !in_flight(old(self)@, Direction::Outbound, id),
            message.qos != QoS::AtMostOnce,
        ensures
            final(self).wf(),
            final(self)@ == old(self)@.push(
                OperationModel {
                    id,
                    direction: Direction::Outbound,
                    stage: Stage::Sent,
                    message: message@,
                    sent_at: now,
                    duplicate: false,
                },
            ),
    {
        let ghost old_view = self@;
        self.ops.push(
            Operation {
                id,
                direction: Direction::Outbound,
                stage: Stage::Sent,
                message,
                sent_at: now,
                duplicate: false,
            },
        );
        proof {
            let v = self@;
            assert(v =~= old_view.push(v.last()));
            assert forall|a: int| 0 <= a < old_view.len() implies #[trigger] v[a] == old_view[a] by {}
            assert forall|a: int, b: int|
                0 <= a < v.len() && 0 <= b < v.len() && a != b && #[trigger] v[a].direction
                    == #[trigger] v[b].direction implies v[a].id != v[b].id by {
                if a == v.len() - 1 && b < old_view.len() {
                    assert(v[b] == old_view[b]);
                } else if b == v.len() - 1 && a < old_view.len() {
                    assert(v[a] == old_view[a]);
                } else {
                    assert(v[a] == old_view[a] && v[b] == old_view[b]);
                }
            }
            assert(stages_consistent(v)) by {
                assert forall|a: int| 0 <= a < old_view.len() implies #[trigger] v[a] == old_view[a] by {}
            }
            assert forall|a: int| 0 <= a < v.len() implies #[trigger] v[a].id != 0 by {
                if a < old_view.len() {
                    assert(v[a] == old_view[a]);
                }
            }
        }
    }
}


impl InFlightTable {
    /// Removes the operation at index `i` and hands it back.
    fn take_at(&mut self, i: usize) -> (r: Operation)
        requires
            old(self).wf(),
            i < old(self)@.len(),
        ensures
            final(self).wf(),
            final(self)@ == old(self)@.remove(i as int),
            r@ == old(self)@[i as int],
    {
        let ghost old_view = self@;
        proof {
            lemma_remove_keeps(old_view, i as int);
        }
        let op = self.ops.remove(i);
        assert(self@ =~= old_view.remove(i as int));
        op
    }

    /// Handles a PUBACK: a QoS 1 publication of that id is acknowledged and
    /// its id becomes free. Returns whether one was.
    pub fn on_puback(&mut self, id: u16) -> (r: bool)
        requires
            old(self).wf(),
        ensures
            final(self).wf(),
            final(self)@ == after_puback(old(self)@, id),
            r == (after_puback(old(self)@, id) != old(self)@),
            r ==> !in_flight(final(self)@, Direction::Outbound, id),
    {
        proof {
            lemma_find_op(self@, Direction::Outbound, id);
        }
        match self.find(Direction::Outbound, id) {
            Some(i) => {
                if self.ops[i].message.qos == QoS::AtLeastOnce {
                    let ghost old_view = self@;
                    proof {
                        lemma_remove_keeps(old_view, i as int);
                    }
                    self.take_at(i);
                    assert(old_view.remove(i as int).len() != old_view.len());
                    true
                } else {
                    false
                }
            },
            None => false,
        }
    }

    /// Handles a PUBREC: a QoS 2 publication moves on to `ReleasePending`.
    /// Returns whether a PUBREL is owed for `id`.
    pub fn on_pubrec(&mut self, id: u16) -> (r: bool)
        requires
            old(self).wf(),
        ensures
            final(self).wf(),
            final(self)@ == after_pubrec(old(self)@, id),
            r == pubrec_known(old(self)@, id),
    {
        proof {
            lemma_find_op(self@, Direction::Outbound, id);
        }
        match self.find(Direction::Outbound, id) {
            Some(i) => {
                if self.ops[i].message.qos != QoS::ExactlyOnce {
                    return false;
                }
                if self.ops[i].stage == Stage::Sent {
                    let ghost old_view = self@;
                    let op = self.ops.remove(i);
                    let updated = Operation {
                        id: op.id,
                        direction: op.direction,
                        stage: Stage::ReleasePending,
                        message: op.message,
                        sent_at: op.sent_at,
                        duplicate: op.duplicate,
                    };
                    self.ops.insert(i, updated);
                    proof {
                        let nv = old_view.update(
                            i as int,
                            OperationModel { stage: Stage::ReleasePending, ..old_view[i as int] },
                        );
                        assert(self@ =~= nv);
                        assert forall|a: int| 0 <= a < nv.len() && a != i implies #[trigger] nv[a]
                            == old_view[a] by {}
                        assert(ids_unique(nv)) by {
                            assert forall|a: int, b: int|
                                0 <= a < nv.len() && 0 <= b < nv.len() && a != b
                                    && #[trigger] nv[a].direction == #[trigger] nv[b].direction implies nv[a].id
                                != nv[b].id by {
                                assert(old_view[a].direction == nv[a].direction);
                                assert(old_view[b].direction == nv[b].direction);
                            }
                        }
                        assert(stages_consistent(nv)) by {
                            assert forall|a: int| 0 <= a < nv.len() && a != i implies #[trigger] nv[a]
                                == old_view[a] by {}
                        }
                    }
                }
                true
            },
            None => false,
        }
    }

    /// Handles a PUBCOMP: a QoS 2 publication awaiting it is complete and its
    /// id becomes free. Returns whether one was.
    pub fn on_pubcomp(&mut self, id: u16) -> (r: bool)
        requires
            old(self).wf(),
        ensures
            final(self).wf(),
            final(self)@ == after_pubcomp(old(self)@, id),
            r == pubcomp_known(old(self)@, id),
    {
        proof {
            lemma_find_op(self@, Direction::Outbound, id);
        }
        match self.find(Direction::Outbound, id) {
            Some(i) => {
                if self.ops[i].stage == Stage::ReleasePending {
                    self.take_at(i);
                    true
                } else {
                    false
                }
            },
            None => false,
        }
    }

    /// Handles an inbound QoS 2 PUBLISH: the message is held until PUBREL.
    /// A repeated PUBLISH of an id already held changes nothing. Returns
    /// whether the message was new.
    pub fn on_inbound_publish(&mut self, id: u16, message: Message, now: u64) -> (r: bool)
        requires
            old(self).wf(),
            id != 0,
            message.qos == QoS::ExactlyOnce,
        ensures
            final(self).wf(),
            final(self)@ == after_inbound_publish(old(self)@, id, message@, now),
            r == !in_flight(old(self)@, Direction::Inbound, id),
    {
        proof {
            lemma_find_op(self@, Direction::Inbound, id);
        }
        if self.find(Direction::Inbound, id).is_some() {
            return false;
        }
        let ghost old_view = self@;
        self.ops.push(
            Operation {
                id,
                direction: Direction::Inbound,
                stage: Stage::AwaitingRelease,
                message,
                sent_at: now,
                duplicate: false,
            },
        );
        proof {
            let v = self@;
            assert(v =~= old_view.push(v.last()));
            assert forall|a: int| 0 <= a < old_view.len() implies #[trigger] v[a] == old_view[a] by {}
            assert forall|a: int, b: int|
                0 <= a < v.len() && 0 <= b < v.len() && a != b && #[trigger] v[a].direction
                    == #[trigger] v[b].direction implies v[a].id != v[b].id by {
                if a == v.len() - 1 && b < old_view.len() {
                    assert(v[b] == old_view[b]);
                } else if b == v.len() - 1 && a < old_view.len() {
                    assert(v[a] == old_view[a]);
                } else {
                    assert(v[a] == old_view[a] && v[b] == old_view[b]);
                }
            }
            assert(stages_consistent(v)) by {
                assert forall|a: int| 0 <= a < old_view.len() implies #[trigger] v[a] == old_view[a] by {}
            }
            assert forall|a: int| 0 <= a < v.len() implies #[trigger] v[a].id != 0 by {
                if a < old_view.len() {
                    assert(v[a] == old_view[a]);
                }
            }
        }
        true
    }

    /// Handles a PUBREL: the message held under `id`, if any, leaves the
    /// table and is handed back for delivery.
    pub fn on_pubrel(&mut self, id: u16) -> (r: Option<Message>)
        requires
            old(self).wf(),
        ensures
            final(self).wf(),
            final(self)@ == after_pubrel(old(self)@, id),
            match r {
                Some(m) => released(old(self)@, id) == Some(m@),
                None => released(old(self)@, id) is None,
            },
            !in_flight(final(self)@, Direction::Inbound, id),
    {
        proof {
            lemma_find_op(self@, Direction::Inbound, id);
        }
        match self.find(Direction::Inbound, id) {
            Some(i) => {
                let ghost old_view = self@;
                proof {
                    lemma_remove_keeps(old_view, i as int);
                }
                let op = self.take_at(i);
                Some(op.message)
            },
            None => None,
        }
    }

    /// Retransmits every outbound operation that has waited `timeout` since
    /// it was last sent: the publication again with the duplicate flag, or
    /// its PUBREL. Those operations count as sent at `now`.
    pub fn retransmit_due(&mut self, now: u64, timeout: u64) -> (r: Vec<Packet>)
        requires
            old(self).wf(),
        ensures
            final(self).wf(),
            final(self)@ == old(self)@.map_values(|o: OperationModel| retransmitted(o, now, timeout)),
            packets_view(r@) == retransmissions(old(self)@, now, timeout),
    {
        let ghost old_view = self@;
        let mut out: Vec<Packet> = Vec::new();
        let mut i: usize = 0;
        assert(packets_view(out@) =~= retransmissions(old_view.take(0), now, timeout));
        while i < self.ops.len()
            invariant
                old_view == old(self)@,
                self.next_id == old(self).next_id,
                self.ops@.len() == old_view.len(),
                self@.len() == old_view.len(),
                i <= old_view.len(),
                forall|k: int| 0 <= k < i ==> #[trigger] self@[k] == retransmitted(old_view[k], now, timeout),
                forall|k: int| i <= k < old_view.len() ==> #[trigger] self@[k] == old_view[k],
                packets_view(out@) == retransmissions(old_view.take(i as int), now, timeout),
            decreases old_view.len() - i,
        {
            let ghost pre = self@;
            let ghost prev_out = packets_view(out@);
            proof {
                assert(old_view.take(i + 1).drop_last() =~= old_view.take(i as int));
                assert(old_view.take(i + 1).last() == old_view[i as int]);
                assert(pre[i as int] == old_view[i as int]);
                assert(self.ops@[i as int]@ == pre[i as int]);
            }
            let due = self.ops[i].direction == Direction::Outbound && (timeout == 0 || (
            self.ops[i].sent_at <= now && now - self.ops[i].sent_at >= timeout));
            assert(due == is_due(old_view[i as int], now, timeout));
            if due {
                let op = self.ops.remove(i);
                assert(op@ == old_view[i as int]);
                if op.stage == Stage::Sent {
                    out.push(Packet::Publish { id: op.id, message: op.message.copied(), duplicate: true });
                } else {
                    out.push(Packet::Pubrel(op.id));
                }
                let updated = Operation {
                    id: op.id,
                    direction: op.direction,
                    stage: op.stage,
                    message: op.message,
                    sent_at: now,
                    duplicate: true,
                };
                self.ops.insert(i, updated);
                proof {
                    assert(self@ =~= pre.update(i as int, retransmitted(old_view[i as int], now, timeout)));
                    assert(packets_view(out@) =~= prev_out.push(retransmission(old_view[i as int])));
                }
            }
            proof {
                assert forall|k: int| 0 <= k < i + 1 implies #[trigger] self@[k] == retransmitted(old_view[k], now, timeout) by {
                    if k < i {
                        assert(self@[k] == pre[k]);
                    }
                }
                assert forall|k: int| i + 1 <= k < old_view.len() implies #[trigger] self@[k] == old_view[k] by {
                    assert(self@[k] == pre[k]);
                }
            }
            i = i + 1;
        }
        proof {
            let target = old_view.map_values(|o: OperationModel| retransmitted(o, now, timeout));
            assert(self@ =~= target);
            assert(old_view.take(old_view.len() as int) =~= old_view);
            assert forall|a: int| 0 <= a < target.len() implies #[trigger] target[a].id == old_view[a].id
                && target[a].direction == old_view[a].direction && target[a].stage == old_view[a].stage
                && target[a].message == old_view[a].message by {}
            assert(ids_unique(target)) by {
                assert forall|a: int, b: int|
                    0 <= a < target.len() && 0 <= b < target.len() && a != b
                        && #[trigger] target[a].direction == #[trigger] target[b].direction implies target[a].id
                    != target[b].id by {
                    assert(target[a].id == old_view[a].id && target[b].id == old_view[b].id);
                    assert(old_view[a].direction == target[a].direction);
                    assert(old_view[b].direction == target[b].direction);
                }
                assert forall|a: int| 0 <= a < target.len() implies #[trigger] target[a].id != 0 by {
                    assert(target[a].id == old_view[a].id);
                }
            }
            assert(stages_consistent(target)) by {
                assert forall|a: int| 0 <= a < target.len() implies #[trigger] target[a].direction
                    == old_view[a].direction by {}
            }
        }
        out
    }

    /// Discards every operation.
    pub fn clear(&mut self)
        requires
            old(self).wf(),
        ensures
            final(self).wf(),
            final(self)@ == Seq::<OperationModel>::empty(),
    {
        self.ops = Vec::new();
        assert(self@ =~= Seq::<OperationModel>::empty());
    }
}

} // verus!

verus! {

/// Every due operation has its retransmission among the packets of a pass.
pub proof fn lemma_due_retransmitted(ops: Seq<OperationModel>, i: int, now: u64, timeout: u64)
    requires
        0 <= i < ops.len(),
        is_due(ops[i], now, timeout),
    ensures
        retransmissions(ops, now, timeout).contains(retransmission(ops[i])),
    decreases ops.len(),
{
    let rest = retransmissions(ops.drop_last(), now, timeout);
    if i == ops.len() - 1 {
        assert(ops.last() == ops[i]);
        assert(retransmissions(ops, now, timeout)[rest.len() as int] == retransmission(ops[i]));
    } else {
        assert(ops.drop_last()[i] == ops[i]);
        lemma_due_retransmitted(ops.drop_last(), i, now, timeout);
        let k = choose|k: int| 0 <= k < rest.len() && rest[k] == retransmission(ops[i]);
        assert(retransmissions(ops, now, timeout)[k] == rest[k]);
    }
}

/// A QoS 1 publication in flight is either acknowledged, after which no
/// outbound operation holds its id any more, or, once `timeout` has passed
/// since it was sent, retransmitted with the duplicate flag while it stays
/// in flight.
pub proof fn lemma_qos1_acknowledged_or_retransmitted(
    ops: Seq<OperationModel>,
    i: int,
    now: u64,
    timeout: u64,
)
    requires
        ids_unique(ops),
        stages_consistent(ops),
        0 <= i < ops.len(),
        ops[i].direction == Direction::Outbound,
        ops[i].message.qos == QoS::AtLeastOnce,
    ensures
        !in_flight(after_puback(ops, ops[i].id), Direction::Outbound, ops[i].id),
        is_due(ops[i], now, timeout) ==> retransmissions(ops, now, timeout).contains(
            PacketModel::Publish { id: ops[i].id, message: ops[i].message, duplicate: true },
        ),
        is_due(ops[i], now, timeout) ==> ({
            let after = ops.map_values(|o: OperationModel| retransmitted(o, now, timeout));
            &&& in_flight(after, Direction::Outbound, ops[i].id)
            &&& after[i].duplicate
            &&& after[i].message == ops[i].message
        }),
{
    let id = ops[i].id;
    lemma_find_op(ops, Direction::Outbound, id);
    let j = find_op(ops, Direction::Outbound, id);
    assert(j == i) by {
        if j != i {
            assert(ops[j].direction == ops[i].direction);
        }
    }
    lemma_remove_keeps(ops, i);
    if is_due(ops[i], now, timeout) {
        assert(ops[i].stage == Stage::Sent);
        lemma_due_retransmitted(ops, i, now, timeout);
        let after = ops.map_values(|o: OperationModel| retransmitted(o, now, timeout));
        assert(after[i].direction == Direction::Outbound && after[i].id == id);
    }
}

/// An inbound QoS 2 message reaches the application exactly once, even when
/// its PUBLISH comes twice before PUBREL: the repeated PUBLISH holds nothing
/// new, the PUBREL releases the message first received, and a repeated
/// PUBREL releases nothing.
pub proof fn lemma_inbound_delivered_once(
    ops: Seq<OperationModel>,
    id: u16,
    first: MessageModel,
    first_at: u64,
    again: MessageModel,
    again_at: u64,
)
    requires
        !in_flight(ops, Direction::Inbound, id),
    ensures
        ({
            let s1 = after_inbound_publish(ops, id, first, first_at);
            let s2 = after_inbound_publish(s1, id, again, again_at);
            &&& s2 == s1
            &&& released(s2, id) == Some(first)
            &&& released(after_pubrel(s2, id), id) is None
        }),
{
    let s1 = after_inbound_publish(ops, id, first, first_at);
    assert(s1[s1.len() - 1].direction == Direction::Inbound && s1[s1.len() - 1].id == id);
    assert(in_flight(s1, Direction::Inbound, id));
    assert(s1.last() == s1[s1.len() - 1]);
    assert(find_op(s1, Direction::Inbound, id) == s1.len() - 1);
    assert(s1.remove(s1.len() - 1) =~= ops);
    lemma_find_op(ops, Direction::Inbound, id);
}

} // verus!

verus! {

/// A retransmission pass, which reconnection performs on every outbound
/// operation, keeps every operation in flight: the same directions, ids,
/// stages and messages, in the same order. Only the send time and the
/// duplicate flag of the operations retransmitted change.
pub proof fn lemma_retransmission_keeps_operations(ops: Seq<OperationModel>, now: u64, timeout: u64)
    ensures
        ({
            let after = ops.map_values(|o: OperationModel| retransmitted(o, now, timeout));
            &&& after.len() == ops.len()
            &&& forall|i: int|
                0 <= i < ops.len() ==> #[trigger] after[i].id == ops[i].id && after[i].direction
                    == ops[i].direction && after[i].stage == ops[i].stage && after[i].message
                    == ops[i].message
            &&& forall|d: Direction, id: u16| #[trigger] in_flight(after, d, id) <==> in_flight(ops, d, id)
        }),
{
    let after = ops.map_values(|o: OperationModel| retransmitted(o, now, timeout));
    assert forall|d: Direction, id: u16| #[trigger] in_flight(after, d, id) <==> in_flight(ops, d, id) by {
        if in_flight(after, d, id) {
            let i = choose|i: int| 0 <= i < after.len() && #[trigger] after[i].direction == d && after[i].id == id;
            assert(ops[i].direction == d);
        }
        if in_flight(ops, d, id) {
            let i = choose|i: int| 0 <= i < ops.len() && #[trigger] ops[i].direction == d && ops[i].id == id;
            assert(after[i].direction == d);
        }
    }
}

} // verus!
