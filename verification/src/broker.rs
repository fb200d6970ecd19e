//! The topic broker: a registry of subscriptions with bounded per-subscriber
//! queues. Ids are allocated by one monotonic counter starting at 1 and are
//! never reused. Publishing never blocks: a subscriber whose queue is full is
//! evicted instead.

use vstd::prelude::*;
use vstd::string::StringExecFns;
use crate::abi::{CommandResponse, RespModel, Value, ValueModel, KvpairModel, view_values, view_pairs};
use crate::decimal::{dec_digits, u32_to_dec};
use crate::error::KvError;

verus! {

/// Capacity of each subscriber's queue.
pub const QUEUE_CAPACITY: usize = 128;

/// One live subscription: its id, its topic, and its pending responses in
/// delivery order.
pub struct Subscription {
    pub id: u32,
    pub topic: String,
    pub queue: Vec<CommandResponse>,
}

/// Mathematical model of a subscription.
pub struct SubModel {
    pub id: u32,
    pub topic: Seq<char>,
    pub queue: Seq<RespModel>,
}

/// The models of a queue of responses.
pub open spec fn view_resps(q: Seq<CommandResponse>) -> Seq<RespModel> {
    q.map_values(|r: CommandResponse| r@)
}

impl View for Subscription {
    type V = SubModel;

    open spec fn view(&self) -> SubModel {
        SubModel { id: self.id, topic: self.topic@, queue: view_resps(self.queue@) }
    }
}

/// The models of a list of subscriptions.
pub open spec fn view_subs(s: Seq<Subscription>) -> Seq<SubModel> {
    s.map_values(|x: Subscription| x@)
}

/// Mathematical model of the broker.
pub struct BrokerModel {
    pub next_id: u32,
    pub subs: Seq<SubModel>,
}

/// Broker well-formedness: the counter starts at 1, ids are unique and below
/// the counter, and every queue respects the capacity.
pub open spec fn wf_broker(b: BrokerModel) -> bool {
    &&& b.next_id >= 1
    &&& forall|i: int, j: int| 0 <= i < j < b.subs.len() ==> b.subs[i].id != b.subs[j].id
    &&& forall|i: int| 0 <= i < b.subs.len() ==> (#[trigger] b.subs[i]).id < b.next_id
    &&& forall|i: int| 0 <= i < b.subs.len() ==> (#[trigger] b.subs[i]).queue.len()
        <= QUEUE_CAPACITY
}

/// The first response of a subscription: it carries the new id as an integer.
pub open spec fn first_response(id: u32) -> RespModel {
    RespModel {
        status: 200,
        message: Seq::<char>::empty(),
        values: seq![ValueModel::Integer(id as i64)],
        pairs: Seq::<KvpairModel>::empty(),
    }
}

/// The response a publish delivers: status 200 carrying the payload values.
pub open spec fn publish_resp(data: Seq<ValueModel>) -> RespModel {
    RespModel {
        status: 200,
        message: Seq::<char>::empty(),
        values: data,
        pairs: Seq::<KvpairModel>::empty(),
    }
}

/// Subscribing allocates the counter's value as the id, advances the counter,
/// and registers a queue holding the first response.
pub open spec fn spec_subscribe(b: BrokerModel, topic: Seq<char>) -> (BrokerModel, u32) {
    (
        BrokerModel {
            next_id: (b.next_id + 1) as u32,
            subs: b.subs.push(
                SubModel { id: b.next_id, topic: topic, queue: seq![first_response(b.next_id)] },
            ),
        },
        b.next_id,
    )
}

/// Index of the first subscription with this topic and id at or after `i`.
pub open spec fn find_sub_from(subs: Seq<SubModel>, topic: Seq<char>, id: u32, i: int) -> int
    decreases subs.len() - i,
{
    if i < 0 || i >= subs.len() {
        -1
    } else if subs[i].id == id && subs[i].topic == topic {
        i
    } else {
        find_sub_from(subs, topic, id, i + 1)
    }
}

/// Unsubscribing removes the matching subscription; it reports failure when
/// there is none.
pub open spec fn spec_unsubscribe(b: BrokerModel, topic: Seq<char>, id: u32) -> (
    BrokerModel,
    bool,
) {
    let idx = find_sub_from(b.subs, topic, id, 0);
    if idx >= 0 {
        (BrokerModel { next_id: b.next_id, subs: b.subs.remove(idx) }, true)
    } else {
        (b, false)
    }
}

/// Publishing appends the response to the queue of every subscriber of the
/// topic that has room and evicts every subscriber of the topic whose queue
/// is full; other subscriptions are untouched.
pub open spec fn spec_publish_subs(subs: Seq<SubModel>, topic: Seq<char>, resp: RespModel) -> Seq<
    SubModel,
>
    decreases subs.len(),
{
    if subs.len() == 0 {
        Seq::empty()
    } else {
        let rest = spec_publish_subs(subs.drop_first(), topic, resp);
        if subs[0].topic != topic {
            seq![subs[0]] + rest
        } else if subs[0].queue.len() < QUEUE_CAPACITY {
            seq![SubModel { id: subs[0].id, topic: subs[0].topic, queue: subs[0].queue.push(resp) }]
                + rest
        } else {
            rest
        }
    }
}

/// The broker after a publish; the counter never moves.
pub open spec fn spec_publish(b: BrokerModel, topic: Seq<char>, data: Seq<ValueModel>) -> BrokerModel {
    BrokerModel {
        next_id: b.next_id,
        subs: spec_publish_subs(b.subs, topic, publish_resp(data)),
    }
}

/// Publishing keeps ids from the input, keeps them unique, and keeps every
/// queue within capacity.
pub proof fn lemma_publish_subs_preserves(subs: Seq<SubModel>, topic: Seq<char>, resp: RespModel)
    ensures
        ({
            let res = spec_publish_subs(subs, topic, resp);
            &&& forall|k: int|
                0 <= k < res.len() ==> exists|j: int|
                    0 <= j < subs.len() && (#[trigger] res[k]).id == subs[j].id
            &&& (forall|i: int, j: int| 0 <= i < j < subs.len() ==> subs[i].id != subs[j].id)
                ==> (forall|i: int, j: int| 0 <= i < j < res.len() ==> res[i].id != res[j].id)
            &&& (forall|i: int| 0 <= i < subs.len() ==> (#[trigger] subs[i]).queue.len()
                <= QUEUE_CAPACITY) ==> (forall|i: int| 0 <= i < res.len() ==> (
            #[trigger] res[i]).queue.len() <= QUEUE_CAPACITY)
        }),
    decreases subs.len(),
{
    let res = spec_publish_subs(subs, topic, resp);
    if subs.len() == 0 {
    } else {
        let tail = subs.drop_first();
        let rest = spec_publish_subs(tail, topic, resp);
        lemma_publish_subs_preserves(tail, topic, resp);
        assert forall|k: int| 0 <= k < res.len() implies exists|j: int|
            0 <= j < subs.len() && (#[trigger] res[k]).id == subs[j].id by {
            if subs[0].topic != topic || subs[0].queue.len() < QUEUE_CAPACITY {
                if k == 0 {
                    assert(res[0].id == subs[0].id);
                } else {
                    let j0 = choose|j: int| 0 <= j < tail.len() && (#[trigger] rest[k - 1]).id == tail[j].id;
                    assert(res[k].id == subs[j0 + 1].id);
                }
            } else {
                let j0 = choose|j: int| 0 <= j < tail.len() && (#[trigger] rest[k]).id == tail[j].id;
                assert(res[k].id == subs[j0 + 1].id);
            }
        }
        if forall|i: int, j: int| 0 <= i < j < subs.len() ==> subs[i].id != subs[j].id {
            assert(forall|i: int, j: int| 0 <= i < j < tail.len() ==> tail[i].id != tail[j].id);
            assert forall|i: int, j: int| 0 <= i < j < res.len() implies res[i].id != res[j].id by {
                if subs[0].topic != topic || subs[0].queue.len() < QUEUE_CAPACITY {
                    if i == 0 {
                        let j0 = choose|m: int|
                            0 <= m < tail.len() && (#[trigger] rest[j - 1]).id == tail[m].id;
                        assert(subs[0].id != subs[j0 + 1].id);
                    }
                }
            }
        }
    }
}

/// A subscriber of the topic with room receives exactly the published
/// response at the back of its queue.
pub proof fn lemma_publish_delivers(subs: Seq<SubModel>, topic: Seq<char>, resp: RespModel, i: int)
    requires
        0 <= i < subs.len(),
        subs[i].topic == topic,
        subs[i].queue.len() < QUEUE_CAPACITY,
    ensures
        exists|j: int|
            0 <= j < spec_publish_subs(subs, topic, resp).len() && (#[trigger] spec_publish_subs(
                subs,
                topic,
                resp,
            )[j]).id == subs[i].id && spec_publish_subs(subs, topic, resp)[j].queue == subs[i].queue.push(
                resp,
            ) && spec_publish_subs(subs, topic, resp)[j].topic == subs[i].topic,
    decreases subs.len(),
{
    let res = spec_publish_subs(subs, topic, resp);
    if i == 0 {
        assert(res[0].id == subs[0].id && res[0].queue == subs[0].queue.push(resp) && res[0].topic
            == subs[0].topic);
    } else {
        let tail = subs.drop_first();
        lemma_publish_delivers(tail, topic, resp, i - 1);
        let rest = spec_publish_subs(tail, topic, resp);
        let j0 = choose|j: int|
            0 <= j < rest.len() && (#[trigger] rest[j]).id == tail[i - 1].id && rest[j].queue
                == tail[i - 1].queue.push(resp) && rest[j].topic == tail[i - 1].topic;
        if subs[0].topic != topic || subs[0].queue.len() < QUEUE_CAPACITY {
            assert((#[trigger] res[j0 + 1]).id == subs[i].id && res[j0 + 1].queue == subs[i].queue.push(resp)
                && res[j0 + 1].topic == subs[i].topic);
        } else {
            assert((#[trigger] res[j0]).id == subs[i].id && res[j0].queue == subs[i].queue.push(resp)
                && res[j0].topic == subs[i].topic);
        }
    }
}

/// A subscriber of the topic with a full queue is evicted by the publish:
/// no subscription with its id survives.
pub proof fn lemma_publish_evicts(subs: Seq<SubModel>, topic: Seq<char>, resp: RespModel, i: int)
    requires
        forall|i1: int, i2: int| 0 <= i1 < i2 < subs.len() ==> subs[i1].id != subs[i2].id,
        0 <= i < subs.len(),
        subs[i].topic == topic,
        subs[i].queue.len() >= QUEUE_CAPACITY,
    ensures
        forall|j: int|
            0 <= j < spec_publish_subs(subs, topic, resp).len() ==> (#[trigger] spec_publish_subs(
                subs,
                topic,
                resp,
            )[j]).id != subs[i].id,
{
    let res = spec_publish_subs(subs, topic, resp);
    lemma_publish_subs_preserves(subs, topic, resp);
    assert forall|j: int| 0 <= j < res.len() implies (#[trigger] res[j]).id != subs[i].id by {
        lemma_publish_drops_full(subs, topic, resp, i, j);
    }
}

/// Helper for eviction: no surviving entry carries the full subscriber's id.
proof fn lemma_publish_drops_full(
    subs: Seq<SubModel>,
    topic: Seq<char>,
    resp: RespModel,
    i: int,
    j: int,
)
    requires
        forall|i1: int, i2: int| 0 <= i1 < i2 < subs.len() ==> subs[i1].id != subs[i2].id,
        0 <= i < subs.len(),
        subs[i].topic == topic,
        subs[i].queue.len() >= QUEUE_CAPACITY,
        0 <= j < spec_publish_subs(subs, topic, resp).len(),
    ensures
        spec_publish_subs(subs, topic, resp)[j].id != subs[i].id,
    decreases subs.len(),
{
    let res = spec_publish_subs(subs, topic, resp);
    let tail = subs.drop_first();
    let rest = spec_publish_subs(tail, topic, resp);
    lemma_publish_subs_preserves(tail, topic, resp);
    if i == 0 {
        assert forall|k: int| 0 <= k < rest.len() implies (#[trigger] rest[k]).id != subs[0].id by {
            let m = choose|m: int| 0 <= m < tail.len() && (#[trigger] rest[k]).id == tail[m].id;
            assert(subs[0].id != subs[m + 1].id);
        }
    } else {
        assert(forall|i1: int, i2: int| 0 <= i1 < i2 < tail.len() ==> tail[i1].id != tail[i2].id);
        if subs[0].topic != topic || subs[0].queue.len() < QUEUE_CAPACITY {
            if j > 0 {
                lemma_publish_drops_full(tail, topic, resp, i - 1, j - 1);
            } else {
                assert(subs[0].id != subs[i].id);
            }
        } else {
            lemma_publish_drops_full(tail, topic, resp, i - 1, j);
        }
    }
}

/// A topic operation, for stating laws about operation sequences.
pub enum TopicOp {
    Subscribe(Seq<char>),
    Unsubscribe(Seq<char>, u32),
    Publish(Seq<char>, Seq<ValueModel>),
}

/// The broker after one operation.
pub open spec fn broker_step(b: BrokerModel, op: TopicOp) -> BrokerModel {
    match op {
        TopicOp::Subscribe(t) => spec_subscribe(b, t).0,
        TopicOp::Unsubscribe(t, id) => spec_unsubscribe(b, t, id).0,
        TopicOp::Publish(t, data) => spec_publish(b, t, data),
    }
}

/// The ids issued along a sequence of operations, in order.
pub open spec fn issued_ids(b: BrokerModel, ops: Seq<TopicOp>) -> Seq<u32>
    decreases ops.len(),
{
    if ops.len() == 0 {
        Seq::empty()
    } else {
        let rest = issued_ids(broker_step(b, ops[0]), ops.drop_first());
        match ops[0] {
            TopicOp::Subscribe(_) => seq![b.next_id] + rest,
            _ => rest,
        }
    }
}

/// Every id issued along a trace is at least the counter's starting value,
/// and no more ids are issued than operations run.
proof fn lemma_issued_ids_lower(b: BrokerModel, ops: Seq<TopicOp>)
    requires
        b.next_id + ops.len() <= 0xffff_ffff,
    ensures
        issued_ids(b, ops).len() <= ops.len(),
        forall|k: int|
            0 <= k < issued_ids(b, ops).len() ==> (#[trigger] issued_ids(b, ops)[k]) >= b.next_id,
    decreases ops.len(),
{
    if ops.len() > 0 {
        let b1 = broker_step(b, ops[0]);
        assert(b1.next_id == b.next_id || b1.next_id == b.next_id + 1);
        lemma_issued_ids_lower(b1, ops.drop_first());
    }
}

/// Across any interleaving of subscribes, unsubscribes and publishes that
/// stays within the id space, the issued subscription ids are strictly
/// increasing, so all of them are distinct and none is ever reused.
pub proof fn lemma_subscription_ids_strictly_increase(b: BrokerModel, ops: Seq<TopicOp>)
    requires
        b.next_id + ops.len() <= 0xffff_ffff,
    ensures
        forall|i: int, j: int|
            0 <= i < j < issued_ids(b, ops).len() ==> issued_ids(b, ops)[i] < issued_ids(b, ops)[j],
    decreases ops.len(),
{
    if ops.len() > 0 {
        let b1 = broker_step(b, ops[0]);
        assert(b1.next_id == b.next_id || b1.next_id == b.next_id + 1);
        lemma_subscription_ids_strictly_increase(b1, ops.drop_first());
        lemma_issued_ids_lower(b1, ops.drop_first());
    }
}

/// If no subscription carries the id, none matches the topic and id either.
pub proof fn lemma_find_sub_none(subs: Seq<SubModel>, topic: Seq<char>, id: u32, i: int)
    requires
        forall|j: int| 0 <= j < subs.len() ==> (#[trigger] subs[j]).id != id,
    ensures
        find_sub_from(subs, topic, id, i) == -1,
    decreases subs.len() - i,
{
    if 0 <= i < subs.len() {
        lemma_find_sub_none(subs, topic, id, i + 1);
    }
}

/// Unsubscribing an id that no subscription carries fails and changes
/// nothing.
pub proof fn lemma_unsubscribe_unknown(b: BrokerModel, topic: Seq<char>, id: u32)
    requires
        forall|j: int| 0 <= j < b.subs.len() ==> (#[trigger] b.subs[j]).id != id,
    ensures
        spec_unsubscribe(b, topic, id) == (b, false),
{
    lemma_find_sub_none(b.subs, topic, id, 0);
}

/// A subscriber whose queue is full is evicted by the next publish to its
/// topic, and its subsequent unsubscribe, from any topic, fails.
pub proof fn lemma_slow_subscriber_evicted(
    b: BrokerModel,
    topic: Seq<char>,
    data: Seq<ValueModel>,
    i: int,
    topic2: Seq<char>,
)
    requires
        wf_broker(b),
        0 <= i < b.subs.len(),
        b.subs[i].topic == topic,
        b.subs[i].queue.len() >= QUEUE_CAPACITY,
    ensures
        ({
            let b1 = spec_publish(b, topic, data);
            &&& forall|j: int|
                0 <= j < b1.subs.len() ==> (#[trigger] b1.subs[j]).id != b.subs[i].id
            &&& spec_unsubscribe(b1, topic2, b.subs[i].id).1 == false
        }),
{
    let resp = publish_resp(data);
    lemma_publish_evicts(b.subs, topic, resp, i);
    let b1 = spec_publish(b, topic, data);
    lemma_find_sub_none(b1.subs, topic2, b.subs[i].id, 0);
}

/// The broker after a sequence of publishes to one topic, in order.
pub open spec fn spec_publish_seq(b: BrokerModel, topic: Seq<char>, ds: Seq<Seq<ValueModel>>) -> BrokerModel
    decreases ds.len(),
{
    if ds.len() == 0 {
        b
    } else {
        spec_publish_seq(spec_publish(b, topic, ds[0]), topic, ds.drop_first())
    }
}

/// The responses a sequence of published payloads delivers, in order.
pub open spec fn publish_resps(ds: Seq<Seq<ValueModel>>) -> Seq<RespModel> {
    ds.map_values(|d: Seq<ValueModel>| publish_resp(d))
}

/// For one subscriber with room for all of them, any number of publishes to
/// its topic arrive in publish order at the back of its queue.
pub proof fn lemma_delivery_in_publish_order(
    b: BrokerModel,
    topic: Seq<char>,
    ds: Seq<Seq<ValueModel>>,
    i: int,
)
    requires
        0 <= i < b.subs.len(),
        b.subs[i].topic == topic,
        b.subs[i].queue.len() + ds.len() <= QUEUE_CAPACITY,
    ensures
        ({
            let bn = spec_publish_seq(b, topic, ds);
            exists|j: int|
                0 <= j < bn.subs.len() && (#[trigger] bn.subs[j]).id == b.subs[i].id
                    && bn.subs[j].queue == b.subs[i].queue + publish_resps(ds) && bn.subs[j].topic
                    == b.subs[i].topic
        }),
    decreases ds.len(),
{
    let bn = spec_publish_seq(b, topic, ds);
    if ds.len() == 0 {
        assert(b.subs[i].queue + publish_resps(ds) =~= b.subs[i].queue);
        assert((#[trigger] bn.subs[i]).id == b.subs[i].id && bn.subs[i].queue == b.subs[i].queue
            + publish_resps(ds) && bn.subs[i].topic == b.subs[i].topic);
    } else {
        let r0 = publish_resp(ds[0]);
        let b1 = spec_publish(b, topic, ds[0]);
        lemma_publish_delivers(b.subs, topic, r0, i);
        let j1 = choose|j: int|
            0 <= j < b1.subs.len() && (#[trigger] b1.subs[j]).id == b.subs[i].id
                && b1.subs[j].queue == b.subs[i].queue.push(r0) && b1.subs[j].topic
                == b.subs[i].topic;
        lemma_delivery_in_publish_order(b1, topic, ds.drop_first(), j1);
        let j2 = choose|j: int|
            0 <= j < spec_publish_seq(b1, topic, ds.drop_first()).subs.len() && (
            #[trigger] spec_publish_seq(b1, topic, ds.drop_first()).subs[j]).id == b1.subs[j1].id
                && spec_publish_seq(b1, topic, ds.drop_first()).subs[j].queue
                == b1.subs[j1].queue + publish_resps(ds.drop_first()) && spec_publish_seq(
                b1,
                topic,
                ds.drop_first(),
            ).subs[j].topic == b1.subs[j1].topic;
        assert(b.subs[i].queue.push(r0) + publish_resps(ds.drop_first()) =~= b.subs[i].queue
            + publish_resps(ds));
        assert(0 <= j2 < bn.subs.len() && (#[trigger] bn.subs[j2]).id == b.subs[i].id
            && bn.subs[j2].queue == b.subs[i].queue + publish_resps(ds) && bn.subs[j2].topic
            == b.subs[i].topic);
    }
}

/// The topic broker.
pub struct Broker {
    next_id: u32,
    subs: Vec<Subscription>,
}

impl View for Broker {
    type V = BrokerModel;

    closed spec fn view(&self) -> BrokerModel {
        BrokerModel { next_id: self.next_id, subs: view_subs(self.subs@) }
    }
}

impl Broker {
    /// Broker well-formedness; see `wf_broker`.
    pub open spec fn wf(&self) -> bool {
        wf_broker(self@)
    }

    /// A broker with no subscriptions; the first id issued is 1.
    pub fn new() -> (r: Broker)
        ensures
            r.wf(),
            r@ == (BrokerModel { next_id: 1u32, subs: Seq::<SubModel>::empty() }),
    {
        let r = Broker { next_id: 1, subs: Vec::new() };
        proof {
            assert(view_subs(r.subs@) =~= Seq::<SubModel>::empty());
        }
        r
    }

    /// Builds the first response of a subscription.
    fn make_first_response(id: u32) -> (r: CommandResponse)
        ensures
            r@ == first_response(id),
    {
        let mut values: Vec<Value> = Vec::new();
        values.push(Value::Integer(id as i64));
        let r = CommandResponse { status: 200, message: String::new(), values, pairs: Vec::new() };
        proof {
            assert(view_values(r.values@) =~= seq![ValueModel::Integer(id as i64)]);
            assert(view_pairs(r.pairs@) =~= first_response(id).pairs);
        }
        r
    }

    /// True while the id space is not exhausted, so a subscribe is possible.
    pub fn can_subscribe(&self) -> (r: bool)
        ensures
            r == (self@.next_id < 0xffff_ffff),
    {
        self.next_id < 0xffff_ffff
    }

    /// True while a subscription with this id is registered.
    pub fn is_subscribed(&self, id: u32) -> (r: bool)
        ensures
            r == exists|i: int| 0 <= i < self@.subs.len() && (#[trigger] self@.subs[i]).id == id,
    {
        let n = self.subs.len();
        let mut i: usize = 0;
        while i < n
            invariant
                i <= n == self@.subs.len(),
                forall|j: int| 0 <= j < i ==> (#[trigger] self@.subs[j]).id != id,
            decreases n - i,
        {
            if self.subs[i].id == id {
                proof {
                    assert((#[trigger] self@.subs[i as int]).id == id);
                }
                return true;
            }
            i = i + 1;
        }
        false
    }

    /// Registers a new subscription on the topic and returns its id; the
    /// queue starts with the response that carries the id.
    pub fn subscribe(&mut self, topic: String) -> (id: u32)
        requires
            old(self).wf(),
            old(self)@.next_id < 0xffff_ffff,
        ensures
            final(self).wf(),
            final(self)@ == spec_subscribe(old(self)@, topic@).0,
            id == spec_subscribe(old(self)@, topic@).1,
            id == old(self)@.next_id,
    {
        let id = self.next_id;
        self.next_id = self.next_id + 1;
        let mut queue: Vec<CommandResponse> = Vec::new();
        queue.push(Self::make_first_response(id));
        let ghost q0 = queue@;
        self.subs.push(Subscription { id, topic, queue });
        proof {
            assert(view_resps(q0) =~= seq![first_response(id)]);
            assert(view_subs(self.subs@) =~= spec_subscribe(old(self)@, topic@).0.subs);
        }
        id
    }

    /// Index of the first subscription with this topic and id, at or after
    /// `i`; mirrors `find_sub_from`.
    fn find_from(&self, topic: &String, id: u32, i: usize) -> (r: Option<usize>)
        requires
            i <= self@.subs.len(),
        ensures
            match r {
                Some(j) => find_sub_from(self@.subs, topic@, id, i as int) == j && i <= j
                    < self@.subs.len(),
                None => find_sub_from(self@.subs, topic@, id, i as int) == -1,
            },
        decreases self@.subs.len() - i,
    {
        if i == self.subs.len() {
            return None;
        }
        if self.subs[i].id == id && self.subs[i].topic == *topic {
            Some(i)
        } else {
            self.find_from(topic, id, i + 1)
        }
    }

    /// Cancels the subscription with this topic and id. Fails with `NotFound`
    /// naming the id when there is none; the broker is then unchanged.
    pub fn unsubscribe(&mut self, topic: &String, id: u32) -> (r: Result<(), KvError>)
        requires
            old(self).wf(),
        ensures
            final(self).wf(),
            final(self)@ == spec_unsubscribe(old(self)@, topic@, id).0,
            match r {
                Ok(_) => spec_unsubscribe(old(self)@, topic@, id).1 == true,
                Err(e) => spec_unsubscribe(old(self)@, topic@, id).1 == false && (e matches
                    KvError::NotFound(s) && s@ == "subscription "@ + dec_digits(id as nat)),
            },
    {
        match self.find_from(topic, id, 0) {
            Some(i) => {
                let ghost s0 = view_subs(self.subs@);
                self.subs.remove(i);
                proof {
                    assert(view_subs(self.subs@) =~= s0.remove(i as int));
                }
                Ok(())
            },
            None => {
                let mut msg = "subscription ".to_owned();
                msg.append(u32_to_dec(id).as_str());
                Err(KvError::NotFound(msg))
            },
        }
    }

    /// Fans one published payload out to the topic's subscribers: queues with
    /// room receive it, full ones are evicted.
    pub fn publish(&mut self, topic: &String, data: Vec<Value>)
        requires
            old(self).wf(),
        ensures
            final(self).wf(),
            final(self)@ == spec_publish(old(self)@, topic@, view_values(data@)),
    {
        let ghost d0 = view_values(data@);
        let resp = CommandResponse { status: 200, message: String::new(), values: data, pairs: Vec::new() };
        proof {
            assert(view_pairs(resp.pairs@) =~= Seq::<KvpairModel>::empty());
            assert(resp@ == publish_resp(d0));
        }
        let subs = self.subs.split_off(0);
        let ghost s0 = view_subs(subs@);
        let new_subs = Self::publish_list(subs, topic, &resp);
        self.subs = new_subs;
        proof {
            assert(view_subs(old(self).subs@) =~= s0);
            assert(old(self)@.subs == s0);
            lemma_publish_subs_preserves(s0, topic@, resp@);
            let res = spec_publish_subs(s0, topic@, resp@);
            assert(self@.subs == res);
            assert forall|i: int, j: int| 0 <= i < j < s0.len() implies s0[i].id != s0[j].id by {
                assert(old(self)@.subs[i].id != old(self)@.subs[j].id);
            }
            assert forall|i: int| 0 <= i < s0.len() implies (#[trigger] s0[i]).queue.len()
                <= QUEUE_CAPACITY by {
                assert(old(self)@.subs[i].queue.len() <= QUEUE_CAPACITY);
            }
            assert forall|i: int, j: int| 0 <= i < j < self@.subs.len() implies self@.subs[i].id
                != self@.subs[j].id by {
                assert(res[i].id != res[j].id);
            }
            assert forall|i: int| 0 <= i < self@.subs.len() implies (
            #[trigger] self@.subs[i]).queue.len() <= QUEUE_CAPACITY by {
                assert(res[i].queue.len() <= QUEUE_CAPACITY);
            }
            assert forall|k: int| 0 <= k < res.len() implies (#[trigger] res[k]).id
                < self@.next_id by {
                let j = choose|j: int| 0 <= j < s0.len() && (#[trigger] res[k]).id == s0[j].id;
                assert(old(self)@.subs[j].id < old(self)@.next_id);
            }
        }
    }

    /// Applies one published response to each subscription in the list;
    /// mirrors `spec_publish_subs`.
    fn publish_list(subs: Vec<Subscription>, topic: &String, resp: &CommandResponse) -> (r: Vec<
        Subscription,
    >)
        ensures
            view_subs(r@) == spec_publish_subs(view_subs(subs@), topic@, resp@),
        decreases subs@.len(),
    {
        let ghost s0 = view_subs(subs@);
        let mut remaining = subs;
        if remaining.len() == 0 {
            proof {
                assert(view_subs(remaining@) =~= Seq::<SubModel>::empty());
            }
            return remaining;
        }
        let mut first = remaining.remove(0);
        proof {
            assert(view_subs(remaining@) =~= s0.drop_first());
        }
        let mut rest = Self::publish_list(remaining, topic, resp);
        let ghost rest0 = view_subs(rest@);
        if first.topic == *topic {
            if first.queue.len() < QUEUE_CAPACITY {
                let ghost qf = view_resps(first.queue@);
                first.queue.push(resp.dup());
                proof {
                    assert(view_resps(first.queue@) =~= qf.push(resp@));
                }
                let ghost f = first@;
                rest.insert(0, first);
                proof {
                    assert(view_subs(rest@) =~= seq![f] + rest0);
                    assert(f == SubModel { id: s0[0].id, topic: s0[0].topic, queue: s0[0].queue.push(resp@) });
                }
            }
        } else {
            let ghost f = first@;
            rest.insert(0, first);
            proof {
                assert(view_subs(rest@) =~= seq![f] + rest0);
            }
        }
        rest
    }

    /// Takes the next pending response of the subscription with this id, in
    /// delivery order; nothing when the id is unknown or its queue is empty.
    pub fn pop_message(&mut self, id: u32) -> (r: Option<CommandResponse>)
        requires
            old(self).wf(),
        ensures
            final(self).wf(),
            final(self)@.next_id == old(self)@.next_id,
            match r {
                Some(resp) => exists|i: int|
                    0 <= i < old(self)@.subs.len() && (#[trigger] old(self)@.subs[i]).id == id
                        && old(self)@.subs[i].queue.len() > 0 && resp@ == old(
                        self,
                    )@.subs[i].queue[0] && final(self)@.subs == old(self)@.subs.update(
                        i,
                        SubModel {
                            id: old(self)@.subs[i].id,
                            topic: old(self)@.subs[i].topic,
                            queue: old(self)@.subs[i].queue.drop_first(),
                        },
                    ),
                None => final(self)@ == old(self)@ && (forall|i: int|
                    0 <= i < old(self)@.subs.len() ==> ((#[trigger] old(self)@.subs[i]).id != id
                        || old(self)@.subs[i].queue.len() == 0)),
            },
    {
        let n = self.subs.len();
        let mut i: usize = 0;
        while i < n
            invariant
                old(self).wf(),
                *self == *old(self),
                i <= n == self@.subs.len(),
                forall|j: int| 0 <= j < i ==> (#[trigger] self@.subs[j]).id != id,
            decreases n - i,
        {
            if self.subs[i].id == id {
                if self.subs[i].queue.len() == 0 {
                    proof {
                        assert forall|j: int| 0 <= j < self@.subs.len() implies ((
                        #[trigger] self@.subs[j]).id != id || self@.subs[j].queue.len() == 0) by {
                            if j != i as int && self@.subs[j].id == id {
                                assert(self@.subs[i as int].id == self@.subs[j].id);
                            }
                        }
                    }
                    return None;
                }
                let ghost s0 = view_subs(self.subs@);
                let ghost q0 = view_resps(self.subs@[i as int].queue@);
                let sub = self.subs.remove(i);
                let mut queue = sub.queue;
                let front = queue.remove(0);
                proof {
                    assert(view_resps(queue@) =~= q0.drop_first());
                }
                self.subs.insert(
                    i,
                    Subscription { id: sub.id, topic: sub.topic, queue },
                );
                proof {
                    assert(view_subs(self.subs@) =~= s0.update(
                        i as int,
                        SubModel { id: s0[i as int].id, topic: s0[i as int].topic, queue: q0.drop_first() },
                    ));
                }
                return Some(front);
            }
            i = i + 1;
        }
        None
    }
}

} // verus!
