//! The topic half of the dispatcher: SUBSCRIBE, UNSUBSCRIBE and PUBLISH run
//! against the broker. SUBSCRIBE opens a stream of responses read from the
//! broker under the returned id; the other commands answer with one response.

use vstd::prelude::*;
use crate::abi::{
    CommandRequest, CommandResponse, KvpairModel, Publish, ReqModel, RequestData, RespModel,
    Subscribe, Unsubscribe, ValueModel, view_values,
};
use crate::broker::{Broker, spec_publish, spec_subscribe, spec_unsubscribe};
use crate::decimal::dec_digits;
use crate::dispatch::resp_status;

verus! {

/// What a dispatched command yields: one response, or a registered
/// subscription whose responses are read from the broker under its id.
pub enum StreamingResponse {
    Unary(CommandResponse),
    Subscription(u32),
}

/// The model of a success response that carries nothing else.
pub open spec fn ok_resp() -> RespModel {
    RespModel {
        status: 200,
        message: Seq::<char>::empty(),
        values: Seq::<ValueModel>::empty(),
        pairs: Seq::<KvpairModel>::empty(),
    }
}

/// The model of the not-found response for an unknown subscription id: its
/// message names the id.
pub open spec fn not_found_resp(id: u32) -> RespModel {
    RespModel {
        status: 404,
        message: "Not found: subscription "@ + dec_digits(id as nat),
        values: Seq::<ValueModel>::empty(),
        pairs: Seq::<KvpairModel>::empty(),
    }
}

impl Subscribe {
    /// Registers the subscription; the broker queues the first response,
    /// which carries the returned id.
    pub fn execute(self, broker: &mut Broker) -> (id: u32)
        requires
            old(broker).wf(),
            old(broker)@.next_id < 0xffff_ffff,
        ensures
            final(broker).wf(),
            final(broker)@ == spec_subscribe(old(broker)@, self.topic@).0,
            id == spec_subscribe(old(broker)@, self.topic@).1,
    {
        broker.subscribe(self.topic)
    }
}

impl Unsubscribe {
    /// Cancels the subscription: a bare success response, or status 404
    /// naming the id when the id is unknown on this topic.
    pub fn execute(self, broker: &mut Broker) -> (r: CommandResponse)
        requires
            old(broker).wf(),
        ensures
            final(broker).wf(),
            final(broker)@ == spec_unsubscribe(old(broker)@, self.topic@, self.id).0,
            spec_unsubscribe(old(broker)@, self.topic@, self.id).1 ==> r@ == ok_resp(),
            !spec_unsubscribe(old(broker)@, self.topic@, self.id).1 ==> r@ == not_found_resp(
                self.id,
            ),
    {
        match broker.unsubscribe(&self.topic, self.id) {
            Ok(_) => CommandResponse::ok(),
            Err(e) => {
                let r = CommandResponse::from_error(&e);
                proof {
                    reveal_strlit("Not found: ");
                    reveal_strlit("subscription ");
                    reveal_strlit("Not found: subscription ");
                    assert("Not found: subscription "@ =~= "Not found: "@ + "subscription "@);
                    assert(r@.message =~= not_found_resp(self.id).message);
                }
                r
            },
        }
    }
}

impl Publish {
    /// Fans the payload out to the topic's current subscribers and answers
    /// with a bare success response; its effect is observable only through
    /// the subscribers' queues.
    pub fn execute(self, broker: &mut Broker) -> (r: CommandResponse)
        requires
            old(broker).wf(),
        ensures
            final(broker).wf(),
            final(broker)@ == spec_publish(old(broker)@, self.topic@, view_values(self.data@)),
            r@ == ok_resp(),
    {
        let Publish { topic, data } = self;
        broker.publish(&topic, data);
        CommandResponse::ok()
    }
}

/// True of the commands the topic dispatcher serves.
pub fn is_topic_command(cmd: &CommandRequest) -> (r: bool)
    ensures
        r == ((cmd@ matches Some(ReqModel::Subscribe { .. })) || (cmd@ matches Some(
            ReqModel::Unsubscribe { .. },
        )) || (cmd@ matches Some(ReqModel::Publish { .. }))),
{
    match &cmd.request_data {
        Some(RequestData::Subscribe(_)) => true,
        Some(RequestData::Unsubscribe(_)) => true,
        Some(RequestData::Publish(_)) => true,
        _ => false,
    }
}

/// True of the one command that allocates a new subscription id.
pub fn is_subscribe_command(cmd: &CommandRequest) -> (r: bool)
    ensures
        r == (cmd@ matches Some(ReqModel::Subscribe { .. })),
{
    match &cmd.request_data {
        Some(RequestData::Subscribe(_)) => true,
        _ => false,
    }
}

/// Dispatches one topic command against the broker. Table commands are not
/// served here (the table dispatcher answers them); they leave the broker
/// unchanged and yield status 500. An empty request yields status 400. Only
/// SUBSCRIBE allocates an id, so only it needs headroom in the id space.
pub fn dispatch_stream(cmd: CommandRequest, broker: &mut Broker) -> (r: StreamingResponse)
    requires
        old(broker).wf(),
        (cmd@ matches Some(ReqModel::Subscribe { .. })) ==> old(broker)@.next_id < 0xffff_ffff,
    ensures
        final(broker).wf(),
        match cmd@ {
            Some(ReqModel::Subscribe { topic }) => final(broker)@ == spec_subscribe(
                old(broker)@,
                topic,
            ).0 && (r matches StreamingResponse::Subscription(id) && id == spec_subscribe(
                old(broker)@,
                topic,
            ).1),
            Some(ReqModel::Unsubscribe { topic, id }) => final(broker)@ == spec_unsubscribe(
                old(broker)@,
                topic,
                id,
            ).0 && (r matches StreamingResponse::Unary(resp) && (spec_unsubscribe(
                old(broker)@,
                topic,
                id,
            ).1 ==> resp@ == ok_resp()) && (!spec_unsubscribe(old(broker)@, topic, id).1
                ==> resp@ == not_found_resp(id))),
            Some(ReqModel::Publish { topic, data }) => final(broker)@ == spec_publish(
                old(broker)@,
                topic,
                data,
            ) && (r matches StreamingResponse::Unary(resp) && resp@ == ok_resp()),
            Some(_) => final(broker)@ == old(broker)@ && (r matches StreamingResponse::Unary(resp)
                && resp@ == (RespModel {
                status: 500,
                message: "Internal error: Not implemented"@,
                values: Seq::<ValueModel>::empty(),
                pairs: Seq::<KvpairModel>::empty(),
            })),
            None => final(broker)@ == old(broker)@ && (r matches StreamingResponse::Unary(resp)
                && resp@ == (RespModel {
                status: 400,
                message: "Invalid command: Request has no data"@,
                values: Seq::<ValueModel>::empty(),
                pairs: Seq::<KvpairModel>::empty(),
            })),
        },
{
    match cmd.request_data {
        Some(RequestData::Subscribe(c)) => StreamingResponse::Subscription(c.execute(broker)),
        Some(RequestData::Unsubscribe(c)) => StreamingResponse::Unary(c.execute(broker)),
        Some(RequestData::Publish(c)) => StreamingResponse::Unary(c.execute(broker)),
        None => StreamingResponse::Unary(resp_status(400, "Invalid command: Request has no data")),
        Some(_) => StreamingResponse::Unary(resp_status(500, "Internal error: Not implemented")),
    }
}

} // verus!
