//! A networked key-value store library: wire messages, a length-prefixed
//! framing codec with transparent compression, an in-memory storage backend,
//! a command dispatcher, and a topic broker for publish/subscribe.

mod abi;
mod broker;
mod codec;
mod decimal;
mod dispatch;
mod error;
mod frame;
mod payload;
mod storage;
mod topic_service;
mod wire;

pub use abi::{
    CommandRequest, CommandResponse, Hdel, Hexist, Hget, Hgetall, Hmdel, Hmexist, Hmget, Hmset,
    Hset, Kvpair, KvpairModel, Publish, ReqModel, RequestData, RespModel, Subscribe, Unsubscribe,
    Value, ValueModel, dup_pairs, dup_values, view_pairs, view_strings, view_values,
};
pub use broker::{
    Broker, BrokerModel, QUEUE_CAPACITY, SubModel, Subscription, TopicOp, broker_step,
    find_sub_from, first_response, issued_ids, lemma_delivery_in_publish_order,
    lemma_publish_delivers, lemma_publish_evicts, lemma_publish_subs_preserves,
    lemma_slow_subscriber_evicted, lemma_subscription_ids_strictly_increase,
    lemma_unsubscribe_unknown, publish_resp, spec_publish, spec_publish_subs, spec_subscribe,
    spec_publish_seq, publish_resps, spec_unsubscribe, view_resps, view_subs, wf_broker,
};
pub use decimal::{dec_digit, dec_digits, u32_to_dec};
pub use codec::{
    enc_req, dec_req, enc_resp, dec_resp, wf_req, wf_resp, wf_sub, lemma_dec_enc_req,
    lemma_dec_enc_resp, encode_request, decode_request, encode_response, decode_response, req_tag,
};
pub use dispatch::{
    StoreModel, dispatch, dispatch_resp, hmdel_priors, hmexist_values, hmget_values, hmset_priors,
    insert_pairs, lemma_hset_return_prior, ok_values, remove_keys, store_after,
};
pub use error::KvError;
pub use frame::{
    COMPRESSION_BIT, COMPRESSION_LIMIT, LEN_LEN, be32, be32_val, dec_req_frame, dec_resp_frame,
    decode_header, enc_frame_plain, frame_payload, gunzip_of, gzip_of,
    lemma_plain_frame_round_trip,
    lemma_request_frame_round_trip, lemma_response_frame_round_trip,
};
pub use topic_service::{
    StreamingResponse, dispatch_stream, is_subscribe_command, is_topic_command, not_found_resp,
    ok_resp,
};
pub use storage::{MemTable, StoreEntry, entry_key, lookup, map_of, unique_keys};
pub use payload::{
    enc_value, dec_value, wf_value, enc_pair, dec_pair, wf_pair, wf_values, wf_pairs, wf_strs,
    PAYLOAD_LIMIT,
};
