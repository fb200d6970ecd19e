//! Wire message definitions: commands, responses, values and key/value pairs,
//! together with the mathematical models the contracts speak of.

use vstd::prelude::*;
use crate::error::KvError;
use crate::wire::copy_range;

verus! {

/// A stored value: UTF-8 text, opaque binary, 64-bit signed integer, the bit
/// pattern of a 64-bit IEEE-754 float, a boolean, or the absent value `Nil`.
///
/// Floats travel and are stored as their raw bit pattern; callers that work
/// with `f64` convert at the boundary of the library.
#[derive(Clone, Debug, PartialEq, Eq)]
pub enum Value {
    Nil,
    Str(String),
    Binary(Vec<u8>),
    Integer(i64),
    Float(u64),
    Bool(bool),
}

/// A key together with its value.
#[derive(Clone, Debug, PartialEq, Eq)]
pub struct Kvpair {
    pub key: String,
    pub value: Value,
}

#[derive(Clone, Debug, PartialEq, Eq)]
pub struct Hget {
    pub table: String,
    pub key: String,
}

#[derive(Clone, Debug, PartialEq, Eq)]
pub struct Hgetall {
    pub table: String,
}

#[derive(Clone, Debug, PartialEq, Eq)]
pub struct Hmget {
    pub table: String,
    pub keys: Vec<String>,
}

#[derive(Clone, Debug, PartialEq, Eq)]
pub struct Hset {
    pub table: String,
    pub pair: Option<Kvpair>,
}

#[derive(Clone, Debug, PartialEq, Eq)]
pub struct Hmset {
    pub table: String,
    pub pairs: Vec<Kvpair>,
}

#[derive(Clone, Debug, PartialEq, Eq)]
pub struct Hdel {
    pub table: String,
    pub key: String,
}

#[derive(Clone, Debug, PartialEq, Eq)]
pub struct Hmdel {
    pub table: String,
    pub keys: Vec<String>,
}

#[derive(Clone, Debug, PartialEq, Eq)]
pub struct Hexist {
    pub table: String,
    pub key: String,
}

#[derive(Clone, Debug, PartialEq, Eq)]
pub struct Hmexist {
    pub table: String,
    pub keys: Vec<String>,
}

#[derive(Clone, Debug, PartialEq, Eq)]
pub struct Subscribe {
    pub topic: String,
}

#[derive(Clone, Debug, PartialEq, Eq)]
pub struct Unsubscribe {
    pub topic: String,
    pub id: u32,
}

#[derive(Clone, Debug, PartialEq, Eq)]
pub struct Publish {
    pub topic: String,
    pub data: Vec<Value>,
}

/// The command payload: exactly one of the twelve commands.
#[derive(Clone, Debug, PartialEq, Eq)]
pub enum RequestData {
    Hget(Hget),
    Hgetall(Hgetall),
    Hmget(Hmget),
    Hset(Hset),
    Hmset(Hmset),
    Hdel(Hdel),
    Hmdel(Hmdel),
    Hexist(Hexist),
    Hmexist(Hmexist),
    Subscribe(Subscribe),
    Unsubscribe(Unsubscribe),
    Publish(Publish),
}

/// A client-to-server message. An empty request (no payload) is rejected by
/// the dispatcher with status 400.
#[derive(Clone, Debug, PartialEq, Eq)]
pub struct CommandRequest {
    pub request_data: Option<RequestData>,
}

/// A server-to-client message. `status` mirrors HTTP semantics.
#[derive(Clone, Debug, PartialEq, Eq)]
pub struct CommandResponse {
    pub status: u32,
    pub message: String,
    pub values: Vec<Value>,
    pub pairs: Vec<Kvpair>,
}

/// Mathematical model of a `Value`.
pub enum ValueModel {
    Nil,
    Str(Seq<char>),
    Binary(Seq<u8>),
    Integer(i64),
    Float(u64),
    Bool(bool),
}

/// Mathematical model of a `Kvpair`.
pub struct KvpairModel {
    pub key: Seq<char>,
    pub value: ValueModel,
}

/// Mathematical model of a command payload.
pub enum ReqModel {
    Hget { table: Seq<char>, key: Seq<char> },
    Hgetall { table: Seq<char> },
    Hmget { table: Seq<char>, keys: Seq<Seq<char>> },
    Hset { table: Seq<char>, pair: Option<KvpairModel> },
    Hmset { table: Seq<char>, pairs: Seq<KvpairModel> },
    Hdel { table: Seq<char>, key: Seq<char> },
    Hmdel { table: Seq<char>, keys: Seq<Seq<char>> },
    Hexist { table: Seq<char>, key: Seq<char> },
    Hmexist { table: Seq<char>, keys: Seq<Seq<char>> },
    Subscribe { topic: Seq<char> },
    Unsubscribe { topic: Seq<char>, id: u32 },
    Publish { topic: Seq<char>, data: Seq<ValueModel> },
}

/// Mathematical model of a `CommandResponse`.
pub struct RespModel {
    pub status: u32,
    pub message: Seq<char>,
    pub values: Seq<ValueModel>,
    pub pairs: Seq<KvpairModel>,
}

impl View for Value {
    type V = ValueModel;

    open spec fn view(&self) -> ValueModel {
        match self {
            Value::Nil => ValueModel::Nil,
            Value::Str(s) => ValueModel::Str(s@),
            Value::Binary(b) => ValueModel::Binary(b@),
            Value::Integer(i) => ValueModel::Integer(*i),
            Value::Float(bits) => ValueModel::Float(*bits),
            Value::Bool(b) => ValueModel::Bool(*b),
        }
    }
}

impl View for Kvpair {
    type V = KvpairModel;

    open spec fn view(&self) -> KvpairModel {
        KvpairModel { key: self.key@, value: self.value@ }
    }
}

/// The models of a sequence of values.
pub open spec fn view_values(vs: Seq<Value>) -> Seq<ValueModel> {
    vs.map_values(|v: Value| v@)
}

/// The models of a sequence of pairs.
pub open spec fn view_pairs(ps: Seq<Kvpair>) -> Seq<KvpairModel> {
    ps.map_values(|p: Kvpair| p@)
}

/// The views of a sequence of strings.
pub open spec fn view_strings(ss: Seq<String>) -> Seq<Seq<char>> {
    ss.map_values(|s: String| s@)
}

impl View for RequestData {
    type V = ReqModel;

    open spec fn view(&self) -> ReqModel {
        match self {
            RequestData::Hget(c) => ReqModel::Hget { table: c.table@, key: c.key@ },
            RequestData::Hgetall(c) => ReqModel::Hgetall { table: c.table@ },
            RequestData::Hmget(c) => ReqModel::Hmget {
                table: c.table@,
                keys: view_strings(c.keys@),
            },
            RequestData::Hset(c) => ReqModel::Hset {
                table: c.table@,
                pair: match &c.pair {
                    Some(p) => Some(p@),
                    None => None,
                },
            },
            RequestData::Hmset(c) => ReqModel::Hmset {
                table: c.table@,
                pairs: view_pairs(c.pairs@),
            },
            RequestData::Hdel(c) => ReqModel::Hdel { table: c.table@, key: c.key@ },
            RequestData::Hmdel(c) => ReqModel::Hmdel {
                table: c.table@,
                keys: view_strings(c.keys@),
            },
            RequestData::Hexist(c) => ReqModel::Hexist { table: c.table@, key: c.key@ },
            RequestData::Hmexist(c) => ReqModel::Hmexist {
                table: c.table@,
                keys: view_strings(c.keys@),
            },
            RequestData::Subscribe(c) => ReqModel::Subscribe { topic: c.topic@ },
            RequestData::Unsubscribe(c) => ReqModel::Unsubscribe { topic: c.topic@, id: c.id },
            RequestData::Publish(c) => ReqModel::Publish {
                topic: c.topic@,
                data: view_values(c.data@),
            },
        }
    }
}

impl View for CommandRequest {
    type V = Option<ReqModel>;

    open spec fn view(&self) -> Option<ReqModel> {
        match &self.request_data {
            Some(d) => Some(d@),
            None => None,
        }
    }
}

impl View for CommandResponse {
    type V = RespModel;

    open spec fn view(&self) -> RespModel {
        RespModel {
            status: self.status,
            message: self.message@,
            values: view_values(self.values@),
            pairs: view_pairs(self.pairs@),
        }
    }
}

impl CommandResponse {
    /// The plain success response: status 200 and nothing else.
    pub fn ok() -> (r: CommandResponse)
        ensures
            r@ == (RespModel {
                status: 200u32,
                message: Seq::<char>::empty(),
                values: Seq::<ValueModel>::empty(),
                pairs: Seq::<KvpairModel>::empty(),
            }),
    {
        let r = CommandResponse {
            status: 200,
            message: String::new(),
            values: Vec::new(),
            pairs: Vec::new(),
        };
        proof {
            assert(view_values(r.values@) =~= Seq::<ValueModel>::empty());
            assert(view_pairs(r.pairs@) =~= Seq::<KvpairModel>::empty());
        }
        r
    }

    /// Builds the response that reports the given error: the error's status
    /// code and message, no values, no pairs.
    pub fn from_error(e: &KvError) -> (r: CommandResponse)
        ensures
            r@ == (RespModel {
                status: e.spec_status(),
                message: e.spec_message(),
                values: Seq::<ValueModel>::empty(),
                pairs: Seq::<KvpairModel>::empty(),
            }),
    {
        let r = CommandResponse {
            status: e.status_code(),
            message: e.message_text(),
            values: Vec::new(),
            pairs: Vec::new(),
        };
        proof {
            assert(view_values(r.values@) =~= Seq::<ValueModel>::empty());
            assert(view_pairs(r.pairs@) =~= Seq::<KvpairModel>::empty());
        }
        r
    }
}

impl Value {
    /// An equal copy of the value.
    pub fn dup(&self) -> (r: Value)
        ensures
            r@ == self@,
    {
        match self {
            Value::Nil => Value::Nil,
            Value::Str(s) => Value::Str(s.clone()),
            Value::Binary(b) => {
                let bytes = copy_range(b, 0, b.len());
                assert(bytes@ =~= b@);
                Value::Binary(bytes)
            },
            Value::Integer(x) => Value::Integer(*x),
            Value::Float(bits) => Value::Float(*bits),
            Value::Bool(b) => Value::Bool(*b),
        }
    }
}

impl Kvpair {
    /// An equal copy of the pair.
    pub fn dup(&self) -> (r: Kvpair)
        ensures
            r@ == self@,
    {
        Kvpair { key: self.key.clone(), value: self.value.dup() }
    }
}

/// An elementwise copy of a value list.
pub fn dup_values(vs: &Vec<Value>) -> (r: Vec<Value>)
    ensures
        view_values(r@) == view_values(vs@),
{
    let n = vs.len();
    let mut out: Vec<Value> = Vec::new();
    let mut i: usize = 0;
    while i < n
        invariant
            i <= n == vs@.len(),
            out@.len() == i,
            forall|j: int| 0 <= j < i ==> #[trigger] out@[j]@ == vs@[j]@,
        decreases n - i,
    {
        out.push(vs[i].dup());
        i = i + 1;
    }
    proof {
        assert(view_values(out@) =~= view_values(vs@));
    }
    out
}

/// An elementwise copy of a pair list.
pub fn dup_pairs(ps: &Vec<Kvpair>) -> (r: Vec<Kvpair>)
    ensures
        view_pairs(r@) == view_pairs(ps@),
{
    let n = ps.len();
    let mut out: Vec<Kvpair> = Vec::new();
    let mut i: usize = 0;
    while i < n
        invariant
            i <= n == ps@.len(),
            out@.len() == i,
            forall|j: int| 0 <= j < i ==> #[trigger] out@[j]@ == ps@[j]@,
        decreases n - i,
    {
        out.push(ps[i].dup());
        i = i + 1;
    }
    proof {
        assert(view_pairs(out@) =~= view_pairs(ps@));
    }
    out
}

impl CommandResponse {
    /// An equal copy of the response.
    pub fn dup(&self) -> (r: CommandResponse)
        ensures
            r@ == self@,
    {
        CommandResponse {
            status: self.status,
            message: self.message.clone(),
            values: dup_values(&self.values),
            pairs: dup_pairs(&self.pairs),
        }
    }
}

impl CommandRequest {
    /// An HGET command.
    pub fn new_hget(table: &str, key: &str) -> (r: CommandRequest)
        ensures
            r@ == Some(ReqModel::Hget { table: table@, key: key@ }),
    {
        CommandRequest {
            request_data: Some(
                RequestData::Hget(Hget { table: table.to_owned(), key: key.to_owned() }),
            ),
        }
    }

    /// An HGETALL command.
    pub fn new_hgetall(table: &str) -> (r: CommandRequest)
        ensures
            r@ == Some(ReqModel::Hgetall { table: table@ }),
    {
        CommandRequest {
            request_data: Some(RequestData::Hgetall(Hgetall { table: table.to_owned() })),
        }
    }

    /// An HMGET command.
    pub fn new_hmget(table: &str, keys: Vec<String>) -> (r: CommandRequest)
        ensures
            r@ == Some(ReqModel::Hmget { table: table@, keys: view_strings(keys@) }),
    {
        CommandRequest {
            request_data: Some(RequestData::Hmget(Hmget { table: table.to_owned(), keys })),
        }
    }

    /// An HSET command writing one pair.
    pub fn new_hset(table: &str, key: &str, value: Value) -> (r: CommandRequest)
        ensures
            r@ == Some(
                ReqModel::Hset {
                    table: table@,
                    pair: Some(KvpairModel { key: key@, value: value@ }),
                },
            ),
    {
        CommandRequest {
            request_data: Some(
                RequestData::Hset(
                    Hset {
                        table: table.to_owned(),
                        pair: Some(Kvpair { key: key.to_owned(), value }),
                    },
                ),
            ),
        }
    }

    /// An HMSET command writing many pairs.
    pub fn new_hmset(table: &str, pairs: Vec<Kvpair>) -> (r: CommandRequest)
        ensures
            r@ == Some(ReqModel::Hmset { table: table@, pairs: view_pairs(pairs@) }),
    {
        CommandRequest {
            request_data: Some(RequestData::Hmset(Hmset { table: table.to_owned(), pairs })),
        }
    }

    /// An HDEL command.
    pub fn new_hdel(table: &str, key: &str) -> (r: CommandRequest)
        ensures
            r@ == Some(ReqModel::Hdel { table: table@, key: key@ }),
    {
        CommandRequest {
            request_data: Some(
                RequestData::Hdel(Hdel { table: table.to_owned(), key: key.to_owned() }),
            ),
        }
    }

    /// An HMDEL command.
    pub fn new_hmdel(table: &str, keys: Vec<String>) -> (r: CommandRequest)
        ensures
            r@ == Some(ReqModel::Hmdel { table: table@, keys: view_strings(keys@) }),
    {
        CommandRequest {
            request_data: Some(RequestData::Hmdel(Hmdel { table: table.to_owned(), keys })),
        }
    }

    /// An HEXIST command.
    pub fn new_hexist(table: &str, key: &str) -> (r: CommandRequest)
        ensures
            r@ == Some(ReqModel::Hexist { table: table@, key: key@ }),
    {
        CommandRequest {
            request_data: Some(
                RequestData::Hexist(Hexist { table: table.to_owned(), key: key.to_owned() }),
            ),
        }
    }

    /// An HMEXIST command.
    pub fn new_hmexist(table: &str, keys: Vec<String>) -> (r: CommandRequest)
        ensures
            r@ == Some(ReqModel::Hmexist { table: table@, keys: view_strings(keys@) }),
    {
        CommandRequest {
            request_data: Some(RequestData::Hmexist(Hmexist { table: table.to_owned(), keys })),
        }
    }

    /// A SUBSCRIBE command.
    pub fn new_subscribe(topic: &str) -> (r: CommandRequest)
        ensures
            r@ == Some(ReqModel::Subscribe { topic: topic@ }),
    {
        CommandRequest {
            request_data: Some(RequestData::Subscribe(Subscribe { topic: topic.to_owned() })),
        }
    }

    /// An UNSUBSCRIBE command.
    pub fn new_unsubscribe(topic: &str, id: u32) -> (r: CommandRequest)
        ensures
            r@ == Some(ReqModel::Unsubscribe { topic: topic@, id: id }),
    {
        CommandRequest {
            request_data: Some(
                RequestData::Unsubscribe(Unsubscribe { topic: topic.to_owned(), id }),
            ),
        }
    }

    /// A PUBLISH command.
    pub fn new_publish(topic: &str, data: Vec<Value>) -> (r: CommandRequest)
        ensures
            r@ == Some(ReqModel::Publish { topic: topic@, data: view_values(data@) }),
    {
        CommandRequest {
            request_data: Some(RequestData::Publish(Publish { topic: topic.to_owned(), data })),
        }
    }
}

} // verus!
