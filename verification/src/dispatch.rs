//! The command dispatcher for table commands: a function from a command and
//! the store to one response. Missing tables auto-initialize on write; reads
//! of missing tables or keys yield the absent value, not an error.

use vstd::prelude::*;
use crate::abi::{
    CommandRequest, CommandResponse, Kvpair, KvpairModel, RequestData, ReqModel, RespModel, Value,
    ValueModel, view_pairs, view_strings, view_values,
};
use crate::storage::{MemTable, lookup};

verus! {

/// The model of the store: a map from (table, key) to the stored value.
pub type StoreModel = Map<(Seq<char>, Seq<char>), ValueModel>;

/// The store after writing a list of pairs into one table, in order.
pub open spec fn insert_pairs(m: StoreModel, t: Seq<char>, ps: Seq<KvpairModel>) -> StoreModel
    decreases ps.len(),
{
    if ps.len() == 0 {
        m
    } else {
        insert_pairs(m.insert((t, ps[0].key), ps[0].value), t, ps.drop_first())
    }
}

/// The prior values returned by writing a list of pairs, in order.
pub open spec fn hmset_priors(m: StoreModel, t: Seq<char>, ps: Seq<KvpairModel>) -> Seq<ValueModel>
    decreases ps.len(),
{
    if ps.len() == 0 {
        Seq::empty()
    } else {
        seq![lookup(m, t, ps[0].key)] + hmset_priors(
            m.insert((t, ps[0].key), ps[0].value),
            t,
            ps.drop_first(),
        )
    }
}

/// The store after deleting a list of keys from one table, in order.
pub open spec fn remove_keys(m: StoreModel, t: Seq<char>, ks: Seq<Seq<char>>) -> StoreModel
    decreases ks.len(),
{
    if ks.len() == 0 {
        m
    } else {
        remove_keys(m.remove((t, ks[0])), t, ks.drop_first())
    }
}

/// The prior values returned by deleting a list of keys, in order.
pub open spec fn hmdel_priors(m: StoreModel, t: Seq<char>, ks: Seq<Seq<char>>) -> Seq<ValueModel>
    decreases ks.len(),
{
    if ks.len() == 0 {
        Seq::empty()
    } else {
        seq![lookup(m, t, ks[0])] + hmdel_priors(m.remove((t, ks[0])), t, ks.drop_first())
    }
}

/// The values read for a list of keys, in order; missing keys give `Nil`.
pub open spec fn hmget_values(m: StoreModel, t: Seq<char>, ks: Seq<Seq<char>>) -> Seq<ValueModel>
    decreases ks.len(),
{
    if ks.len() == 0 {
        Seq::empty()
    } else {
        seq![lookup(m, t, ks[0])] + hmget_values(m, t, ks.drop_first())
    }
}

/// The membership answers for a list of keys, in order.
pub open spec fn hmexist_values(m: StoreModel, t: Seq<char>, ks: Seq<Seq<char>>) -> Seq<ValueModel>
    decreases ks.len(),
{
    if ks.len() == 0 {
        Seq::empty()
    } else {
        seq![ValueModel::Bool(m.contains_key((t, ks[0])))] + hmexist_values(m, t, ks.drop_first())
    }
}

/// The store after a command. Only the four writing commands change it.
pub open spec fn store_after(m: StoreModel, rm: ReqModel) -> StoreModel {
    match rm {
        ReqModel::Hset { table, pair } => match pair {
            Some(p) => m.insert((table, p.key), p.value),
            None => m,
        },
        ReqModel::Hmset { table, pairs } => insert_pairs(m, table, pairs),
        ReqModel::Hdel { table, key } => m.remove((table, key)),
        ReqModel::Hmdel { table, keys } => remove_keys(m, table, keys),
        _ => m,
    }
}

/// A success response carrying only values.
pub open spec fn ok_values(vs: Seq<ValueModel>) -> RespModel {
    RespModel { status: 200, message: Seq::<char>::empty(), values: vs, pairs: Seq::empty() }
}

/// The response of each table command whose response is a function of the
/// store. `HGETALL` (whose pair order is unspecified) and the topic commands
/// (which the topic dispatcher answers) give nothing here.
pub open spec fn dispatch_resp(m: StoreModel, rm: ReqModel) -> Option<RespModel> {
    match rm {
        ReqModel::Hget { table, key } => Some(ok_values(seq![lookup(m, table, key)])),
        ReqModel::Hmget { table, keys } => Some(ok_values(hmget_values(m, table, keys))),
        ReqModel::Hset { table, pair } => match pair {
            Some(p) => Some(ok_values(seq![lookup(m, table, p.key)])),
            None => Some(
                RespModel {
                    status: 400,
                    message: "Invalid command: HSET requires a pair"@,
                    values: Seq::empty(),
                    pairs: Seq::empty(),
                },
            ),
        },
        ReqModel::Hmset { table, pairs } => Some(ok_values(hmset_priors(m, table, pairs))),
        ReqModel::Hdel { table, key } => Some(ok_values(seq![lookup(m, table, key)])),
        ReqModel::Hmdel { table, keys } => Some(ok_values(hmdel_priors(m, table, keys))),
        ReqModel::Hexist { table, key } => Some(
            ok_values(seq![ValueModel::Bool(m.contains_key((table, key)))]),
        ),
        ReqModel::Hmexist { table, keys } => Some(ok_values(hmexist_values(m, table, keys))),
        _ => None,
    }
}

/// Writing a key twice: the second write's response carries the first
/// written value.
pub proof fn lemma_hset_return_prior(
    m: StoreModel,
    t: Seq<char>,
    k: Seq<char>,
    v1: ValueModel,
    v2: ValueModel,
)
    ensures
        ({
            let m1 = store_after(m, ReqModel::Hset { table: t, pair: Some(KvpairModel { key: k, value: v1 }) });
            dispatch_resp(m1, ReqModel::Hset { table: t, pair: Some(KvpairModel { key: k, value: v2 }) })
                == Some(ok_values(seq![v1]))
        }),
{
}

/// Builds a success response around a value list.
fn resp_ok_values(values: Vec<Value>) -> (r: CommandResponse)
    ensures
        r@ == ok_values(view_values(values@)),
{
    let r = CommandResponse { status: 200, message: String::new(), values, pairs: Vec::new() };
    proof {
        assert(view_pairs(r.pairs@) =~= Seq::<KvpairModel>::empty());
    }
    r
}

/// Builds a response with a status and a message and nothing else.
pub(crate) fn resp_status(status: u32, msg: &str) -> (r: CommandResponse)
    ensures
        r@ == (RespModel {
            status: status,
            message: msg@,
            values: Seq::<ValueModel>::empty(),
            pairs: Seq::<KvpairModel>::empty(),
        }),
{
    let r = CommandResponse {
        status,
        message: msg.to_owned(),
        values: Vec::new(),
        pairs: Vec::new(),
    };
    proof {
        assert(view_values(r.values@) =~= Seq::<ValueModel>::empty());
        assert(view_pairs(r.pairs@) =~= Seq::<KvpairModel>::empty());
    }
    r
}

/// A single value list around one value.
fn one_value(v: Value) -> (r: Vec<Value>)
    ensures
        view_values(r@) == seq![v@],
{
    let mut out: Vec<Value> = Vec::new();
    out.push(v);
    proof {
        assert(view_values(out@) =~= seq![out@[0]@]);
    }
    out
}

/// The prior value as a response value: the stored one, or the absent value.
fn prior_value(prior: Option<Value>) -> (r: Value)
    ensures
        match prior {
            Some(v) => r@ == v@,
            None => r@ == ValueModel::Nil,
        },
{
    match prior {
        Some(v) => v,
        None => Value::Nil,
    }
}

/// Reads `keys[i..]`, in order.
fn hmget_from(store: &MemTable, table: &String, keys: &Vec<String>, i: usize) -> (r: Vec<Value>)
    requires
        store.wf(),
        i <= keys@.len(),
    ensures
        view_values(r@) == hmget_values(store@, table@, view_strings(keys@.skip(i as int))),
    decreases keys@.len() - i,
{
    if i == keys.len() {
        let out: Vec<Value> = Vec::new();
        proof {
            assert(view_values(out@) =~= Seq::<ValueModel>::empty());
            assert(view_strings(keys@.skip(i as int)) =~= Seq::<Seq<char>>::empty());
        }
        out
    } else {
        let v = prior_value(store.get(table, &keys[i]));
        let mut rest = hmget_from(store, table, keys, i + 1);
        let ghost rest0 = rest@;
        rest.insert(0, v);
        proof {
            let ks = view_strings(keys@.skip(i as int));
            assert(ks[0] == keys@[i as int]@);
            assert(ks.drop_first() =~= view_strings(keys@.skip(i as int + 1)));
            assert(view_values(rest@) =~= seq![v@] + view_values(rest0));
        }
        rest
    }
}

/// Tests `keys[i..]` for membership, in order.
fn hmexist_from(store: &MemTable, table: &String, keys: &Vec<String>, i: usize) -> (r: Vec<Value>)
    requires
        store.wf(),
        i <= keys@.len(),
    ensures
        view_values(r@) == hmexist_values(store@, table@, view_strings(keys@.skip(i as int))),
    decreases keys@.len() - i,
{
    if i == keys.len() {
        let out: Vec<Value> = Vec::new();
        proof {
            assert(view_values(out@) =~= Seq::<ValueModel>::empty());
            assert(view_strings(keys@.skip(i as int)) =~= Seq::<Seq<char>>::empty());
        }
        out
    } else {
        let v = Value::Bool(store.contains(table, &keys[i]));
        let mut rest = hmexist_from(store, table, keys, i + 1);
        let ghost rest0 = rest@;
        rest.insert(0, v);
        proof {
            let ks = view_strings(keys@.skip(i as int));
            assert(ks[0] == keys@[i as int]@);
            assert(ks.drop_first() =~= view_strings(keys@.skip(i as int + 1)));
            assert(view_values(rest@) =~= seq![v@] + view_values(rest0));
        }
        rest
    }
}

/// Writes `pairs[i..]`, in order, returning the prior values.
fn hmset_from(store: &mut MemTable, table: &String, pairs: &Vec<Kvpair>, i: usize) -> (r: Vec<
    Value,
>)
    requires
        old(store).wf(),
        i <= pairs@.len(),
    ensures
        final(store).wf(),
        final(store)@ == insert_pairs(old(store)@, table@, view_pairs(pairs@.skip(i as int))),
        view_values(r@) == hmset_priors(old(store)@, table@, view_pairs(pairs@.skip(i as int))),
    decreases pairs@.len() - i,
{
    if i == pairs.len() {
        let out: Vec<Value> = Vec::new();
        proof {
            assert(view_values(out@) =~= Seq::<ValueModel>::empty());
            assert(view_pairs(pairs@.skip(i as int)) =~= Seq::<KvpairModel>::empty());
        }
        out
    } else {
        let p = &pairs[i];
        let v = prior_value(store.set(table, &p.key, p.value.dup()));
        let mut rest = hmset_from(store, table, pairs, i + 1);
        let ghost rest0 = rest@;
        rest.insert(0, v);
        proof {
            let ps = view_pairs(pairs@.skip(i as int));
            assert(ps[0] == pairs@[i as int]@);
            assert(ps.drop_first() =~= view_pairs(pairs@.skip(i as int + 1)));
            assert(view_values(rest@) =~= seq![v@] + view_values(rest0));
        }
        rest
    }
}

/// Deletes `keys[i..]`, in order, returning the prior values.
fn hmdel_from(store: &mut MemTable, table: &String, keys: &Vec<String>, i: usize) -> (r: Vec<
    Value,
>)
    requires
        old(store).wf(),
        i <= keys@.len(),
    ensures
        final(store).wf(),
        final(store)@ == remove_keys(old(store)@, table@, view_strings(keys@.skip(i as int))),
        view_values(r@) == hmdel_priors(old(store)@, table@, view_strings(keys@.skip(i as int))),
    decreases keys@.len() - i,
{
    if i == keys.len() {
        let out: Vec<Value> = Vec::new();
        proof {
            assert(view_values(out@) =~= Seq::<ValueModel>::empty());
            assert(view_strings(keys@.skip(i as int)) =~= Seq::<Seq<char>>::empty());
        }
        out
    } else {
        let v = prior_value(store.del(table, &keys[i]));
        let mut rest = hmdel_from(store, table, keys, i + 1);
        let ghost rest0 = rest@;
        rest.insert(0, v);
        proof {
            let ks = view_strings(keys@.skip(i as int));
            assert(ks[0] == keys@[i as int]@);
            assert(ks.drop_first() =~= view_strings(keys@.skip(i as int + 1)));
            assert(view_values(rest@) =~= seq![v@] + view_values(rest0));
        }
        rest
    }
}

/// Dispatches one table command against the store. Topic commands are not
/// served here (the topic dispatcher answers them); they leave the store
/// unchanged and yield status 500. An empty request yields status 400. After
/// writing keys to a table, the HGETALL response lists exactly the table's
/// bindings, each key once, in an unspecified order.
pub fn dispatch(cmd: &CommandRequest, store: &mut MemTable) -> (r: CommandResponse)
    requires
        old(store).wf(),
    ensures
        final(store).wf(),
        match cmd@ {
            Some(rm) => final(store)@ == store_after(old(store)@, rm),
            None => final(store)@ == old(store)@,
        },
        match cmd@ {
            None => r@ == (RespModel {
                status: 400,
                message: "Invalid command: Request has no data"@,
                values: Seq::<ValueModel>::empty(),
                pairs: Seq::<KvpairModel>::empty(),
            }),
            Some(rm) => match dispatch_resp(old(store)@, rm) {
                Some(resp) => r@ == resp,
                None => match rm {
                    ReqModel::Hgetall { table } => {
                        &&& r@.status == 200
                        &&& r@.message == Seq::<char>::empty()
                        &&& r@.values == Seq::<ValueModel>::empty()
                        &&& forall|j: int|
                            0 <= j < r@.pairs.len() ==> old(store)@.contains_key(
                                (table, #[trigger] r@.pairs[j].key),
                            ) && old(store)@[(table, r@.pairs[j].key)] == r@.pairs[j].value
                        &&& forall|k: Seq<char>|
                            old(store)@.contains_key((table, k)) ==> exists|j: int|
                                0 <= j < r@.pairs.len() && #[trigger] r@.pairs[j].key == k
                        &&& forall|j1: int, j2: int|
                            0 <= j1 < j2 < r@.pairs.len() ==> r@.pairs[j1].key != r@.pairs[j2].key
                    },
                    _ => r@ == (RespModel {
                        status: 500,
                        message: "Internal error: Not implemented"@,
                        values: Seq::<ValueModel>::empty(),
                        pairs: Seq::<KvpairModel>::empty(),
                    }),
                },
            },
        },
{
    match &cmd.request_data {
        None => resp_status(400, "Invalid command: Request has no data"),
        Some(RequestData::Hget(c)) => {
            let v = prior_value(store.get(&c.table, &c.key));
            resp_ok_values(one_value(v))
        },
        Some(RequestData::Hgetall(c)) => {
            let pairs = store.get_all(&c.table);
            let ghost ps0 = pairs@;
            let r = CommandResponse {
                status: 200,
                message: String::new(),
                values: Vec::new(),
                pairs,
            };
            proof {
                assert(view_values(r.values@) =~= Seq::<ValueModel>::empty());
                assert forall|k: Seq<char>| old(store)@.contains_key((c.table@, k)) implies exists|
                    j: int,
                | 0 <= j < r@.pairs.len() && #[trigger] r@.pairs[j].key == k by {
                    let j0 = choose|j: int| 0 <= j < ps0.len() && #[trigger] ps0[j]@.key == k;
                    assert(r@.pairs[j0].key == k);
                }
            }
            r
        },
        Some(RequestData::Hmget(c)) => {
            let vs = hmget_from(store, &c.table, &c.keys, 0);
            proof {
                assert(view_strings(c.keys@.skip(0)) =~= view_strings(c.keys@));
            }
            resp_ok_values(vs)
        },
        Some(RequestData::Hset(c)) => {
            match &c.pair {
                None => resp_status(400, "Invalid command: HSET requires a pair"),
                Some(p) => {
                    let prior = store.set(&c.table, &p.key, p.value.dup());
                    resp_ok_values(one_value(prior_value(prior)))
                },
            }
        },
        Some(RequestData::Hmset(c)) => {
            let vs = hmset_from(store, &c.table, &c.pairs, 0);
            proof {
                assert(view_pairs(c.pairs@.skip(0)) =~= view_pairs(c.pairs@));
            }
            resp_ok_values(vs)
        },
        Some(RequestData::Hdel(c)) => {
            let prior = store.del(&c.table, &c.key);
            resp_ok_values(one_value(prior_value(prior)))
        },
        Some(RequestData::Hmdel(c)) => {
            let vs = hmdel_from(store, &c.table, &c.keys, 0);
            proof {
                assert(view_strings(c.keys@.skip(0)) =~= view_strings(c.keys@));
            }
            resp_ok_values(vs)
        },
        Some(RequestData::Hexist(c)) => {
            let v = Value::Bool(store.contains(&c.table, &c.key));
            resp_ok_values(one_value(v))
        },
        Some(RequestData::Hmexist(c)) => {
            let vs = hmexist_from(store, &c.table, &c.keys, 0);
            proof {
                assert(view_strings(c.keys@.skip(0)) =~= view_strings(c.keys@));
            }
            resp_ok_values(vs)
        },
        Some(RequestData::Subscribe(_)) | Some(RequestData::Unsubscribe(_)) | Some(
            RequestData::Publish(_),
        ) => resp_status(500, "Internal error: Not implemented"),
    }
}

} // verus!

