//! Broadcast among a fixed group of replicas without a sequencer.
//!
//! Each replica knows the addresses of all the others. A message sent by a
//! user (route `/users`) is appended to the receiving replica's log and
//! forwarded to every peer under the route `/tob`; a message that arrives
//! under any other route is answered with a fixed request.

use vstd::prelude::*;
use crate::tob::views;

verus! {

/// What a request asks for.
#[derive(Clone, Copy)]
pub enum ActionType {
    Get,
    Update,
    Delete,
}

/// A request between users and replicas.
#[derive(Clone)]
pub struct Request {
    pub action_type: ActionType,
    pub message: String,
    pub route: String,
}

/// A replica: its address, its log of messages and its peers.
#[derive(Clone)]
pub struct Replica {
    pub addr: String,
    pub log: Vec<String>,
    pub peers: Vec<String>,
}

/// What a replica does with a request.
pub enum Action {
    /// Forward this request to every peer.
    Broadcast(Request),
    /// Answer with this request.
    Reply(Request),
}

/// `x` is the address of some replica other than the `i`-th.
pub open spec fn is_peer_of(addrs: Seq<Seq<char>>, i: int, x: Seq<char>) -> bool {
    exists|j: int| 0 <= j < addrs.len() && j != i && #[trigger] addrs[j] == x
}

/// Whether `v` holds a string equal to `s`.
fn contains_string(v: &Vec<String>, s: &String) -> (b: bool)
    ensures
        b == views(v@).contains(s@),
{
    let n = v.len();
    for j in 0..n
        invariant
            n == v@.len(),
            forall|k: int| 0 <= k < j ==> v@[k]@ != s@,
    {
        if v[j] == *s {
            proof {
                assert(views(v@)[j as int] == s@);
            }
            return true;
        }
    }
    proof {
        if views(v@).contains(s@) {
            let k = choose|k: int| 0 <= k < views(v@).len() && views(v@)[k] == s@;
            assert(v@[k]@ == s@);
        }
    }
    false
}

/// The set of peers of the `i`-th replica: the addresses of all the others,
/// each once.
pub fn peer_set(addrs: &Vec<String>, i: usize) -> (peers: Vec<String>)
    ensures
        views(peers@).no_duplicates(),
        forall|x: Seq<char>| views(peers@).contains(x) <==> is_peer_of(views(addrs@), i as int, x),
{
    let mut peers: Vec<String> = Vec::new();
    let n = addrs.len();
    for j in 0..n
        invariant
            n == addrs@.len(),
            views(peers@).no_duplicates(),
            forall|x: Seq<char>|
                views(peers@).contains(x) <==> exists|k: int|
                    0 <= k < j && k != i && #[trigger] views(addrs@)[k] == x,
    {
        let ghost before = peers@;
        if j != i {
            let a = &addrs[j];
            let present = contains_string(&peers, a);
            if !present {
                peers.push(a.clone());
            }
            proof {
                broadcast use vstd::seq_lib::group_seq_properties;
                if !present {
                    assert(views(peers@) =~= views(before).push(a@));
                } else {
                    assert(views(peers@) =~= views(before));
                }
                assert(views(addrs@)[j as int] == a@);
                assert forall|x: Seq<char>| views(peers@).contains(x) <==> exists|k: int|
                    0 <= k < j + 1 && k != i && #[trigger] views(addrs@)[k] == x by {
                    if x == a@ {
                        assert(views(addrs@)[j as int] == x);
                    } else {
                        if exists|k: int| 0 <= k < j + 1 && k != i && #[trigger] views(addrs@)[k] == x {
                            let k = choose|k: int| 0 <= k < j + 1 && k != i && #[trigger] views(addrs@)[k] == x;
                            assert(k < j);
                        }
                    }
                }
            }
        } else {
            proof {
                assert forall|x: Seq<char>| views(peers@).contains(x) <==> exists|k: int|
                    0 <= k < j + 1 && k != i && #[trigger] views(addrs@)[k] == x by {
                    if exists|k: int| 0 <= k < j + 1 && k != i && #[trigger] views(addrs@)[k] == x {
                        let k = choose|k: int| 0 <= k < j + 1 && k != i && #[trigger] views(addrs@)[k] == x;
                        assert(k < j);
                    }
                }
            }
        }
    }
    peers
}

/// A replica for each address, with an empty log and the other addresses as
/// its peers.
pub fn with_peers(addrs: &Vec<String>) -> (replicas: Vec<Replica>)
    ensures
        replicas@.len() == addrs@.len(),
        forall|i: int| 0 <= i < replicas@.len() ==> {
            &&& (#[trigger] replicas@[i]).addr@ == addrs@[i]@
            &&& replicas@[i].log@.len() == 0
            &&& views(replicas@[i].peers@).no_duplicates()
            &&& forall|x: Seq<char>| views(replicas@[i].peers@).contains(x) <==> is_peer_of(views(addrs@), i, x)
        },
{
    let mut replicas: Vec<Replica> = Vec::new();
    let n = addrs.len();
    for i in 0..n
        invariant
            n == addrs@.len(),
            replicas@.len() == i,
            forall|k: int| 0 <= k < i ==> {
                &&& (#[trigger] replicas@[k]).addr@ == addrs@[k]@
                &&& replicas@[k].log@.len() == 0
                &&& views(replicas@[k].peers@).no_duplicates()
                &&& forall|x: Seq<char>| views(replicas@[k].peers@).contains(x) <==> is_peer_of(views(addrs@), k, x)
            },
    {
        let peers = peer_set(addrs, i);
        replicas.push(Replica { addr: addrs[i].clone(), log: Vec::new(), peers });
    }
    replicas
}

/// The addresses of the three replicas on the local host.
pub open spec fn initial_addresses() -> Seq<Seq<char>> {
    seq!["127.0.0.1:8000"@, "127.0.0.1:8001"@, "127.0.0.1:8002"@]
}

/// The three replicas on the local host, ports 8000 to 8002, each with the
/// other two as peers.
pub fn initial_replicas() -> (replicas: Vec<Replica>)
    ensures
        replicas@.len() == 3,
        forall|i: int| 0 <= i < 3 ==> {
            &&& (#[trigger] replicas@[i]).addr@ == initial_addresses()[i]
            &&& replicas@[i].log@.len() == 0
            &&& views(replicas@[i].peers@).no_duplicates()
            &&& forall|x: Seq<char>|
                views(replicas@[i].peers@).contains(x) <==> is_peer_of(initial_addresses(), i, x)
        },
{
    let mut addrs: Vec<String> = Vec::new();
    addrs.push("127.0.0.1:8000".to_string());
    addrs.push("127.0.0.1:8001".to_string());
    addrs.push("127.0.0.1:8002".to_string());
    proof {
        assert(views(addrs@) =~= initial_addresses());
    }
    with_peers(&addrs)
}

/// The request that a user sends: an update with `hello world` to `/users`.
pub fn client_request() -> (r: Request)
    ensures
        r.action_type is Update,
        r.message@ == "hello world"@,
        r.route@ == "/users"@,
{
    Request { action_type: ActionType::Update, message: "hello world".to_string(), route: "/users".to_string() }
}

/// A message under `/users` is appended to the log and forwarded to the
/// peers under `/tob`; any other is answered with an update `hello world
/// tob` to `/users`.
pub fn handle_update_key(replica: &mut Replica, request: Request) -> (action: Action)
    ensures
        request.route@ == "/users"@ ==> {
            &&& final(replica).log@.len() == old(replica).log@.len() + 1
            &&& final(replica).log@.last()@ == request.message@
            &&& final(replica).log@.subrange(0, old(replica).log@.len() as int) == old(replica).log@
            &&& action matches Action::Broadcast(fwd)
            &&& action->Broadcast_0.action_type == request.action_type
            &&& action->Broadcast_0.message@ == request.message@
            &&& action->Broadcast_0.route@ == "/tob"@
        },
        request.route@ != "/users"@ ==> {
            &&& final(replica).log@ == old(replica).log@
            &&& action matches Action::Reply(r)
            &&& action->Reply_0.action_type is Update
            &&& action->Reply_0.message@ == "hello world tob"@
            &&& action->Reply_0.route@ == "/users"@
        },
        final(replica).addr == old(replica).addr,
        final(replica).peers == old(replica).peers,
{
    if request.route == "/users".to_string() {
        let forward = Request {
            action_type: request.action_type,
            message: request.message.clone(),
            route: "/tob".to_string(),
        };
        replica.log.push(request.message);
        proof {
            assert(replica.log@.subrange(0, old(replica).log@.len() as int) =~= old(replica).log@);
        }
        Action::Broadcast(forward)
    } else {
        Action::Reply(
            Request {
                action_type: ActionType::Update,
                message: "hello world tob".to_string(),
                route: "/users".to_string(),
            },
        )
    }
}

/// Every kind of request is handled as an update.
pub fn handle_request(replica: &mut Replica, request: Request) -> (action: Action)
    ensures
        request.route@ == "/users"@ ==> {
            &&& final(replica).log@.len() == old(replica).log@.len() + 1
            &&& final(replica).log@.last()@ == request.message@
            &&& final(replica).log@.subrange(0, old(replica).log@.len() as int) == old(replica).log@
            &&& action matches Action::Broadcast(fwd)
            &&& action->Broadcast_0.action_type == request.action_type
            &&& action->Broadcast_0.message@ == request.message@
            &&& action->Broadcast_0.route@ == "/tob"@
        },
        request.route@ != "/users"@ ==> {
            &&& final(replica).log@ == old(replica).log@
            &&& action matches Action::Reply(r)
            &&& action->Reply_0.action_type is Update
            &&& action->Reply_0.message@ == "hello world tob"@
            &&& action->Reply_0.route@ == "/users"@
        },
        final(replica).addr == old(replica).addr,
        final(replica).peers == old(replica).peers,
{
    handle_update_key(replica, request)
}

} // verus!
