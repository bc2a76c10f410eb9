//! The client side: partitioning keys over database servers, the requests the
//! client sends, and its pool of reusable connections.

use vstd::prelude::*;
use std::collections::hash_map::DefaultHasher;
use std::collections::VecDeque;
use std::hash::Hasher;
use vstd::std_specs::hash::DefaultHasherAdditionalSpecFns;
use crate::server::{separator, keys_route, ActionType, Request};
pub use crate::server::{KeyValue, Response};

verus! {

/// The bytes that hashing a string writes into a hasher.
pub uninterp spec fn str_hash_writes(s: Seq<char>) -> Seq<Seq<u8>>;

/// `<str as Hash>::hash`: feeds the string into the hasher. Claimed: what
/// it writes depends on the string alone.
#[verifier::external_body]
fn hash_str(s: &str, hasher: &mut DefaultHasher)
    ensures
        final(hasher)@ == old(hasher)@ + str_hash_writes(s@),
{
    std::hash::Hash::hash(s, hasher)
}

/// The hash of a key or of a database address: the low 32 bits of the
/// default hasher's digest of the string.
pub open spec fn hash_of(s: Seq<char>) -> u32 {
    DefaultHasher::spec_finish(str_hash_writes(s)) as u32
}

/// Calculates the hash of a key or database address.
pub fn calculate_hash(s: &str) -> (h: u32)
    ensures
        h == hash_of(s@),
        h == DefaultHasher::spec_finish(str_hash_writes(s@)) as u32,
{
    let mut hasher = DefaultHasher::new();
    hash_str(s, &mut hasher);
    proof {
        assert(hasher@ =~= str_hash_writes(s@));
    }
    hasher.finish() as u32
}

/// The partition that holds `key` among `partitions` partitions.
pub open spec fn partition_of(key: Seq<char>, partitions: nat) -> nat {
    ((hash_of(key) as nat) % partitions) as nat
}

/// The partition, among `partitions`, that holds `key`.
pub fn get_db_index(key: &str, partitions: usize) -> (index: usize)
    requires
        partitions > 0,
    ensures
        index == partition_of(key@, partitions as nat),
        index == (DefaultHasher::spec_finish(str_hash_writes(key@)) as u32) as nat % (partitions as nat),
        index < partitions,
{
    let hash = calculate_hash(key);
    hash as usize % partitions
}

/// Partitioning is a function of the key: every key has one partition, in
/// range, and the same key always goes to the same one.
pub proof fn lemma_partition_stable(key: Seq<char>, other: Seq<char>, partitions: nat)
    requires
        partitions > 0,
    ensures
        partition_of(key, partitions) < partitions,
        key == other ==> partition_of(key, partitions) == partition_of(other, partitions),
{
}

/// The hash covers the whole key: it is the low 32 bits of the default
/// hasher's digest of everything that hashing the whole string writes.
pub proof fn lemma_hash_is_digest_of_whole_key(key: Seq<char>)
    ensures
        hash_of(key) == DefaultHasher::spec_finish(str_hash_writes(key)) as u32,
        hash_of(key) as int == DefaultHasher::spec_finish(str_hash_writes(key)) as int % 0x1_0000_0000,
{
    let d = DefaultHasher::spec_finish(str_hash_writes(key));
    assert(d as u32 as int == d as int % 0x1_0000_0000) by (bit_vector);
}

/// A key's partition is its hash modulo the number of partitions, for every
/// number of partitions: the partition and the hash leave the same remainder.
/// So partitioning over `n * c` servers refines partitioning over `n`: the
/// partition among `n * c`, taken modulo `n`, is the partition among `n`.
pub proof fn lemma_partition_is_hash_mod(key: Seq<char>, n: nat, c: nat)
    requires
        n > 0,
        c > 0,
    ensures
        partition_of(key, n) == hash_of(key) as nat % n,
        partition_of(key, n) < n,
        (hash_of(key) as int - partition_of(key, n) as int) % (n as int) == 0,
        partition_of(key, n * c) % n == partition_of(key, n),
{
    let h = hash_of(key) as int;
    vstd::arithmetic::div_mod::lemma_fundamental_div_mod(h, n as int);
    vstd::arithmetic::div_mod::lemma_mod_multiples_vanish(h / (n as int), 0, n as int);
    assert(h - h % (n as int) == (n as int) * (h / (n as int)));
    vstd::arithmetic::div_mod::lemma_mod_multiples_basic(h / (n as int), n as int);
    vstd::arithmetic::mul::lemma_mul_is_commutative(n as int, h / (n as int));
    vstd::arithmetic::div_mod::lemma_mod_mod(h, n as int, c as int);
    vstd::arithmetic::mul::lemma_mul_strictly_positive(n as int, c as int);
}

/// Where the client connects.
pub struct Config {
    pub min_connections: usize,
    pub addresses: Vec<String>,
}

impl Default for Config {
    /// Ten connections to one server on the local host, port 8080.
    fn default() -> (c: Self)
        ensures
            c.min_connections == 10,
            c.addresses@.len() == 1,
            c.addresses@[0]@ == "127.0.0.1:8080"@,
    {
        let mut addresses: Vec<String> = Vec::new();
        addresses.push("127.0.0.1:8080".to_string());
        Config { min_connections: 10, addresses }
    }
}

/// The route that names `key`: `/keys/` followed by the key.
pub fn key_route(key: &str) -> (route: String)
    ensures
        route@ == keys_route(key@),
{
    let mut route = "/keys/".to_string();
    proof {
        reveal_strlit("/keys/");
        assert("/keys/"@ =~= separator());
    }
    route.append(key);
    route
}

/// The request that reads `key`.
pub fn get_request(key: &str) -> (r: Request)
    ensures
        r.action_type is Get,
        r.key_value is None,
        r.route@ == keys_route(key@),
{
    Request { action_type: ActionType::Get, key_value: None, route: key_route(key) }
}

/// The request that sets a key to a value.
pub fn update_request(key_value: KeyValue) -> (r: Request)
    ensures
        r.action_type is Update,
        r.key_value == Some(key_value),
        r.route@ == "/keys"@,
{
    Request { action_type: ActionType::Update, key_value: Some(key_value), route: "/keys".to_string() }
}

/// The request that deletes `key`.
pub fn delete_request(key: &str) -> (r: Request)
    ensures
        r.action_type is Delete,
        r.key_value is None,
        r.route@ == keys_route(key@),
{
    Request { action_type: ActionType::Delete, key_value: None, route: key_route(key) }
}

/// A pool of idle connections per partition, and each partition's address.
#[verifier::reject_recursive_types(C)]
pub struct PDBConnectionPool<C> {
    pool: Vec<VecDeque<C>>,
    addresses: Vec<String>,
}

impl<C> PDBConnectionPool<C> {
    /// One queue per address.
    #[verifier::type_invariant]
    spec fn wf(&self) -> bool {
        self.pool@.len() == self.addresses@.len()
    }

    /// The idle connections of each partition, oldest first.
    pub closed spec fn idle(&self) -> Seq<Seq<C>> {
        Seq::new(self.pool@.len(), |i: int| self.pool@[i]@)
    }

    /// The address of each partition.
    pub closed spec fn addresses(&self) -> Seq<Seq<char>> {
        Seq::new(self.addresses@.len(), |i: int| self.addresses@[i]@)
    }

    /// A pool with no idle connections for the given addresses.
    pub fn new(addresses: Vec<String>) -> (p: Self)
        ensures
            p.addresses() == Seq::new(addresses@.len(), |i: int| addresses@[i]@),
            p.idle() == Seq::new(addresses@.len(), |i: int| Seq::<C>::empty()),
    {
        let mut pool: Vec<VecDeque<C>> = Vec::new();
        let n = addresses.len();
        for i in 0..n
            invariant
                n == addresses@.len(),
                pool@.len() == i,
                forall|j: int| 0 <= j < i ==> (#[trigger] pool@[j])@ == Seq::<C>::empty(),
        {
            pool.push(VecDeque::new());
        }
        let p = PDBConnectionPool { pool, addresses };
        proof {
            assert(p.idle() =~= Seq::new(n as nat, |i: int| Seq::<C>::empty()));
            assert(p.addresses() =~= Seq::new(n as nat, |i: int| addresses@[i]@));
        }
        p
    }

    /// The number of partitions.
    pub fn partitions(&self) -> (n: usize)
        ensures
            n == self.addresses().len(),
            n == self.idle().len(),
    {
        proof {
            use_type_invariant(self);
        }
        self.addresses.len()
    }

    /// The address of partition `index`.
    pub fn address(&self, index: usize) -> (a: &String)
        requires
            index < self.addresses().len(),
        ensures
            a@ == self.addresses()[index as int],
    {
        &self.addresses[index]
    }

    /// The partition that holds `key`.
    pub fn get_db_index(&self, key: &str) -> (index: usize)
        requires
            self.addresses().len() > 0,
        ensures
            index == partition_of(key@, self.addresses().len()),
            index < self.addresses().len(),
    {
        get_db_index(key, self.addresses.len())
    }

    /// Takes the oldest idle connection of partition `index`; `None` where it
    /// has none, and then a new connection is to be opened to its address.
    pub fn get_connection(&mut self, index: usize) -> (conn: Option<C>)
        requires
            index < old(self).addresses().len(),
        ensures
            old(self).idle().len() == old(self).addresses().len(),
            final(self).idle().len() == final(self).addresses().len(),
            final(self).addresses() == old(self).addresses(),
            old(self).idle()[index as int].len() == 0 ==> conn is None && final(self).idle()
                == old(self).idle(),
            old(self).idle()[index as int].len() > 0 ==> conn == Some(old(self).idle()[index as int][0])
                && final(self).idle() == old(self).idle().update(
                index as int,
                old(self).idle()[index as int].drop_first(),
            ),
    {
        proof {
            use_type_invariant(&*self);
        }
        let conn = self.pool[index].pop_front();
        proof {
            assert(self.idle() =~= if old(self).idle()[index as int].len() == 0 {
                old(self).idle()
            } else {
                old(self).idle().update(index as int, old(self).idle()[index as int].drop_first())
            });
            assert(self.addresses() =~= old(self).addresses());
        }
        conn
    }

    /// Puts a connection back as the newest idle connection of partition
    /// `index`.
    pub fn return_connection(&mut self, conn: C, index: usize)
        requires
            index < old(self).addresses().len(),
        ensures
            old(self).idle().len() == old(self).addresses().len(),
            final(self).idle().len() == final(self).addresses().len(),
            final(self).addresses() == old(self).addresses(),
            final(self).idle() == old(self).idle().update(
                index as int,
                old(self).idle()[index as int].push(conn),
            ),
    {
        proof {
            use_type_invariant(&*self);
        }
        self.pool[index].push_back(conn);
        proof {
            assert(self.idle() =~= old(self).idle().update(
                index as int,
                old(self).idle()[index as int].push(conn),
            ));
            assert(self.addresses() =~= old(self).addresses());
        }
    }
}

} // verus!
