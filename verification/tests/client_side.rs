use std::collections::hash_map::DefaultHasher;
use std::hash::{Hash, Hasher};

use patrick_db::client::{self, Config, PDBConnectionPool};

fn reference_hash(s: &str) -> u32 {
    let mut h = DefaultHasher::new();
    s.hash(&mut h);
    h.finish() as u32
}

#[test]
fn calculate_hash_is_default_hasher_low_bits() {
    for s in ["", "foo", "127.0.0.1:8080", "a much longer key with spaces"] {
        assert_eq!(client::calculate_hash(s), reference_hash(s));
    }
    assert_eq!(client::calculate_hash("foo"), client::calculate_hash("foo"));
}

#[test]
fn db_index_in_range_and_stable() {
    for n in 1..6usize {
        for key in ["a", "b", "foo", "bar", "key-42"] {
            let i = client::get_db_index(key, n);
            assert!(i < n);
            assert_eq!(i, reference_hash(key) as usize % n);
            assert_eq!(i, client::get_db_index(key, n));
        }
    }
    assert_eq!(client::get_db_index("anything", 1), 0);
}

#[test]
fn config_default() {
    let c = Config::default();
    assert_eq!(c.min_connections, 10);
    assert_eq!(c.addresses, vec!["127.0.0.1:8080".to_string()]);
}

#[test]
fn requests_carry_routes() {
    assert_eq!(client::key_route("foo"), "/keys/foo");
    let g = client::get_request("foo");
    assert_eq!(g.route, "/keys/foo");
    assert!(g.key_value.is_none());
    let d = client::delete_request("bar");
    assert_eq!(d.route, "/keys/bar");
    let u = client::update_request(client::KeyValue { key: "k".to_string(), value: vec![1] });
    assert_eq!(u.route, "/keys");
    assert_eq!(u.key_value.unwrap().value, vec![1]);
}

#[test]
fn pool_reuses_connections_in_order() {
    let mut pool: PDBConnectionPool<u32> =
        PDBConnectionPool::new(vec!["127.0.0.1:8080".to_string(), "127.0.0.1:8082".to_string()]);
    assert_eq!(pool.partitions(), 2);
    assert_eq!(pool.address(1), "127.0.0.1:8082");
    assert_eq!(pool.get_connection(0), None);
    pool.return_connection(10, 0);
    pool.return_connection(11, 0);
    pool.return_connection(20, 1);
    assert_eq!(pool.get_connection(0), Some(10));
    assert_eq!(pool.get_connection(1), Some(20));
    assert_eq!(pool.get_connection(0), Some(11));
    assert_eq!(pool.get_connection(0), None);
    let i = pool.get_db_index("foo");
    assert_eq!(i, client::get_db_index("foo", 2));
}
