//! Total order broadcast through a sequencer.
//!
//! A replica that receives a message from a client asks the sequencer for
//! the next sequence number, answers the client, and broadcasts the message
//! with that number to all replicas. A replica delivers a broadcast message
//! only when its number is the number of messages it has delivered so far;
//! an earlier arrival waits. So every replica delivers the messages in the
//! order of their numbers.

use vstd::prelude::*;

verus! {

/// A replica's answer.
pub struct Response {
    pub message: String,
}

/// What a request asks for: the delivered messages, a new message from a
/// client, or a broadcast message with its sequence number.
pub enum ActionType {
    Get,
    Update,
    Tob,
}

/// A request to a replica.
pub struct Request {
    pub action_type: ActionType,
    pub message: String,
    pub sequence_number: u64,
}

/// The sequencer's answer: the number it assigned.
pub struct ResponseSequencer {
    pub counter: u64,
}

/// The delivery state of a replica.
pub struct Replica {
    addr: String,
    peer_addresses: Vec<String>,
    messages: Vec<String>,
}

/// The log after a broadcast message with number `seq` arrives: it is
/// appended where its number is the log's length.
pub open spec fn deliver(log: Seq<Seq<char>>, seq: u64, message: Seq<char>) -> Seq<Seq<char>> {
    if seq == log.len() {
        log.push(message)
    } else {
        log
    }
}

/// The log after a sequence of arrivals.
pub open spec fn deliver_all(log: Seq<Seq<char>>, arrivals: Seq<(u64, Seq<char>)>) -> Seq<Seq<char>>
    decreases arrivals.len(),
{
    if arrivals.len() == 0 {
        log
    } else {
        deliver_all(deliver(log, arrivals[0].0, arrivals[0].1), arrivals.drop_first())
    }
}

/// `log` holds, in order, the messages that the sequencer numbered 0, 1, ...
pub open spec fn follows(log: Seq<Seq<char>>, numbered: Map<int, Seq<char>>) -> bool {
    forall|i: int|
        0 <= i < log.len() ==> numbered.contains_key(i) && #[trigger] log[i] == numbered[i]
}

/// Each arrival carries the message that the sequencer gave its number.
pub open spec fn consistent(arrivals: Seq<(u64, Seq<char>)>, numbered: Map<int, Seq<char>>) -> bool {
    forall|j: int|
        0 <= j < arrivals.len() ==> numbered.contains_key(#[trigger] arrivals[j].0 as int)
            && numbered[arrivals[j].0 as int] == arrivals[j].1
}

/// The separator-joined concatenation of `parts`.
pub open spec fn join(parts: Seq<Seq<char>>, sep: Seq<char>) -> Seq<char>
    decreases parts.len(),
{
    if parts.len() == 0 {
        Seq::empty()
    } else if parts.len() == 1 {
        parts[0]
    } else {
        join(parts.drop_last(), sep) + sep + parts.last()
    }
}

/// One delivery keeps the numbering: where a replica's log holds the
/// messages numbered 0, 1, ... in order and a message arrives with the
/// number the sequencer gave it, the log afterwards still does.
pub proof fn lemma_deliver_follows(log: Seq<Seq<char>>, seq: u64, message: Seq<char>, numbered: Map<int, Seq<char>>)
    requires
        follows(log, numbered),
        numbered.contains_key(seq as int),
        numbered[seq as int] == message,
    ensures
        follows(deliver(log, seq, message), numbered),
{
    let next = deliver(log, seq, message);
    assert forall|i: int| 0 <= i < next.len() implies #[trigger] numbered.contains_key(i) && next[i]
        == numbered[i] by {
        if i < log.len() {
            assert(next[i] == log[i]);
        } else {
            assert(seq as int == i);
        }
    }
}

/// Total order: whatever the order and the repetitions in which the
/// numbered messages arrive, a replica's log only ever holds the messages
/// numbered 0, 1, 2, ... in that order.
pub proof fn lemma_delivery_follows_numbering(
    log: Seq<Seq<char>>,
    arrivals: Seq<(u64, Seq<char>)>,
    numbered: Map<int, Seq<char>>,
)
    requires
        follows(log, numbered),
        consistent(arrivals, numbered),
    ensures
        follows(deliver_all(log, arrivals), numbered),
        log.is_prefix_of(deliver_all(log, arrivals)),
    decreases arrivals.len(),
{
    if arrivals.len() > 0 {
        let next = deliver(log, arrivals[0].0, arrivals[0].1);
        assert(consistent(arrivals.drop_first(), numbered)) by {
            assert forall|j: int| 0 <= j < arrivals.drop_first().len() implies numbered.contains_key(
                #[trigger] arrivals.drop_first()[j].0 as int,
            ) && numbered[arrivals.drop_first()[j].0 as int] == arrivals.drop_first()[j].1 by {
                assert(arrivals.drop_first()[j] == arrivals[j + 1]);
            }
        }
        lemma_deliver_follows(log, arrivals[0].0, arrivals[0].1, numbered);
        lemma_delivery_follows_numbering(next, arrivals.drop_first(), numbered);
        assert(log.is_prefix_of(next));
    }
}

/// Replicas agree: two logs that both follow the sequencer's numbering hold
/// the same message at every position that both have.
pub proof fn lemma_replicas_agree(a: Seq<Seq<char>>, b: Seq<Seq<char>>, numbered: Map<int, Seq<char>>)
    requires
        follows(a, numbered),
        follows(b, numbered),
    ensures
        forall|i: int| 0 <= i < a.len() && i < b.len() ==> a[i] == b[i],
{
    assert forall|i: int| 0 <= i < a.len() && i < b.len() implies a[i] == b[i] by {
        assert(a[i] == numbered[i]);
        assert(b[i] == numbered[i]);
    }
}

impl Replica {
    /// The delivered messages, in order.
    pub closed spec fn log(&self) -> Seq<Seq<char>> {
        Seq::new(self.messages@.len(), |i: int| self.messages@[i]@)
    }

    /// The number of the next message to deliver: the number of messages
    /// delivered so far.
    pub open spec fn counter(&self) -> nat {
        self.log().len()
    }

    /// The replica's own address.
    pub closed spec fn addr(&self) -> Seq<char> {
        self.addr@
    }

    /// The addresses of the other replicas.
    pub closed spec fn peer_addresses(&self) -> Seq<Seq<char>> {
        Seq::new(self.peer_addresses@.len(), |i: int| self.peer_addresses@[i]@)
    }

    /// A replica that has delivered nothing.
    pub fn new(addr: String, peer_addresses: Vec<String>) -> (r: Replica)
        ensures
            r.log() == Seq::<Seq<char>>::empty(),
            r.counter() == 0,
            r.addr() == addr@,
            r.peer_addresses() == Seq::new(peer_addresses@.len(), |i: int| peer_addresses@[i]@),
    {
        let r = Replica { addr, peer_addresses, messages: Vec::new() };
        proof {
            assert(r.log() =~= Seq::<Seq<char>>::empty());
        }
        r
    }

    /// The number of the next message to deliver.
    pub fn next_sequence_number(&self) -> (n: u64)
        ensures
            n == self.counter(),
    {
        self.messages.len() as u64
    }

    /// The replica's own address.
    pub fn address(&self) -> (a: &String)
        ensures
            a@ == self.addr(),
    {
        &self.addr
    }

    /// The addresses of the other replicas.
    pub fn peers(&self) -> (p: &Vec<String>)
        ensures
            Seq::new(p@.len(), |i: int| p@[i]@) == self.peer_addresses(),
    {
        &self.peer_addresses
    }

    /// A broadcast message arrives: it is delivered (appended and the
    /// counter incremented) where its number is the counter, and otherwise
    /// left to wait. Returns whether it was delivered.
    pub fn handle_tob(&mut self, request: &Request) -> (delivered: bool)
        ensures
            delivered == (request.sequence_number == old(self).counter()),
            final(self).log() == deliver(old(self).log(), request.sequence_number, request.message@),
            delivered ==> final(self).counter() == old(self).counter() + 1,
            !delivered ==> final(self).counter() == old(self).counter(),
            final(self).addr() == old(self).addr(),
            final(self).peer_addresses() == old(self).peer_addresses(),
    {
        if request.sequence_number == self.messages.len() as u64 {
            self.messages.push(request.message.clone());
            proof {
                assert(self.log() =~= old(self).log().push(request.message@));
                assert(self.peer_addresses() =~= old(self).peer_addresses());
            }
            true
        } else {
            proof {
                assert(self.log() =~= old(self).log());
            }
            false
        }
    }

    /// The answer to a read: the delivered messages joined by commas.
    pub fn handle_get(&self) -> (r: Response)
        ensures
            r.message@ == join(self.log(), seq![',']),
    {
        let mut message = String::new();
        let n = self.messages.len();
        proof {
            reveal_strlit(",");
        }
        for i in 0..n
            invariant
                n == self.messages@.len(),
                message@ == join(self.log().subrange(0, i as int), seq![',']),
        {
            proof {
                reveal_strlit(",");
                assert(","@ =~= seq![',']);
            }
            if i > 0 {
                message.append(",");
            }
            message.append(self.messages[i].as_str());
            proof {
                let parts = self.log().subrange(0, i + 1);
                assert(parts.drop_last() =~= self.log().subrange(0, i as int));
                if i == 0 {
                    assert(message@ =~= parts[0]);
                } else {
                    assert(message@ =~= join(parts.drop_last(), seq![',']) + seq![','] + parts.last());
                }
            }
        }
        proof {
            assert(self.log().subrange(0, n as int) =~= self.log());
        }
        Response { message }
    }
}

/// The answer that reports success.
pub fn success() -> (r: Response)
    ensures
        r.message@ == "success"@,
{
    Response { message: "success".to_string() }
}

/// A client's message, numbered by the sequencer as `sequence_number`: the
/// request to broadcast.
pub fn handle_update_key(request: Request, sequence_number: u64) -> (r: Request)
    ensures
        r.action_type is Tob,
        r.message == request.message,
        r.sequence_number == sequence_number,
{
    Request { action_type: ActionType::Tob, message: request.message, sequence_number }
}

/// The sequencer: hands out consecutive numbers from 0.
pub struct Sequencer {
    counter: u64,
}

impl Sequencer {
    /// The next number to hand out.
    pub closed spec fn counter(&self) -> u64 {
        self.counter
    }

    /// A sequencer that starts at 0.
    pub fn new() -> (s: Sequencer)
        ensures
            s.counter() == 0,
    {
        Sequencer { counter: 0 }
    }

    /// Hands out the current number and moves to the next, wrapping around
    /// after the largest.
    pub fn next(&mut self) -> (n: u64)
        ensures
            n == old(self).counter(),
            final(self).counter() == next_number(old(self).counter()),
    {
        let n = self.counter;
        self.counter = self.counter.wrapping_add(1);
        n
    }
}

/// The numbers that `k` requests to a sequencer at `start` receive.
pub open spec fn numbers_from(start: u64, k: nat) -> Seq<u64> {
    Seq::new(k, |i: int| ((start + i) % 0x1_0000_0000_0000_0000) as u64)
}

/// The sequencer never hands out a number twice within one round of the
/// number space: `k` consecutive requests get distinct numbers.
pub proof fn lemma_numbers_distinct(start: u64, k: nat)
    requires
        k <= 0x1_0000_0000_0000_0000,
    ensures
        numbers_from(start, k).no_duplicates(),
{
    let s = numbers_from(start, k);
    assert forall|i: int, j: int| 0 <= i < s.len() && 0 <= j < s.len() && i != j implies s[i]
        != s[j] by {
        let m: int = 0x1_0000_0000_0000_0000;
        assert(0 <= start + i < 2 * m);
        assert(0 <= start + j < 2 * m);
        if start + i < m && start + j < m {
        } else if start + i >= m && start + j >= m {
            assert((start + i) % m == start + i - m) by (nonlinear_arith)
                requires m <= start + i < 2 * m, m > 0;
            assert((start + j) % m == start + j - m) by (nonlinear_arith)
                requires m <= start + j < 2 * m, m > 0;
        } else if start + i < m {
            assert((start + i) % m == start + i) by (nonlinear_arith)
                requires 0 <= start + i < m, m > 0;
            assert((start + j) % m == start + j - m) by (nonlinear_arith)
                requires m <= start + j < 2 * m, m > 0;
        } else {
            assert((start + j) % m == start + j) by (nonlinear_arith)
                requires 0 <= start + j < m, m > 0;
            assert((start + i) % m == start + i - m) by (nonlinear_arith)
                requires m <= start + i < 2 * m, m > 0;
        }
    }
}

/// One step of the sequencer hands out the number that `numbers_from`
/// gives first, and moves to the one it gives second.
pub proof fn lemma_next_is_numbers_from(start: u64)
    ensures
        numbers_from(start, 2)[0] == start,
        numbers_from(start, 2)[1] == (if start == u64::MAX {
            0
        } else {
            start + 1
        }),
{
    assert((start as int) % 0x1_0000_0000_0000_0000int == start);
    if start == u64::MAX {
        assert((start as int + 1) % 0x1_0000_0000_0000_0000int == 0);
    } else {
        assert((start as int + 1) % 0x1_0000_0000_0000_0000int == start + 1);
    }
}

/// The views of a list of strings.
pub open spec fn views(v: Seq<String>) -> Seq<Seq<char>> {
    Seq::new(v.len(), |i: int| v[i]@)
}

proof fn lemma_join_push(parts: Seq<Seq<char>>, last: Seq<char>, c: char)
    ensures
        join(parts.push(last.push(c)), seq![',']) == join(parts.push(last), seq![',']).push(c),
{
    let a = parts.push(last.push(c));
    let b = parts.push(last);
    assert(a.drop_last() =~= parts);
    assert(b.drop_last() =~= parts);
    if parts.len() == 0 {
        assert(a[0] == last.push(c));
        assert(b[0] == last);
    } else {
        assert(join(a, seq![',']) =~= join(parts, seq![',']) + seq![','] + last.push(c));
        assert(join(b, seq![',']) =~= join(parts, seq![',']) + seq![','] + last);
    }
}

proof fn lemma_join_new_part(parts: Seq<Seq<char>>, last: Seq<char>)
    ensures
        join(parts.push(last).push(Seq::empty()), seq![',']) == join(parts.push(last), seq![
            ',',
        ]).push(','),
{
    let a = parts.push(last).push(Seq::<char>::empty());
    assert(a.drop_last() =~= parts.push(last));
    assert(join(a, seq![',']) =~= join(parts.push(last), seq![',']) + seq![','] + Seq::<char>::empty());
}

/// The messages in a comma-separated text, in order. Joining them with
/// commas gives the text back, and none holds a comma.
pub fn split_messages(text: &str) -> (parts: Vec<String>)
    ensures
        join(views(parts@), seq![',']) == text@,
        forall|i: int| 0 <= i < parts@.len() ==> !(#[trigger] parts@[i]@).contains(','),
        parts@.len() >= 1,
{
    let n = text.unicode_len();
    let mut parts: Vec<String> = Vec::new();
    let mut start: usize = 0;
    let mut i: usize = 0;
    while i < n
        invariant
            n == text@.len(),
            start <= i <= n,
            join(views(parts@).push(text@.subrange(start as int, i as int)), seq![','])
                == text@.subrange(0, i as int),
            forall|k: int| 0 <= k < parts@.len() ==> !(#[trigger] parts@[k]@).contains(','),
            !text@.subrange(start as int, i as int).contains(','),
        decreases n - i,
    {
        let c = text.get_char(i);
        let ghost piece = text@.subrange(start as int, i as int);
        if c == ',' {
            let part = text.substring_char(start, i).to_string();
            let ghost before = views(parts@);
            parts.push(part);
            proof {
                assert(views(parts@) =~= before.push(piece));
                lemma_join_new_part(before, piece);
                assert(text@.subrange(0, i + 1) =~= text@.subrange(0, i as int).push(','));
                assert(text@.subrange(i + 1, i + 1) =~= Seq::<char>::empty());
                assert forall|k: int| 0 <= k < parts@.len() implies !(#[trigger] parts@[k]@).contains(
                    ',',
                ) by {
                    if k == parts@.len() - 1 {
                        assert(parts@[k]@ == piece);
                    }
                }
            }
            i = i + 1;
            start = i;
        } else {
            proof {
                lemma_join_push(views(parts@), piece, c);
                assert(text@.subrange(start as int, i + 1) =~= piece.push(c));
                assert(text@.subrange(0, i + 1) =~= text@.subrange(0, i as int).push(c));
                assert(!piece.push(c).contains(',')) by {
                    if piece.push(c).contains(',') {
                        let k = choose|k: int| 0 <= k < piece.push(c).len() && piece.push(c)[k] == ',';
                        if k < piece.len() {
                            assert(piece[k] == ',');
                        }
                    }
                }
            }
            i = i + 1;
        }
    }
    let last = text.substring_char(start, n).to_string();
    let ghost before = views(parts@);
    parts.push(last);
    proof {
        assert(views(parts@) =~= before.push(text@.subrange(start as int, n as int)));
        assert(text@.subrange(0, n as int) =~= text@);
        assert forall|k: int| 0 <= k < parts@.len() implies !(#[trigger] parts@[k]@).contains(',') by {
            if k == parts@.len() - 1 {
                assert(parts@[k]@ == text@.subrange(start as int, n as int));
            }
        }
    }
    parts
}

/// Decides what follows a failed connection attempt: with `retries`
/// retries made so far and at most `max_retries` allowed, another attempt
/// (and the new count) while fewer than the maximum have been made, and
/// giving up otherwise.
pub fn retry_after_failure(retries: u32, max_retries: u32) -> (next: Option<u32>)
    ensures
        retries < max_retries ==> next == Some((retries + 1) as u32),
        retries >= max_retries ==> next is None,
{
    if retries < max_retries {
        Some(retries + 1)
    } else {
        None
    }
}

/// The next number after `n`, wrapping around after the largest.
pub open spec fn next_number(n: u64) -> u64 {
    if n == u64::MAX {
        0
    } else {
        (n + 1) as u64
    }
}

/// The numbers that `k` successive calls of `next` hand out, starting at
/// `start`.
pub open spec fn handed_out(start: u64, k: nat) -> Seq<u64>
    decreases k,
{
    if k == 0 {
        Seq::empty()
    } else {
        seq![start] + handed_out(next_number(start), (k - 1) as nat)
    }
}

/// `k` successive calls of `next` from `start` hand out `start`, `start + 1`,
/// ... (modulo the number space); from a new sequencer, 0, 1, ..., k - 1;
/// and no number twice within one round of the number space.
pub proof fn lemma_handed_out_numbers(start: u64, k: nat)
    ensures
        handed_out(start, k) == numbers_from(start, k),
        k <= 0x1_0000_0000_0000_0000 ==> handed_out(start, k).no_duplicates(),
        start == 0 && k <= 0x1_0000_0000_0000_0000 ==> forall|i: int|
            0 <= i < k ==> #[trigger] handed_out(start, k)[i] == i,
    decreases k,
{
    let m: int = 0x1_0000_0000_0000_0000;
    if k > 0 {
        lemma_handed_out_numbers(next_number(start), (k - 1) as nat);
        let a = handed_out(start, k);
        let b = numbers_from(start, k);
        let rest = numbers_from(next_number(start), (k - 1) as nat);
        assert forall|i: int| 0 <= i < k implies a[i] == b[i] by {
            if i == 0 {
                assert((start as int) % m == start as int);
            } else {
                assert(a[i] == rest[i - 1]);
                if start == u64::MAX {
                    assert((0 + (i - 1)) % m == (start as int + i) % m) by (nonlinear_arith)
                        requires start == m - 1, m > 0;
                } else {
                    assert((start as int + 1 + (i - 1)) == start as int + i);
                }
            }
        }
        assert(a =~= b);
    }
    if k <= m {
        lemma_numbers_distinct(start, k);
    }
    if start == 0 && k <= m {
        assert forall|i: int| 0 <= i < k implies #[trigger] handed_out(start, k)[i] == i by {
            assert(numbers_from(0, k)[i] == (i % m) as u64);
            assert(i % m == i) by (nonlinear_arith)
                requires 0 <= i < m, m > 0;
        }
    }
}

/// Two replicas whose logs follow the same numbering and have delivered as
/// many messages hold the same log, and so answer a read alike.
pub proof fn lemma_same_count_same_log(a: Seq<Seq<char>>, b: Seq<Seq<char>>, numbered: Map<int, Seq<char>>)
    requires
        follows(a, numbered),
        follows(b, numbered),
        a.len() == b.len(),
    ensures
        a == b,
        join(a, seq![',']) == join(b, seq![',']),
{
    lemma_replicas_agree(a, b, numbered);
    assert(a =~= b);
}

} // verus!
