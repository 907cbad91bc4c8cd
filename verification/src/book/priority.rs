//! The priority chapter: its charts, its page text, and what the clients
//! and the server of its run decide at each step.
use core::time::Duration;
use vstd::prelude::*;
use crate::book::{md, sql, vega, Context};
use crate::book::charts::chart;
use crate::book::fifo::{charted, with_line};
use crate::duration::duration_nanos;
use crate::ring_deque::Behavior;
use crate::text::{decimal, push_decimal};

verus! {

/// The query of the counts named `count` in the metrics file `p`, of the
/// queue `queue_name` when one is given.
pub open spec fn count_query(p: Seq<char>, count: Seq<char>, queue_name: Seq<char>) -> Seq<char> {
    let q = "\n    SELECT\n        epoch_ms(timestamp) as timestamp,\n        value\n    FROM read_parquet('"@ + p + "')\n    WHERE\n        name == '"@ + count + "'\n        AND kind = 'count'\n    "@;
    if queue_name.len() == 0 {
        q
    } else {
        q + "  AND attr_queue_name = '"@ + queue_name + "'"@
    }
}

/// Charts the counts named `count` in the metrics file `p`, of the queue
/// `queue_name` when it is not empty, with the chart `template`.
pub fn count_graph(ctx: &mut Context, p: &str, count: &str, queue_name: &str, template: &str)
    ensures
        final(ctx)@ == charted(old(ctx)@, count_query(p@, count@, queue_name@), template@),
{
    let mut q = String::new();
    q.append("\n    SELECT\n        epoch_ms(timestamp) as timestamp,\n        value\n    FROM read_parquet('");
    q.append(p);
    q.append("')\n    WHERE\n        name == '");
    q.append(count);
    q.append("'\n        AND kind = 'count'\n    ");
    if !queue_name.is_empty() {
        q.append("  AND attr_queue_name = '");
        q.append(queue_name);
        q.append("'");
    }
    let tsv = sql(ctx, q.as_str());
    let spec = chart(template, tsv.as_str());
    vega(ctx, spec.as_str());
}

/// The section of the first run: for each client, a heading and the chart
/// of the requests popped from its queue in the metrics file `stats`.
pub fn first_example(ctx: &mut Context, stats: &str, template: &str)
    ensures
        ({
            let a = charted(with_line(old(ctx)@, "## Client A"@), count_query(stats@, "pop"@, "client_a"@), template@);
            final(ctx)@ == charted(with_line(a, "## Client B"@), count_query(stats@, "pop"@, "client_b"@), template@)
        }),
{
    md(ctx, "## Client A");
    count_graph(ctx, stats, "pop", "client_a", template);
    md(ctx, "## Client B");
    count_graph(ctx, stats, "pop", "client_b", template);
}

/// The queue each client of the first run sends to.
pub fn client_behavior() -> (r: Behavior)
    ensures
        r == Behavior::Backpressure(10000),
{
    Behavior::Backpressure(10000)
}

/// What a client of the run does next.
#[derive(Debug)]
pub enum BurstMove {
    /// send the request `(round, id)` to the back of its queue
    Send(u64, u64),
    /// wait this long
    Sleep(Duration),
    /// all rounds are sent
    Done,
}

/// A client that, `rounds` times, sends a burst of `burst` requests
/// `(round, 0)` to `(round, burst - 1)` and then waits `latency`. `round`
/// and `id` are where it is.
pub struct BurstClient {
    pub burst: u64,
    pub rounds: u64,
    pub latency: Duration,
    pub round: u64,
    pub id: u64,
}

impl BurstClient {
    /// A client at the start of its first round.
    pub fn new(burst: u64, rounds: u64, latency: Duration) -> (r: BurstClient)
        ensures
            r.burst == burst,
            r.rounds == rounds,
            r.latency == latency,
            r.round == 0,
            r.id == 0,
    {
        BurstClient { burst, rounds, latency, round: 0, id: 0 }
    }

    /// The client's next move: once every round is sent, nothing; within a
    /// round, the next request of the burst; after the burst, the wait, and
    /// the next round starts.
    pub fn step(&mut self) -> (r: BurstMove)
        requires
            old(self).id <= old(self).burst,
        ensures
            final(self).burst == old(self).burst,
            final(self).rounds == old(self).rounds,
            final(self).latency == old(self).latency,
            final(self).id <= final(self).burst,
            old(self).round >= old(self).rounds ==> r is Done && final(self).round == old(self).round && final(self).id
                == old(self).id,
            old(self).round < old(self).rounds && old(self).id < old(self).burst ==> r == BurstMove::Send(
                old(self).round,
                old(self).id,
            ) && final(self).round == old(self).round && final(self).id == old(self).id + 1,
            old(self).round < old(self).rounds && old(self).id == old(self).burst ==> r == BurstMove::Sleep(
                old(self).latency,
            ) && final(self).round == old(self).round + 1 && final(self).id == 0,
    {
        if self.round >= self.rounds {
            BurstMove::Done
        } else if self.id < self.burst {
            let r = BurstMove::Send(self.round, self.id);
            self.id = self.id + 1;
            r
        } else {
            self.round = self.round + 1;
            self.id = 0;
            BurstMove::Sleep(self.latency)
        }
    }
}

/// The first client: three bursts of 150 requests, 200 ms apart.
pub fn client_a() -> (r: BurstClient)
    ensures
        r.burst == 150,
        r.rounds == 3,
        duration_nanos(r.latency) == 200_000_000,
        r.round == 0,
        r.id == 0,
{
    BurstClient::new(150, 3, Duration::from_millis(200))
}

/// The second client: a thousand bursts of 10 requests, 2 ms apart.
pub fn client_b() -> (r: BurstClient)
    ensures
        r.burst == 10,
        r.rounds == 1000,
        duration_nanos(r.latency) == 2_000_000,
        r.round == 0,
        r.id == 0,
{
    BurstClient::new(10, 1000, Duration::from_millis(2))
}

/// Which client's queue the server takes a request from.
#[derive(Debug, Clone, Copy, PartialEq, Eq)]
pub enum Pick {
    A,
    B,
}

/// What the server of the run does next.
#[derive(Debug)]
pub enum ServerStep {
    /// take the request at the front of that client's queue
    Take(Pick),
    /// no request waits: wait for one
    Wait,
    /// the burst is served: wait this long
    Sleep(Duration),
}

/// The server of the run: in bursts of `burst` requests, it takes each from
/// the first client's queue when one waits there and else from the second's,
/// then waits 1 ms. `served` is how many of the burst it has taken.
pub struct PriorityServer {
    pub burst: u64,
    pub served: u64,
}

impl PriorityServer {
    /// The run's server, with bursts of 5.
    pub fn new() -> (r: PriorityServer)
        ensures
            r.burst == 5,
            r.served == 0,
    {
        PriorityServer { burst: 5, served: 0 }
    }

    /// The server's next move, given whether a request waits at the front of
    /// each client's queue (a closed queue never has one).
    pub fn step(&mut self, a_ready: bool, b_ready: bool) -> (r: ServerStep)
        requires
            old(self).served <= old(self).burst,
        ensures
            final(self).burst == old(self).burst,
            final(self).served <= final(self).burst,
            old(self).served == old(self).burst ==> (r matches ServerStep::Sleep(d) && duration_nanos(d) == 1_000_000)
                && final(self).served == 0,
            old(self).served < old(self).burst && a_ready ==> r == ServerStep::Take(Pick::A) && final(self).served
                == old(self).served + 1,
            old(self).served < old(self).burst && !a_ready && b_ready ==> r == ServerStep::Take(Pick::B)
                && final(self).served == old(self).served + 1,
            old(self).served < old(self).burst && !a_ready && !b_ready ==> r is Wait && final(self).served == old(
                self,
            ).served,
    {
        if self.served == self.burst {
            self.served = 0;
            ServerStep::Sleep(Duration::from_millis(1))
        } else if a_ready {
            self.served = self.served + 1;
            ServerStep::Take(Pick::A)
        } else if b_ready {
            self.served = self.served + 1;
            ServerStep::Take(Pick::B)
        } else {
            ServerStep::Wait
        }
    }
}

/// The line the server prints for the request `(round, id)` of the client
/// `from`.
pub open spec fn process_line(round: nat, id: nat, from: Seq<char>) -> Seq<char> {
    "process ("@ + decimal(round) + ", "@ + decimal(id) + ") from "@ + from
}

/// The line the server prints for the request `req` of the client `from`.
pub fn process(req: (u64, u64), from: &str) -> (r: String)
    ensures
        r@ == process_line(req.0 as nat, req.1 as nat, from@),
{
    let mut r = String::new();
    r.append("process (");
    push_decimal(&mut r, req.0);
    r.append(", ");
    push_decimal(&mut r, req.1);
    r.append(") from ");
    r.append(from);
    r
}

} // verus!
