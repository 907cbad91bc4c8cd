//! The FIFO chapter: the charts of its runs, its page text, and what the
//! client and the server of a run decide at each step.
use core::time::Duration;
use vstd::prelude::*;
use crate::book::{copy_statement, emit_path, file_name, md, sql, vega, Context, ContextView};
use crate::book::charts::{chart, replace_all, url_pattern};
use crate::duration::duration_nanos;
use crate::ring_deque::{Behavior, Closed};
use crate::text::{decimal, push_decimal};

verus! {

/// The query of the sojourn times, in milliseconds, recorded with `reason`
/// in the metrics file `p`.
pub open spec fn latency_query(p: Seq<char>, reason: Seq<char>) -> Seq<char> {
    "\n    SELECT\n        epoch_ms(timestamp) as timestamp,\n        value / 1000000 as value\n    FROM read_parquet('"@ + p + "')\n    WHERE\n        name == 'sojourn_time'\n        AND kind = 'measure'\n        AND attr_reason = '"@ + reason + "'\n    "@
}

/// The query of the counts named `count` recorded with `reason` in the
/// metrics file `p`.
pub open spec fn count_query(p: Seq<char>, count: Seq<char>, reason: Seq<char>) -> Seq<char> {
    "\n    SELECT\n        epoch_ms(timestamp) as timestamp,\n        value\n    FROM read_parquet('"@ + p + "')\n    WHERE\n        name == '"@ + count + "'\n        AND kind = 'count'\n        AND attr_reason = '"@ + reason + "'\n    "@
}

/// What a chart of the query `q` asks of the page: the query is copied to a
/// file, and the chart `template`, filled in with that file, is shown.
pub open spec fn charted(before: ContextView, q: Seq<char>, template: Seq<char>) -> ContextView {
    let tsv = emit_path(before.dir, q, Some(seq!['t', 's', 'v']));
    let spec = replace_all(template, url_pattern(), file_name(tsv));
    let path = emit_path(before.dir, spec, Some(seq!['j', 's', 'o', 'n']));
    ContextView {
        statements: before.statements.push(copy_statement(q, tsv)),
        files: before.files.push((path, spec)),
        out: before.out + seq!['#', 'V', 'E', 'G', 'A', '('] + path + seq![')', '\n'],
        ..before
    }
}

/// Charts the sojourn times recorded with `reason` in the metrics file `p`
/// with the chart `template`.
pub fn latency_graph(ctx: &mut Context, p: &str, reason: &str, template: &str)
    ensures
        final(ctx)@ == charted(old(ctx)@, latency_query(p@, reason@), template@),
{
    let mut q = String::new();
    q.append("\n    SELECT\n        epoch_ms(timestamp) as timestamp,\n        value / 1000000 as value\n    FROM read_parquet('");
    q.append(p);
    q.append("')\n    WHERE\n        name == 'sojourn_time'\n        AND kind = 'measure'\n        AND attr_reason = '");
    q.append(reason);
    q.append("'\n    ");
    let tsv = sql(ctx, q.as_str());
    let spec = chart(template, tsv.as_str());
    vega(ctx, spec.as_str());
}

/// Charts the counts named `count` recorded with `reason` in the metrics
/// file `p` with the chart `template`.
pub fn count_graph(ctx: &mut Context, p: &str, count: &str, reason: &str, template: &str)
    ensures
        final(ctx)@ == charted(old(ctx)@, count_query(p@, count@, reason@), template@),
{
    let mut q = String::new();
    q.append("\n    SELECT\n        epoch_ms(timestamp) as timestamp,\n        value\n    FROM read_parquet('");
    q.append(p);
    q.append("')\n    WHERE\n        name == '");
    q.append(count);
    q.append("'\n        AND kind = 'count'\n        AND attr_reason = '");
    q.append(reason);
    q.append("'\n    ");
    let tsv = sql(ctx, q.as_str());
    let spec = chart(template, tsv.as_str());
    vega(ctx, spec.as_str());
}

/// The page after a line of markdown `line`.
pub open spec fn with_line(before: ContextView, line: Seq<char>) -> ContextView {
    ContextView { out: before.out + line + seq!['\n'], ..before }
}

/// The section of the run whose server answers at once: a `Latency` heading
/// and the chart of the sojourn times of the metrics file `stats`.
pub fn no_latency(ctx: &mut Context, stats: &str, template: &str)
    ensures
        final(ctx)@ == charted(with_line(old(ctx)@, "#### Latency"@), latency_query(stats@, "explicit"@), template@),
{
    md(ctx, "#### Latency");
    latency_graph(ctx, stats, "explicit", template);
}

/// The section of a run whose server takes a fixed time per message: a bold
/// `Latency` and the chart of the sojourn times of `stats`.
pub fn fixed_server_latency(ctx: &mut Context, stats: &str, template: &str)
    ensures
        final(ctx)@ == charted(with_line(old(ctx)@, "**Latency**"@), latency_query(stats@, "explicit"@), template@),
{
    md(ctx, "**Latency**");
    latency_graph(ctx, stats, "explicit", template);
}

/// The section of a run whose client and server take random times, as
/// `fixed_server_latency` writes it.
pub fn random_server_latency(ctx: &mut Context, stats: &str, template: &str)
    ensures
        final(ctx)@ == charted(with_line(old(ctx)@, "**Latency**"@), latency_query(stats@, "explicit"@), template@),
{
    fixed_server_latency(ctx, stats, template);
}

/// The depth at which the load-shedding run's queue rejects a push.
pub fn max_queue_depth() -> (r: usize)
    ensures
        r == 75,
{
    75
}

/// The queue of the load-shedding run: it rejects a push at
/// `max_queue_depth`.
pub fn load_shedding_behavior() -> (r: Behavior)
    ensures
        r == Behavior::Reject(75),
{
    Behavior::Reject(max_queue_depth())
}

/// The formula of the queue length under load shedding.
pub open spec fn shedding_formula() -> Seq<char> {
    "\\\\[ L = \\frac{\\lambda - \\sigma}{\\mu} \\\\]"@
}

/// The section of the load-shedding run: the formula of the queue length
/// between empty lines, the chart of the sojourn times of `stats` under a
/// bold `Latency`, and the chart of the rejected pushes under a bold
/// `Errors`.
pub fn load_shedding_latency(ctx: &mut Context, stats: &str, latency_template: &str, count_template: &str)
    ensures
        ({
            let formula = with_line(with_line(with_line(old(ctx)@, seq![]), shedding_formula()), seq![]);
            let latency = charted(with_line(formula, "**Latency**"@), latency_query(stats@, "explicit"@), latency_template@);
            final(ctx)@ == charted(with_line(latency, "**Errors**"@), count_query(stats@, "push"@, "reject"@), count_template@)
        }),
{
    proof {
        reveal_strlit("");
    }
    assert(""@ =~= Seq::<char>::empty());
    md(ctx, "");
    md(ctx, "\\\\[ L = \\frac{\\lambda - \\sigma}{\\mu} \\\\]");
    md(ctx, "");
    fixed_server_latency(ctx, stats, latency_template);
    md(ctx, "**Errors**");
    count_graph(ctx, stats, "push", "reject", count_template);
}

/// What the client of a run does next.
#[derive(Debug)]
pub enum ClientMove {
    /// send this message to the back of the queue
    Send(u64),
    /// wait this long
    Sleep(Duration),
}

/// The client of a run: it sends the messages 0, 1, 2, ... to the back of
/// the queue and waits after each. `next` is the message it is at; `sent`
/// tells whether it has sent it.
pub struct Client {
    pub next: u64,
    pub sent: bool,
}

impl Client {
    /// A client that has sent nothing.
    pub fn new() -> (r: Client)
        ensures
            r.next == 0,
            !r.sent,
    {
        Client { next: 0, sent: false }
    }

    /// The client's next move when it waits `pause` after each message:
    /// send the message it is at; once sent, wait and go on to the next one.
    pub fn step(&mut self, pause: Duration) -> (r: ClientMove)
        requires
            old(self).sent ==> old(self).next < u64::MAX,
        ensures
            !old(self).sent ==> r == ClientMove::Send(old(self).next) && final(self).next == old(self).next
                && final(self).sent,
            old(self).sent ==> r == ClientMove::Sleep(pause) && final(self).next == old(self).next + 1
                && !final(self).sent,
    {
        if self.sent {
            self.next = self.next + 1;
            self.sent = false;
            ClientMove::Sleep(pause)
        } else {
            self.sent = true;
            ClientMove::Send(self.next)
        }
    }
}

/// What the server of a run does next.
#[derive(Debug)]
pub enum ServerMove {
    /// wait this long
    Sleep(Duration),
    /// print this line
    Print(String),
    /// the queue is closed: stop
    Stop,
}

/// The line the server prints for a message it handled.
pub open spec fn handled_line(message: nat) -> Seq<char> {
    "handled "@ + decimal(message)
}

/// What the server does with what its receive from the front of the queue
/// gave: it stops once the queue is closed; else it waits `delay`, when
/// there is one, and prints `handled <message>`.
pub fn serve(received: Result<u64, Closed>, delay: Option<Duration>) -> (r: Vec<ServerMove>)
    ensures
        received is Err ==> r@.len() == 1 && r@[0] is Stop,
        received is Ok ==> r@.len() == (if delay is Some { 2int } else { 1int }),
        received is Ok ==> (r@.last() matches ServerMove::Print(line) && line@ == handled_line(received->Ok_0 as nat)),
        received is Ok && delay is Some ==> r@[0] == ServerMove::Sleep(delay->Some_0),
{
    let mut r: Vec<ServerMove> = Vec::new();
    match received {
        Err(_) => {
            r.push(ServerMove::Stop);
        },
        Ok(m) => {
            if let Some(d) = delay {
                r.push(ServerMove::Sleep(d));
            }
            let mut line = String::new();
            proof {
                reveal_strlit("handled ");
            }
            line.append("handled ");
            push_decimal(&mut line, m);
            r.push(ServerMove::Print(line));
        },
    }
    r
}

/// The fixed time the server of the fixed-latency run takes per message.
pub fn fixed_server_delay() -> (r: Duration)
    ensures
        duration_nanos(r) == 2_000_000,
{
    Duration::from_millis(2)
}

/// The time the client of the first runs waits after each message.
pub fn fixed_client_pause() -> (r: Duration)
    ensures
        duration_nanos(r) == 1_000_000,
{
    Duration::from_millis(1)
}

} // verus!
