use vstd::prelude::*;
use crate::referral::{extract_referral, referral_of};
use crate::text::{join, joined, texts};
use vstd::string::StringExecFns;

verus! {

/// The server named by the first line of `lines` that announces one.
pub open spec fn first_referral(lines: Seq<Seq<char>>) -> Option<Seq<char>>
    decreases lines.len(),
{
    if lines.len() == 0 {
        None
    } else {
        match referral_of(lines[0]) {
            Some(h) => Some(h),
            None => first_referral(lines.drop_first()),
        }
    }
}

/// How a resolution ended.
pub enum Ending {
    /// The last server queried gave the final answer.
    Done,
    /// A server referred to `host`, which had been queried before; `chain` holds the servers
    /// queried, in order.
    Loop { host: Seq<char>, chain: Seq<Seq<char>> },
}

/// The state of one resolution, as a value.
pub struct Run {
    /// The server to query next.
    pub host: Seq<char>,
    /// The servers queried before `host`, in order.
    pub visited: Seq<Seq<char>>,
    /// How the resolution ended, once it has.
    pub ending: Option<Ending>,
    /// Every server queried, in order.
    pub exchanges: Seq<Seq<char>>,
    /// Every line received, in order.
    pub output: Seq<Seq<char>>,
}

/// A resolution that begins at `host`: an empty host leaves nothing to query.
pub open spec fn start(host: Seq<char>) -> Run {
    Run {
        host,
        visited: seq![],
        ending: if host.len() == 0 {
            Some(Ending::Done)
        } else {
            None
        },
        exchanges: seq![],
        output: seq![],
    }
}

/// What one exchange with `r.host`, which answered `response`, makes of `r`.
pub open spec fn hop(r: Run, response: Seq<Seq<char>>) -> Run {
    if r.ending is Some {
        r
    } else {
        let exchanges = r.exchanges.push(r.host);
        let output = r.output + response;
        match first_referral(response) {
            None => Run { ending: Some(Ending::Done), exchanges, output, ..r },
            Some(next) => {
                if next == r.host {
                    Run { ending: Some(Ending::Done), exchanges, output, ..r }
                } else if r.visited.contains(next) {
                    Run {
                        ending: Some(Ending::Loop { host: next, chain: r.visited.push(r.host) }),
                        exchanges,
                        output,
                        ..r
                    }
                } else {
                    Run {
                        host: next,
                        visited: r.visited.push(r.host),
                        ending: if next.len() == 0 {
                            Some(Ending::Done)
                        } else {
                            None
                        },
                        exchanges,
                        output,
                    }
                }
            },
        }
    }
}

/// What the exchanges that answered `responses`, one after the other, make of `r`.
pub open spec fn run(r: Run, responses: Seq<Seq<Seq<char>>>) -> Run
    decreases responses.len(),
{
    if responses.len() == 0 {
        r
    } else {
        run(hop(r, responses[0]), responses.drop_first())
    }
}

/// A resolution in which no server has been queried twice and, while it goes on, the server to
/// query next is named and has not been queried yet.
pub open spec fn run_wf(r: Run) -> bool {
    &&& r.exchanges.no_duplicates()
    &&& r.ending is None ==> {
        &&& r.visited == r.exchanges
        &&& !r.exchanges.contains(r.host)
        &&& r.host.len() > 0
    }
}

/// A resolution that begins is well formed.
pub proof fn lemma_start_wf(host: Seq<char>)
    ensures
        run_wf(start(host)),
{
}

/// An exchange keeps a resolution well formed.
pub proof fn lemma_hop_wf(r: Run, response: Seq<Seq<char>>)
    requires
        run_wf(r),
    ensures
        run_wf(hop(r, response)),
{
    if r.ending is None {
        let exchanges = r.exchanges.push(r.host);
        assert forall|i: int, j: int|
            0 <= i < exchanges.len() && 0 <= j < exchanges.len() && i != j implies exchanges[i]
            != exchanges[j] by {
            if i == r.exchanges.len() as int {
                assert(r.exchanges.contains(r.exchanges[j]));
            } else if j == r.exchanges.len() as int {
                assert(r.exchanges.contains(r.exchanges[i]));
            }
        }
        if let Some(next) = first_referral(response) {
            if next != r.host && !r.visited.contains(next) {
                if next.len() > 0 {
                    assert(!exchanges.contains(next)) by {
                        if exchanges.contains(next) {
                            let k = choose|k: int| 0 <= k < exchanges.len() && exchanges[k] == next;
                            if k < r.exchanges.len() {
                                assert(r.visited.contains(next));
                            }
                        }
                    }
                }
            }
        }
    }
}

/// What exchanges make of a well-formed resolution is well formed.
pub proof fn lemma_run_wf(r: Run, responses: Seq<Seq<Seq<char>>>)
    requires
        run_wf(r),
    ensures
        run_wf(run(r, responses)),
    decreases responses.len(),
{
    if responses.len() > 0 {
        lemma_hop_wf(r, responses[0]);
        lemma_run_wf(hop(r, responses[0]), responses.drop_first());
    }
}

/// The referral among `lines` followed by `line` is that of `lines`, or else that of `line`.
proof fn lemma_first_referral_push(lines: Seq<Seq<char>>, line: Seq<char>)
    ensures
        first_referral(lines.push(line)) == match first_referral(lines) {
            Some(h) => Some(h),
            None => referral_of(line),
        },
    decreases lines.len(),
{
    let all = lines.push(line);
    if lines.len() == 0 {
        assert(all.drop_first() =~= Seq::<Seq<char>>::empty());
    } else {
        assert(all.drop_first() =~= lines.drop_first().push(line));
        lemma_first_referral_push(lines.drop_first(), line);
    }
}

/// Once a resolution has ended, further exchanges change nothing.
pub proof fn lemma_run_ended(r: Run, responses: Seq<Seq<Seq<char>>>)
    requires
        r.ending is Some,
    ensures
        run(r, responses) == r,
    decreases responses.len(),
{
    if responses.len() > 0 {
        lemma_run_ended(r, responses.drop_first());
    }
}

/// Lines none of which announces a server have no referral.
proof fn lemma_no_referral(lines: Seq<Seq<char>>)
    requires
        forall|i: int| 0 <= i < lines.len() ==> referral_of(#[trigger] lines[i]) is None,
    ensures
        first_referral(lines) is None,
    decreases lines.len(),
{
    if lines.len() > 0 {
        assert(referral_of(lines[0]) is None);
        assert forall|i: int| 0 <= i < lines.len() - 1 implies referral_of(
            #[trigger] lines.drop_first()[i],
        ) is None by {
            assert(lines.drop_first()[i] == lines[i + 1]);
        }
        lemma_no_referral(lines.drop_first());
    }
}

/// Where the answer of the first server announces no other server, that server is the only one
/// queried: the resolution ends after one exchange, and what was received is that answer.
pub proof fn law_answer_without_referral(
    host: Seq<char>,
    response: Seq<Seq<char>>,
    later: Seq<Seq<Seq<char>>>,
)
    requires
        host.len() > 0,
        forall|i: int| 0 <= i < response.len() ==> referral_of(#[trigger] response[i]) is None,
    ensures
        run(start(host), seq![response] + later) == (Run {
            host,
            visited: seq![],
            ending: Some(Ending::Done),
            exchanges: seq![host],
            output: response,
        }),
{
    lemma_no_referral(response);
    let responses = seq![response] + later;
    let r = hop(start(host), response);
    assert(responses[0] == response);
    assert(responses.drop_first() =~= later);
    lemma_run_ended(r, later);
    assert(seq![].push(host) =~= seq![host]);
    assert(Seq::<Seq<char>>::empty() + response =~= response);
}

/// A server that refers to itself gives the final answer: it is the only one queried.
pub proof fn law_self_referral(host: Seq<char>, response: Seq<Seq<char>>, later: Seq<Seq<Seq<char>>>)
    requires
        host.len() > 0,
        first_referral(response) == Some(host),
    ensures
        run(start(host), seq![response] + later) == (Run {
            host,
            visited: seq![],
            ending: Some(Ending::Done),
            exchanges: seq![host],
            output: response,
        }),
{
    let responses = seq![response] + later;
    let r = hop(start(host), response);
    assert(responses[0] == response);
    assert(responses.drop_first() =~= later);
    lemma_run_ended(r, later);
    assert(seq![].push(host) =~= seq![host]);
    assert(Seq::<Seq<char>>::empty() + response =~= response);
}

/// Where `a` refers to `b` and `b` to no other server, exactly `a` and then `b` are queried, and
/// what was received is the answer of `a` followed by that of `b`.
pub proof fn law_two_hops(
    a: Seq<char>,
    b: Seq<char>,
    from_a: Seq<Seq<char>>,
    from_b: Seq<Seq<char>>,
    later: Seq<Seq<Seq<char>>>,
)
    requires
        a.len() > 0,
        b.len() > 0,
        a != b,
        first_referral(from_a) == Some(b),
        first_referral(from_b) is None,
    ensures
        run(start(a), seq![from_a, from_b] + later) == (Run {
            host: b,
            visited: seq![a],
            ending: Some(Ending::Done),
            exchanges: seq![a, b],
            output: from_a + from_b,
        }),
{
    let responses = seq![from_a, from_b] + later;
    let r1 = hop(start(a), from_a);
    assert(responses[0] == from_a);
    assert(responses.drop_first() =~= seq![from_b] + later);
    assert(!Seq::<Seq<char>>::empty().contains(b));
    assert(seq![].push(a) =~= seq![a]);
    assert(Seq::<Seq<char>>::empty() + from_a =~= from_a);
    assert(r1.output =~= from_a);
    assert(r1.visited =~= seq![a]);
    assert(r1.exchanges =~= seq![a]);
    let r2 = hop(r1, from_b);
    assert((seq![from_b] + later)[0] == from_b);
    assert((seq![from_b] + later).drop_first() =~= later);
    assert(seq![a].push(b) =~= seq![a, b]);
    lemma_run_ended(r2, later);
    assert(run(start(a), responses) == run(r1, seq![from_b] + later));
    assert(run(r1, seq![from_b] + later) == run(r2, later));
}

/// Where `a` refers to `b` and `b` back to `a`, the resolution fails with a referral loop on `a`
/// after querying `a` and `b`, and queries no third time.
pub proof fn law_referral_loop(
    a: Seq<char>,
    b: Seq<char>,
    from_a: Seq<Seq<char>>,
    from_b: Seq<Seq<char>>,
    later: Seq<Seq<Seq<char>>>,
)
    requires
        a.len() > 0,
        b.len() > 0,
        a != b,
        first_referral(from_a) == Some(b),
        first_referral(from_b) == Some(a),
    ensures
        run(start(a), seq![from_a, from_b] + later) == (Run {
            host: b,
            visited: seq![a],
            ending: Some(Ending::Loop { host: a, chain: seq![a, b] }),
            exchanges: seq![a, b],
            output: from_a + from_b,
        }),
{
    let responses = seq![from_a, from_b] + later;
    let r1 = hop(start(a), from_a);
    assert(responses[0] == from_a);
    assert(responses.drop_first() =~= seq![from_b] + later);
    assert(!Seq::<Seq<char>>::empty().contains(b));
    assert(seq![].push(a) =~= seq![a]);
    assert(Seq::<Seq<char>>::empty() + from_a =~= from_a);
    assert(seq![a][0] == a);
    assert(seq![a].contains(a));
    assert(r1.output =~= from_a);
    assert(r1.visited =~= seq![a]);
    assert(r1.exchanges =~= seq![a]);
    let r2 = hop(r1, from_b);
    assert((seq![from_b] + later)[0] == from_b);
    assert((seq![from_b] + later).drop_first() =~= later);
    assert(seq![a].push(b) =~= seq![a, b]);
    lemma_run_ended(r2, later);
    assert(run(start(a), responses) == run(r1, seq![from_b] + later));
    assert(run(r1, seq![from_b] + later) == run(r2, later));
}

/// No server is queried twice in one resolution, whatever the servers answer.
pub proof fn law_no_server_queried_twice(host: Seq<char>, responses: Seq<Seq<Seq<char>>>)
    ensures
        run(start(host), responses).exchanges.no_duplicates(),
{
    lemma_start_wf(host);
    lemma_run_wf(start(host), responses);
}

/// The next thing to do after an exchange.
#[derive(Debug)]
pub enum Step {
    /// Query `host`.
    Next(String),
    /// Nothing is left to query.
    Done,
}

/// A server referred to a host that had been queried before.
#[derive(Debug)]
pub struct LoopError {
    /// The host referred to.
    pub host: String,
    /// The servers queried, in order.
    pub chain: Vec<String>,
}

/// Whether one of the strings of `v` has the text of `s`.
fn contains_text(v: &Vec<String>, s: &String) -> (r: bool)
    ensures
        r == texts(v@).contains(s@),
{
    let mut i: usize = 0;
    while i < v.len()
        invariant
            i <= v@.len(),
            forall|j: int| 0 <= j < i ==> v@[j]@ != s@,
        decreases v@.len() - i,
    {
        if v[i] == *s {
            assert(texts(v@)[i as int] == s@);
            return true;
        }
        i = i + 1;
    }
    proof {
        if texts(v@).contains(s@) {
            let k = choose|k: int| 0 <= k < texts(v@).len() && texts(v@)[k] == s@;
            assert(v@[k]@ == s@);
        }
    }
    false
}

/// A copy of the strings of `v`.
fn copy_texts(v: &Vec<String>) -> (r: Vec<String>)
    ensures
        texts(r@) == texts(v@),
{
    let mut out: Vec<String> = Vec::new();
    let mut i: usize = 0;
    while i < v.len()
        invariant
            i <= v@.len(),
            texts(out@) == texts(v@).take(i as int),
        decreases v@.len() - i,
    {
        let c = v[i].clone();
        let ghost prev = out@;
        out.push(c);
        assert(texts(out@) =~= texts(prev).push(c@));
        assert(texts(out@) =~= texts(v@).take(i + 1));
        i = i + 1;
    }
    assert(texts(v@).take(v@.len() as int) =~= texts(v@));
    out
}

/// The diagnostic for a referral loop to `host` after the servers `chain`: a heading line, the
/// host, then each server of the chain on a line of its own.
pub open spec fn loop_message(host: Seq<char>, chain: Seq<Seq<char>>) -> Seq<char> {
    "Error: Detected whois referral loop between hosts:\n"@ + host + "\n"@ + joined(chain, "\n"@)
}

impl LoopError {
    /// The diagnostic for this loop (see [`loop_message`]).
    pub fn message(&self) -> (r: String)
        ensures
            r@ == loop_message(self.host@, texts(self.chain@)),
    {
        String::from_str("Error: Detected whois referral loop between hosts:\n").concat(
            self.host.as_str(),
        ).concat("\n").concat(join(&self.chain, "\n").as_str())
    }
}

/// The referral engine: it is told the lines of each exchange as they arrive and decides which
/// server to query next.
pub struct Resolver {
    host: String,
    visited: Vec<String>,
    finished: bool,
    referral: Option<String>,
    run: Ghost<Run>,
    lines: Ghost<Seq<Seq<char>>>,
}

impl Resolver {
    /// The resolution so far.
    pub closed spec fn model(&self) -> Run {
        self.run@
    }

    /// The lines received in the exchange under way.
    pub closed spec fn pending(&self) -> Seq<Seq<char>> {
        self.lines@
    }

    /// The fields agree with the model, and the referral kept is the first among the pending
    /// lines.
    pub closed spec fn wf(&self) -> bool {
        &&& run_wf(self.run@)
        &&& self.host@ == self.run@.host
        &&& texts(self.visited@) == self.run@.visited
        &&& self.finished == self.run@.ending is Some
        &&& (self.referral matches Some(h) ==> first_referral(self.lines@) == Some(h@))
        &&& (self.referral is None ==> first_referral(self.lines@) is None)
    }

    /// A resolution that begins at `host`.
    pub fn new(host: String) -> (r: Resolver)
        ensures
            r.wf(),
            r.model() == start(host@),
            r.pending() == Seq::<Seq<char>>::empty(),
    {
        let finished = host.as_str().is_empty();
        let ghost run = start(host@);
        let ghost lines: Seq<Seq<char>> = seq![];
        let r = Resolver {
            host,
            visited: Vec::new(),
            finished,
            referral: None,
            run: Ghost(run),
            lines: Ghost(lines),
        };
        assert(texts(r.visited@) =~= seq![]);
        r
    }

    /// The server to query next, while the resolution goes on.
    pub fn current_host(&self) -> (r: Option<&str>)
        requires
            self.wf(),
        ensures
            r matches Some(h) ==> self.model().ending is None && h@ == self.model().host && h@.len()
                > 0,
            r is None ==> self.model().ending is Some,
    {
        if self.finished {
            None
        } else {
            Some(self.host.as_str())
        }
    }

    /// Takes note of `line`, the next line that the server under query sent.
    pub fn feed_line(&mut self, line: &str)
        requires
            old(self).wf(),
        ensures
            final(self).wf(),
            final(self).model() == old(self).model(),
            final(self).pending() == old(self).pending().push(line@),
    {
        proof {
            lemma_first_referral_push(self.lines@, line@);
        }
        if self.referral.is_none() {
            self.referral = extract_referral(line);
        }
        self.lines = Ghost(self.lines@.push(line@));
    }

    /// Ends the exchange under way, whose lines were all fed, and decides what follows it.
    pub fn finish_hop(&mut self) -> (r: Result<Step, LoopError>)
        requires
            old(self).wf(),
            old(self).model().ending is None,
        ensures
            final(self).wf(),
            final(self).model() == hop(old(self).model(), old(self).pending()),
            final(self).pending() == Seq::<Seq<char>>::empty(),
            r matches Ok(Step::Next(h)) ==> final(self).model().ending is None && h@
                == final(self).model().host,
            r matches Ok(Step::Done) ==> final(self).model().ending == Some(Ending::Done),
            r matches Err(e) ==> final(self).model().ending == Some(
                (Ending::Loop { host: e.host@, chain: texts(e.chain@) }),
            ),
    {
        let ghost before = self.run@;
        let ghost response = self.lines@;
        proof {
            lemma_hop_wf(before, response);
        }
        let ghost after = hop(before, response);
        let ghost no_lines: Seq<Seq<char>> = seq![];
        self.run = Ghost(after);
        self.lines = Ghost(no_lines);
        let found = match &self.referral {
            Some(h) => Some(h.clone()),
            None => None,
        };
        self.referral = None;
        match found {
            None => {
                self.finished = true;
                Ok(Step::Done)
            },
            Some(next) => {
                if next == self.host {
                    self.finished = true;
                    Ok(Step::Done)
                } else if contains_text(&self.visited, &next) {
                    self.finished = true;
                    let mut chain = copy_texts(&self.visited);
                    chain.push(self.host.clone());
                    assert(texts(chain@) =~= before.visited.push(before.host));
                    Err(LoopError { host: next, chain })
                } else {
                    self.visited.push(self.host.clone());
                    self.host = next;
                    assert(texts(self.visited@) =~= before.visited.push(before.host));
                    if self.host.as_str().is_empty() {
                        self.finished = true;
                        Ok(Step::Done)
                    } else {
                        Ok(Step::Next(self.host.clone()))
                    }
                }
            },
        }
    }
}

} // verus!
