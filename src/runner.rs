//! Round scheduling: resolving a round into deliveries, folding the
//! deliveries' outcomes into one result, and the run loop's decisions.

use crate::common::{total_failed, total_sent, RoundResults, TestrpcError};
use crate::adapters::{is_supported, new_adapter};
use crate::config::{round_template, Adapter, Config, NamedTemplate, Round, RoundTemplate};
use crate::text::{decimal, with_decimal};
use vstd::prelude::*;
use vstd::string::StringExecFns;

verus! {

/// One delivery of a round to one endpoint.
#[derive(Debug, Clone)]
pub struct DeliveryRequest {
    pub endpoint: String,
    pub req_id: u64,
    pub iteration: u32,
    pub num_txs: usize,
    pub tx_size: usize,
}

/// The first endpoint index of `rpcs` that is not below `n`.
pub open spec fn first_bad_index(rpcs: Seq<usize>, n: nat) -> Option<usize>
    decreases rpcs.len(),
{
    if rpcs.len() == 0 {
        None
    } else if rpcs[0] >= n {
        Some(rpcs[0])
    } else {
        first_bad_index(rpcs.drop_first(), n)
    }
}

proof fn lemma_no_bad_index(rpcs: Seq<usize>, n: nat, k: int)
    requires
        first_bad_index(rpcs, n) is None,
        0 <= k < rpcs.len(),
    ensures
        rpcs[k] < n,
    decreases rpcs.len(),
{
    if k > 0 {
        lemma_no_bad_index(rpcs.drop_first(), n, k - 1);
    }
}

/// Text of the error for an endpoint index out of range.
pub open spec fn bad_index_text(i: usize) -> Seq<char> {
    "RPC index out of bounds: "@ + decimal(i as nat)
}

/// Deliveries of a round whose template is `t` and whose indices are all
/// in range.
pub open spec fn round_deliveries_ok(
    v: Seq<DeliveryRequest>,
    round: Round,
    iteration: u32,
    endpoints: Seq<String>,
    t: RoundTemplate,
) -> bool {
    &&& v.len() == round.rpcs@.len()
    &&& forall|k: int|
        0 <= k < v.len() ==> {
            &&& (#[trigger] v[k]).endpoint == endpoints[round.rpcs@[k] as int]
            &&& v[k].req_id == iteration + k
            &&& v[k].iteration == iteration
            &&& v[k].num_txs == t.txs
            &&& v[k].tx_size == t.tx_size
        }
}

/// Resolves a round: its template, then each endpoint index. Request ids
/// run from `iteration` upwards, one per endpoint in the round's order.
pub fn prepare_round(
    round: &Round,
    iteration: u32,
    endpoints: &Vec<String>,
    round_templates: &Vec<NamedTemplate>,
) -> (r: Result<Vec<DeliveryRequest>, TestrpcError>)
    ensures
        round_template(*round, round_templates@) is None ==> (r matches Err(
            TestrpcError::LoadRoundTemplateError(m),
        ) && m@ == "No template found"@),
        round_template(*round, round_templates@) is Some ==> match first_bad_index(
            round.rpcs@,
            endpoints@.len(),
        ) {
            Some(i) => r matches Err(TestrpcError::LoadEndpointsError(m)) && m@ == bad_index_text(i),
            None => iteration + round.rpcs@.len() <= u64::MAX + 1 ==> (r matches Ok(v)
                && round_deliveries_ok(
                v@,
                *round,
                iteration,
                endpoints@,
                round_template(*round, round_templates@)->Some_0,
            )),
        },
        r is Ok ==> round_template(*round, round_templates@) is Some && first_bad_index(
            round.rpcs@,
            endpoints@.len(),
        ) is None && iteration + round.rpcs@.len() <= u64::MAX + 1,
{
    let template = match round.get_template(round_templates) {
        Some(t) => t,
        None => {
            return Err(TestrpcError::LoadRoundTemplateError(String::from_str("No template found")));
        },
    };
    let mut i: usize = 0;
    assert(round.rpcs@.skip(0) =~= round.rpcs@);
    while i < round.rpcs.len()
        invariant
            i <= round.rpcs@.len(),
            round_template(*round, round_templates@) == Some(template),
            first_bad_index(round.rpcs@, endpoints@.len()) == first_bad_index(
                round.rpcs@.skip(i as int),
                endpoints@.len(),
            ),
        decreases round.rpcs@.len() - i,
    {
        assert(round.rpcs@.skip(i as int).drop_first() =~= round.rpcs@.skip(i + 1));
        let idx = round.rpcs[i];
        if idx >= endpoints.len() {
            return Err(
                TestrpcError::LoadEndpointsError(
                    with_decimal("RPC index out of bounds: ", idx as u64),
                ),
            );
        }
        i = i + 1;
    }
    if round.rpcs.len() > 0 && round.rpcs.len() as u64 - 1 > u64::MAX - iteration as u64 {
        return Err(TestrpcError::ExecutionError(String::from_str("request id overflow")));
    }
    let mut v: Vec<DeliveryRequest> = Vec::new();
    let mut k: usize = 0;
    while k < round.rpcs.len()
        invariant
            k <= round.rpcs@.len(),
            round.rpcs@.len() + iteration <= u64::MAX + 1,
            round_template(*round, round_templates@) == Some(template),
            first_bad_index(round.rpcs@, endpoints@.len()) is None,
            v@.len() == k,
            forall|j: int|
                0 <= j < k ==> {
                    &&& (#[trigger] v@[j]).endpoint == endpoints@[round.rpcs@[j] as int]
                    &&& v@[j].req_id == iteration + j
                    &&& v@[j].iteration == iteration
                    &&& v@[j].num_txs == template.txs
                    &&& v@[j].tx_size == template.tx_size
                },
        decreases round.rpcs@.len() - k,
    {
        proof {
            lemma_no_bad_index(round.rpcs@, endpoints@.len(), k as int);
        }
        let idx = round.rpcs[k];
        v.push(
            DeliveryRequest {
                endpoint: endpoints[idx].clone(),
                req_id: iteration as u64 + k as u64,
                iteration,
                num_txs: template.txs,
                tx_size: template.tx_size,
            },
        );
        k = k + 1;
    }
    Ok(v)
}

/// The first error among the outcomes, in order.
pub open spec fn first_error(s: Seq<Result<RoundResults, TestrpcError>>) -> Option<TestrpcError>
    decreases s.len(),
{
    if s.len() == 0 {
        None
    } else if s[0] is Err {
        Some(s[0]->Err_0)
    } else {
        first_error(s.drop_first())
    }
}

/// The results of a sequence of outcomes that holds no error.
pub open spec fn ok_values(s: Seq<Result<RoundResults, TestrpcError>>) -> Seq<RoundResults> {
    s.map_values(|o: Result<RoundResults, TestrpcError>| o->Ok_0)
}

/// What a round reports, given the outcomes of its deliveries: the first
/// error if any (the round is then dropped whole), else the field-wise sum.
pub open spec fn round_outcome(s: Seq<Result<RoundResults, TestrpcError>>) -> Option<RoundResults> {
    if first_error(s) is Some {
        None
    } else if total_sent(ok_values(s)) <= usize::MAX && total_failed(ok_values(s)) <= usize::MAX {
        Some(
            RoundResults {
                sent: total_sent(ok_values(s)) as usize,
                failed: total_failed(ok_values(s)) as usize,
            },
        )
    } else {
        None
    }
}

proof fn lemma_totals_step(s: Seq<RoundResults>, i: int)
    requires
        0 <= i < s.len(),
    ensures
        total_sent(s.take(i + 1)) == total_sent(s.take(i)) + s[i].sent,
        total_failed(s.take(i + 1)) == total_failed(s.take(i)) + s[i].failed,
{
    assert(s.take(i + 1).drop_last() =~= s.take(i));
}

/// Folds the outcomes of a round's deliveries into the round's result.
pub fn aggregate(outcomes: Vec<Result<RoundResults, TestrpcError>>) -> (r: Result<
    RoundResults,
    TestrpcError,
>)
    ensures
        first_error(outcomes@) matches Some(e) ==> r == Err::<RoundResults, TestrpcError>(e),
        r matches Ok(t) ==> round_outcome(outcomes@) == Some(t),
        round_outcome(outcomes@) matches Some(t) ==> r == Ok::<RoundResults, TestrpcError>(t),
{
    let mut i: usize = 0;
    assert(outcomes@.skip(0) =~= outcomes@);
    while i < outcomes.len()
        invariant
            i <= outcomes@.len(),
            first_error(outcomes@) == first_error(outcomes@.skip(i as int)),
            forall|j: int| 0 <= j < i ==> (#[trigger] outcomes@[j]) is Ok,
        decreases outcomes@.len() - i,
    {
        assert(outcomes@.skip(i as int).drop_first() =~= outcomes@.skip(i + 1));
        if outcomes[i].is_err() {
            let mut outcomes = outcomes;
            let o = outcomes.remove(i);
            return match o {
                Err(e) => Err(e),
                Ok(t) => Ok(t),
            };
        }
        i = i + 1;
    }
    assert(outcomes@.skip(i as int).len() == 0);
    let ghost vals = ok_values(outcomes@);
    let mut sent: usize = 0;
    let mut failed: usize = 0;
    let mut k: usize = 0;
    while k < outcomes.len()
        invariant
            k <= outcomes@.len(),
            vals == ok_values(outcomes@),
            first_error(outcomes@) is None,
            forall|j: int| 0 <= j < outcomes@.len() ==> (#[trigger] outcomes@[j]) is Ok,
            sent == total_sent(vals.take(k as int)),
            failed == total_failed(vals.take(k as int)),
        decreases outcomes@.len() - k,
    {
        proof {
            lemma_totals_step(vals, k as int);
            crate::common::lemma_prefix_totals(vals, k + 1);
        }
        let o = match &outcomes[k] {
            Ok(o) => *o,
            Err(_) => RoundResults { sent: 0, failed: 0 },
        };
        if o.sent > usize::MAX - sent || o.failed > usize::MAX - failed {
            return Err(TestrpcError::ExecutionError(String::from_str("round total overflow")));
        }
        sent = sent + o.sent;
        failed = failed + o.failed;
        k = k + 1;
    }
    assert(vals.take(k as int) =~= vals);
    Ok(RoundResults { sent, failed })
}


/// Abstract state of a run.
pub struct SchedulerState {
    pub num_rounds: nat,
    pub max_iterations: Option<nat>,
    /// Rounds started so far; also the iteration number of the last one.
    pub iteration: nat,
    /// Index of the round that starts next (or that is running).
    pub next_round: nat,
    pub in_round: bool,
    pub stopped: bool,
    pub results: Seq<RoundResults>,
}

/// Whether another round may start: not cancelled, no round running, rounds
/// configured, the iteration bound not reached and iteration numbers left.
pub open spec fn may_start(s: SchedulerState) -> bool {
    &&& !s.stopped
    &&& !s.in_round
    &&& s.num_rounds > 0
    &&& s.iteration < u32::MAX
    &&& match s.max_iterations {
        Some(m) => s.iteration < m,
        None => true,
    }
}

/// Effect of starting a round.
pub open spec fn start_step(s: SchedulerState) -> SchedulerState {
    if may_start(s) {
        SchedulerState { iteration: s.iteration + 1, in_round: true, ..s }
    } else {
        s
    }
}

/// Effect of the end of a round: its result, if any, is appended and the
/// next round in declared order comes up.
pub open spec fn finish_step(s: SchedulerState, outcome: Option<RoundResults>) -> SchedulerState {
    if s.in_round {
        SchedulerState {
            in_round: false,
            next_round: (s.next_round + 1) % s.num_rounds,
            results: match outcome {
                Some(o) => s.results.push(o),
                None => s.results,
            },
            ..s
        }
    } else {
        s
    }
}

/// Effect of cancellation: a running round is abandoned unrecorded.
pub open spec fn stop_step(s: SchedulerState) -> SchedulerState {
    SchedulerState { stopped: true, in_round: false, ..s }
}

/// Invariant of a run.
pub open spec fn scheduler_state_ok(s: SchedulerState) -> bool {
    &&& s.iteration <= u32::MAX
    &&& s.results.len() + (if s.in_round {
        1int
    } else {
        0int
    }) <= s.iteration
    &&& s.in_round ==> s.iteration >= 1 && s.num_rounds > 0
    &&& s.num_rounds > 0 ==> s.next_round < s.num_rounds
    &&& !s.stopped && s.num_rounds > 0 ==> s.next_round == (if s.in_round {
        (s.iteration - 1) as nat
    } else {
        s.iteration
    }) % s.num_rounds
}

/// Decisions of the run loop. The caller runs each round it is handed and
/// reports the outcome, sleeps between rounds, and reports cancellation.
pub struct Scheduler {
    num_rounds: usize,
    max_iterations: Option<usize>,
    iteration: u32,
    next_round: usize,
    in_round: bool,
    stopped: bool,
    results: Vec<RoundResults>,
}

impl View for Scheduler {
    type V = SchedulerState;

    closed spec fn view(&self) -> SchedulerState {
        SchedulerState {
            num_rounds: self.num_rounds as nat,
            max_iterations: match self.max_iterations {
                Some(m) => Some(m as nat),
                None => None,
            },
            iteration: self.iteration as nat,
            next_round: self.next_round as nat,
            in_round: self.in_round,
            stopped: self.stopped,
            results: self.results@,
        }
    }
}

impl Scheduler {
    pub closed spec fn wf(&self) -> bool {
        scheduler_state_ok(self@)
    }

    /// A run over `num_rounds` rounds, bounded by `max_iterations` rounds
    /// in all when given.
    pub fn new(num_rounds: usize, max_iterations: Option<usize>) -> (r: Scheduler)
        ensures
            r.wf(),
            r@ == (SchedulerState {
                num_rounds: num_rounds as nat,
                max_iterations: match max_iterations {
                    Some(m) => Some(m as nat),
                    None => None,
                },
                iteration: 0,
                next_round: 0,
                in_round: false,
                stopped: false,
                results: Seq::empty(),
            }),
    {
        proof {
            if num_rounds > 0 {
                vstd::arithmetic::div_mod::lemma_small_mod(0, num_rounds as nat);
            }
        }
        Scheduler {
            num_rounds,
            max_iterations,
            iteration: 0,
            next_round: 0,
            in_round: false,
            stopped: false,
            results: Vec::new(),
        }
    }

    /// Whether the run is over: no round is running and none may start.
    pub fn is_finished(&self) -> (r: bool)
        requires
            self.wf(),
        ensures
            r == (!self@.in_round && !may_start(self@)),
    {
        !self.in_round && !self.may_start()
    }

    fn may_start(&self) -> (r: bool)
        ensures
            r == may_start(self@),
    {
        !self.stopped && !self.in_round && self.num_rounds > 0 && self.iteration < u32::MAX
            && match self.max_iterations {
            Some(m) => (self.iteration as u64) < (m as u64),
            None => true,
        }
    }

    /// Starts the next round, if one may start: returns its index in the
    /// configured list and its iteration number.
    pub fn start_round(&mut self) -> (r: Option<(usize, u32)>)
        requires
            old(self).wf(),
        ensures
            final(self).wf(),
            final(self)@ == start_step(old(self)@),
            may_start(old(self)@) <==> r is Some,
            r matches Some(p) ==> p.0 == old(self)@.next_round && p.1 == old(self)@.iteration + 1
                && p.0 < old(self)@.num_rounds,
    {
        if !self.may_start() {
            return None;
        }
        self.iteration = self.iteration + 1;
        self.in_round = true;
        Some((self.next_round, self.iteration))
    }

    /// Ends the running round with its result, or with none when it failed.
    pub fn finish_round(&mut self, outcome: Option<RoundResults>)
        requires
            old(self).wf(),
        ensures
            final(self).wf(),
            final(self)@ == finish_step(old(self)@, outcome),
    {
        if !self.in_round {
            return;
        }
        proof {
            let n = self.num_rounds as int;
            let i = self.iteration as int;
            if !self.stopped {
                vstd::arithmetic::div_mod::lemma_add_mod_noop_right(1, i - 1, n);
                vstd::arithmetic::div_mod::lemma_mod_bound(i - 1, n);
                vstd::arithmetic::div_mod::lemma_mod_bound(i, n);
            }
        }
        self.in_round = false;
        self.next_round = if self.next_round + 1 >= self.num_rounds {
            0
        } else {
            self.next_round + 1
        };
        proof {
            let n = self.num_rounds as int;
            if n > 0 {
                vstd::arithmetic::div_mod::lemma_small_mod(self.next_round as nat, n as nat);
                if old(self).next_round + 1 == n {
                    vstd::arithmetic::div_mod::lemma_mod_self_0(n);
                } else {
                    vstd::arithmetic::div_mod::lemma_small_mod((old(self).next_round + 1) as nat, n as nat);
                }
            }
        }
        if let Some(o) = outcome {
            self.results.push(o);
        }
    }

    /// Cancellation: no round starts any more, and a running round is
    /// abandoned without a result.
    pub fn stop(&mut self)
        requires
            old(self).wf(),
        ensures
            final(self).wf(),
            final(self)@ == stop_step(old(self)@),
    {
        self.stopped = true;
        self.in_round = false;
    }

    /// The results recorded so far, in the order the rounds were scheduled.
    pub fn into_results(self) -> (r: Vec<RoundResults>)
        ensures
            r@ == self@.results,
    {
        self.results
    }
}


/// `http://dummy:<5000 + i>`, the `i`-th stand-in endpoint of a dry run.
pub open spec fn mock_endpoint(i: nat) -> Seq<char> {
    "http://dummy:"@ + decimal(5000 + i)
}

/// Stand-in endpoints for a dry run without discovery.
pub fn mock_endpoints(num_of_nodes: usize) -> (r: Vec<String>)
    requires
        num_of_nodes + 5000 <= u64::MAX,
    ensures
        r@.len() == num_of_nodes,
        forall|i: int| 0 <= i < num_of_nodes ==> (#[trigger] r@[i])@ == mock_endpoint(i as nat),
{
    let mut r: Vec<String> = Vec::new();
    let mut i: usize = 0;
    while i < num_of_nodes
        invariant
            i <= num_of_nodes,
            num_of_nodes + 5000 <= u64::MAX,
            r@.len() == i,
            forall|j: int| 0 <= j < i ==> (#[trigger] r@[j])@ == mock_endpoint(j as nat),
        decreases num_of_nodes - i,
    {
        r.push(with_decimal("http://dummy:", 5000 + i as u64));
        i = i + 1;
    }
    r
}

/// Result of one round in dry-run mode, or `None` when the round is dropped.
pub open spec fn dry_round(
    adapter: Adapter,
    round: Round,
    iteration: u32,
    endpoints: Seq<String>,
    templates: Seq<NamedTemplate>,
) -> Option<RoundResults> {
    if !is_supported(adapter) {
        None
    } else {
        match round_template(round, templates) {
            None => None,
            Some(t) => if first_bad_index(round.rpcs@, endpoints.len()) is Some || iteration
                + round.rpcs@.len() > u64::MAX + 1 {
                None
            } else {
                round_outcome(
                    Seq::new(
                        round.rpcs@.len(),
                        |k: int| Ok::<RoundResults, TestrpcError>(RoundResults { sent: t.txs, failed: 0 }),
                    ),
                )
            },
        }
    }
}

/// Runs one round in dry-run mode: the adapter, template and endpoint
/// indices are resolved as in a real run, and each delivery succeeds at once.
pub fn dry_run_round(
    adapter: Adapter,
    round: &Round,
    iteration: u32,
    endpoints: &Vec<String>,
    round_templates: &Vec<NamedTemplate>,
) -> (r: Result<RoundResults, TestrpcError>)
    ensures
        r is Ok <==> dry_round(adapter, *round, iteration, endpoints@, round_templates@) is Some,
        r matches Ok(t) ==> dry_round(adapter, *round, iteration, endpoints@, round_templates@) == Some(t),
{
    let a = match new_adapter(adapter) {
        Ok(a) => a,
        Err(e) => {
            return Err(e);
        },
    };
    let reqs = match prepare_round(round, iteration, endpoints, round_templates) {
        Ok(v) => v,
        Err(e) => {
            return Err(e);
        },
    };
    let ghost t = round_template(*round, round_templates@)->Some_0;
    let ghost expected = Seq::new(
        round.rpcs@.len(),
        |k: int| Ok::<RoundResults, TestrpcError>(RoundResults { sent: t.txs, failed: 0 }),
    );
    let mut outcomes: Vec<Result<RoundResults, TestrpcError>> = Vec::new();
    let mut k: usize = 0;
    while k < reqs.len()
        invariant
            k <= reqs@.len(),
            reqs@.len() == round.rpcs@.len(),
            forall|j: int| 0 <= j < reqs@.len() ==> (#[trigger] reqs@[j]).num_txs == t.txs,
            expected == Seq::new(
                round.rpcs@.len(),
                |k: int| Ok::<RoundResults, TestrpcError>(RoundResults { sent: t.txs, failed: 0 }),
            ),
            outcomes@ =~= expected.take(k as int),
        decreases reqs@.len() - k,
    {
        let o = a.dry_run_delivery(&reqs[k]);
        assert(expected[k as int] == Ok::<RoundResults, TestrpcError>(o));
        outcomes.push(Ok(o));
        k = k + 1;
    }
    assert(outcomes@ =~= expected);
    let r = aggregate(outcomes);
    assert(first_error(expected) is None) by {
        lemma_no_error(expected);
    }
    r
}

proof fn lemma_no_error(s: Seq<Result<RoundResults, TestrpcError>>)
    requires
        forall|j: int| 0 <= j < s.len() ==> (#[trigger] s[j]) is Ok,
    ensures
        first_error(s) is None,
    decreases s.len(),
{
    if s.len() > 0 {
        assert forall|j: int| 0 <= j < s.drop_first().len() implies (#[trigger] s.drop_first()[j]) is Ok by {
            assert(s.drop_first()[j] == s[j + 1]);
        }
        lemma_no_error(s.drop_first());
    }
}

/// A round that ends without a result (a bad endpoint index, a missing
/// template, a failed delivery) adds nothing to the results, leaves the run
/// going, and passes on to the next round in declared order.
pub proof fn lemma_failed_round_skipped(s: SchedulerState)
    requires
        scheduler_state_ok(s),
        s.in_round,
    ensures
        finish_step(s, None).results == s.results,
        finish_step(s, None).stopped == s.stopped,
        !s.stopped ==> finish_step(s, None).next_round == s.iteration % s.num_rounds,
{
    if !s.stopped {
        vstd::arithmetic::div_mod::lemma_add_mod_noop_right(1, s.iteration - 1, s.num_rounds as int);
    }
}

/// A round that references an endpoint index out of range is dropped: it
/// adds nothing to the results of the run, and the rounds before and after
/// it are unaffected.
pub proof fn lemma_bad_index_round_skipped(cfg: Config, endpoints: Seq<String>, m: nat)
    requires
        m >= 1,
        cfg.rounds@.len() > 0,
        first_bad_index(
            cfg.rounds@[((m - 1) as nat % cfg.rounds@.len()) as int].rpcs@,
            endpoints.len(),
        ) is Some,
    ensures
        dry_results(cfg, endpoints, m) == dry_results(cfg, endpoints, (m - 1) as nat),
{
}

/// Results of the first `m` rounds of a dry run, rounds taken in declared
/// order and repeated; dropped rounds leave no entry.
pub open spec fn dry_results(cfg: Config, endpoints: Seq<String>, m: nat) -> Seq<RoundResults>
    decreases m,
{
    if m == 0 || cfg.rounds@.len() == 0 {
        Seq::empty()
    } else {
        let prev = dry_results(cfg, endpoints, (m - 1) as nat);
        match dry_round(
            cfg.adapter,
            cfg.rounds@[((m - 1) as nat % cfg.rounds@.len()) as int],
            m as u32,
            endpoints,
            cfg.round_templates@,
        ) {
            Some(o) => prev.push(o),
            None => prev,
        }
    }
}

/// Number of rounds that a bounded run executes.
pub open spec fn planned_rounds(cfg: Config) -> nat {
    if cfg.rounds@.len() == 0 {
        0
    } else {
        vstd::math::min(cfg.iterations->Some_0 as int, u32::MAX as int) as nat
    }
}

/// Executes a whole bounded run in dry-run mode and returns the recorded
/// round results, in order.
pub fn run_dry(cfg: &Config, endpoints: &Vec<String>) -> (r: Vec<RoundResults>)
    requires
        cfg.iterations is Some,
    ensures
        r@ == dry_results(*cfg, endpoints@, planned_rounds(*cfg)),
{
    let mut sched = Scheduler::new(cfg.rounds.len(), cfg.iterations);
    loop
        invariant
            cfg.iterations is Some,
            sched.wf(),
            sched@.num_rounds == cfg.rounds@.len(),
            sched@.max_iterations == Some(cfg.iterations->Some_0 as nat),
            !sched@.stopped,
            !sched@.in_round,
            sched@.iteration <= planned_rounds(*cfg),
            sched@.results == dry_results(*cfg, endpoints@, sched@.iteration),
        ensures
            sched@.results == dry_results(*cfg, endpoints@, planned_rounds(*cfg)),
        decreases planned_rounds(*cfg) - sched@.iteration,
    {
        let started = sched.start_round();
        match started {
            None => {
                assert(sched@.iteration == planned_rounds(*cfg));
                break;
            },
            Some((idx, iteration)) => {
                let outcome = match dry_run_round(
                    cfg.adapter,
                    &cfg.rounds[idx],
                    iteration,
                    endpoints,
                    &cfg.round_templates,
                ) {
                    Ok(t) => Some(t),
                    Err(_) => None,
                };
                sched.finish_round(outcome);
            },
        }
    }
    sched.into_results()
}

} // verus!
