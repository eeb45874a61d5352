use vstd::prelude::*;

use crate::ports::{string_views, PortEntry};

verus! {

broadcast use vstd::std_specs::vec::axiom_spec_into_iter;

/// What a recording run is asked to do.
pub struct RunConfig {
    /// How many sweeps each analyser makes.
    pub num_sweeps: usize,
    /// How many of the detected analysers to use (when no ports are selected).
    pub vna_number: usize,
    /// The ports to use, by name; `None` uses the first `vna_number` detected.
    pub selected_port_names: Option<Vec<String>>,
    pub start_freq: u64,
    pub end_freq: u64,
    pub num_points: usize,
    /// 2 also records the S21 trace; anything else only S11.
    pub num_ports: usize,
    pub if_bandwidth: Option<u32>,
    /// Recording time in seconds, when the run is timed rather than counted.
    pub time: Option<u64>,
    pub label: String,
}

/// What one analyser's worker is asked to do.
pub struct SweepParams {
    pub port_name: String,
    pub num_sweeps: usize,
    /// The analyser's number in the run, from 1.
    pub vna_number: usize,
    pub start_freq: u64,
    pub end_freq: u64,
    pub num_points: usize,
    pub num_ports: usize,
    pub if_bandwidth: Option<u32>,
    pub time: Option<u64>,
    pub label: String,
}

/// The ports of `s` whose names are among `names`, in order.
pub open spec fn named_only(s: Seq<PortEntry>, names: Seq<Seq<char>>) -> Seq<PortEntry>
    decreases s.len(),
{
    if s.len() == 0 {
        seq![]
    } else if names.contains(s.last().port_name@) {
        named_only(s.drop_last(), names).push(s.last())
    } else {
        named_only(s.drop_last(), names)
    }
}

/// The ports a run uses, in order: the selected ones when ports are
/// selected, else the first `vna_number` of `ports`.
pub open spec fn chosen_ports(
    ports: Seq<PortEntry>,
    selected: Option<Seq<Seq<char>>>,
    vna_number: nat,
) -> Seq<PortEntry> {
    match selected {
        Some(names) => named_only(ports, names),
        None => if vna_number <= ports.len() {
            ports.take(vna_number as int)
        } else {
            ports
        },
    }
}

/// The selected names of `config`, as character sequences.
pub open spec fn selected_names(config: &RunConfig) -> Option<Seq<Seq<char>>> {
    match config.selected_port_names {
        Some(v) => Some(string_views(v@)),
        None => None,
    }
}

/// `p` is the worker assignment of the `i`-th chosen port `port` under `config`.
pub open spec fn assignment(p: SweepParams, config: &RunConfig, port: PortEntry, i: int) -> bool {
    &&& p.port_name@ == port.port_name@
    &&& p.vna_number == i + 1
    &&& p.num_sweeps == config.num_sweeps
    &&& p.start_freq == config.start_freq
    &&& p.end_freq == config.end_freq
    &&& p.num_points == config.num_points
    &&& p.num_ports == config.num_ports
    &&& p.if_bandwidth == config.if_bandwidth
    &&& p.time == config.time
    &&& p.label@ == config.label@
}

/// Whether `name` is one of `names`.
fn name_listed(names: &Vec<String>, name: &String) -> (b: bool)
    ensures
        b == string_views(names@).contains(name@),
{
    let mut i: usize = 0;
    while i < names.len()
        invariant
            0 <= i <= names.len(),
            forall|k: int| 0 <= k < i ==> names@[k]@ != name@,
        decreases names.len() - i,
    {
        if names[i] == *name {
            assert(string_views(names@)[i as int] == name@);
            return true;
        }
        i += 1;
    }
    proof {
        if string_views(names@).contains(name@) {
            let k = choose|k: int| 0 <= k < string_views(names@).len() && string_views(names@)[k] == name@;
            assert(names@[k]@ == name@);
        }
    }
    false
}

/// The ports a run uses: the NanoVNA ports `ports` narrowed to the selected
/// names, or to the first `vna_number`.
fn choose_ports(ports: Vec<PortEntry>, config: &RunConfig) -> (r: Vec<PortEntry>)
    ensures
        r@ == chosen_ports(ports@, selected_names(config), config.vna_number as nat),
{
    let ghost all = ports@;
    let mut out: Vec<PortEntry> = Vec::new();
    match &config.selected_port_names {
        Some(names) => {
            let ghost ns = string_views(names@);
            for p in it: ports.into_iter()
                invariant
                    it.seq() == all,
                    ns == string_views(names@),
                    out@ == named_only(all.take(it.index() as int), ns),
            {
                let ghost i = it.index();
                assert(all.take(i + 1).drop_last() =~= all.take(i as int));
                assert(all.take(i + 1).last() == p);
                if name_listed(names, &p.port_name) {
                    out.push(p);
                }
            }
            assert(all.take(all.len() as int) =~= all);
        },
        None => {
            let limit = config.vna_number;
            for p in it: ports.into_iter()
                invariant
                    it.seq() == all,
                    out@ == all.take(if it.index() <= limit {
                        it.index() as int
                    } else {
                        limit as int
                    }),
            {
                let ghost i = it.index();
                if out.len() < limit {
                    out.push(p);
                    assert(out@ =~= all.take(i + 1));
                }
            }
            assert(all.take(all.len() as int) =~= all);
        },
    }
    out
}

/// Plans a run over the detected NanoVNA `ports`: one worker per chosen port,
/// numbered from 1 in order; an error when no NanoVNA was detected.
pub fn plan_sweeps(ports: Vec<PortEntry>, config: &RunConfig) -> (r: Result<Vec<SweepParams>, String>)
    ensures
        ports@.len() == 0 <==> r is Err,
        r matches Err(msg) ==> msg@ == "No NanoVNA devices detected"@,
        r matches Ok(plan) ==> {
            let chosen = chosen_ports(ports@, selected_names(config), config.vna_number as nat);
            &&& plan@.len() == chosen.len()
            &&& forall|i: int|
                0 <= i < plan@.len() ==> assignment(#[trigger] plan@[i], config, chosen[i], i)
        },
{
    if ports.len() == 0 {
        return Err("No NanoVNA devices detected".to_owned());
    }
    let chosen = choose_ports(ports, config);
    let ghost ch = chosen@;
    let count = chosen.len();
    assert(ch.len() == count);
    let mut plan: Vec<SweepParams> = Vec::new();
    for p in it: chosen.into_iter()
        invariant
            it.seq() == ch,
            ch.len() <= usize::MAX,
            plan@.len() == it.index(),
            it.index() <= ch.len(),
            forall|i: int| 0 <= i < plan@.len() ==> assignment(#[trigger] plan@[i], config, ch[i], i),
    {
        let ghost i = it.index();
        assert(ch[i as int] == p);
        let vna_number = plan.len() + 1;
        plan.push(
            SweepParams {
                port_name: p.port_name,
                num_sweeps: config.num_sweeps,
                vna_number,
                start_freq: config.start_freq,
                end_freq: config.end_freq,
                num_points: config.num_points,
                num_ports: config.num_ports,
                if_bandwidth: config.if_bandwidth,
                time: config.time,
                label: config.label.clone(),
            },
        );
    }
    Ok(plan)
}

/// How one worker of a run ended.
pub enum WorkerOutcome {
    /// The worker's thread panicked.
    Panicked,
    /// The worker returned this error.
    Failed(String),
    /// The worker finished, having read this many bytes.
    Finished { total_bytes: usize },
}

/// The total bytes of the leading finished outcomes of `s`.
pub open spec fn finished_prefix_total(s: Seq<WorkerOutcome>) -> nat
    decreases s.len(),
{
    if s.len() == 0 {
        0
    } else {
        match s[0] {
            WorkerOutcome::Finished { total_bytes } => (total_bytes + finished_prefix_total(
                s.drop_first(),
            )) as nat,
            _ => 0,
        }
    }
}

/// The first failure of `s`, as the run reports it, if any.
pub open spec fn first_failure(s: Seq<WorkerOutcome>) -> Option<Seq<char>>
    decreases s.len(),
{
    if s.len() == 0 {
        None
    } else {
        match s[0] {
            WorkerOutcome::Panicked => Some("Thread panicked"@),
            WorkerOutcome::Failed(e) => Some("Sweep failed: "@ + e@),
            WorkerOutcome::Finished { .. } => first_failure(s.drop_first()),
        }
    }
}

/// What a run reports from its workers' outcomes, taken in order: the first
/// failure; else an error when there was no worker; else the bytes read.
pub open spec fn run_result(s: Seq<WorkerOutcome>) -> Result<nat, Seq<char>> {
    match first_failure(s) {
        Some(msg) => Err(msg),
        None => if s.len() == 0 {
            Err("No data collected"@)
        } else {
            Ok(finished_prefix_total(s))
        },
    }
}

/// Combines the outcomes of a run's workers, in the order they were started.
pub fn combine_outcomes(outcomes: &Vec<WorkerOutcome>) -> (r: Result<usize, String>)
    requires
        finished_prefix_total(outcomes@) <= usize::MAX,
    ensures
        match (r, run_result(outcomes@)) {
            (Ok(n), Ok(m)) => n == m,
            (Err(e), Err(msg)) => e@ == msg,
            _ => false,
        },
{
    let mut total: usize = 0;
    let mut i: usize = 0;
    assert(outcomes@.skip(0) =~= outcomes@);
    while i < outcomes.len()
        invariant
            0 <= i <= outcomes.len(),
            first_failure(outcomes@) == first_failure(outcomes@.skip(i as int)),
            finished_prefix_total(outcomes@) == total + finished_prefix_total(
                outcomes@.skip(i as int),
            ),
            finished_prefix_total(outcomes@) <= usize::MAX,
        decreases outcomes.len() - i,
    {
        let ghost rest = outcomes@.skip(i as int);
        assert(rest[0] == outcomes@[i as int]);
        assert(rest.drop_first() =~= outcomes@.skip(i + 1));
        match &outcomes[i] {
            WorkerOutcome::Panicked => {
                return Err("Thread panicked".to_owned());
            },
            WorkerOutcome::Failed(e) => {
                let mut msg = "Sweep failed: ".to_owned();
                msg.append(e.as_str());
                return Err(msg);
            },
            WorkerOutcome::Finished { total_bytes } => {
                total = total + *total_bytes;
            },
        }
        i += 1;
    }
    assert(outcomes@.skip(i as int) =~= Seq::<WorkerOutcome>::empty());
    if outcomes.len() == 0 {
        Err("No data collected".to_owned())
    } else {
        Ok(total)
    }
}

/// Law (a run uses exactly the selected ports): the ports a run with
/// selected names uses are the detected ports filtered by those names, in
/// the detected order; a port is used exactly when it is detected and its
/// name is selected.
pub proof fn lemma_named_only_is_filter(s: Seq<PortEntry>, names: Seq<Seq<char>>)
    ensures
        named_only(s, names) == s.filter(|p: PortEntry| names.contains(p.port_name@)),
        forall|p: PortEntry|
            #[trigger] named_only(s, names).contains(p) <==> (s.contains(p) && names.contains(
                p.port_name@,
            )),
    decreases s.len(),
{
    let f = |p: PortEntry| names.contains(p.port_name@);
    reveal(Seq::filter);
    if s.len() > 0 {
        lemma_named_only_is_filter(s.drop_last(), names);
    }
    assert forall|p: PortEntry| #[trigger] named_only(s, names).contains(p) <==> (s.contains(p)
        && names.contains(p.port_name@)) by {
        if named_only(s, names).contains(p) {
            s.lemma_filter_contains_rev(f, p);
            let k = choose|k: int| 0 <= k < s.filter(f).len() && s.filter(f)[k] == p;
            s.lemma_filter_pred(f, k);
        }
        if s.contains(p) && names.contains(p.port_name@) {
            let i = choose|i: int| 0 <= i < s.len() && s[i] == p;
            s.lemma_filter_contains(f, i);
        }
    }
}

} // verus!
