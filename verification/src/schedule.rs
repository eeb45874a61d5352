use vstd::prelude::*;

verus! {

/// What a worker does next.
#[derive(Clone, Copy, Debug, PartialEq, Eq, Structural)]
pub enum WorkerAction {
    /// Set the analyser's IF bandwidth; whether it took does not matter.
    SetBandwidth { bandwidth: u32 },
    /// Fetch trace `data_idx` (0 for S11, 1 for S21) of sweep number `sweep`
    /// (from 0), starting that sweep when `data_idx` is 0.
    Fetch { data_idx: u8, sweep: usize },
    /// The worker is done.
    Done,
}

/// The order of a worker's steps: the IF bandwidth first when one is asked
/// for, then for each sweep S11, followed by S21 when two ports are
/// recorded; the first failed fetch, or a stop request when a sweep is about
/// to start, ends the run.
pub struct SweepSchedule {
    num_sweeps: usize,
    num_ports: usize,
    current: WorkerAction,
}

/// The first sweep's S11, or nothing when no sweep is asked for or a stop is
/// requested.
pub open spec fn first_fetch(num_sweeps: usize, stop_requested: bool) -> WorkerAction {
    if num_sweeps > 0 && !stop_requested {
        WorkerAction::Fetch { data_idx: 0, sweep: 0 }
    } else {
        WorkerAction::Done
    }
}

/// The fetch that follows a successful `Fetch { data_idx, sweep }`.
pub open spec fn after_success(
    num_sweeps: usize,
    num_ports: usize,
    data_idx: u8,
    sweep: usize,
    stop_requested: bool,
) -> WorkerAction {
    if data_idx == 0 && num_ports == 2 {
        WorkerAction::Fetch { data_idx: 1, sweep }
    } else if sweep + 1 < num_sweeps && !stop_requested {
        WorkerAction::Fetch { data_idx: 0, sweep: (sweep + 1) as usize }
    } else {
        WorkerAction::Done
    }
}

/// The `k`-th fetch (from 0) of a run in which every fetch succeeds and no
/// stop is requested.
pub open spec fn nth_fetch(num_ports: usize, k: nat) -> WorkerAction {
    if num_ports == 2 {
        WorkerAction::Fetch { data_idx: (k % 2) as u8, sweep: (k / 2) as usize }
    } else {
        WorkerAction::Fetch { data_idx: 0, sweep: k as usize }
    }
}

/// How many fetches a run makes when every fetch succeeds and no stop is
/// requested.
pub open spec fn fetch_count(num_sweeps: usize, num_ports: usize) -> nat {
    if num_ports == 2 {
        num_sweeps as nat * 2
    } else {
        num_sweeps as nat
    }
}

impl SweepSchedule {
    /// The schedule only ever stands at a sweep it was asked for.
    pub closed spec fn wf(&self) -> bool {
        self.current matches WorkerAction::Fetch { sweep, .. } ==> sweep < self.num_sweeps
    }

    /// The action the schedule stands at.
    pub closed spec fn current(&self) -> WorkerAction {
        self.current
    }

    pub closed spec fn sweeps(&self) -> usize {
        self.num_sweeps
    }

    pub closed spec fn ports(&self) -> usize {
        self.num_ports
    }

    /// Starts a worker's schedule: setting the IF bandwidth when one is
    /// given, else the first sweep's S11 (or nothing when no sweep is asked
    /// for, or a stop is already requested).
    pub fn start(
        num_sweeps: usize,
        num_ports: usize,
        if_bandwidth: Option<u32>,
        stop_requested: bool,
    ) -> (r: (SweepSchedule, WorkerAction))
        ensures
            r.1 == (match if_bandwidth {
                Some(bandwidth) => WorkerAction::SetBandwidth { bandwidth },
                None => first_fetch(num_sweeps, stop_requested),
            }),
            (if_bandwidth is None && num_sweeps >= 1 && !stop_requested) ==> r.1
                == (WorkerAction::Fetch { data_idx: 0, sweep: 0 }),
            (if_bandwidth is None && (num_sweeps == 0 || stop_requested)) ==> r.1
                == WorkerAction::Done,
            r.0.wf(),
            r.0.current() == r.1,
            r.0.sweeps() == num_sweeps,
            r.0.ports() == num_ports,
    {
        let first = match if_bandwidth {
            Some(bandwidth) => WorkerAction::SetBandwidth { bandwidth },
            None => if num_sweeps > 0 && !stop_requested {
                WorkerAction::Fetch { data_idx: 0, sweep: 0 }
            } else {
                WorkerAction::Done
            },
        };
        (SweepSchedule { num_sweeps, num_ports, current: first }, first)
    }

    /// Says how the current step went and gives the next action. After the
    /// bandwidth step the first sweep follows whatever its outcome.
    pub fn on_fetched(&mut self, ok: bool, stop_requested: bool) -> (next: WorkerAction)
        requires
            old(self).wf(),
        ensures
            final(self).wf(),
            final(self).sweeps() == old(self).sweeps(),
            final(self).ports() == old(self).ports(),
            final(self).current() == next,
            next == (match old(self).current() {
                WorkerAction::Fetch { data_idx, sweep } => if ok {
                    after_success(old(self).sweeps(), old(self).ports(), data_idx, sweep, stop_requested)
                } else {
                    WorkerAction::Done
                },
                WorkerAction::SetBandwidth { .. } => first_fetch(old(self).sweeps(), stop_requested),
                WorkerAction::Done => WorkerAction::Done,
            }),
            (old(self).current() is SetBandwidth && old(self).sweeps() >= 1 && !stop_requested)
                ==> next == (WorkerAction::Fetch { data_idx: 0, sweep: 0 }),
    {
        let next = match self.current {
            WorkerAction::Fetch { data_idx, sweep } => {
                if !ok {
                    WorkerAction::Done
                } else if data_idx == 0 && self.num_ports == 2 {
                    WorkerAction::Fetch { data_idx: 1, sweep }
                } else if sweep < self.num_sweeps - 1 && !stop_requested {
                    WorkerAction::Fetch { data_idx: 0, sweep: sweep + 1 }
                } else {
                    WorkerAction::Done
                }
            },
            WorkerAction::SetBandwidth { .. } => {
                if self.num_sweeps > 0 && !stop_requested {
                    WorkerAction::Fetch { data_idx: 0, sweep: 0 }
                } else {
                    WorkerAction::Done
                }
            },
            WorkerAction::Done => WorkerAction::Done,
        };
        self.current = next;
        next
    }
}

/// Law: when every fetch succeeds and no stop is requested, a worker fetches
/// S11 of each sweep in turn, each followed by its S21 when two ports are
/// recorded, and then is done.
pub proof fn lemma_schedule_order(num_sweeps: usize, num_ports: usize, k: nat)
    requires
        k < fetch_count(num_sweeps, num_ports),
    ensures
        k == 0 ==> nth_fetch(num_ports, k) == (WorkerAction::Fetch { data_idx: 0, sweep: 0 }),
        (match nth_fetch(num_ports, k) {
            WorkerAction::Fetch { data_idx, sweep } => after_success(
                num_sweeps,
                num_ports,
                data_idx,
                sweep,
                false,
            ) == (if k + 1 < fetch_count(num_sweeps, num_ports) {
                nth_fetch(num_ports, k + 1)
            } else {
                WorkerAction::Done
            }),
            _ => false,
        }),
{
    if num_ports == 2 {
        assert(k % 2 == 0 || k % 2 == 1);
        if k % 2 == 0 {
            assert((k + 1) % 2 == 1 && (k + 1) / 2 == k / 2);
        } else {
            assert((k + 1) % 2 == 0 && (k + 1) / 2 == k / 2 + 1);
            assert(k + 1 < num_sweeps * 2 <==> k / 2 + 1 < num_sweeps);
        }
    }
}

/// Numbers the points of one trace as they are accepted, and says when the
/// trace has its `limit` points (the first point is always taken).
pub struct PointCounter {
    accepted: usize,
    limit: usize,
}

impl PointCounter {
    /// How many points were accepted so far.
    pub closed spec fn count(&self) -> usize {
        self.accepted
    }

    pub closed spec fn max_points(&self) -> usize {
        self.limit
    }

    /// A counter for a trace of `limit` points.
    pub fn new(limit: usize) -> (c: PointCounter)
        ensures
            c.count() == 0,
            c.max_points() == limit,
    {
        PointCounter { accepted: 0, limit }
    }

    /// Accepts one more point: gives its index (from 0) and whether the
    /// trace is now complete.
    pub fn accept(&mut self) -> (r: (usize, bool))
        requires
            old(self).count() < usize::MAX,
        ensures
            r.0 == old(self).count(),
            final(self).count() == old(self).count() + 1,
            final(self).max_points() == old(self).max_points(),
            r.1 == (final(self).count() >= final(self).max_points()),
    {
        let index = self.accepted;
        self.accepted = self.accepted + 1;
        (index, self.accepted >= self.limit)
    }
}

/// Law (a requested sweep is made): with at least one sweep asked for, no
/// bandwidth to set and no stop requested, a worker starts with the S11
/// trace of sweep 0, which is also where the full order of fetches starts;
/// and after a bandwidth step the same first fetch follows. With no sweep
/// asked for, nothing is fetched.
pub proof fn lemma_first_fetch_starts_the_order(num_sweeps: usize, num_ports: usize)
    ensures
        num_sweeps >= 1 ==> first_fetch(num_sweeps, false) == (WorkerAction::Fetch {
            data_idx: 0,
            sweep: 0,
        }),
        num_sweeps >= 1 ==> first_fetch(num_sweeps, false) == nth_fetch(num_ports, 0),
        num_sweeps >= 1 ==> fetch_count(num_sweeps, num_ports) >= 1,
        num_sweeps == 0 ==> first_fetch(num_sweeps, false) == WorkerAction::Done,
        num_sweeps == 0 ==> fetch_count(num_sweeps, num_ports) == 0,
        first_fetch(num_sweeps, true) == WorkerAction::Done,
{
}

} // verus!
