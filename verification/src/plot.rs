use vstd::prelude::*;

verus! {

/// One recorded row, as the plots read it.
pub struct PlotRow {
    /// `S11` or `S21`.
    pub channel: Option<String>,
    pub vna_number: Option<i32>,
    pub sweep_id: Option<String>,
    /// The row's frequency, real and imaginary parts are all present.
    pub has_values: bool,
}

/// The row names an analyser and a sweep.
pub open spec fn keyed(r: PlotRow) -> bool {
    r.vna_number is Some && r.sweep_id is Some
}

/// The sweep of the last row of `rows` that names analyser `v` and a sweep.
pub open spec fn last_sweep_of(rows: Seq<PlotRow>, v: i32) -> Option<Seq<char>>
    decreases rows.len(),
{
    if rows.len() == 0 {
        None
    } else if keyed(rows.last()) && rows.last().vna_number == Some(v) {
        Some(rows.last().sweep_id->0@)
    } else {
        last_sweep_of(rows.drop_last(), v)
    }
}

/// Row `i` is plotted: it is complete and belongs to its analyser's last sweep.
pub open spec fn plotted(rows: Seq<PlotRow>, i: int) -> bool {
    let r = rows[i];
    &&& r.has_values
    &&& r.channel is Some
    &&& keyed(r)
    &&& last_sweep_of(rows, r.vna_number->0) == Some(r.sweep_id->0@)
}

/// The highest analyser number of `rows`, if any row names one.
pub open spec fn max_vna(rows: Seq<PlotRow>) -> Option<i32>
    decreases rows.len(),
{
    if rows.len() == 0 {
        None
    } else {
        let rest = max_vna(rows.drop_last());
        match rows.last().vna_number {
            Some(v) => match rest {
                Some(m) => Some(if v > m {
                    v
                } else {
                    m
                }),
                None => Some(v),
            },
            None => rest,
        }
    }
}

/// How many analysers the plots have a lane for.
pub open spec fn lane_count(rows: Seq<PlotRow>) -> int {
    match max_vna(rows) {
        Some(m) => m as int,
        None => 1,
    }
}

/// Row `i` goes to lane `lane` of the plots of channel `ch`.
pub open spec fn picked(rows: Seq<PlotRow>, i: int, lane: int, ch: Seq<char>) -> bool {
    &&& plotted(rows, i)
    &&& rows[i].vna_number->0 as int == lane + 1
    &&& rows[i].channel->0@ == ch
}

/// The rows among the first `upto` that go to lane `lane` of channel `ch`, in order.
pub open spec fn lane_rows(rows: Seq<PlotRow>, upto: int, lane: int, ch: Seq<char>) -> Seq<usize>
    decreases upto,
{
    if upto <= 0 {
        seq![]
    } else {
        lane_rows(rows, upto - 1, lane, ch) + if picked(rows, upto - 1, lane, ch) {
            seq![(upto - 1) as usize]
        } else {
            seq![]
        }
    }
}

proof fn lemma_last_sweep_step(rows: Seq<PlotRow>, i: int, w: i32)
    requires
        0 <= i < rows.len(),
    ensures
        last_sweep_of(rows.take(i + 1), w) == if keyed(rows[i]) && rows[i].vna_number == Some(w) {
            Some(rows[i].sweep_id->0@)
        } else {
            last_sweep_of(rows.take(i), w)
        },
{
    assert(rows.take(i + 1).drop_last() =~= rows.take(i));
    assert(rows.take(i + 1).last() == rows[i]);
}

/// The last sweep of each analyser: a table of (analyser, sweep) with one
/// entry per analyser that some row names together with a sweep.
fn latest_sweeps(rows: &Vec<PlotRow>) -> (t: Vec<(i32, String)>)
    ensures
        forall|a: int, b: int|
            0 <= a < b < t@.len() ==> #[trigger] t@[a].0 != #[trigger] t@[b].0,
        forall|a: int|
            0 <= a < t@.len() ==> last_sweep_of(rows@, #[trigger] t@[a].0) == Some(t@[a].1@),
        forall|v: i32|
            #[trigger] last_sweep_of(rows@, v) is Some ==> exists|a: int|
                0 <= a < t@.len() && #[trigger] t@[a].0 == v,
{
    let mut t: Vec<(i32, String)> = Vec::new();
    let mut i: usize = 0;
    while i < rows.len()
        invariant
            0 <= i <= rows.len(),
            forall|a: int, b: int|
                0 <= a < b < t@.len() ==> #[trigger] t@[a].0 != #[trigger] t@[b].0,
            forall|a: int|
                0 <= a < t@.len() ==> last_sweep_of(rows@.take(i as int), #[trigger] t@[a].0)
                    == Some(t@[a].1@),
            forall|v: i32|
                #[trigger] last_sweep_of(rows@.take(i as int), v) is Some ==> exists|a: int|
                    0 <= a < t@.len() && #[trigger] t@[a].0 == v,
        decreases rows.len() - i,
    {
        proof {
            assert forall|w: i32| true implies #[trigger] last_sweep_of(rows@.take(i + 1), w) == if keyed(
                rows@[i as int],
            ) && rows@[i as int].vna_number == Some(w) {
                Some(rows@[i as int].sweep_id->0@)
            } else {
                last_sweep_of(rows@.take(i as int), w)
            } by {
                lemma_last_sweep_step(rows@, i as int, w);
            }
        }
        match (&rows[i].vna_number, &rows[i].sweep_id) {
            (Some(v), Some(sid)) => {
                let v = *v;
                let mut k: usize = 0;
                while k < t.len() && t[k].0 != v
                    invariant
                        0 <= k <= t.len(),
                        forall|a: int| 0 <= a < k ==> t@[a].0 != v,
                    decreases t.len() - k,
                {
                    k += 1;
                }
                let ghost before = t@;
                let ghost slot: int = k as int;
                if k < t.len() {
                    t.set(k, (v, sid.clone()));
                    assert forall|a: int| 0 <= a < t@.len() && a != k implies t@[a] == before[a] by {}
                } else {
                    t.push((v, sid.clone()));
                }
                assert(t@[slot].0 == v);
                assert forall|w: i32| #[trigger]
                    last_sweep_of(rows@.take(i + 1), w) is Some implies exists|a: int|
                    0 <= a < t@.len() && #[trigger] t@[a].0 == w by {
                    if w == v {
                        assert(t@[slot].0 == w);
                    } else {
                        assert(last_sweep_of(rows@.take(i as int), w) is Some);
                        let a = choose|a: int| 0 <= a < before.len() && #[trigger] before[a].0 == w;
                        assert(t@[a].0 == w);
                    }
                }
            },
            _ => {},
        }
        i += 1;
    }
    assert(rows@.take(rows@.len() as int) =~= rows@);
    t
}

/// The sweep the table `t` records for analyser `v`.
fn lookup_sweep(t: &Vec<(i32, String)>, v: i32) -> (r: Option<usize>)
    ensures
        match r {
            Some(k) => k < t@.len() && t@[k as int].0 == v,
            None => forall|a: int| 0 <= a < t@.len() ==> t@[a].0 != v,
        },
{
    let mut k: usize = 0;
    while k < t.len()
        invariant
            0 <= k <= t.len(),
            forall|a: int| 0 <= a < k ==> t@[a].0 != v,
        decreases t.len() - k,
    {
        if t[k].0 == v {
            return Some(k);
        }
        k += 1;
    }
    None
}

/// Where row `i` goes: `Some((lane, true))` for an S11 row of lane `lane`,
/// `Some((lane, false))` for an S21 row, `None` when the row is not plotted
/// (or its analyser number is below 1).
pub open spec fn placement_of(rows: Seq<PlotRow>, i: int) -> Option<(usize, bool)> {
    let r = rows[i];
    if plotted(rows, i) && r.vna_number->0 >= 1 && (r.channel->0@ == "S11"@ || r.channel->0@
        == "S21"@) {
        Some(((r.vna_number->0 - 1) as usize, r.channel->0@ == "S11"@))
    } else {
        None
    }
}

/// Where each row goes: `Some((lane, true))` for an S11 row of lane `lane`,
/// `Some((lane, false))` for an S21 row, `None` when the row is not plotted.
fn placements(rows: &Vec<PlotRow>) -> (p: Vec<Option<(usize, bool)>>)
    requires
        forall|i: int|
            0 <= i < rows@.len() && plotted(rows@, i) ==> rows@[i].vna_number != Some(0i32),
    ensures
        p@.len() == rows@.len(),
        forall|i: int| 0 <= i < rows@.len() ==> #[trigger] p@[i] == placement_of(rows@, i),
{
    let t = latest_sweeps(rows);
    let s11 = "S11".to_owned();
    let s21 = "S21".to_owned();
    proof {
        reveal_strlit("S11");
        reveal_strlit("S21");
        assert("S11"@[1] != "S21"@[1]);
    }
    let mut p: Vec<Option<(usize, bool)>> = Vec::new();
    let mut i: usize = 0;
    while i < rows.len()
        invariant
            0 <= i <= rows.len(),
            p@.len() == i,
            s11@ == "S11"@,
            s21@ == "S21"@,
            "S11"@ != "S21"@,
            forall|a: int, b: int|
                0 <= a < b < t@.len() ==> #[trigger] t@[a].0 != #[trigger] t@[b].0,
            forall|a: int|
                0 <= a < t@.len() ==> last_sweep_of(rows@, #[trigger] t@[a].0) == Some(t@[a].1@),
            forall|v: i32|
                #[trigger] last_sweep_of(rows@, v) is Some ==> exists|a: int|
                    0 <= a < t@.len() && #[trigger] t@[a].0 == v,
            forall|i: int|
                0 <= i < rows@.len() && plotted(rows@, i) ==> rows@[i].vna_number != Some(0i32),
            forall|j: int| 0 <= j < i ==> #[trigger] p@[j] == placement_of(rows@, j),
        decreases rows.len() - i,
    {
        let row = &rows[i];
        let mut place: Option<(usize, bool)> = None;
        if row.has_values {
            match (&row.channel, &row.vna_number, &row.sweep_id) {
                (Some(ch), Some(v), Some(sid)) => {
                    let v = *v;
                    match lookup_sweep(&t, v) {
                        Some(k) => {
                            if t[k].1 == *sid && v >= 1 {
                                let lane = (v - 1) as usize;
                                if *ch == s11 {
                                    place = Some((lane, true));
                                } else if *ch == s21 {
                                    place = Some((lane, false));
                                }
                            }
                            proof {
                                if plotted(rows@, i as int) {
                                    assert(t@[k as int].1@ == sid@);
                                }
                            }
                        },
                        None => {
                            proof {
                                if last_sweep_of(rows@, v) is Some {
                                    let a = choose|a: int| 0 <= a < t@.len() && #[trigger] t@[a].0 == v;
                                    assert(t@[a].0 == v);
                                }
                            }
                        },
                    }
                },
                _ => {},
            }
        }
        p.push(place);
        assert(p@[i as int] == placement_of(rows@, i as int));
        i += 1;
    }
    p
}

/// The highest analyser number of `rows`, if any row names one.
fn highest_vna(rows: &Vec<PlotRow>) -> (m: Option<i32>)
    ensures
        m == max_vna(rows@),
{
    let mut m: Option<i32> = None;
    let mut i: usize = 0;
    while i < rows.len()
        invariant
            0 <= i <= rows.len(),
            m == max_vna(rows@.take(i as int)),
        decreases rows.len() - i,
    {
        assert(rows@.take(i + 1).drop_last() =~= rows@.take(i as int));
        assert(rows@.take(i + 1).last() == rows@[i as int]);
        match rows[i].vna_number {
            Some(v) => {
                m = match m {
                    Some(cur) => Some(if v > cur {
                        v
                    } else {
                        cur
                    }),
                    None => Some(v),
                };
            },
            None => {},
        }
        i += 1;
    }
    assert(rows@.take(rows@.len() as int) =~= rows@);
    m
}

/// The rows the plots draw, per analyser lane: for each analyser from 1 to
/// the highest number any row names (one lane when none does), the indices,
/// in order, of its S11 rows and of its S21 rows that are complete and belong
/// to the analyser's last sweep.
pub fn latest_sweep_rows(rows: &Vec<PlotRow>) -> (r: (Vec<Vec<usize>>, Vec<Vec<usize>>))
    requires
        max_vna(rows@) matches Some(m) ==> m >= 0,
        forall|i: int|
            0 <= i < rows@.len() && plotted(rows@, i) ==> rows@[i].vna_number != Some(0i32),
    ensures
        r.0@.len() == lane_count(rows@),
        r.1@.len() == lane_count(rows@),
        forall|k: int|
            0 <= k < lane_count(rows@) ==> #[trigger] r.0@[k]@ == lane_rows(
                rows@,
                rows@.len() as int,
                k,
                "S11"@,
            ),
        forall|k: int|
            0 <= k < lane_count(rows@) ==> #[trigger] r.1@[k]@ == lane_rows(
                rows@,
                rows@.len() as int,
                k,
                "S21"@,
            ),
{
    let place = placements(rows);
    let lanes: usize = match highest_vna(rows) {
        Some(m) => m as usize,
        None => 1,
    };
    proof {
        reveal_strlit("S11");
        reveal_strlit("S21");
        assert("S11"@[1] != "S21"@[1]);
    }
    let mut s11: Vec<Vec<usize>> = Vec::new();
    let mut s21: Vec<Vec<usize>> = Vec::new();
    let mut k: usize = 0;
    while k < lanes
        invariant
            0 <= k <= lanes,
            lanes as int == lane_count(rows@),
            lanes <= i32::MAX,
            "S11"@ != "S21"@,
            place@.len() == rows@.len(),
            forall|i: int| 0 <= i < rows@.len() ==> #[trigger] place@[i] == placement_of(rows@, i),
            s11@.len() == k,
            s21@.len() == k,
            forall|j: int|
                0 <= j < k ==> #[trigger] s11@[j]@ == lane_rows(rows@, rows@.len() as int, j, "S11"@),
            forall|j: int|
                0 <= j < k ==> #[trigger] s21@[j]@ == lane_rows(rows@, rows@.len() as int, j, "S21"@),
        decreases lanes - k,
    {
        let mut a: Vec<usize> = Vec::new();
        let mut b: Vec<usize> = Vec::new();
        let mut i: usize = 0;
        while i < place.len()
            invariant
                0 <= i <= place.len(),
                0 <= k < lanes,
                lanes <= i32::MAX,
                "S11"@ != "S21"@,
                place@.len() == rows@.len(),
                forall|i: int| 0 <= i < rows@.len() ==> #[trigger] place@[i] == placement_of(rows@, i),
                a@ == lane_rows(rows@, i as int, k as int, "S11"@),
                b@ == lane_rows(rows@, i as int, k as int, "S21"@),
            decreases place.len() - i,
        {
            proof {
                let pl = placement_of(rows@, i as int);
                assert(picked(rows@, i as int, k as int, "S11"@) <==> pl == Some((k, true)));
                assert(picked(rows@, i as int, k as int, "S21"@) <==> pl == Some((k, false)));
            }
            match place[i] {
                Some((lane, is_s11)) => {
                    if lane == k {
                        if is_s11 {
                            a.push(i);
                        } else {
                            b.push(i);
                        }
                    }
                },
                None => {},
            }
            i += 1;
        }
        s11.push(a);
        s21.push(b);
        k += 1;
    }
    (s11, s21)
}

/// Law: a lane holds exactly the rows of its analyser and channel that are
/// complete and belong to the analyser's last sweep, each once, in the order
/// they were recorded.
pub proof fn lemma_lane_rows_exact(rows: Seq<PlotRow>, upto: int, lane: int, ch: Seq<char>)
    requires
        0 <= upto <= rows.len(),
        rows.len() <= usize::MAX,
    ensures
        forall|x: usize|
            #[trigger] lane_rows(rows, upto, lane, ch).contains(x) <==> (x < upto && picked(
                rows,
                x as int,
                lane,
                ch,
            )),
        forall|a: int, b: int|
            0 <= a < b < lane_rows(rows, upto, lane, ch).len() ==> lane_rows(rows, upto, lane, ch)[a]
                < lane_rows(rows, upto, lane, ch)[b],
    decreases upto,
{
    if upto > 0 {
        lemma_lane_rows_exact(rows, upto - 1, lane, ch);
        let prev = lane_rows(rows, upto - 1, lane, ch);
        let cur = lane_rows(rows, upto, lane, ch);
        if picked(rows, upto - 1, lane, ch) {
            let last = (upto - 1) as usize;
            assert(last as int == upto - 1);
            assert(cur == prev.push(last));
            assert(cur.len() == prev.len() + 1);
            assert(cur[prev.len() as int] == last);
            assert forall|x: usize| cur.contains(x) <==> (x < upto && picked(rows, x as int, lane, ch))
                by {
                if x == last {
                    assert(cur[prev.len() as int] == x);
                } else {
                    if cur.contains(x) {
                        let k = choose|k: int| 0 <= k < cur.len() && cur[k] == x;
                        assert(k < prev.len());
                        assert(prev[k] == x);
                        assert(prev.contains(x));
                    }
                    if x < upto && picked(rows, x as int, lane, ch) {
                        assert(prev.contains(x));
                        let k = choose|k: int| 0 <= k < prev.len() && prev[k] == x;
                        assert(cur[k] == x);
                    }
                }
            }
            assert forall|a: int, b: int| 0 <= a < b < cur.len() implies cur[a] < cur[b] by {
                assert(cur[a] == prev[a]);
                assert(prev.contains(prev[a]));
                if b < prev.len() {
                    assert(cur[b] == prev[b]);
                } else {
                    assert(cur[b] == last);
                }
            }
        } else {
            assert(cur =~= prev);
        }
    } else {
        assert(lane_rows(rows, upto, lane, ch) =~= Seq::<usize>::empty());
    }
}

/// The last sweep of analyser `v` among the first `n` rows is the sweep of
/// row `j < n` when row `j` names `v` and a sweep and no later row names `v`
/// with another sweep.
proof fn lemma_last_sweep_is(rows: Seq<PlotRow>, j: int, v: i32, n: int)
    requires
        0 <= j < n <= rows.len(),
        rows[j].vna_number == Some(v),
        rows[j].sweep_id is Some,
        forall|k: int|
            j < k < rows.len() && rows[k].vna_number == Some(v) && #[trigger] rows[k].sweep_id is Some
                ==> rows[k].sweep_id->0@ == rows[j].sweep_id->0@,
    ensures
        last_sweep_of(rows.take(n), v) == Some(rows[j].sweep_id->0@),
    decreases n - j,
{
    lemma_last_sweep_step(rows, n - 1, v);
    if n > j + 1 {
        lemma_last_sweep_is(rows, j, v, n - 1);
        if keyed(rows[n - 1]) && rows[n - 1].vna_number == Some(v) {
            assert(rows[n - 1].sweep_id is Some);
        }
    }
}

/// Law (each analyser's last sweep is drawn): the last sweep of an analyser
/// is the sweep of its last row that names the analyser and a sweep, on
/// either channel. So a complete row of analyser `v >= 1` on channel `ch`
/// is in lane `v - 1` of `ch` when no later row names `v` with a different
/// sweep; and a row is in a lane only when it is complete, of that lane's
/// analyser and channel, and of the sweep that the last row naming its
/// analyser and a sweep names.
pub proof fn lemma_last_sweep_is_plotted(rows: Seq<PlotRow>, i: int)
    requires
        0 <= i < rows.len(),
        rows.len() <= usize::MAX,
    ensures
        ({
            let r = rows[i];
            (r.has_values && r.channel is Some && r.sweep_id is Some && r.vna_number is Some
                && r.vna_number->0 >= 1 && (forall|k: int|
                i < k < rows.len() && rows[k].vna_number == r.vna_number
                    && #[trigger] rows[k].sweep_id is Some ==> rows[k].sweep_id->0@
                    == r.sweep_id->0@)) ==> lane_rows(
                rows,
                rows.len() as int,
                r.vna_number->0 - 1,
                r.channel->0@,
            ).contains(i as usize)
        }),
        forall|lane: int, ch: Seq<char>|
            #[trigger] lane_rows(rows, rows.len() as int, lane, ch).contains(i as usize) ==> {
                let r = rows[i];
                &&& r.has_values
                &&& r.channel is Some && r.channel->0@ == ch
                &&& r.vna_number is Some && r.vna_number->0 == lane + 1
                &&& r.sweep_id is Some
                &&& forall|j: int|
                    i < j < rows.len() && rows[j].vna_number == r.vna_number
                        && #[trigger] rows[j].sweep_id is Some && (forall|k: int|
                        j < k < rows.len() && rows[k].vna_number == r.vna_number
                            ==> rows[k].sweep_id is None) ==> rows[j].sweep_id->0@
                        == r.sweep_id->0@
            },
{
    let r = rows[i];
    if r.has_values && r.channel is Some && r.sweep_id is Some && r.vna_number is Some
        && r.vna_number->0 >= 1 && (forall|k: int|
        i < k < rows.len() && rows[k].vna_number == r.vna_number
            && #[trigger] rows[k].sweep_id is Some ==> rows[k].sweep_id->0@ == r.sweep_id->0@) {
        let v = r.vna_number->0;
        lemma_last_sweep_is(rows, i, v, rows.len() as int);
        assert(rows.take(rows.len() as int) =~= rows);
        assert(picked(rows, i, v - 1, r.channel->0@));
        lemma_lane_rows_exact(rows, rows.len() as int, v - 1, r.channel->0@);
        assert((i as usize) as int == i);
    }
    assert forall|lane: int, ch: Seq<char>|
        #[trigger] lane_rows(rows, rows.len() as int, lane, ch).contains(i as usize) implies {
            let r = rows[i];
            &&& r.has_values
            &&& r.channel is Some && r.channel->0@ == ch
            &&& r.vna_number is Some && r.vna_number->0 == lane + 1
            &&& r.sweep_id is Some
            &&& forall|j: int|
                i < j < rows.len() && rows[j].vna_number == r.vna_number
                    && #[trigger] rows[j].sweep_id is Some && (forall|k: int|
                    j < k < rows.len() && rows[k].vna_number == r.vna_number
                        ==> rows[k].sweep_id is None) ==> rows[j].sweep_id->0@ == r.sweep_id->0@
        } by {
        lemma_lane_rows_exact(rows, rows.len() as int, lane, ch);
        assert((i as usize) as int == i);
        assert(picked(rows, i, lane, ch));
        let v = r.vna_number->0;
        assert forall|j: int|
            i < j < rows.len() && rows[j].vna_number == r.vna_number
                && #[trigger] rows[j].sweep_id is Some && (forall|k: int|
                j < k < rows.len() && rows[k].vna_number == r.vna_number
                    ==> rows[k].sweep_id is None) implies rows[j].sweep_id->0@ == r.sweep_id->0@ by {
            lemma_last_sweep_is(rows, j, v, rows.len() as int);
            assert(rows.take(rows.len() as int) =~= rows);
        }
    }
}

} // verus!
