use vstd::prelude::*;

use crate::ports::{detect_nanovna_port_names, nanovna_only, port_names, string_views, PortEntry};
use crate::run_plan::RunConfig;
use crate::sweep_text::{chars_of, trim, trimmed};

verus! {

/// The highest frequency the analyser sweeps, in Hz.
pub const MAX_FREQ_HZ: u64 = 900_000_000;

/// The lowest frequency the analyser sweeps, in Hz.
pub const MIN_FREQ_HZ: u64 = 50_000;

/// The most points a sweep can have.
pub const MAX_POINTS: usize = 101;

/// The recorder's settings form and log, as the window shows them.
pub struct NanoVNASaverApp {
    /// The log shown in the terminal panel.
    pub terminal: String,
    /// The NanoVNA ports found by the last refresh.
    pub available_ports: Vec<String>,
    /// The ports ticked for the next run.
    pub selected_ports: Vec<String>,
    pub start_freq: u64,
    pub end_freq: u64,
    pub num_points: usize,
    pub num_ports: usize,
    pub save_path: String,
    pub label: String,
    /// 0 leaves the analyser's IF bandwidth as it is.
    pub if_bandwidth: u32,
    /// Recording time in seconds; 0 when the run is counted in sweeps.
    pub time: u64,
    pub num_sweeps: usize,
    pub is_running: bool,
}

/// The messages the form shows for its current values, in order.
pub open spec fn form_errors(app: &NanoVNASaverApp) -> Seq<Seq<char>> {
    message_if(app.selected_ports@.len() == 0, "Select at least one COM port"@)
        + message_if(
        app.start_freq >= app.end_freq,
        "Start frequency must be less than End frequency"@,
    ) + message_if(app.start_freq > MAX_FREQ_HZ, "Start frequency must be 900 MHz or less"@)
        + message_if(app.end_freq > MAX_FREQ_HZ, "End frequency must be 900 MHz or less"@)
        + message_if(app.end_freq < MIN_FREQ_HZ, "End frequency must be 50 kHz or more"@)
        + message_if(app.start_freq < MIN_FREQ_HZ, "Start frequency must be 50 kHz or more"@)
        + message_if(app.num_points > MAX_POINTS, "Points must be 101 or less"@) + message_if(
        (app.time == 0 && app.num_sweeps == 0) || (app.time > 0 && app.num_sweeps > 0),
        "Either Time or Num Sweeps must be set, but not both"@,
    )
}

/// `msg` alone when `cond` holds, nothing otherwise.
pub open spec fn message_if(cond: bool, msg: Seq<char>) -> Seq<Seq<char>> {
    if cond {
        seq![msg]
    } else {
        seq![]
    }
}

/// The form's values allow a run.
pub open spec fn form_valid(app: &NanoVNASaverApp) -> bool {
    &&& app.selected_ports@.len() > 0
    &&& MIN_FREQ_HZ <= app.start_freq < app.end_freq <= MAX_FREQ_HZ
    &&& app.num_points <= MAX_POINTS
    &&& (app.time == 0) != (app.num_sweeps == 0)
}

/// The label a run records under: the trimmed label, or `default_label`
/// when that is empty.
pub open spec fn run_label(label: Seq<char>) -> Seq<char> {
    if trim(label).len() == 0 {
        "default_label"@
    } else {
        trim(label)
    }
}

/// `new` differs from `old` at most in its available and selected ports.
pub open spec fn only_ports_changed(old: NanoVNASaverApp, new: NanoVNASaverApp) -> bool {
    &&& new.terminal == old.terminal
    &&& new.start_freq == old.start_freq
    &&& new.end_freq == old.end_freq
    &&& new.num_points == old.num_points
    &&& new.num_ports == old.num_ports
    &&& new.save_path == old.save_path
    &&& new.label == old.label
    &&& new.if_bandwidth == old.if_bandwidth
    &&& new.time == old.time
    &&& new.num_sweeps == old.num_sweeps
    &&& new.is_running == old.is_running
}

/// Appends `msg` to `errors` when `cond` holds.
fn push_message_if(errors: &mut Vec<String>, cond: bool, msg: &str)
    ensures
        string_views(final(errors)@) == string_views(old(errors)@) + message_if(cond, msg@),
{
    let ghost before = errors@;
    if cond {
        errors.push(msg.to_owned());
    }
    assert(string_views(errors@) =~= string_views(before) + message_if(cond, msg@));
}

/// Copies a list of strings.
fn copy_strings(v: &Vec<String>) -> (r: Vec<String>)
    ensures
        r@ == v@,
{
    let mut out: Vec<String> = Vec::new();
    let mut i: usize = 0;
    while i < v.len()
        invariant
            0 <= i <= v.len(),
            out@ == v@.take(i as int),
        decreases v.len() - i,
    {
        out.push(v[i].clone());
        assert(out@ =~= v@.take(i + 1));
        i += 1;
    }
    assert(v@.take(v.len() as int) =~= v@);
    out
}

/// The strings of `v` that are among `keep`, in order.
pub open spec fn kept_names(v: Seq<Seq<char>>, keep: Seq<Seq<char>>) -> Seq<Seq<char>>
    decreases v.len(),
{
    if v.len() == 0 {
        seq![]
    } else if keep.contains(v.last()) {
        kept_names(v.drop_last(), keep).push(v.last())
    } else {
        kept_names(v.drop_last(), keep)
    }
}

impl NanoVNASaverApp {
    /// The form's messages for its current values, in the order
    /// [`form_errors`] gives them.
    pub fn validation_messages(&self) -> (errors: Vec<String>)
        ensures
            string_views(errors@) == form_errors(self),
    {
        let mut errors: Vec<String> = Vec::new();
        push_message_if(&mut errors, self.selected_ports.len() == 0, "Select at least one COM port");
        assert(string_views(errors@) =~= message_if(
            self.selected_ports@.len() == 0,
            "Select at least one COM port"@,
        ));
        push_message_if(
            &mut errors,
            self.start_freq >= self.end_freq,
            "Start frequency must be less than End frequency",
        );
        push_message_if(
            &mut errors,
            self.start_freq > MAX_FREQ_HZ,
            "Start frequency must be 900 MHz or less",
        );
        push_message_if(
            &mut errors,
            self.end_freq > MAX_FREQ_HZ,
            "End frequency must be 900 MHz or less",
        );
        push_message_if(
            &mut errors,
            self.end_freq < MIN_FREQ_HZ,
            "End frequency must be 50 kHz or more",
        );
        push_message_if(
            &mut errors,
            self.start_freq < MIN_FREQ_HZ,
            "Start frequency must be 50 kHz or more",
        );
        push_message_if(&mut errors, self.num_points > MAX_POINTS, "Points must be 101 or less");
        push_message_if(
            &mut errors,
            (self.time == 0 && self.num_sweeps == 0) || (self.time > 0 && self.num_sweeps > 0),
            "Either Time or Num Sweeps must be set, but not both",
        );
        errors
    }

    /// Takes the result of a port detection: its names become the available
    /// ports (none when the detection failed), and the selected ports that
    /// are no longer available are unticked, the others kept in order.
    pub fn apply_port_listing(&mut self, detected: Result<Vec<String>, String>)
        ensures
            string_views(final(self).available_ports@) == (match detected {
                Ok(v) => string_views(v@),
                Err(_) => Seq::<Seq<char>>::empty(),
            }),
            string_views(final(self).selected_ports@) == kept_names(
                string_views(old(self).selected_ports@),
                string_views(final(self).available_ports@),
            ),
            string_views(final(self).selected_ports@) == string_views(
                old(self).selected_ports@,
            ).filter(|x: Seq<char>| string_views(final(self).available_ports@).contains(x)),
            only_ports_changed(*old(self), *final(self)),
    {
        self.available_ports = match detected {
            Ok(names) => names,
            Err(_) => Vec::new(),
        };
        assert(detected is Err ==> string_views(self.available_ports@) =~= Seq::<Seq<char>>::empty());
        let ghost old_sel = string_views(self.selected_ports@);
        let ghost avail = string_views(self.available_ports@);
        let mut kept: Vec<String> = Vec::new();
        let mut i: usize = 0;
        while i < self.selected_ports.len()
            invariant
                0 <= i <= self.selected_ports.len(),
                old_sel == string_views(self.selected_ports@),
                avail == string_views(self.available_ports@),
                string_views(kept@) == kept_names(old_sel.take(i as int), avail),
            decreases self.selected_ports.len() - i,
        {
            let name = &self.selected_ports[i];
            let mut found = false;
            let mut j: usize = 0;
            while j < self.available_ports.len()
                invariant
                    0 <= j <= self.available_ports.len(),
                    avail == string_views(self.available_ports@),
                    found == exists|k: int| 0 <= k < j && avail[k] == name@,
                decreases self.available_ports.len() - j,
            {
                if self.available_ports[j] == *name {
                    assert(avail[j as int] == name@);
                    found = true;
                }
                j += 1;
            }
            assert(found == avail.contains(name@));
            assert(old_sel.take(i + 1).drop_last() =~= old_sel.take(i as int));
            assert(old_sel.take(i + 1).last() == name@);
            let ghost before = kept@;
            if found {
                kept.push(name.clone());
                assert(string_views(kept@) =~= string_views(before).push(name@));
            }
            i += 1;
        }
        assert(old_sel.take(old_sel.len() as int) =~= old_sel);
        proof {
            lemma_kept_names_is_filter(old_sel, avail);
        }
        self.selected_ports = kept;
    }

    /// Lists the NanoVNA ports again from a listing of the system's serial
    /// ports (none when the system could not list them) and unticks the
    /// selected ports that are gone.
    pub fn refresh_ports(&mut self, listing: Result<Vec<PortEntry>, ()>)
        ensures
            string_views(final(self).available_ports@) == (match listing {
                Ok(l) => port_names(nanovna_only(l@)),
                Err(_) => Seq::<Seq<char>>::empty(),
            }),
            string_views(final(self).selected_ports@) == kept_names(
                string_views(old(self).selected_ports@),
                string_views(final(self).available_ports@),
            ),
            only_ports_changed(*old(self), *final(self)),
    {
        let detected = detect_nanovna_port_names(listing);
        self.apply_port_listing(detected);
    }

    /// What a run started from the form is asked to do: a timed run when a
    /// time is set, else a counted one; the IF bandwidth when it is set; the
    /// run label; two ports only when 2 is chosen; the selected ports.
    pub fn run_config(&self) -> (c: RunConfig)
        ensures
            c.num_sweeps == (if self.time > 0 {
                0
            } else {
                self.num_sweeps
            }),
            c.time == (if self.time > 0 {
                Some(self.time)
            } else {
                None
            }),
            c.if_bandwidth == (if self.if_bandwidth > 0 {
                Some(self.if_bandwidth)
            } else {
                None
            }),
            c.label@ == run_label(self.label@),
            c.num_ports == (if self.num_ports == 2 {
                2usize
            } else {
                1usize
            }),
            c.vna_number == 1,
            c.selected_port_names matches Some(names) && names@ == self.selected_ports@,
            c.start_freq == self.start_freq,
            c.end_freq == self.end_freq,
            c.num_points == self.num_points,
    {
        let (num_sweeps, time) = if self.time > 0 {
            (0, Some(self.time))
        } else {
            (self.num_sweeps, None)
        };
        let if_bandwidth = if self.if_bandwidth > 0 {
            Some(self.if_bandwidth)
        } else {
            None
        };
        let t = trimmed(self.label.as_str());
        let label = if t.as_str().is_empty() {
            "default_label".to_owned()
        } else {
            t
        };
        let num_ports: usize = if self.num_ports == 2 {
            2
        } else {
            1
        };
        RunConfig {
            num_sweeps,
            vna_number: 1,
            selected_port_names: Some(copy_strings(&self.selected_ports)),
            start_freq: self.start_freq,
            end_freq: self.end_freq,
            num_points: self.num_points,
            num_ports,
            if_bandwidth,
            time,
            label,
        }
    }
}

/// The form as the window opens, before its ports are listed: 50 kHz to
/// 900 MHz, 101 points, two ports, one sweep, nothing listed or selected,
/// an empty log.
pub open spec fn opening_form(app: NanoVNASaverApp) -> bool {
    &&& app.terminal@ == Seq::<char>::empty()
    &&& app.selected_ports@.len() == 0
    &&& app.start_freq == MIN_FREQ_HZ
    &&& app.end_freq == MAX_FREQ_HZ
    &&& app.num_points == MAX_POINTS
    &&& app.num_ports == 2
    &&& app.save_path@ == "output.csv"@
    &&& app.label@ == Seq::<char>::empty()
    &&& app.if_bandwidth == 0
    &&& app.time == 0
    &&& app.num_sweeps == 1
    &&& !app.is_running
}

impl Default for NanoVNASaverApp {
    /// The form as the window opens, with no port listed yet.
    fn default() -> (app: Self)
        ensures
            opening_form(app),
            app.available_ports@.len() == 0,
    {
        NanoVNASaverApp {
            terminal: String::new(),
            available_ports: Vec::new(),
            selected_ports: Vec::new(),
            start_freq: MIN_FREQ_HZ,
            end_freq: MAX_FREQ_HZ,
            num_points: MAX_POINTS,
            num_ports: 2,
            save_path: "output.csv".to_owned(),
            label: String::new(),
            if_bandwidth: 0,
            time: 0,
            num_sweeps: 1,
            is_running: false,
        }
    }
}

impl NanoVNASaverApp {
    /// The form as the window opens, with the NanoVNA ports of `listing`
    /// (none when the system could not list its ports).
    pub fn opened_with(listing: Result<Vec<PortEntry>, ()>) -> (app: Self)
        ensures
            opening_form(app),
            string_views(app.available_ports@) == (match listing {
                Ok(l) => port_names(nanovna_only(l@)),
                Err(_) => Seq::<Seq<char>>::empty(),
            }),
    {
        let mut app = Self::default();
        app.refresh_ports(listing);
        assert(string_views(app.selected_ports@) =~= Seq::<Seq<char>>::empty());
        app
    }
}

/// The run a command line asks for: the points capped at [`MAX_POINTS`]
/// (the flag says whether they were), the label `default_label` when none
/// is given, and the first `vna_number` analysers.
pub fn cli_run_config(
    num_sweeps: usize,
    vna_number: usize,
    start_freq: u64,
    end_freq: u64,
    num_points: usize,
    num_ports: usize,
    if_bandwidth: Option<u32>,
    time: Option<u64>,
    label: Option<String>,
) -> (r: (RunConfig, bool))
    ensures
        r.1 == (num_points > MAX_POINTS),
        r.0.num_points == (if num_points > MAX_POINTS {
            MAX_POINTS
        } else {
            num_points
        }),
        r.0.label@ == (match label {
            Some(l) => l@,
            None => "default_label"@,
        }),
        r.0.selected_port_names is None,
        r.0.num_sweeps == num_sweeps,
        r.0.vna_number == vna_number,
        r.0.start_freq == start_freq,
        r.0.end_freq == end_freq,
        r.0.num_ports == num_ports,
        r.0.if_bandwidth == if_bandwidth,
        r.0.time == time,
{
    let capped = num_points > MAX_POINTS;
    let points = if capped {
        MAX_POINTS
    } else {
        num_points
    };
    let label = match label {
        Some(l) => l,
        None => "default_label".to_owned(),
    };
    (
        RunConfig {
            num_sweeps,
            vna_number,
            selected_port_names: None,
            start_freq,
            end_freq,
            num_points: points,
            num_ports,
            if_bandwidth,
            time,
            label,
        },
        capped,
    )
}

/// Where results are saved, as the save-path field says.
pub enum SavePath {
    /// `output.csv` in the working directory (the field is blank).
    WorkingDirectoryDefault,
    /// `output.csv` in this directory.
    InDirectory(String),
    /// This file.
    File(String),
}

/// Reads the save-path field: blank means the default; a path that is a
/// directory, or ends with `/` or `\\`, means `output.csv` in it; anything
/// else is the file itself. `trimmed_is_dir` says whether the trimmed field
/// names an existing directory.
pub fn resolve_output_path(input: &str, trimmed_is_dir: bool) -> (p: SavePath)
    ensures
        ({
            let t = trim(input@);
            if t.len() == 0 {
                p is WorkingDirectoryDefault
            } else if trimmed_is_dir || t.last() == '/' || t.last() == '\\' {
                p matches SavePath::InDirectory(d) && d@ == t
            } else {
                p matches SavePath::File(f) && f@ == t
            }
        }),
{
    let t = trimmed(input);
    let cs = chars_of(t.as_str());
    if cs.len() == 0 {
        SavePath::WorkingDirectoryDefault
    } else {
        let last = cs[cs.len() - 1];
        if trimmed_is_dir || last == '/' || last == '\\' {
            SavePath::InDirectory(t)
        } else {
            SavePath::File(t)
        }
    }
}

/// Law: the form shows no message exactly when its values allow a run.
pub proof fn lemma_no_messages_iff_valid(app: &NanoVNASaverApp)
    ensures
        form_errors(app).len() == 0 <==> form_valid(app),
{
    let m = |cond: bool| -> int { if cond { 1int } else { 0int } };
    assert(form_errors(app).len() == m(app.selected_ports@.len() == 0) + m(app.start_freq >= app.end_freq)
        + m(app.start_freq > MAX_FREQ_HZ) + m(app.end_freq > MAX_FREQ_HZ) + m(app.end_freq < MIN_FREQ_HZ)
        + m(app.start_freq < MIN_FREQ_HZ) + m(app.num_points > MAX_POINTS) + m(
        (app.time == 0 && app.num_sweeps == 0) || (app.time > 0 && app.num_sweeps > 0),
    ));
}

/// The selection that survives a listing is the selection filtered by
/// availability, and all of it when every name is available.
proof fn lemma_kept_names_filters(v: Seq<Seq<char>>, keep: Seq<Seq<char>>)
    ensures
        kept_names(v, keep) == v.filter(|x: Seq<char>| keep.contains(x)),
        (forall|i: int| 0 <= i < v.len() ==> keep.contains(#[trigger] v[i])) ==> kept_names(v, keep)
            == v,
    decreases v.len(),
{
    reveal(Seq::filter);
    if v.len() > 0 {
        lemma_kept_names_filters(v.drop_last(), keep);
        assert(forall|i: int| 0 <= i < v.drop_last().len() ==> v.drop_last()[i] == v[i]);
        assert(v.drop_last().push(v.last()) =~= v);
        if forall|i: int| 0 <= i < v.len() ==> keep.contains(#[trigger] v[i]) {
            assert(keep.contains(v[v.len() - 1]));
        }
    }
}

/// Law (refreshing keeps what is still there): the selection after a
/// listing is the old selection with exactly the names that are no longer
/// available taken out, in the old order; so every selected name that is
/// still available stays selected, and no name is added.
pub proof fn lemma_kept_names_is_filter(v: Seq<Seq<char>>, keep: Seq<Seq<char>>)
    ensures
        kept_names(v, keep) == v.filter(|x: Seq<char>| keep.contains(x)),
        forall|x: Seq<char>|
            #[trigger] kept_names(v, keep).contains(x) <==> (v.contains(x) && keep.contains(x)),
        kept_names(v, keep).len() <= v.len(),
        (forall|i: int| 0 <= i < v.len() ==> keep.contains(#[trigger] v[i])) ==> kept_names(v, keep)
            == v,
{
    let f = |x: Seq<char>| keep.contains(x);
    lemma_kept_names_filters(v, keep);
    v.lemma_filter_len(f);
    assert forall|x: Seq<char>| #[trigger] kept_names(v, keep).contains(x) <==> (v.contains(x)
        && keep.contains(x)) by {
        if kept_names(v, keep).contains(x) {
            v.lemma_filter_contains_rev(f, x);
            let k = choose|k: int| 0 <= k < v.filter(f).len() && v.filter(f)[k] == x;
            v.lemma_filter_pred(f, k);
        }
        if v.contains(x) && keep.contains(x) {
            let i = choose|i: int| 0 <= i < v.len() && v[i] == x;
            v.lemma_filter_contains(f, i);
        }
    }
}

} // verus!
