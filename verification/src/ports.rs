use vstd::prelude::*;

verus! {

broadcast use vstd::std_specs::vec::axiom_spec_into_iter;

/// The USB vendor id of the NanoVNA's serial interface.
pub const NANOVNA_VID: u16 = 0x0483;

/// The USB product id of the NanoVNA's serial interface.
pub const NANOVNA_PID: u16 = 0x5740;

/// A serial port as the system lists it: its name and, for a USB port, its
/// vendor and product ids.
pub struct PortEntry {
    pub port_name: String,
    pub usb_ids: Option<(u16, u16)>,
}

/// The port is a NanoVNA's: a USB port with the NanoVNA's vendor and product ids.
pub open spec fn is_nanovna(p: PortEntry) -> bool {
    p.usb_ids == Some((NANOVNA_VID, NANOVNA_PID))
}

/// The NanoVNA ports of `s`, in order.
pub open spec fn nanovna_only(s: Seq<PortEntry>) -> Seq<PortEntry>
    decreases s.len(),
{
    if s.len() == 0 {
        seq![]
    } else if is_nanovna(s.last()) {
        nanovna_only(s.drop_last()).push(s.last())
    } else {
        nanovna_only(s.drop_last())
    }
}

/// The characters of each string of `v`.
pub open spec fn string_views(v: Seq<String>) -> Seq<Seq<char>> {
    v.map_values(|s: String| s@)
}

/// The names of the ports of `s`, in order.
pub open spec fn port_names(s: Seq<PortEntry>) -> Seq<Seq<char>> {
    s.map_values(|p: PortEntry| p.port_name@)
}

/// Keeps the NanoVNA ports of `ports`, in their order.
pub fn filter_nanovna_ports(ports: Vec<PortEntry>) -> (r: Vec<PortEntry>)
    ensures
        r@ == nanovna_only(ports@),
{
    let ghost all = ports@;
    let mut out: Vec<PortEntry> = Vec::new();
    for p in it: ports.into_iter()
        invariant
            it.seq() == all,
            out@ == nanovna_only(all.take(it.index() as int)),
    {
        let ghost i = it.index();
        assert(all.take(i + 1).drop_last() =~= all.take(i as int));
        assert(all.take(i + 1).last() == p);
        if p.usb_ids == Some((NANOVNA_VID, NANOVNA_PID)) {
            out.push(p);
        }
    }
    assert(all.take(all.len() as int) =~= all);
    out
}

/// The names of `ports`, in order.
pub fn names_of(ports: Vec<PortEntry>) -> (r: Vec<String>)
    ensures
        string_views(r@) == port_names(ports@),
{
    let ghost all = ports@;
    let mut out: Vec<String> = Vec::new();
    for p in it: ports.into_iter()
        invariant
            it.seq() == all,
            out@.len() == it.index(),
            it.index() <= all.len(),
            string_views(out@) == port_names(all.take(it.index() as int)),
    {
        let ghost i = it.index();
        let ghost before = out@;
        assert(all.take(i + 1)[i as int] == p);
        assert(string_views(before) == port_names(all.take(i as int)));
        out.push(p.port_name);
        assert forall|k: int| 0 <= k < i + 1 implies #[trigger] string_views(out@)[k] == port_names(
            all.take(i + 1),
        )[k] by {
            if k < i {
                assert(string_views(before)[k] == port_names(all.take(i as int))[k]);
                assert(all.take(i + 1)[k] == all.take(i as int)[k]);
            }
        }
        assert(string_views(out@) =~= port_names(all.take(i + 1)));
    }
    assert(all.take(all.len() as int) =~= all);
    out
}

/// The NanoVNA ports of a listing of the system's serial ports, in the
/// listing's order; an error when the system could not list its ports.
pub fn nanovna_ports(listing: Result<Vec<PortEntry>, ()>) -> (r: Result<Vec<PortEntry>, String>)
    ensures
        match listing {
            Ok(l) => r matches Ok(p) && p@ == nanovna_only(l@),
            Err(_) => r matches Err(msg) && msg@ == "Failed to enumerate serial ports"@,
        },
{
    match listing {
        Ok(ports) => Ok(filter_nanovna_ports(ports)),
        Err(_) => Err("Failed to enumerate serial ports".to_owned()),
    }
}

/// The names of the NanoVNA ports of a listing of the system's serial
/// ports, in the listing's order; an error when the system could not list
/// its ports.
pub fn detect_nanovna_port_names(listing: Result<Vec<PortEntry>, ()>) -> (r: Result<
    Vec<String>,
    String,
>)
    ensures
        match listing {
            Ok(l) => r matches Ok(names) && string_views(names@) == port_names(nanovna_only(l@)),
            Err(_) => r matches Err(msg) && msg@ == "Failed to enumerate serial ports"@,
        },
{
    match nanovna_ports(listing) {
        Ok(ports) => Ok(names_of(ports)),
        Err(e) => Err(e),
    }
}

/// Law (detection keeps exactly the NanoVNA ports): the detected ports are
/// the listed ports filtered by the NanoVNA's USB vendor and product ids, in
/// the listed order; a port is detected exactly when it is listed and has
/// those ids.
pub proof fn lemma_nanovna_only_is_filter(s: Seq<PortEntry>)
    ensures
        nanovna_only(s) == s.filter(
            |p: PortEntry| p.usb_ids == Some((NANOVNA_VID, NANOVNA_PID)),
        ),
        forall|p: PortEntry|
            #[trigger] nanovna_only(s).contains(p) <==> (s.contains(p) && p.usb_ids == Some(
                (0x0483u16, 0x5740u16),
            )),
    decreases s.len(),
{
    let f = |p: PortEntry| p.usb_ids == Some((NANOVNA_VID, NANOVNA_PID));
    reveal(Seq::filter);
    if s.len() > 0 {
        lemma_nanovna_only_is_filter(s.drop_last());
    }
    assert forall|p: PortEntry| #[trigger] nanovna_only(s).contains(p) <==> (s.contains(p)
        && p.usb_ids == Some((0x0483u16, 0x5740u16))) by {
        if nanovna_only(s).contains(p) {
            s.lemma_filter_contains_rev(f, p);
            let k = choose|k: int| 0 <= k < s.filter(f).len() && s.filter(f)[k] == p;
            s.lemma_filter_pred(f, k);
        }
        if s.contains(p) && p.usb_ids == Some((0x0483u16, 0x5740u16)) {
            let i = choose|i: int| 0 <= i < s.len() && s[i] == p;
            s.lemma_filter_contains(f, i);
        }
    }
}

} // verus!
