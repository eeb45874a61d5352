use nanovna_saver::ports::{filter_nanovna_ports, names_of, nanovna_ports, PortEntry, NANOVNA_PID, NANOVNA_VID};
use nanovna_saver::run_plan::{combine_outcomes, plan_sweeps, WorkerOutcome};
use nanovna_saver::{detect_nanovna_port_names, RunConfig};

fn entry(name: &str, ids: Option<(u16, u16)>) -> PortEntry {
    PortEntry { port_name: name.to_string(), usb_ids: ids }
}

fn listed() -> Vec<PortEntry> {
    vec![
        entry("/dev/ttyS0", None),
        entry("/dev/ttyACM0", Some((NANOVNA_VID, NANOVNA_PID))),
        entry("/dev/ttyUSB0", Some((0x0403, 0x6001))),
        entry("/dev/ttyACM1", Some((0x0483, 0x5740))),
        entry("/dev/ttyACM2", Some((0x0483, 0x5741))),
    ]
}

fn config(vna_number: usize, selected: Option<Vec<&str>>) -> RunConfig {
    RunConfig {
        num_sweeps: 3,
        vna_number,
        selected_port_names: selected.map(|v| v.into_iter().map(|s| s.to_string()).collect()),
        start_freq: 50_000,
        end_freq: 900_000_000,
        num_points: 101,
        num_ports: 2,
        if_bandwidth: Some(10),
        time: None,
        label: "bench".to_string(),
    }
}

#[test]
fn only_nanovna_usb_ports_are_kept() {
    let names = names_of(filter_nanovna_ports(listed()));
    assert_eq!(names, vec!["/dev/ttyACM0".to_string(), "/dev/ttyACM1".to_string()]);
}

#[test]
fn detection_names_or_reports_failure() {
    assert_eq!(
        detect_nanovna_port_names(Ok(listed())),
        Ok(vec!["/dev/ttyACM0".to_string(), "/dev/ttyACM1".to_string()])
    );
    assert_eq!(detect_nanovna_port_names(Ok(Vec::new())), Ok(Vec::new()));
    assert_eq!(detect_nanovna_port_names(Err(())), Err("Failed to enumerate serial ports".to_string()));
}

#[test]
fn failed_listing_gives_the_enumeration_error() {
    match nanovna_ports(Err(())) {
        Err(e) => assert_eq!(e, "Failed to enumerate serial ports"),
        Ok(_) => panic!("a failed listing gives no ports"),
    }
    let ports = nanovna_ports(Ok(listed())).unwrap();
    assert_eq!(names_of(ports), vec!["/dev/ttyACM0".to_string(), "/dev/ttyACM1".to_string()]);
}

#[test]
fn plan_fails_without_devices() {
    match plan_sweeps(Vec::new(), &config(1, None)) {
        Err(e) => assert_eq!(e, "No NanoVNA devices detected"),
        Ok(_) => panic!("no device, no plan"),
    }
}

#[test]
fn plan_takes_the_first_vna_number_ports() {
    let ports = filter_nanovna_ports(listed());
    let plan = plan_sweeps(ports, &config(1, None)).unwrap();
    assert_eq!(plan.len(), 1);
    assert_eq!(plan[0].port_name, "/dev/ttyACM0");
    assert_eq!(plan[0].vna_number, 1);
    assert_eq!(plan[0].num_sweeps, 3);
    assert_eq!(plan[0].if_bandwidth, Some(10));
    assert_eq!(plan[0].label, "bench");

    let plan = plan_sweeps(filter_nanovna_ports(listed()), &config(5, None)).unwrap();
    assert_eq!(plan.len(), 2);
    assert_eq!(plan[1].port_name, "/dev/ttyACM1");
    assert_eq!(plan[1].vna_number, 2);

    let plan = plan_sweeps(filter_nanovna_ports(listed()), &config(0, None)).unwrap();
    assert!(plan.is_empty());
}

#[test]
fn plan_uses_selected_ports_in_detection_order() {
    let ports = filter_nanovna_ports(listed());
    let plan = plan_sweeps(ports, &config(1, Some(vec!["/dev/ttyACM1", "/dev/ttyS0"]))).unwrap();
    assert_eq!(plan.len(), 1);
    assert_eq!(plan[0].port_name, "/dev/ttyACM1");
    assert_eq!(plan[0].vna_number, 1);
}

#[test]
fn outcomes_combine_in_order() {
    let ok = vec![
        WorkerOutcome::Finished { total_bytes: 10 },
        WorkerOutcome::Finished { total_bytes: 32 },
    ];
    assert_eq!(combine_outcomes(&ok), Ok(42));
    assert_eq!(combine_outcomes(&Vec::new()), Err("No data collected".to_string()));
    let failed = vec![
        WorkerOutcome::Finished { total_bytes: 10 },
        WorkerOutcome::Failed("port gone".to_string()),
        WorkerOutcome::Panicked,
    ];
    assert_eq!(combine_outcomes(&failed), Err("Sweep failed: port gone".to_string()));
    let panicked = vec![WorkerOutcome::Panicked, WorkerOutcome::Failed("x".to_string())];
    assert_eq!(combine_outcomes(&panicked), Err("Thread panicked".to_string()));
}
