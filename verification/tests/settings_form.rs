use nanovna_saver::ports::PortEntry;
use nanovna_saver::settings::{cli_run_config, resolve_output_path, NanoVNASaverApp, SavePath};

#[test]
fn test_default_values() {
    let default = NanoVNASaverApp::default();

    assert_eq!(default.terminal, String::new());
    assert_eq!(default.start_freq, 50_000);
    assert_eq!(default.end_freq, 900_000_000);
    assert_eq!(default.num_points, 101);
    assert_eq!(default.num_ports, 2);
    assert_eq!(default.label, String::new());
    assert_eq!(default.if_bandwidth, 0);
    assert_eq!(default.time, 0);
    assert_eq!(default.num_sweeps, 1);
    assert!(!default.is_running);
}

#[test]
fn test_validation_messages_normal() {
    let mut mock = NanoVNASaverApp::default();

    mock.selected_ports.push("port_name".to_string());
    let expected: Vec<String> = Vec::new();

    assert_eq!(mock.validation_messages(), expected);
}

#[test]
fn test_validation_messages_all() {
    let mock = NanoVNASaverApp {
        selected_ports: Vec::new(),
        end_freq: 5_000,
        start_freq: 10_000,
        num_points: 10_000,
        time: 0,
        num_sweeps: 0,
        ..Default::default()
    };

    let expected: Vec<String> = vec![
        "Select at least one COM port".to_string(),
        "Start frequency must be less than End frequency".to_string(),
        "End frequency must be 50 kHz or more".to_string(),
        "Start frequency must be 50 kHz or more".to_string(),
        "Points must be 101 or less".to_string(),
        "Either Time or Num Sweeps must be set, but not both".to_string(),
    ];

    assert_eq!(mock.validation_messages(), expected);
}

fn form() -> NanoVNASaverApp {
    let mut app = NanoVNASaverApp::default();
    app.available_ports = vec!["/dev/ttyACM0".to_string()];
    app.selected_ports = vec!["/dev/ttyACM0".to_string()];
    app
}

#[test]
fn validation_rejects_frequencies_above_900_mhz() {
    let mut app = form();
    app.start_freq = 900_000_001;
    app.end_freq = 950_000_000;
    assert_eq!(
        app.validation_messages(),
        vec![
            "Start frequency must be 900 MHz or less".to_string(),
            "End frequency must be 900 MHz or less".to_string(),
        ]
    );
}

#[test]
fn validation_rejects_both_time_and_sweeps() {
    let mut app = form();
    app.time = 10;
    app.num_sweeps = 3;
    assert_eq!(
        app.validation_messages(),
        vec!["Either Time or Num Sweeps must be set, but not both".to_string()]
    );
    app.num_sweeps = 0;
    assert!(app.validation_messages().is_empty());
}

#[test]
fn validation_accepts_the_bounds() {
    let mut app = form();
    app.start_freq = 50_000;
    app.end_freq = 900_000_000;
    app.num_points = 101;
    assert!(app.validation_messages().is_empty());
    app.end_freq = 50_000;
    assert_eq!(
        app.validation_messages(),
        vec!["Start frequency must be less than End frequency".to_string()]
    );
}

#[test]
fn run_config_counted_run() {
    let mut app = form();
    app.label = "  antenna A \t".to_string();
    app.num_sweeps = 4;
    app.num_ports = 1;
    let c = app.run_config();
    assert_eq!(c.num_sweeps, 4);
    assert_eq!(c.time, None);
    assert_eq!(c.if_bandwidth, None);
    assert_eq!(c.label, "antenna A");
    assert_eq!(c.num_ports, 1);
    assert_eq!(c.vna_number, 1);
    assert_eq!(c.selected_port_names, Some(vec!["/dev/ttyACM0".to_string()]));
    assert_eq!(c.start_freq, 50_000);
    assert_eq!(c.end_freq, 900_000_000);
    assert_eq!(c.num_points, 101);
}

#[test]
fn run_config_timed_run_with_bandwidth_and_default_label() {
    let mut app = form();
    app.time = 30;
    app.num_sweeps = 7;
    app.if_bandwidth = 10;
    app.label = "   ".to_string();
    app.num_ports = 5;
    let c = app.run_config();
    assert_eq!(c.num_sweeps, 0);
    assert_eq!(c.time, Some(30));
    assert_eq!(c.if_bandwidth, Some(10));
    assert_eq!(c.label, "default_label");
    assert_eq!(c.num_ports, 1);
}

#[test]
fn cli_config_caps_points_and_defaults_label() {
    let (c, capped) = cli_run_config(2, 3, 1_000_000, 2_000_000, 250, 2, Some(100), None, None);
    assert!(capped);
    assert_eq!(c.num_points, 101);
    assert_eq!(c.label, "default_label");
    assert_eq!(c.num_sweeps, 2);
    assert_eq!(c.vna_number, 3);
    assert_eq!(c.if_bandwidth, Some(100));
    assert_eq!(c.selected_port_names, None);

    let (c, capped) = cli_run_config(1, 1, 50_000, 900_000_000, 101, 2, None, Some(5), Some("lab".to_string()));
    assert!(!capped);
    assert_eq!(c.num_points, 101);
    assert_eq!(c.label, "lab");
    assert_eq!(c.time, Some(5));
}

#[test]
fn output_path_rules() {
    assert!(matches!(resolve_output_path("   ", false), SavePath::WorkingDirectoryDefault));
    assert!(matches!(resolve_output_path("", true), SavePath::WorkingDirectoryDefault));
    match resolve_output_path(" results/ ", false) {
        SavePath::InDirectory(d) => assert_eq!(d, "results/"),
        _ => panic!("expected a directory"),
    }
    match resolve_output_path("C:\\data\\", false) {
        SavePath::InDirectory(d) => assert_eq!(d, "C:\\data\\"),
        _ => panic!("expected a directory"),
    }
    match resolve_output_path("runs", true) {
        SavePath::InDirectory(d) => assert_eq!(d, "runs"),
        _ => panic!("expected a directory"),
    }
    match resolve_output_path(" runs/out.csv", false) {
        SavePath::File(f) => assert_eq!(f, "runs/out.csv"),
        _ => panic!("expected a file"),
    }
}

#[test]
fn port_listing_replaces_available_and_unticks_gone_ports() {
    let mut app = form();
    app.selected_ports = vec!["/dev/ttyACM1".to_string(), "/dev/ttyACM0".to_string()];
    app.label = "keep".to_string();
    app.apply_port_listing(Ok(vec!["/dev/ttyACM0".to_string(), "/dev/ttyACM2".to_string()]));
    assert_eq!(app.available_ports, vec!["/dev/ttyACM0".to_string(), "/dev/ttyACM2".to_string()]);
    assert_eq!(app.selected_ports, vec!["/dev/ttyACM0".to_string()]);
    assert_eq!(app.label, "keep");

    app.apply_port_listing(Err("Failed to enumerate serial ports".to_string()));
    assert!(app.available_ports.is_empty());
    assert!(app.selected_ports.is_empty());
}

#[test]
fn refresh_lists_nanovna_ports_and_unticks_gone_ones() {
    let mut app = form();
    app.selected_ports = vec!["/dev/ttyACM0".to_string(), "/dev/ttyACM9".to_string()];
    let listing = vec![
        PortEntry { port_name: "/dev/ttyS0".to_string(), usb_ids: None },
        PortEntry { port_name: "/dev/ttyACM0".to_string(), usb_ids: Some((0x0483, 0x5740)) },
        PortEntry { port_name: "/dev/ttyACM9".to_string(), usb_ids: Some((0x0403, 0x6001)) },
    ];
    app.refresh_ports(Ok(listing));
    assert_eq!(app.available_ports, vec!["/dev/ttyACM0".to_string()]);
    assert_eq!(app.selected_ports, vec!["/dev/ttyACM0".to_string()]);

    app.refresh_ports(Err(()));
    assert!(app.available_ports.is_empty());
    assert!(app.selected_ports.is_empty());
}

#[test]
fn opened_form_lists_the_ports() {
    let listing = vec![PortEntry { port_name: "/dev/ttyACM3".to_string(), usb_ids: Some((0x0483, 0x5740)) }];
    let app = NanoVNASaverApp::opened_with(Ok(listing));
    assert_eq!(app.available_ports, vec!["/dev/ttyACM3".to_string()]);
    assert!(app.selected_ports.is_empty());
    assert_eq!(app.num_points, 101);
    assert!(NanoVNASaverApp::opened_with(Err(())).available_ports.is_empty());
}
