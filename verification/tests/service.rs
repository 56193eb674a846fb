use pimprobe::probe::Axis;
use pimprobe::service::{
    admission, routine_axes, center_internal, parse_arguments, routine_label, trim_command, usb_mount,
    validate_selection, Admission, follow_up_done, restore_modes_after_failure, FollowUp,
};

fn args(list: &[&str]) -> Vec<String> {
    list.iter().map(|s| s.to_string()).collect()
}

#[test]
fn usb_mount_prefers_the_machine_mount_and_requires_a_block_device() {
    let mounts = "tmpfs /mnt/udisk tmpfs rw 0 0\n/dev/sdb1 /run/media/backup vfat rw 0 0\n/dev/sda1 /mnt/udisk vfat rw 0 0\n";
    assert_eq!(usb_mount(mounts), Some("/mnt/udisk".to_owned()));
    assert_eq!(
        usb_mount("tmpfs /mnt/udisk tmpfs rw 0 0\n/dev/sdb1 /run/media/backup vfat rw 0 0\n"),
        Some("/run/media/backup".to_owned())
    );
    assert_eq!(usb_mount("tmpfs /mnt/udisk tmpfs rw 0 0\n"), None);
}

#[test]
fn usb_mount_reads_escaped_spaces_and_takes_the_first_removable_drive() {
    assert_eq!(
        usb_mount("/dev/sdc1 /run/media/My\\040Stick vfat rw 0 0\n/dev/sdd1 /run/media/other vfat rw 0 0\n"),
        Some("/run/media/My Stick".to_owned())
    );
    assert_eq!(usb_mount(""), None);
    assert_eq!(usb_mount("/dev/sda1\n"), None);
}

#[test]
fn rejects_invalid_options_and_public_listener() {
    // A listen address is refused unless it is a loopback one where the
    // service parses it as a socket address (std::net), outside this library;
    // here the options it is read from are checked.
    for list in [vec!["--listen"], vec!["--unknown", "1"]] {
        assert!(parse_arguments(&args(&list)).is_err());
    }
    let options = parse_arguments(&args(&[
        "--mock",
        "--listen",
        "127.0.0.1:18137",
        "--ready-token",
        "qml-test",
    ]))
    .unwrap();
    assert!(options.mock);
    assert_eq!(options.listen.as_deref(), Some("127.0.0.1:18137"));
    assert_eq!(options.ready_token, "qml-test");
}

#[test]
fn argument_errors_name_the_option() {
    assert_eq!(
        parse_arguments(&args(&["--listen"])).unwrap_err(),
        "missing value for --listen"
    );
    assert_eq!(
        parse_arguments(&args(&["--unknown", "1"])).unwrap_err(),
        "unknown option --unknown"
    );
    let defaults = parse_arguments(&args(&[])).unwrap();
    assert!(!defaults.mock);
    assert_eq!(defaults.ready_token, "manual");
    assert!(defaults.config.is_none() && defaults.listen.is_none() && defaults.settings.is_none());
    let paths = parse_arguments(&args(&["--config", "/etc/p.json", "--settings", "s.json"])).unwrap();
    assert_eq!(paths.config.as_deref(), Some("/etc/p.json"));
    assert_eq!(paths.settings.as_deref(), Some("s.json"));
}

#[test]
fn commands_are_trimmed_word_by_word() {
    assert_eq!(trim_command("G1   X1.500  Y-2.000 "), "G1 X1.5 Y-2");
    assert_eq!(trim_command("G38.2 Z-10.000 F100"), "G38.2 Z-10 F100");
    assert_eq!(trim_command("G0 X0.000"), "G0 X0");
    assert_eq!(trim_command(""), "");
}

#[test]
fn routine_labels_name_the_feature() {
    assert_eq!(routine_label("outside", "edge", 1, 0, false), "Outside X+ edge");
    assert_eq!(routine_label("inside", "corner", 1, -1, false), "Inside X+/Y- corner");
    assert_eq!(routine_label("inside", "edge", 0, -1, false), "Inside Y- edge");
    assert_eq!(routine_label("center", "x-valley", 1, 0, false), "x valley center");
    assert_eq!(routine_label("outside", "surface", 0, 0, true), "Z surface");
}

#[test]
fn feature_selection_is_validated() {
    assert!(validate_selection("outside", "edge", 1, 0, false, 54).is_ok());
    assert!(validate_selection("center", "hole", 1, 1, false, 59).is_ok());
    assert!(validate_selection("center", "z", 0, 0, true, 54).is_ok());
    let message = |r: Result<(), pimprobe::probe::InvalidConfig>| r.unwrap_err().message;
    assert_eq!(
        message(validate_selection("sideways", "edge", 1, 0, false, 54)),
        "invalid feature selection"
    );
    assert_eq!(
        message(validate_selection("outside", "edge", 1, 0, true, 54)),
        "invalid feature selection"
    );
    assert_eq!(
        message(validate_selection("outside", "edge", 2, 0, false, 54)),
        "invalid feature selection"
    );
    assert_eq!(
        message(validate_selection("outside", "edge", 1, 0, false, 60)),
        "invalid WCS"
    );
    assert_eq!(
        message(validate_selection("center", "slot", 1, 1, false, 54)),
        "unknown center feature"
    );
    assert_eq!(
        message(validate_selection("center", "x-ridge", 1, 1, false, 54)),
        "invalid center selection"
    );
    assert!(center_internal("pocket") && center_internal("y-valley"));
    assert!(!center_internal("boss") && !center_internal("x-ridge"));
}

#[test]
fn machine_actions_are_admitted_one_at_a_time() {
    assert_eq!(admission(false, true, false), Admission::Admitted);
    assert_eq!(admission(true, true, false), Admission::ShuttingDown);
    assert_eq!(admission(false, false, true), Admission::Busy);
    assert_eq!(admission(false, true, true), Admission::AwaitingRecovery);
}

#[test]
fn routines_measure_their_selected_axes_in_order() {
    assert_eq!(routine_axes(0, 0, true), vec![Axis::Z]);
    assert_eq!(routine_axes(1, -1, false), vec![Axis::X, Axis::Y]);
    assert_eq!(routine_axes(0, 1, false), vec![Axis::Y]);
    assert_eq!(routine_axes(-1, 0, false), vec![Axis::X]);
}

#[test]
fn positioning_actions_are_done_once() {
    assert!(follow_up_done(FollowUp::Return, true, false));
    assert!(!follow_up_done(FollowUp::Return, false, true));
    assert!(follow_up_done(FollowUp::Measured, false, true));
    assert!(!follow_up_done(FollowUp::Measured, true, false));
    assert!(restore_modes_after_failure(true, true, true, false, true));
    assert!(!restore_modes_after_failure(false, true, true, false, true));
    assert!(!restore_modes_after_failure(true, true, true, true, true));
    assert!(!restore_modes_after_failure(true, true, true, false, false));
}
