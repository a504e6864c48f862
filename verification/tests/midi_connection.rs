use loop_drop::midi_connection::{assign_port_names, build_name, normalize_port_names, parse_port_index, SharedMidiOutputConnection};

#[test]
fn port_names_lose_client_numbers_and_keep_devices_apart() {
    let names = vec![
        String::from("1- Launchpad Pro MK3 24:0"),
        String::from("Launchpad Pro MK3 24:1"),
        String::from("Launchpad Pro MK3 25:0"),
        String::from("Twister"),
    ];
    let result = normalize_port_names(&names).unwrap();
    assert_eq!(
        result,
        vec![
            String::from("Launchpad Pro MK3"),
            String::from("Launchpad Pro MK3 PORT 2"),
            String::from("Launchpad Pro MK3 2"),
            String::from("Twister"),
        ]
    );
}

#[test]
fn assigned_names_count_duplicates() {
    let parts = vec![(String::from("Pad"), 0), (String::from("Pad"), 0), (String::from("Pad"), 0), (String::from("Pad"), 1)];
    assert_eq!(
        assign_port_names(&parts),
        vec![String::from("Pad"), String::from("Pad 2"), String::from("Pad 3"), String::from("Pad PORT 2")]
    );
}

#[test]
fn names_are_built_from_numbers() {
    assert_eq!(build_name("Box", 0, 0), "Box");
    assert_eq!(build_name("Box", 1, 0), "Box 2");
    assert_eq!(build_name("Box", 9, 2), "Box 10 PORT 3");
}

#[test]
fn port_numbers_parse_like_u32() {
    assert_eq!(parse_port_index("0"), 0);
    assert_eq!(parse_port_index("12"), 12);
    assert_eq!(parse_port_index("+7"), 7);
    assert_eq!(parse_port_index(""), 0);
    assert_eq!(parse_port_index("x1"), 0);
    assert_eq!(parse_port_index("4294967295"), 4294967295);
    assert_eq!(parse_port_index("4294967296"), 0);
}

#[test]
fn shared_output_remembers_values_for_resending() {
    let mut port = SharedMidiOutputConnection::new();
    port.send(&[176, 7, 0]);
    port.send(&[144, 60, 100]);
    port.send(&[144, 61, 0]);
    port.send(&[144, 60, 90]);
    port.send(&[240, 1, 2, 247]);
    let queued = port.take_messages();
    assert_eq!(queued.len(), 5);
    assert_eq!(queued[4], vec![240, 1, 2, 247]);
    assert!(port.take_messages().is_empty());
    let mut resend = port.resend_messages();
    resend.sort();
    assert_eq!(resend, vec![(144, 60, 90), (176, 7, 0)]);
}

#[test]
fn port_names_refused_on_the_largest_port_number() {
    assert_eq!(normalize_port_names(&Vec::new()), Some(Vec::new()));
    let names = vec![String::from("Pad 24:0"), String::from("Pad 24:4294967295")];
    assert_eq!(normalize_port_names(&names), None);
}
