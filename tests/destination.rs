use fcp::align::align_str;
use fcp::destination::{
    parse_destination, parse_ssh_destination, split_user_host, Destination, DestinationError,
};

#[test]
fn ssh_destination_splits_at_the_colon() {
    let r = parse_ssh_destination("alice@example.org:/srv/backup").unwrap();
    assert_eq!(r, ("alice@example.org".to_string(), "/srv/backup".to_string()));
}

#[test]
fn ssh_destination_needs_exactly_one_colon() {
    assert_eq!(parse_ssh_destination("plain/path"), Err(DestinationError::InvalidFormat));
    assert_eq!(parse_ssh_destination("u@h:a:b"), Err(DestinationError::InvalidFormat));
}

#[test]
fn ssh_destination_with_empty_path() {
    assert_eq!(parse_ssh_destination("h:"), Ok(("h".to_string(), String::new())));
}

#[test]
fn user_and_host_split() {
    assert_eq!(split_user_host("bob@host"), (Some("bob".to_string()), "host".to_string()));
    assert_eq!(split_user_host("host"), (None, "host".to_string()));
    assert_eq!(split_user_host("a@b@c"), (None, "a@b@c".to_string()));
}

#[test]
fn destination_selects_local_without_user_before_colon() {
    match parse_destination("out/dir").unwrap() {
        Destination::Local { path } => assert_eq!(path, "out/dir"),
        other => panic!("unexpected {:?}", other),
    }
    match parse_destination("host:path").unwrap() {
        Destination::Local { path } => assert_eq!(path, "host:path"),
        other => panic!("unexpected {:?}", other),
    }
}

#[test]
fn destination_selects_remote() {
    match parse_destination("u@h:/data").unwrap() {
        Destination::Remote { ssh_dest, path } => {
            assert_eq!(ssh_dest, "u@h");
            assert_eq!(path, "/data");
        }
        other => panic!("unexpected {:?}", other),
    }
}

#[test]
fn remote_destination_with_two_colons_is_refused() {
    assert!(matches!(parse_destination("u@h:a:b"), Err(DestinationError::InvalidFormat)));
}

#[test]
fn align_pads_short_labels() {
    assert_eq!(align_str("abc", 5), "  abc");
    assert_eq!(align_str("", 2), "  ");
}

#[test]
fn align_keeps_the_tail_of_long_labels() {
    assert_eq!(align_str("abcdef", 3), "def");
    assert_eq!(align_str("héllo", 4), "éllo");
    assert_eq!(align_str("abc", 0), "");
}
