// SPDX-License-Identifier: Apache-2.0
use openmso::transport::{
    check_sun_path, first_tag, listen_permissions, socket_options, Attempt, Endpoints, Protocol,
    Search, MAX_PAYLOAD, RECV_MAX_SIZE,
};
use openmso::{Error, IoError, IoErrorKind};

/// Runs a search on a file system that holds the directories in `taken`.
fn search(runtime: &str, first: u16, taken: &mut Vec<String>) -> Result<Endpoints, Error> {
    let mut search = Search::new(runtime, first);
    loop {
        let dir = match search.attempt() {
            Attempt::Create { dir, .. } => dir,
            Attempt::GiveUp(e) => return Err(e),
        };
        let outcome = if taken.contains(&dir) {
            Err(IoError { kind: IoErrorKind::AlreadyExists, text: "File exists".to_string() })
        } else {
            taken.push(dir);
            Ok(())
        };
        if let Some(settled) = search.settle(outcome) {
            return settled;
        }
    }
}

#[test]
fn concurrent_frontends_get_separate_directories() {
    let mut taken = Vec::new();
    let a = search("/run/user/1000", 0x7f3a, &mut taken).unwrap();
    let b = search("/run/user/1000", 0x7f3a, &mut taken).unwrap();
    assert_ne!(a.control, b.control);
}

#[test]
fn live_frontends_share_nothing() {
    let mut taken = Vec::new();
    let a = search("/run/user/1000", 0x7f3a, &mut taken).unwrap();
    let b = search("/run/user/1000", 0x7f3a, &mut taken).unwrap();
    let urls = [&a.control, &a.events, &b.control, &b.events];
    for (i, url) in urls.iter().enumerate() {
        assert!(url.starts_with("ipc://"));
        assert!(!urls[..i].contains(url));
    }
    assert_ne!(a.dir, b.dir);
}

#[test]
fn overlong_socket_paths_are_rejected_before_nng_sees_them() {
    let long = format!("/run/user/1000/{}", "x".repeat(100));
    assert!(check_sun_path(&long).is_err());
    assert!(check_sun_path("/run/user/1000/openmso/7f3a/ctl").is_ok());
}

#[test]
fn endpoints_live_in_a_directory_of_their_own() {
    let mut taken = Vec::new();
    let e = search("/run/user/1000", 0x7f3a, &mut taken).unwrap();
    assert_eq!(e.control, "ipc:///run/user/1000/openmso/7f3a/ctl");
    assert_eq!(e.events, "ipc:///run/user/1000/openmso/7f3a/evt");
    assert_eq!(e.dir.as_deref(), Some("/run/user/1000/openmso/7f3a"));
    let e = search("/tmp/", 0x00ff, &mut taken).unwrap();
    assert_eq!(e.control, "ipc:///tmp/openmso/00ff/ctl");
}

#[test]
fn the_base_directory_is_made_first() {
    match Search::new("/tmp", 1).attempt() {
        Attempt::Create { base, dir, mode } => {
            assert_eq!(mode, 0o700);
            assert_eq!(base, "/tmp/openmso");
            assert_eq!(dir, "/tmp/openmso/0001");
        }
        Attempt::GiveUp(e) => panic!("{}", e.to_text()),
    }
}

#[test]
fn the_search_wraps_and_gives_up_after_its_attempts() {
    let mut taken = Vec::new();
    for i in 0..64u32 {
        let e = search("/t", 0xffe0, &mut taken).unwrap();
        let tag = (0xffe0 + i) & 0xffff;
        assert_eq!(e.dir, Some(format!("/t/openmso/{tag:04x}")));
    }
    match search("/t", 0xffe0, &mut taken) {
        Err(Error::Protocol(text)) => assert_eq!(text, "no free runtime directory"),
        other => panic!("{other:?}"),
    }
}

#[test]
fn another_failure_ends_the_search() {
    let mut search = Search::new("/t", 3);
    let e = IoError { kind: IoErrorKind::Other, text: "disk full".to_string() };
    match search.settle(Err(e)) {
        Some(Err(Error::Io(e))) => assert_eq!(e.text, "disk full"),
        other => panic!("{other:?}"),
    }
}

#[test]
fn the_limit_on_a_path_counts_bytes() {
    assert!(check_sun_path(&"x".repeat(103)).is_ok());
    match check_sun_path(&"\u{e9}".repeat(52)) {
        Err(Error::Protocol(text)) => assert_eq!(
            text,
            format!("socket path is 104 bytes, over the 103-byte limit: {}", "\u{e9}".repeat(52))
        ),
        other => panic!("{other:?}"),
    }
    match Endpoints::create(&"y".repeat(87), 0xabcd) {
        Err(Error::Protocol(text)) => assert_eq!(
            text,
            format!(
                "socket path is 104 bytes, over the 103-byte limit: {}/openmso/abcd/ctl",
                "y".repeat(87)
            )
        ),
        other => panic!("{other:?}"),
    }
    let e = Endpoints::create(&"y".repeat(86), 0xabcd).unwrap();
    assert_eq!(e.control.len(), e.events.len());
}

#[test]
fn tags_are_four_hex_digits() {
    assert_eq!(first_tag(0x1234_5678, 0x0000_00ff), 0x5687);
    let e = Endpoints::pipes(0xbeef);
    assert_eq!(e.control, "ipc://openmso-beef-ctl");
    assert_eq!(e.events, "ipc://openmso-beef-evt");
    assert!(e.dir.is_none());
}

#[test]
fn only_requests_have_a_resend_timer_to_disable() {
    for protocol in [Protocol::Req0, Protocol::Rep0, Protocol::Push0, Protocol::Pull0] {
        let options = socket_options(protocol);
        assert_eq!(options.recv_max_size, 8 << 20);
        assert_eq!(options.send_timeout, 30);
        assert_eq!(options.resend_time.is_some(), protocol == Protocol::Req0);
    }
    assert_eq!(socket_options(Protocol::Req0).resend_time, Some(0));
    assert_eq!((MAX_PAYLOAD, RECV_MAX_SIZE), (1 << 20, 8 << 20));
}

#[test]
fn only_ipc_sockets_have_permissions() {
    assert_eq!(listen_permissions("ipc:///run/ctl"), Some(0o600));
    assert_eq!(listen_permissions("tcp://127.0.0.1:1"), None);
    assert_eq!(listen_permissions("ipc:/"), None);
}
