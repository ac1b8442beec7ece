use cros_p9::hiberlog::{
    facprio, level_from_u8, parse_rfc3164_record, priority_from_level, redirect_log, reset_log,
    Flushed, Hiberlog, HiberlogOut, LogLevel, RecordError, MAX_LINE,
};

#[test]
fn test_parse_rfc3164_record_good() {
    let l = "<11>hiberman: R [src/hiberman.rs:529] Hello 2004";
    let rec = parse_rfc3164_record(l).unwrap();
    assert_eq!(rec, ("R [src/hiberman.rs:529] Hello 2004", LogLevel::Error));
}

#[test]
#[should_panic]
fn test_parse_rfc3164_record_bad_colon() {
    let l = "<11>hiberman R [src/hiberman.rs:529] Hello 2004";
    parse_rfc3164_record(l).unwrap();
}

#[test]
#[should_panic]
fn test_parse_rfc3164_record_bad_facprio() {
    let l = "<XX>hiberman: R [src/hiberman.rs:529] Hello 2004";
    parse_rfc3164_record(l).unwrap();
}

#[test]
fn parse_record_errors() {
    assert_eq!(
        parse_rfc3164_record("<11>hiberman R"),
        Err(RecordError::NoColon)
    );
    assert_eq!(
        parse_rfc3164_record("<XX>hiberman: R"),
        Err(RecordError::BadFacprio)
    );
    assert_eq!(parse_rfc3164_record("<>x: R"), Err(RecordError::ShortFacprio));
    assert_eq!(
        parse_rfc3164_record("<256>x: R"),
        Err(RecordError::BadFacprio)
    );
}

#[test]
fn parse_record_levels() {
    assert_eq!(
        parse_rfc3164_record("<12>h: warn").unwrap(),
        ("warn", LogLevel::Warn)
    );
    assert_eq!(
        parse_rfc3164_record("<14>h: a: b").unwrap(),
        ("a: b", LogLevel::Info)
    );
    assert_eq!(
        parse_rfc3164_record("<+15>h: x").unwrap(),
        ("x", LogLevel::Debug)
    );
    assert_eq!(parse_rfc3164_record("<8: y").unwrap(), ("y", LogLevel::Error));
}

#[test]
fn levels_and_priorities() {
    assert_eq!(level_from_u8(0), LogLevel::Error);
    assert_eq!(level_from_u8(3), LogLevel::Error);
    assert_eq!(level_from_u8(4), LogLevel::Warn);
    assert_eq!(level_from_u8(6), LogLevel::Info);
    assert_eq!(level_from_u8(7), LogLevel::Debug);
    assert_eq!(level_from_u8(200), LogLevel::Debug);
    assert_eq!(priority_from_level(LogLevel::Error), 3);
    assert_eq!(priority_from_level(LogLevel::Trace), 7);
    assert_eq!(facprio(LogLevel::Error), 11);
}

#[test]
fn buffered_lines_flush_to_file_with_newlines() {
    let mut log = Hiberlog::new();
    assert_eq!(redirect_log(&mut log, HiberlogOut::BufferInMemory), Flushed::Nothing);
    let route = log.route_line(b"one".to_vec());
    assert!(!route.to_syslog && !route.to_file && !route.to_kmsg);
    log.route_line(Vec::new());
    log.route_line(b"two".to_vec());
    let flushed = redirect_log(&mut log, HiberlogOut::File);
    assert_eq!(
        flushed,
        Flushed::ToFile(vec![b"one\n".to_vec(), b"two\n".to_vec()])
    );
    let route = log.route_line(b"three".to_vec());
    assert!(route.to_file && route.to_kmsg && !route.to_syslog);
    assert_eq!(redirect_log(&mut log, HiberlogOut::Syslog), Flushed::ToSyslog(Vec::new()));
}

#[test]
fn reset_discards_buffered_lines() {
    let mut log = Hiberlog::new();
    redirect_log(&mut log, HiberlogOut::BufferInMemory);
    log.route_line(b"old".to_vec());
    reset_log(&mut log);
    assert_eq!(redirect_log(&mut log, HiberlogOut::Syslog), Flushed::ToSyslog(Vec::new()));
}

#[test]
fn overlong_lines_are_dropped() {
    let mut log = Hiberlog::new();
    redirect_log(&mut log, HiberlogOut::BufferInMemory);
    let route = log.route_line(vec![b'x'; MAX_LINE + 1]);
    assert!(!route.to_syslog && !route.to_file && !route.to_kmsg);
    log.route_line(vec![b'y'; MAX_LINE]);
    assert_eq!(
        redirect_log(&mut log, HiberlogOut::Syslog),
        Flushed::ToSyslog(vec![vec![b'y'; MAX_LINE]])
    );
}

#[test]
fn syslog_route_forwards_only() {
    let mut log = Hiberlog::new();
    let route = log.route_line(b"x".to_vec());
    assert!(route.to_syslog && !route.to_file && !route.to_kmsg);
}
