use netsim::codec::RaniHeader;
use netsim::codec::RaniPacket;
use netsim::codec::RaniPayload;
use netsim::cycle::CaseOutcome;
use netsim::cycle::CycleEngine;
use netsim::cycle::Message;
use netsim::cycle::ReadEvent;
use netsim::cycle::WorkerStep;
use netsim::cycle::encode_for_wire;
use netsim::cycle::end_packet;
use netsim::cycle::error_packet;
use netsim::cycle::evaluate_case;
use netsim::cycle::handshake_ok;
use netsim::cycle::instruction_for;
use netsim::cycle::reply_for_event;
use netsim::cycle::worker_step;
use netsim::schedule::TestCase;
use netsim::schedule::Tester;

fn data_packet(src: u8, dest: u8, ttl: u8, seq_no: u16, data: &[u8]) -> RaniPacket {
    let header = RaniHeader::new(src, dest, data.len() as u8, ttl, seq_no).unwrap();
    RaniPacket::new(header, RaniPayload::Data(data.to_vec()))
}

fn case(send_link: usize, send_packet: RaniPacket, recv: Option<(Vec<usize>, Vec<RaniPacket>)>, msg: &str) -> TestCase {
    let (recv_links, recv_packets) = match recv {
        Some((l, p)) => (Some(l), Some(p)),
        None => (None, None),
    };
    TestCase {
        send_link,
        send_packet,
        custom_checksum: None,
        recv_links,
        recv_packets,
        msg: msg.to_string(),
    }
}

fn failure_text(outcome: &CaseOutcome) -> Option<&str> {
    match outcome {
        CaseOutcome::Passed => None,
        CaseOutcome::Failed(m) => Some(m.as_str()),
    }
}

#[test]
fn instruction_goes_to_the_sender_only() {
    let t = case(2, data_packet(1, 2, 3, 4, b"GO"), None, "send on link two");
    for link in 0..4 {
        match instruction_for(&t, link) {
            Message::Active(Ok((p, c))) => {
                assert_eq!(link, 2);
                assert!(c.is_none());
                assert!(netsim::codec::validate_packets(&p, &t.send_packet).is_ok());
            }
            Message::Inactive => assert_ne!(link, 2),
            _ => panic!("unexpected instruction kind"),
        }
    }
}

#[test]
fn forged_checksum_overrides_byte_six() {
    let p = data_packet(1, 2, 3, 4, b"PING");
    let honest = encode_for_wire(&p, None);
    let forged = encode_for_wire(&p, Some(0xEE));
    assert_eq!(honest.len(), forged.len());
    assert_ne!(honest[6], 0xEE);
    assert_eq!(forged[6], 0xEE);
    for i in 0..honest.len() {
        if i != 6 {
            assert_eq!(honest[i], forged[i]);
        }
    }
    // The forged packet must no longer pass the device's checksum check.
    assert!(RaniPacket::deserialise(&forged).is_err());
}

#[test]
fn worker_step_decides_each_instruction() {
    let p = data_packet(1, 2, 3, 4, b"PING");
    match worker_step(&Message::Active(Ok((p.clone(), Some(0x11))))) {
        WorkerStep::SendThenListen(b) => assert_eq!(b[6], 0x11),
        _ => panic!("active instruction must transmit and listen"),
    }
    assert!(matches!(worker_step(&Message::Inactive), WorkerStep::ListenOnly));
    match worker_step(&Message::NoResponse(p.clone())) {
        WorkerStep::SendOnly(b) => assert_eq!(b, encode_for_wire(&p, None)),
        _ => panic!("terminal instruction must transmit only"),
    }
    assert!(matches!(worker_step(&Message::End), WorkerStep::Stop));
    assert!(matches!(
        worker_step(&Message::Active(Err("boom".to_string()))),
        WorkerStep::Malformed
    ));
}

#[test]
fn reply_for_each_read_outcome() {
    let id = "10.0.0.9:2";
    assert!(matches!(reply_for_event(id, &ReadEvent::TimedOut), Message::Inactive));
    match reply_for_event(id, &ReadEvent::Closed) {
        Message::Active(Err(m)) => assert_eq!(m, "10.0.0.9:2: Connection closed at user"),
        _ => panic!("a closed connection must be reported as an error"),
    }
    let p = data_packet(1, 2, 3, 4, b"PING");
    match reply_for_event(id, &ReadEvent::Received(encode_for_wire(&p, None))) {
        Message::Active(Ok((q, c))) => {
            assert!(c.is_none());
            assert!(netsim::codec::validate_packets(&p, &q).is_ok());
        }
        _ => panic!("a decodable read must be reported as a packet"),
    }
    match reply_for_event(id, &ReadEvent::Received(vec![1, 2, 3])) {
        Message::Active(Err(m)) => assert_eq!(m, "link 10.0.0.9:2: buffer too short"),
        _ => panic!("a decode failure must be reported as an error"),
    }
}

#[test]
fn handshake_byte_must_match_link_index() {
    assert!(handshake_ok(0, 0));
    assert!(handshake_ok(3, 3));
    assert!(!handshake_ok(1, 2));
    assert!(!handshake_ok(2, 1));
}

#[test]
fn terminal_packets_carry_one_flag_each() {
    let err = error_packet();
    assert!(err.header.flag_err && !err.header.flag_end);
    assert_eq!(err.header.ttl, 15);
    assert_eq!(err.size(), 8);
    let err_bytes = encode_for_wire(&err, None);
    assert_eq!(err_bytes[3], 0x1F);

    let end = end_packet();
    assert!(end.header.flag_end && !end.header.flag_err);
    let end_bytes = encode_for_wire(&end, None);
    assert_eq!(end_bytes[3], 0x2F);
}

#[test]
fn partial_reception_is_a_failure() {
    // Expects answers on links 0 and 2; only link 0 responds.
    let expected = data_packet(5, 6, 7, 8, b"RESP");
    let t = case(
        1,
        data_packet(1, 2, 3, 4, b"PING"),
        Some((vec![0, 2], vec![expected.clone(), expected.clone()])),
        "partial reception",
    );
    let replies = vec![
        Message::Active(Ok((expected.clone(), None))),
        Message::Inactive,
        Message::Inactive,
        Message::Inactive,
    ];
    let outcome = evaluate_case(&t, &replies).unwrap();
    assert_eq!(
        failure_text(&outcome),
        Some("Packets not received on all required links")
    );
}

#[test]
fn no_reception_at_all_is_its_own_failure() {
    let expected = data_packet(5, 6, 7, 8, b"RESP");
    let t = case(
        0,
        data_packet(1, 2, 3, 4, b"PING"),
        Some((vec![1], vec![expected])),
        "nothing arrives",
    );
    let replies = vec![Message::Inactive, Message::Inactive, Message::Inactive, Message::Inactive];
    let outcome = evaluate_case(&t, &replies).unwrap();
    assert_eq!(failure_text(&outcome), Some("Packet not received on any link"));
}

#[test]
fn unexpected_packet_is_a_routing_violation() {
    // No responses expected, yet link 3 emits a packet; the run's terminal
    // packet must then carry the ERR flag.
    let t = case(0, data_packet(1, 2, 3, 4, b"PING"), None, "silence expected");
    let replies = vec![
        Message::Inactive,
        Message::Inactive,
        Message::Inactive,
        Message::Active(Ok((data_packet(9, 9, 9, 9, b"??"), None))),
    ];
    let mut engine = CycleEngine::new();
    engine.record(&t, &replies).unwrap();
    assert!(engine.has_failure());
    let outcome = evaluate_case(&t, &replies).unwrap();
    assert_eq!(failure_text(&outcome), Some("Packet routed incorrectly"));
    let terminal = engine.terminal_packet();
    assert!(terminal.header.flag_err && !terminal.header.flag_end);
}

#[test]
fn worker_error_text_becomes_the_failure() {
    let expected = data_packet(5, 6, 7, 8, b"RESP");
    let t = case(
        0,
        data_packet(1, 2, 3, 4, b"PING"),
        Some((vec![1], vec![expected])),
        "worker error",
    );
    let replies = vec![
        Message::Inactive,
        Message::Active(Err("link 1: checksum mismatch".to_string())),
        Message::Inactive,
        Message::Inactive,
    ];
    let outcome = evaluate_case(&t, &replies).unwrap();
    assert_eq!(failure_text(&outcome), Some("link 1: checksum mismatch"));
}

#[test]
fn first_failure_wins_over_later_aggregates() {
    // Link 0 answers with the wrong destination, link 1 stays silent: the
    // mismatch came first and the partial-reception message must not
    // overwrite it.
    let expected = data_packet(5, 6, 7, 8, b"RESP");
    let wrong_dest = data_packet(5, 9, 7, 8, b"RESP");
    let t = case(
        2,
        data_packet(1, 2, 3, 4, b"PING"),
        Some((vec![0, 1], vec![expected.clone(), expected])),
        "first failure wins",
    );
    let replies = vec![
        Message::Active(Ok((wrong_dest, None))),
        Message::Inactive,
        Message::Inactive,
        Message::Inactive,
    ];
    let outcome = evaluate_case(&t, &replies).unwrap();
    assert_eq!(failure_text(&outcome), Some("dest not correct"));
}

#[test]
fn invalid_reply_kind_aborts_the_case() {
    let t = case(0, data_packet(1, 2, 3, 4, b"PING"), None, "violation");
    let replies = vec![Message::Inactive, Message::End];
    assert!(evaluate_case(&t, &replies).is_err());
    let mut engine = CycleEngine::new();
    assert!(engine.record(&t, &replies).is_err());
    assert!(!engine.has_failure());
    assert_eq!(engine.report(), "");
}

#[test]
fn scenario_expected_silence_passes() {
    // One case, send on link 0, a data packet "PING", no response
    // expected anywhere; every link stays silent within the timeout.
    let t = case(0, data_packet(1, 2, 3, 4, b"PING"), None, "silence is golden");
    let replies = vec![Message::Inactive, Message::Inactive, Message::Inactive, Message::Inactive];
    let mut engine = CycleEngine::new();
    engine.record(&t, &replies).unwrap();
    assert!(!engine.has_failure());
    assert_eq!(engine.report(), "Routing Test 1 [silence is golden] : PASSED \n");
    let terminal = engine.terminal_packet();
    assert!(terminal.header.flag_end && !terminal.header.flag_err);
}

#[test]
fn scenario_echo_with_wrong_dest_fails() {
    // One case, send on link 0, expect the same packet on link 2 except
    // that its destination differs; link 2 echoes the sent packet exactly,
    // so the destination mismatches and the run ends with an ERR packet.
    let sent = data_packet(1, 2, 3, 4, b"PING");
    let mut expected = sent.clone();
    expected.header.dest = 9;
    let t = case(0, sent.clone(), Some((vec![2], vec![expected])), "echo check");
    let replies = vec![
        Message::Inactive,
        Message::Inactive,
        Message::Active(Ok((sent, None))),
        Message::Inactive,
    ];
    let mut engine = CycleEngine::new();
    engine.record(&t, &replies).unwrap();
    assert!(engine.has_failure());
    assert_eq!(
        engine.report(),
        "Routing Test 1 [echo check] : FAILED 'dest not correct'\n"
    );
    let terminal = engine.terminal_packet();
    assert!(terminal.header.flag_err && !terminal.header.flag_end);
}

#[test]
fn identical_runs_render_identical_reports() {
    let make_replies = || {
        vec![
            Message::Inactive,
            Message::Active(Ok((data_packet(9, 9, 9, 9, b"??"), None))),
            Message::Inactive,
            Message::Inactive,
        ]
    };
    let make_engine = || {
        let t1 = case(0, data_packet(1, 2, 3, 4, b"PING"), None, "first");
        let t2 = case(1, data_packet(2, 3, 4, 5, b"PONG"), None, "second");
        let mut engine = CycleEngine::new();
        engine
            .record(&t1, &vec![Message::Inactive, Message::Inactive, Message::Inactive, Message::Inactive])
            .unwrap();
        engine.record(&t2, &make_replies()).unwrap();
        engine.report()
    };
    let a = make_engine();
    let b = make_engine();
    assert_eq!(a, b);
    assert_eq!(
        a,
        "Routing Test 1 [first] : PASSED \nRouting Test 2 [second] : FAILED 'Packet routed incorrectly'\n"
    );
}

#[test]
fn report_numbers_run_past_nine() {
    let mut engine = CycleEngine::new();
    let replies = vec![Message::Inactive, Message::Inactive, Message::Inactive, Message::Inactive];
    for i in 0..11 {
        let t = case(0, data_packet(1, 2, 3, 4, b"GO"), None, &format!("case {}", i));
        engine.record(&t, &replies).unwrap();
    }
    let report = engine.report();
    let lines: Vec<&str> = report.lines().collect();
    assert_eq!(lines.len(), 11);
    assert_eq!(lines[9], "Routing Test 10 [case 9] : PASSED ");
    assert_eq!(lines[10], "Routing Test 11 [case 10] : PASSED ");
}

#[test]
fn cloned_iter_walks_the_schedule_in_order() {
    let t1 = case(0, data_packet(1, 2, 3, 4, b"A"), None, "one");
    let t2 = case(1, data_packet(2, 3, 4, 5, b"B"), None, "two");
    let tester = Tester::new(vec![t1, t2]);
    assert_eq!(tester.len(), 2);
    let mut it = tester.cloned_iter();
    let a = it.next().unwrap();
    assert_eq!(a.msg, "one");
    assert_eq!(a.send_link, 0);
    let b = it.next().unwrap();
    assert_eq!(b.msg, "two");
    assert_eq!(b.send_link, 1);
    assert!(it.next().is_none());
    // The iterator handed out copies; the schedule can be walked again.
    let mut again = tester.cloned_iter();
    assert_eq!(again.next().unwrap().msg, "one");
}

#[test]
fn decimal_rendering() {
    assert_eq!(netsim::report::decimal_string(0), "0");
    assert_eq!(netsim::report::decimal_string(7), "7");
    assert_eq!(netsim::report::decimal_string(10), "10");
    assert_eq!(netsim::report::decimal_string(907), "907");
    assert_eq!(netsim::report::decimal_string(120045), "120045");
}

#[test]
fn all_links_expected_and_all_answer() {
    let echo = data_packet(5, 6, 7, 8, b"RESP");
    let t = case(
        0,
        data_packet(1, 2, 3, 4, b"PING"),
        Some((vec![0, 1, 2, 3], vec![echo.clone(), echo.clone(), echo.clone(), echo.clone()])),
        "all links",
    );
    let replies = vec![
        Message::Active(Ok((echo.clone(), None))),
        Message::Active(Ok((echo.clone(), None))),
        Message::Active(Ok((echo.clone(), None))),
        Message::Active(Ok((echo, None))),
    ];
    let outcome = evaluate_case(&t, &replies).unwrap();
    assert!(failure_text(&outcome).is_none());
}

#[test]
fn mixed_run_report_lists_every_case_in_order() {
    let silent = vec![Message::Inactive, Message::Inactive, Message::Inactive, Message::Inactive];
    let noisy = vec![
        Message::Active(Ok((data_packet(9, 9, 9, 9, b"!"), None))),
        Message::Inactive,
        Message::Inactive,
        Message::Inactive,
    ];
    let mut engine = CycleEngine::new();
    engine
        .record(&case(0, data_packet(1, 2, 3, 4, b"A"), None, "quiet"), &silent)
        .unwrap();
    engine
        .record(&case(1, data_packet(1, 2, 3, 4, b"B"), None, "loud"), &noisy)
        .unwrap();
    engine
        .record(&case(2, data_packet(1, 2, 3, 4, b"C"), None, "quiet again"), &silent)
        .unwrap();
    assert_eq!(
        engine.report(),
        "Routing Test 1 [quiet] : PASSED \n\
         Routing Test 2 [loud] : FAILED 'Packet routed incorrectly'\n\
         Routing Test 3 [quiet again] : PASSED \n"
    );
    assert!(engine.has_failure());
}

#[test]
fn matching_echo_passes() {
    let sent = data_packet(1, 2, 3, 4, b"PING");
    let t = case(0, sent.clone(), Some((vec![2], vec![sent.clone()])), "exact echo");
    let replies = vec![
        Message::Inactive,
        Message::Inactive,
        Message::Active(Ok((sent, None))),
        Message::Inactive,
    ];
    let outcome = evaluate_case(&t, &replies).unwrap();
    assert!(failure_text(&outcome).is_none());
}
