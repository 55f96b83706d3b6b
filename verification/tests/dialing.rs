use quic_perf::awaited::{
    handle_stream, next_step, send_zeros_step, AwaitedAction, AwaitedTest, Reply, STEP_LEN,
};
use quic_perf::client::{elapsed_nanos, measure, ClientAction, Flow, Measurement};
use quic_perf::client_handler::ClientHandler;
use quic_perf::client_test::ClientTest;
use quic_perf::perf_client_app::PerfClientApp;
use quic_perf::server_stream::ServerStreamState;
use quic_perf::wire::{Chunk, TestType, WriteAction, WriteEvent};

fn header(action: ClientAction) -> (Vec<u8>, bool) {
    match action {
        ClientAction::SendHeader { data, fin } => (data, fin),
        _ => panic!("no request is offered"),
    }
}

fn zeros(action: ClientAction) -> Chunk {
    match action {
        ClientAction::SendZeros(chunk) => chunk,
        _ => panic!("no zeros are offered"),
    }
}

#[test]
fn clock_that_runs_backwards_counts_as_none() {
    assert_eq!(elapsed_nanos(10, 35), 25);
    assert_eq!(elapsed_nanos(35, 10), 0);
}

#[test]
fn test_measures_throughput_or_a_round_trip() {
    let throughput = Measurement::Throughput { bytes: 8, nanos: 5 };
    assert_eq!(measure(&TestType::Upload { bytes: 8 }, 5), throughput);
    assert_eq!(measure(&TestType::Download { bytes: 8 }, 5), throughput);
    assert_eq!(measure(&TestType::Latency, 5), Measurement::RoundTrip { nanos: 5 });
}

#[test]
fn polled_test_waits_for_the_handshake() {
    let mut test = ClientTest::new(TestType::Latency, 100);
    assert!(matches!(test.on_poll(false), ClientAction::Idle));
    assert!(matches!(test.on_poll(true), ClientAction::Idle));
    assert_eq!(header(test.on_poll(true)), (1u64.to_be_bytes().to_vec(), true));
    assert_eq!(test.result(), None);
}

#[test]
fn polled_upload_sends_its_bytes() {
    let mut test = ClientTest::new(TestType::Upload { bytes: 70_000 }, 100);
    test.on_poll(true);
    assert_eq!(header(test.on_poll(true)), (vec![0; 8], false));
    assert_eq!(test.on_write(WriteEvent::Accepted(3)), Flow::Pause);
    assert_eq!(header(test.on_poll(true)), (vec![0; 5], false));
    assert_eq!(test.on_write(WriteEvent::Blocked), Flow::Pause);
    assert_eq!(test.on_write(WriteEvent::Accepted(5)), Flow::Pause);
    assert_eq!(zeros(test.on_poll(true)), Chunk { len: 65535, fin: false });
    assert_eq!(test.on_write(WriteEvent::Accepted(65535)), Flow::Again);
    assert_eq!(zeros(test.on_poll(true)), Chunk { len: 4465, fin: true });
    assert_eq!(test.on_write(WriteEvent::Failed), Flow::Pause);
    assert_eq!(test.on_write(WriteEvent::Accepted(4465)), Flow::Finish);
    test.finish(350);
    assert_eq!(test.result(), Some(Measurement::Throughput { bytes: 70_000, nanos: 250 }));
    assert!(matches!(test.on_poll(true), ClientAction::Idle));
}

#[test]
fn polled_upload_of_nothing_is_over_at_once() {
    let mut test = ClientTest::new(TestType::Upload { bytes: 0 }, 0);
    test.on_poll(true);
    test.on_poll(true);
    test.on_write(WriteEvent::Accepted(8));
    assert!(matches!(test.on_poll(true), ClientAction::Finish));
}

#[test]
fn polled_test_gives_up_when_the_request_cannot_be_sent() {
    let mut test = ClientTest::new(TestType::Latency, 0);
    test.on_poll(true);
    assert_eq!(test.on_write(WriteEvent::Failed), Flow::Abort);
    assert_eq!(test.result(), None);
}

#[test]
fn polled_download_counts_its_bytes() {
    let mut test = ClientTest::new(TestType::Download { bytes: 10 }, 7);
    test.on_poll(true);
    assert_eq!(header(test.on_poll(true)), (10u64.to_be_bytes().to_vec(), true));
    assert_eq!(test.room(), 0);
    test.on_write(WriteEvent::Accepted(8));
    assert!(matches!(test.on_poll(true), ClientAction::Receive));
    assert_eq!(test.room(), u64::MAX);
    assert_eq!(test.on_read(Some((4, false))), Flow::Again);
    assert_eq!(test.room(), u64::MAX - 4);
    assert_eq!(test.on_read(None), Flow::Pause);
    assert_eq!(test.on_read(Some((5, false))), Flow::Again);
    assert_eq!(test.on_read(Some((1, false))), Flow::Finish);
    test.finish(9);
    assert_eq!(test.result(), Some(Measurement::Throughput { bytes: 10, nanos: 2 }));
}

#[test]
fn end_of_the_stream_ends_a_download() {
    let mut test = ClientTest::new(TestType::Download { bytes: 10 }, 0);
    test.on_poll(true);
    test.on_write(WriteEvent::Accepted(8));
    assert_eq!(test.on_read(Some((0, true))), Flow::Finish);
}

#[test]
fn driven_upload_goes_on_behind_its_request() {
    let mut app = PerfClientApp::new_upload(5);
    assert!(!app.should_act());
    assert!(!app.started());
    app.on_conn_established(100);
    assert!(app.should_act());
    assert!(app.started());
    assert_eq!(header(app.next_write()), (vec![0; 8], false));
    assert_eq!(app.process_write(WriteEvent::Accepted(2)), Flow::Pause);
    assert_eq!(app.process_write(WriteEvent::Accepted(6)), Flow::Again);
    assert_eq!(zeros(app.next_write()), Chunk { len: 5, fin: true });
    assert_eq!(app.process_write(WriteEvent::Blocked), Flow::Pause);
    assert_eq!(app.process_write(WriteEvent::Accepted(5)), Flow::Again);
    assert!(matches!(app.next_write(), ClientAction::Finish));
    assert!(!app.wants_read());
    assert_eq!(app.complete(140), Some(Measurement::Throughput { bytes: 5, nanos: 40 }));
    assert!(!app.should_act());
    assert!(matches!(app.next_write(), ClientAction::Idle));
    assert_eq!(app.complete(150), None);
}

#[test]
fn driven_download_is_read_once_its_request_is_sent() {
    let mut app = PerfClientApp::new_download(3);
    app.on_conn_established(1);
    assert!(!app.wants_read());
    assert_eq!(header(app.next_write()), (3u64.to_be_bytes().to_vec(), true));
    assert_eq!(app.process_write(WriteEvent::Accepted(8)), Flow::Pause);
    assert!(app.wants_read());
    assert_eq!(app.room(), u64::MAX);
    assert!(matches!(app.next_write(), ClientAction::Idle));
    assert_eq!(app.process_read(None), Flow::Pause);
    assert_eq!(app.process_read(Some((2, false))), Flow::Again);
    assert_eq!(app.process_read(Some((1, true))), Flow::Finish);
    assert_eq!(app.complete(4), Some(Measurement::Throughput { bytes: 3, nanos: 3 }));
    assert!(!app.wants_read());
}

#[test]
fn driven_latency_test_asks_for_one_byte() {
    let mut app = PerfClientApp::new_latency();
    app.on_conn_established(10);
    assert_eq!(header(app.next_write()), (1u64.to_be_bytes().to_vec(), true));
    assert_eq!(app.process_write(WriteEvent::Failed), Flow::Abort);
    app.process_write(WriteEvent::Accepted(8));
    assert_eq!(app.process_read(Some((1, false))), Flow::Finish);
    assert_eq!(app.complete(17), Some(Measurement::RoundTrip { nanos: 7 }));
    assert_eq!(app.buffer().len(), 65535);
}

#[test]
fn called_back_upload_asks_again_for_what_was_refused() {
    let mut test = ClientHandler::new(TestType::Upload { bytes: 70_000 });
    assert_eq!(test.signal(), (false, None));
    assert!(!test.started());
    assert!(matches!(test.next_write(4), ClientAction::Idle));
    assert!(test.start_test(100, Some(4)));
    assert!(test.started());
    assert!(matches!(test.next_write(0), ClientAction::Idle));
    assert_eq!(header(test.next_write(4)), (vec![0; 8], false));
    assert_eq!(test.handle_write(None), WriteAction::WantWrite);
    assert_eq!(test.handle_write(Some(7)), WriteAction::WantWrite);
    assert_eq!(header(test.next_write(4)), (vec![0; 1], false));
    assert_eq!(test.handle_write(Some(1)), WriteAction::Again);
    assert_eq!(zeros(test.next_write(4)), Chunk { len: 65535, fin: false });
    assert!(matches!(test.next_write(0), ClientAction::Idle));
    assert_eq!(test.handle_write(Some(65535)), WriteAction::Again);
    assert_eq!(test.handle_write(None), WriteAction::WantWrite);
    assert_eq!(test.handle_write(Some(4465)), WriteAction::Again);
    assert!(matches!(test.next_write(4), ClientAction::Finish));
    test.finish(101);
    let measured = Some(Measurement::Throughput { bytes: 70_000, nanos: 1 });
    assert_eq!(test.signal(), (true, measured));
    test.on_conn_closed();
    assert_eq!(test.signal(), (true, measured));
}

#[test]
fn called_back_download_is_read_on_its_stream() {
    let mut test = ClientHandler::new(TestType::Download { bytes: 2 });
    test.start_test(0, Some(4));
    assert!(!test.wants_read(4));
    assert_eq!(header(test.next_write(4)), (2u64.to_be_bytes().to_vec(), true));
    assert_eq!(test.handle_write(Some(8)), WriteAction::Stop);
    assert!(test.wants_read(4));
    assert!(!test.wants_read(0));
    assert_eq!(test.room(), u64::MAX);
    assert_eq!(test.buffer().len(), 65535);
    assert_eq!(test.handle_read(None), Flow::Pause);
    assert_eq!(test.handle_read(Some((1, false))), Flow::Again);
    assert_eq!(test.handle_read(Some((1, false))), Flow::Finish);
    test.finish(6);
    assert_eq!(test.signal(), (true, Some(Measurement::Throughput { bytes: 2, nanos: 6 })));
}

#[test]
fn nothing_comes_of_a_test_without_a_stream() {
    let mut test = ClientHandler::new(TestType::Latency);
    assert!(!test.start_test(0, None));
    assert_eq!(test.signal(), (true, None));
}

#[test]
fn closed_connection_ends_a_test() {
    let mut test = ClientHandler::new(TestType::Latency);
    test.start_test(0, Some(0));
    test.on_conn_closed();
    assert_eq!(test.signal(), (true, None));
    test.mark_done(Some(Measurement::RoundTrip { nanos: 3 }));
    assert_eq!(test.signal(), (true, Some(Measurement::RoundTrip { nanos: 3 })));
}

#[test]
fn result_comes_with_the_end_of_a_test() {
    let mut polled = ClientTest::new(TestType::Latency, 0);
    polled.on_poll(true);
    polled.on_write(WriteEvent::Accepted(8));
    assert_eq!(polled.on_read(Some((1, false))), Flow::Finish);
    assert_eq!(polled.result(), None);
    polled.finish(2);
    assert_eq!(polled.result(), Some(Measurement::RoundTrip { nanos: 2 }));
    let mut called_back = ClientHandler::new(TestType::Latency);
    called_back.start_test(0, Some(0));
    called_back.handle_write(Some(8));
    assert_eq!(called_back.handle_read(Some((0, false))), Flow::Again);
    assert_eq!(called_back.signal(), (false, None));
    called_back.on_conn_closed();
    assert_eq!(called_back.signal(), (true, None));
    let mut awaited = AwaitedTest::new(TestType::Latency, 0);
    while awaited.next_action() != AwaitedAction::Close {
        assert_eq!(awaited.result(), None);
        awaited.on_step(true, 9);
    }
    assert_eq!(awaited.result(), Some(Measurement::RoundTrip { nanos: 9 }));
}

#[test]
fn dialer_and_listener_agree() {
    for bytes in [1, 65535, 65536, 200_000] {
        let mut dialer = ClientTest::new(TestType::Download { bytes }, 0);
        let mut listener = ServerStreamState::new();
        dialer.on_poll(true);
        let (request, fin) = header(dialer.on_poll(true));
        dialer.on_write(WriteEvent::Accepted(request.len()));
        assert!(listener.on_data(&request, fin));
        let mut came = 0;
        while let Some(chunk) = listener.next_write() {
            let taken = if chunk.len > 1000 { chunk.len - 999 } else { chunk.len };
            came += taken as u64;
            listener.on_written(taken);
            let flow = dialer.on_read(Some((taken, false)));
            assert_eq!(flow == Flow::Finish, came == bytes);
        }
        assert_eq!(came, bytes);
        assert!(listener.is_done());
    }
}

#[test]
fn uploaded_bytes_are_discarded() {
    let mut dialer = PerfClientApp::new_upload(150_000);
    let mut listener = ServerStreamState::new();
    dialer.on_conn_established(0);
    let mut came = 0;
    loop {
        let (len, fin) = match dialer.next_write() {
            ClientAction::SendHeader { data, fin } => {
                assert!(listener.on_data(&data, fin));
                (data.len(), fin)
            }
            ClientAction::SendZeros(chunk) => {
                assert_eq!(listener.on_data(&vec![0; chunk.len], chunk.fin), !chunk.fin);
                (chunk.len, chunk.fin)
            }
            _ => break,
        };
        came += len;
        assert_eq!(fin, came == 150_008);
        dialer.process_write(WriteEvent::Accepted(len));
    }
    assert_eq!(came, 150_008);
    assert!(listener.is_done());
}

#[test]
fn stream_carries_the_test() {
    for step in 1..9 {
        let mut dialer = PerfClientApp::new_upload(10);
        dialer.on_conn_established(0);
        let mut taken: Vec<u8> = vec![];
        loop {
            let (offered, fin) = match dialer.next_write() {
                ClientAction::SendHeader { data, fin } => (data, fin),
                ClientAction::SendZeros(chunk) => (vec![0; chunk.len], chunk.fin),
                _ => break,
            };
            assert_eq!(fin, taken.len() + offered.len() == 18);
            let n = if offered.len() < step { offered.len() } else { step };
            taken.extend(&offered[..n]);
            dialer.process_write(WriteEvent::Accepted(n));
        }
        assert_eq!(taken, vec![0; 18]);
        let mut dialer = ClientTest::new(TestType::Download { bytes: 0x0102 }, 0);
        dialer.on_poll(true);
        let mut taken: Vec<u8> = vec![];
        while let ClientAction::SendHeader { data, fin } = dialer.on_poll(true) {
            assert!(fin);
            let n = if data.len() < step { data.len() } else { step };
            taken.extend(&data[..n]);
            dialer.on_write(WriteEvent::Accepted(n));
        }
        assert_eq!(taken, vec![0, 0, 0, 0, 0, 0, 1, 2]);
    }
}

#[test]
fn upload_of_nothing_leaves_its_stream_open() {
    let mut dialer = PerfClientApp::new_upload(0);
    dialer.on_conn_established(0);
    assert_eq!(header(dialer.next_write()), (vec![0; 8], false));
    assert_eq!(dialer.process_write(WriteEvent::Accepted(8)), Flow::Again);
    assert!(matches!(dialer.next_write(), ClientAction::Finish));
}

#[test]
fn download_of_nothing_looks_like_an_upload() {
    let mut dialer = ClientTest::new(TestType::Download { bytes: 0 }, 0);
    let mut listener = ServerStreamState::new();
    dialer.on_poll(true);
    let (request, _) = header(dialer.on_poll(true));
    assert!(listener.on_data(&request, false));
    assert!(listener.wants_read());
    assert!(listener.next_write().is_none());
}

#[test]
fn awaited_upload_goes_step_by_step() {
    let mut test = AwaitedTest::new(TestType::Upload { bytes: 70_000 }, 5);
    assert_eq!(test.next_action(), AwaitedAction::Dial);
    test.on_step(true, 100);
    assert_eq!(test.next_action(), AwaitedAction::OpenStream);
    test.on_step(true, 101);
    assert_eq!(test.next_action(), AwaitedAction::WriteHeader { data: [0; 8] });
    test.on_step(true, 102);
    assert_eq!(test.next_action(), AwaitedAction::WriteZeros { len: 65536 });
    test.on_step(true, 103);
    assert_eq!(test.next_action(), AwaitedAction::WriteZeros { len: 4464 });
    test.on_step(true, 104);
    assert_eq!(test.next_action(), AwaitedAction::Finish);
    assert_eq!(test.result(), None);
    test.on_step(false, 110);
    assert_eq!(test.next_action(), AwaitedAction::Close);
    assert_eq!(test.result(), Some(Measurement::Throughput { bytes: 70_000, nanos: 10 }));
}

#[test]
fn awaited_upload_that_fails_on_the_way_is_measured() {
    let mut test = AwaitedTest::new(TestType::Upload { bytes: 200_000 }, 0);
    for _ in 0..3 {
        test.on_step(true, 1);
    }
    test.on_step(false, 2);
    assert_eq!(test.next_action(), AwaitedAction::Finish);
    test.on_step(true, 4);
    assert_eq!(test.result(), Some(Measurement::Throughput { bytes: 200_000, nanos: 3 }));
}

#[test]
fn awaited_download_reads_until_no_more_comes() {
    let mut test = AwaitedTest::new(TestType::Download { bytes: 70_000 }, 0);
    test.on_step(true, 10);
    test.on_step(true, 10);
    assert_eq!(
        test.next_action(),
        AwaitedAction::WriteHeader { data: 70_000u64.to_be_bytes() }
    );
    test.on_step(true, 10);
    assert_eq!(test.next_action(), AwaitedAction::Finish);
    test.on_step(true, 10);
    assert_eq!(test.next_action(), AwaitedAction::Read { len: 65536 });
    test.on_read(Some(60_000), 11);
    assert_eq!(test.next_action(), AwaitedAction::Read { len: 10_000 });
    test.on_read(Some(9_999), 12);
    assert_eq!(test.next_action(), AwaitedAction::Read { len: 1 });
    test.on_read(Some(1), 13);
    assert_eq!(test.next_action(), AwaitedAction::Close);
    assert_eq!(test.result(), Some(Measurement::Throughput { bytes: 70_000, nanos: 3 }));
    for read in [Some(0), None] {
        let mut test = AwaitedTest::new(TestType::Download { bytes: 5 }, 0);
        for _ in 0..4 {
            test.on_step(true, 1);
        }
        test.on_read(read, 3);
        assert_eq!(test.next_action(), AwaitedAction::Close);
        assert_eq!(test.result(), Some(Measurement::Throughput { bytes: 5, nanos: 2 }));
    }
}

#[test]
fn awaited_latency_counts_from_before_the_connection() {
    let mut test = AwaitedTest::new(TestType::Latency, 100);
    test.on_step(true, 150);
    test.on_step(true, 160);
    assert_eq!(test.next_action(), AwaitedAction::WriteHeader { data: 1u64.to_be_bytes() });
    test.on_step(false, 165);
    assert_eq!(test.next_action(), AwaitedAction::Finish);
    test.on_step(false, 166);
    assert_eq!(test.next_action(), AwaitedAction::ReadOne);
    test.on_step(false, 170);
    assert_eq!(test.next_action(), AwaitedAction::Close);
    assert_eq!(test.result(), Some(Measurement::RoundTrip { nanos: 70 }));
}

#[test]
fn awaited_test_that_breaks_early_measures_nothing() {
    let download = TestType::Download { bytes: 5 };
    let mut test = AwaitedTest::new(download, 0);
    test.on_step(false, 1);
    assert_eq!(test.next_action(), AwaitedAction::Over);
    assert_eq!(test.result(), None);
    for steps in 1..3 {
        let mut test = AwaitedTest::new(download, 0);
        for _ in 0..steps {
            test.on_step(true, 1);
        }
        test.on_step(false, 2);
        assert_eq!(test.next_action(), AwaitedAction::Close);
        assert_eq!(test.result(), None);
    }
}

#[test]
fn awaited_tests_of_nothing_skip_the_data() {
    let mut test = AwaitedTest::new(TestType::Upload { bytes: 0 }, 0);
    for _ in 0..3 {
        test.on_step(true, 1);
    }
    assert_eq!(test.next_action(), AwaitedAction::Finish);
    let mut test = AwaitedTest::new(TestType::Download { bytes: 0 }, 0);
    for _ in 0..4 {
        test.on_step(true, 1);
    }
    assert_eq!(test.next_action(), AwaitedAction::Close);
}

#[test]
fn reply_sends_all_that_was_asked() {
    assert_eq!(STEP_LEN, 65536);
    for bytes in [1, 65536, 65537, 300_000] {
        let mut reply = handle_stream(Some(u64::to_be_bytes(bytes)));
        let mut sent = 0;
        while let Reply::Send { remaining } = reply {
            sent += next_step(remaining) as u64;
            reply = send_zeros_step(reply, true);
        }
        assert_eq!(reply, Reply::Finish);
        assert_eq!(sent, bytes);
    }
}

#[test]
fn reply_without_a_request_only_reads() {
    assert_eq!(handle_stream(None), Reply::Discard);
    assert_eq!(handle_stream(Some([0; 8])), Reply::Discard);
    assert_eq!(send_zeros_step(Reply::Discard, true), Reply::Discard);
}

#[test]
fn reply_that_cannot_be_sent_is_cut_short() {
    let reply = handle_stream(Some(300_000u64.to_be_bytes()));
    assert_eq!(reply, Reply::Send { remaining: 300_000 });
    let reply = send_zeros_step(reply, true);
    assert_eq!(reply, Reply::Send { remaining: 234_464 });
    assert_eq!(send_zeros_step(reply, false), Reply::Finish);
}
