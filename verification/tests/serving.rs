use quic_perf::listener::{earliest_timeout, Listener, PacketRoute};
use quic_perf::perf_server_app::PerfServerApp;
use quic_perf::server_handler::{ReadAction, ServerHandler};
use quic_perf::server_stream::ServerStreamState;
use quic_perf::stream_table::StreamTable;
use quic_perf::wire::{Chunk, ReadEvent, WriteAction, WriteEvent};

fn sorted(mut ids: Vec<u64>) -> Vec<u64> {
    ids.sort();
    ids
}

fn data(bytes: &[u8], fin: bool) -> ReadEvent<'_> {
    ReadEvent::Data { data: bytes, fin }
}

#[test]
fn how_a_request_is_cut_makes_no_difference() {
    let header = 70_000u64.to_be_bytes();
    for cut in 1..8 {
        let mut stream = ServerStreamState::new();
        assert!(!stream.on_data(&header[..cut], false));
        assert!(stream.wants_read());
        assert!(stream.next_write().is_none());
        assert!(stream.on_data(&header[cut..], true));
        assert!(!stream.wants_read());
        assert_eq!(stream.next_write(), Some(Chunk { len: 65535, fin: false }));
    }
    let mut stream = ServerStreamState::new();
    let mut long = header.to_vec();
    long.extend([9; 100]);
    assert!(stream.on_data(&long, false));
    assert_eq!(stream.next_write(), Some(Chunk { len: 65535, fin: false }));
}

#[test]
fn empty_read_of_a_request_changes_nothing() {
    let mut stream = ServerStreamState::new();
    assert!(!stream.on_data(&[], false));
    assert!(!stream.on_data(&[0; 7], false));
    assert!(stream.on_data(&[3], false));
    assert_eq!(stream.next_write(), Some(Chunk { len: 3, fin: true }));
}

#[test]
fn unfinished_request_ends_the_stream() {
    let mut stream = ServerStreamState::new();
    assert!(!stream.on_data(&[0; 7], true));
    assert!(stream.is_done());
    assert!(!stream.wants_read());
}

#[test]
fn download_sends_what_was_asked() {
    let mut stream = ServerStreamState::new();
    stream.on_data(&70_000u64.to_be_bytes(), true);
    assert!(stream.on_written(60_000));
    assert_eq!(stream.next_write(), Some(Chunk { len: 10_000, fin: true }));
    assert!(stream.on_written(0));
    assert!(stream.on_written(9_999));
    assert_eq!(stream.next_write(), Some(Chunk { len: 1, fin: true }));
    assert!(!stream.on_written(1));
    assert!(stream.is_done());
    assert!(stream.next_write().is_none());
}

#[test]
fn upload_is_read_to_its_end() {
    let mut stream = ServerStreamState::new();
    assert!(stream.on_data(&0u64.to_be_bytes(), false));
    assert!(stream.wants_read());
    assert!(stream.on_data(&[1, 2, 3], false));
    assert!(!stream.is_done());
    assert!(!stream.on_data(&[], true));
    assert!(stream.is_done());
}

#[test]
fn end_of_the_stream_may_come_with_any_read() {
    let mut stream = ServerStreamState::new();
    stream.on_data(&[0; 4], false);
    assert!(stream.on_data(&[0, 0, 0, 9], true));
    assert_eq!(stream.next_write(), Some(Chunk { len: 9, fin: true }));
    let mut stream = ServerStreamState::new();
    stream.on_data(&[0; 4], false);
    assert!(!stream.on_data(&[0; 3], true));
    assert!(stream.is_done());
    let mut stream = ServerStreamState::new();
    assert!(stream.on_data(&[0; 20], true));
    assert!(stream.wants_read());
    assert!(!stream.is_done());
}

#[test]
fn streams_of_a_connection_are_independent() {
    let mut table = StreamTable::new();
    table.open(0);
    table.open(4);
    assert!(table.on_read(0, data(&5u64.to_be_bytes(), true)));
    assert!(!table.on_read(4, data(&[0, 0], false)));
    table.open(0);
    assert_eq!(sorted(table.ids()), vec![0, 4]);
    assert_eq!(table.next_write(0), Some(Chunk { len: 5, fin: true }));
    assert_eq!(table.next_write(4), None);
    assert!(table.wants_read(4));
    assert!(!table.wants_read(0));
    assert!(!table.wants_read(8));
    assert_eq!(table.next_write(8), None);
}

#[test]
fn only_done_streams_are_forgotten() {
    let mut table = StreamTable::new();
    for id in [0, 4, 8, 12] {
        table.open(id);
    }
    table.on_read(0, data(&1u64.to_be_bytes(), true));
    table.on_read(4, data(&2u64.to_be_bytes(), true));
    table.on_read(8, data(&0u64.to_be_bytes(), false));
    assert!(!table.on_write(0, WriteEvent::Accepted(1)));
    assert!(table.on_write(4, WriteEvent::Accepted(1)));
    table.retain_unfinished();
    assert_eq!(sorted(table.ids()), vec![4, 8, 12]);
    assert_eq!(table.next_write(4), Some(Chunk { len: 1, fin: true }));
}

#[test]
fn blocked_stream_waits_and_failed_stream_is_done() {
    let mut table = StreamTable::new();
    table.open(0);
    table.open(4);
    assert!(!table.on_read(0, ReadEvent::Blocked));
    assert!(table.wants_read(0));
    assert!(!table.on_read(0, ReadEvent::Failed));
    assert!(!table.wants_read(0));
    table.on_read(4, data(&9u64.to_be_bytes(), true));
    assert!(!table.on_write(4, WriteEvent::Blocked));
    assert_eq!(table.next_write(4), Some(Chunk { len: 9, fin: true }));
    assert!(!table.on_write(4, WriteEvent::Failed));
    assert_eq!(table.next_write(4), None);
    table.retain_unfinished();
    assert!(table.ids().is_empty());
}

#[test]
fn server_app_acts_once_the_handshake_is_over() {
    let mut app = PerfServerApp::new();
    assert!(!app.should_act());
    app.on_conn_established();
    assert!(app.should_act());
    assert_eq!(app.buffer().len(), 65535);
    app.buffer()[3] = 7;
    assert_eq!(app.buffer()[..5], [0, 0, 0, 7, 0]);
}

#[test]
fn server_app_serves_a_download() {
    let mut app = PerfServerApp::new();
    app.on_readable(0);
    assert!(app.wants_read(0));
    assert!(app.process_read(0, data(&100_000u64.to_be_bytes(), true)));
    assert!(!app.wants_read(0));
    let mut sent = 0;
    for id in app.stream_ids() {
        while let Some(chunk) = app.next_write(id) {
            sent += chunk.len;
            assert_eq!(chunk.fin, sent == 100_000);
            if !app.process_write(id, WriteEvent::Accepted(chunk.len)) {
                break;
            }
        }
    }
    assert_eq!(sent, 100_000);
    app.finish_writes();
    assert!(app.stream_ids().is_empty());
}

fn request(handler: &mut ServerHandler, conn: u64, id: u64, n: u64) -> ReadAction {
    assert!(handler.on_stream_readable(Some(conn), id));
    assert!(handler.wants_read(conn, id));
    handler.buffer()[..8].copy_from_slice(&n.to_be_bytes());
    handler.handle_stream_read(conn, id, Some((8, false)))
}

#[test]
fn connections_of_a_handler_are_independent() {
    let mut handler = ServerHandler::new();
    assert_eq!(handler.buffer().len(), 65535);
    assert_eq!(request(&mut handler, 1, 0, 70_000), ReadAction::WantWriteAndAgain);
    assert_eq!(request(&mut handler, 2, 0, 0), ReadAction::Again);
    assert_eq!(handler.next_write(Some(1), 0), Some(Chunk { len: 65535, fin: false }));
    assert_eq!(handler.next_write(Some(2), 0), None);
    assert!(!handler.wants_read(1, 0));
    assert!(handler.wants_read(2, 0));
    handler.on_conn_closed(Some(1));
    assert_eq!(handler.next_write(Some(1), 0), None);
    assert!(handler.wants_read(2, 0));
    handler.on_conn_closed(None);
    assert!(handler.wants_read(2, 0));
}

#[test]
fn handler_reads_until_the_end_of_an_upload() {
    let mut handler = ServerHandler::new();
    assert_eq!(request(&mut handler, 1, 0, 0), ReadAction::Again);
    assert_eq!(handler.handle_stream_read(1, 0, Some((100, false))), ReadAction::Again);
    assert_eq!(handler.handle_stream_read(1, 0, None), ReadAction::Stop);
    assert!(handler.wants_read(1, 0));
    assert_eq!(handler.handle_stream_read(1, 0, Some((0, true))), ReadAction::Stop);
    assert!(!handler.wants_read(1, 0));
}

#[test]
fn handler_asks_to_be_called_back_when_a_write_is_refused() {
    let mut handler = ServerHandler::new();
    request(&mut handler, 1, 4, 70_000);
    assert_eq!(handler.handle_stream_write(1, 4, None), WriteAction::WantWrite);
    assert_eq!(handler.handle_stream_write(1, 4, Some(65535)), WriteAction::Again);
    assert_eq!(handler.next_write(Some(1), 4), Some(Chunk { len: 4465, fin: true }));
    assert_eq!(handler.handle_stream_write(1, 4, Some(4465)), WriteAction::Stop);
    assert_eq!(handler.next_write(Some(1), 4), None);
}

#[test]
fn connection_without_a_number_is_left_alone() {
    let mut handler = ServerHandler::new();
    assert!(!handler.on_stream_readable(None, 0));
    assert_eq!(handler.next_write(None, 0), None);
    assert!(!handler.wants_read(0, 0));
}

#[test]
fn connection_gets_its_packets() {
    let mut listener = Listener::new();
    assert_eq!(listener.route(&[1, 2], false), PacketRoute::Ignore);
    assert_eq!(listener.route(&[1, 2], true), PacketRoute::Accept);
    listener.accept(&[1, 2]);
    assert_eq!(listener.route(&[1, 2], true), PacketRoute::Deliver);
    assert_eq!(listener.route(&[1, 2], false), PacketRoute::Deliver);
    assert_eq!(listener.route(&[1], false), PacketRoute::Ignore);
    assert_eq!(listener.route(&[1, 2, 3], true), PacketRoute::Accept);
    listener.accept(&[1]);
    listener.remove(&[1, 2]);
    assert_eq!(listener.route(&[1, 2], false), PacketRoute::Ignore);
    assert_eq!(listener.route(&[1, 2], true), PacketRoute::Accept);
    assert_eq!(listener.ids(), vec![vec![1]]);
    listener.remove(&[9]);
    assert_eq!(listener.ids(), vec![vec![1]]);
}

#[test]
fn listener_keeps_the_streams_of_each_connection() {
    let mut listener = Listener::new();
    listener.accept(&[1]);
    listener.accept(&[2]);
    assert!(listener.streams(&[3]).is_none());
    listener.streams(&[1]).unwrap().open(0);
    listener.streams(&[2]).unwrap().open(4);
    assert_eq!(listener.streams(&[1]).unwrap().ids(), vec![0]);
    assert_eq!(listener.streams(&[2]).unwrap().ids(), vec![4]);
    listener.accept(&[1]);
    assert!(listener.streams(&[1]).unwrap().ids().is_empty());
    assert_eq!(listener.ids().len(), 2);
}

#[test]
fn earliest_timeout_wins() {
    assert_eq!(earliest_timeout(&vec![]), None);
    assert_eq!(earliest_timeout(&vec![None, None]), None);
    assert_eq!(earliest_timeout(&vec![None, Some(9), Some(4), None, Some(7)]), Some(4));
    assert_eq!(earliest_timeout(&vec![Some(0), Some(u128::MAX)]), Some(0));
}
