use zellij_windows::conpty_reader::{
    is_end_of_output, ConPtyBlockingReader, ConPtyReaderLoop, PipeRead, ReaderAction, ReaderWork,
    ReceivedChunk,
};
use zellij_windows::dsr::DsrBootstrap;

fn forwarded(work: ReaderWork<i32>) -> Vec<u8> {
    match work {
        ReaderWork::Perform(ReaderAction::Forward(bytes)) => bytes,
        _ => panic!("output was to be handed on"),
    }
}

fn reads(work: ReaderWork<i32>) -> bool {
    matches!(work, ReaderWork::Read { max_len: 65536 })
}

fn stops(work: ReaderWork<i32>) -> bool {
    matches!(work, ReaderWork::Stop)
}

#[test]
fn blocking_reader_buffers_chunk_tail() {
    let mut reader = ConPtyBlockingReader::new();
    let mut buf = [0_u8; 2];
    assert_eq!(reader.drain_buffered_output(&mut buf), None);
    assert_eq!(
        reader.read_received(ReceivedChunk::<i32>::Chunk(b"abcdef".to_vec()), &mut buf),
        Ok(2)
    );
    assert_eq!(&buf, b"ab");
    assert_eq!(reader.drain_buffered_output(&mut buf), Some(2));
    assert_eq!(&buf, b"cd");
    assert_eq!(reader.drain_buffered_output(&mut buf), Some(2));
    assert_eq!(&buf, b"ef");
    assert_eq!(reader.drain_buffered_output(&mut buf), None);
    assert_eq!(
        reader.read_received(ReceivedChunk::<i32>::Closed, &mut buf),
        Ok(0)
    );
}

#[test]
fn reader_leaves_the_rest_of_the_buffer_alone() {
    let mut reader = ConPtyBlockingReader::new();
    let mut buf = [9_u8; 4];
    assert_eq!(
        reader.read_received(ReceivedChunk::<i32>::Chunk(b"ab".to_vec()), &mut buf),
        Ok(2)
    );
    assert_eq!(&buf, b"ab\x09\x09");
    assert_eq!(
        reader.read_received(ReceivedChunk::Failed(5), &mut buf),
        Err(5)
    );
    assert_eq!(&buf, b"ab\x09\x09");
}

#[test]
fn blocking_reader_propagates_read_error() {
    let mut reader = ConPtyBlockingReader::new();
    let mut buf = [0_u8; 8];

    let error = reader
        .read_received(
            ReceivedChunk::Failed(std::io::Error::from_raw_os_error(5)),
            &mut buf,
        )
        .expect_err("read error");

    assert_eq!(error.raw_os_error(), Some(5));
}

#[test]
fn conpty_output_channel_is_bounded() {
    let (tx, _rx) = tokio::sync::mpsc::channel::<std::io::Result<Vec<u8>>>(1);

    tx.try_send(Ok(b"first".to_vec())).expect("first send fits");

    assert!(
        tx.try_send(Ok(b"second".to_vec())).is_err(),
        "bounded ConPTY output channel should apply backpressure when full"
    );
}

#[test]
fn broken_and_closing_pipes_are_the_end() {
    assert!(is_end_of_output(Some(109)));
    assert!(is_end_of_output(Some(232)));
    assert!(!is_end_of_output(Some(5)));
    assert!(!is_end_of_output(Some(-109)));
    assert!(!is_end_of_output(None));
}

#[test]
fn thread_hands_on_what_it_reads() {
    let mut thread = ConPtyReaderLoop::<i32>::new(None);
    assert!(reads(thread.next_work()));
    thread.pipe_read(PipeRead::Bytes(b"abc".to_vec()));
    assert_eq!(forwarded(thread.next_work()), b"abc");
    thread.performed(true);
    assert!(reads(thread.next_work()));
    thread.pipe_read(PipeRead::Bytes(Vec::new()));
    assert!(stops(thread.next_work()));
    thread.pipe_read(PipeRead::Bytes(b"late".to_vec()));
    assert!(stops(thread.next_work()));
}

#[test]
fn thread_stops_where_nobody_takes_the_output() {
    let mut thread = ConPtyReaderLoop::<i32>::new(None);
    thread.pipe_read(PipeRead::Bytes(b"abc".to_vec()));
    assert_eq!(forwarded(thread.next_work()), b"abc");
    thread.performed(false);
    assert!(stops(thread.next_work()));
}

#[test]
fn thread_hands_an_error_on_and_stops() {
    let mut thread = ConPtyReaderLoop::<i32>::new(None);
    thread.pipe_read(PipeRead::Failed {
        code: Some(5),
        error: 77,
    });
    assert!(matches!(
        thread.next_work(),
        ReaderWork::Perform(ReaderAction::ForwardError(77))
    ));
    thread.performed(false);
    assert!(stops(thread.next_work()));

    let mut thread = ConPtyReaderLoop::<i32>::new(None);
    thread.pipe_read(PipeRead::Failed {
        code: Some(109),
        error: 77,
    });
    assert!(stops(thread.next_work()));
}

#[test]
fn thread_answers_the_query_before_it_hands_output_on() {
    let mut thread = ConPtyReaderLoop::<i32>::new(Some(DsrBootstrap::new(42, 2000)));
    thread.pipe_read(PipeRead::Bytes(b"a\x1b[".to_vec()));
    assert_eq!(forwarded(thread.next_work()), b"a");
    thread.performed(true);
    assert!(reads(thread.next_work()));
    thread.pipe_read_at(false, PipeRead::Bytes(b"6nb".to_vec()));
    match thread.next_work() {
        ReaderWork::Perform(ReaderAction::Reply { handle, bytes }) => {
            assert_eq!(handle, 42);
            assert_eq!(bytes, b"\x1b[1;1R");
        }
        _ => panic!("a reply was due"),
    }
    thread.performed(false);
    assert_eq!(forwarded(thread.next_work()), b"b");
    thread.performed(true);
    thread.pipe_read_at(false, PipeRead::Bytes(b"\x1b[6n".to_vec()));
    assert_eq!(forwarded(thread.next_work()), b"\x1b[6n");
}

#[test]
fn thread_hands_on_in_pieces_what_does_not_fit() {
    let mut thread = ConPtyReaderLoop::<i32>::new(Some(DsrBootstrap::new(0, 2000)));
    thread.pipe_read_at(false, PipeRead::Bytes(b"\x1b[6".to_vec()));
    assert!(reads(thread.next_work()));
    let mut long = vec![b'x'; 65536];
    long[0] = b'y';
    thread.pipe_read_at(false, PipeRead::Bytes(long.clone()));
    let first = forwarded(thread.next_work());
    assert_eq!(first.len(), 65536);
    thread.performed(true);
    let second = forwarded(thread.next_work());
    thread.performed(true);
    assert!(reads(thread.next_work()));
    let mut whole = first;
    whole.extend(second);
    let mut expected = b"\x1b[6".to_vec();
    expected.extend(long);
    assert_eq!(whole, expected);
}
