use ipfs_api::error::Error;
use ipfs_api::read::{ReadOutcome, SourcePoll, StreamReader};

fn read_step(
    reader: &mut StreamReader,
    source: &mut Vec<Vec<u8>>,
    buf: &mut Vec<u8>,
) -> ReadOutcome {
    if reader.has_buffered() {
        ReadOutcome::Read(reader.read_buffered(buf))
    } else {
        let poll = if source.is_empty() {
            SourcePoll::End
        } else {
            SourcePoll::Chunk(source.remove(0))
        };
        reader.poll_read(buf, poll)
    }
}

#[test]
fn one_byte_reads_deliver_every_byte_once() {
    let mut source = vec![b"ab".to_vec(), b"cde".to_vec()];
    let mut reader = StreamReader::new();
    let mut got = Vec::new();
    loop {
        let mut buf = vec![0u8; 1];
        match read_step(&mut reader, &mut source, &mut buf) {
            ReadOutcome::Read(n) => {
                assert_eq!(n, 1);
                got.extend_from_slice(&buf[..n]);
            }
            ReadOutcome::Eof => break,
            other => panic!("unexpected outcome: {:?}", other),
        }
    }
    assert_eq!(got, b"abcde".to_vec());
}

#[test]
fn varied_buffer_sizes_lose_and_duplicate_nothing() {
    let sizes = [3usize, 1, 4, 2, 5];
    let mut source = vec![b"hello ".to_vec(), b"str".to_vec(), b"eaming world".to_vec()];
    let mut reader = StreamReader::new();
    let mut got = Vec::new();
    let mut k = 0;
    loop {
        let mut buf = vec![0u8; sizes[k % sizes.len()]];
        k += 1;
        match read_step(&mut reader, &mut source, &mut buf) {
            ReadOutcome::Read(n) => {
                assert!(1 <= n && n <= buf.len());
                got.extend_from_slice(&buf[..n]);
            }
            ReadOutcome::Eof => break,
            other => panic!("unexpected outcome: {:?}", other),
        }
    }
    assert_eq!(got, b"hello streaming world".to_vec());
}

#[test]
fn reads_never_cross_a_chunk_boundary() {
    let mut source = vec![b"ab".to_vec(), b"cde".to_vec()];
    let mut reader = StreamReader::new();
    let mut buf = vec![0u8; 10];
    match read_step(&mut reader, &mut source, &mut buf) {
        ReadOutcome::Read(n) => {
            assert_eq!(n, 2);
            assert_eq!(&buf[..2], b"ab");
        }
        other => panic!("unexpected outcome: {:?}", other),
    }
    match read_step(&mut reader, &mut source, &mut buf) {
        ReadOutcome::Read(n) => {
            assert_eq!(n, 3);
            assert_eq!(&buf[..3], b"cde");
        }
        other => panic!("unexpected outcome: {:?}", other),
    }
    assert!(matches!(
        read_step(&mut reader, &mut source, &mut buf),
        ReadOutcome::Eof
    ));
}

#[test]
fn pending_source_reports_would_block() {
    let mut reader = StreamReader::new();
    let mut buf = vec![0u8; 4];
    assert!(matches!(
        reader.poll_read(&mut buf, SourcePoll::Pending),
        ReadOutcome::WouldBlock
    ));
    assert!(matches!(
        reader.poll_read(&mut buf, SourcePoll::Chunk(b"hi".to_vec())),
        ReadOutcome::Read(2)
    ));
    assert_eq!(&buf[..2], b"hi");
}

#[test]
fn source_failure_propagates() {
    let mut reader = StreamReader::new();
    let mut buf = vec![0u8; 4];
    let outcome = reader.poll_read(
        &mut buf,
        SourcePoll::Failed(Error::Transport {
            reason: "connection reset".to_string(),
        }),
    );
    match outcome {
        ReadOutcome::Failed(Error::Transport { reason }) => {
            assert_eq!(reason, "connection reset");
        }
        other => panic!("unexpected outcome: {:?}", other),
    }
}
