use ipfs_api::error::Error;
use ipfs_api::read::JsonLineDecoder;

fn json(text: &str) -> serde_json::Value {
    serde_json::from_str(text).unwrap()
}

fn run_chunks(chunks: &[&[u8]]) -> Vec<serde_json::Value> {
    let mut decoder = JsonLineDecoder::new();
    let mut records = Vec::new();
    for chunk in chunks {
        decoder.feed(&chunk.to_vec());
        loop {
            match decoder.next_record() {
                Ok(Some(v)) => records.push(v),
                Ok(None) => break,
                Err(e) => panic!("unexpected decode error: {:?}", e),
            }
        }
    }
    records
}

#[test]
fn two_records_in_order() {
    let mut decoder = JsonLineDecoder::new();
    decoder.feed(&b"{\"a\":1}\n{\"a\":2}\n".to_vec());
    assert_eq!(decoder.next_record().unwrap(), Some(json("{\"a\":1}")));
    assert_eq!(decoder.next_record().unwrap(), Some(json("{\"a\":2}")));
    assert_eq!(decoder.next_record().unwrap(), None);
}

#[test]
fn chunking_invariance() {
    let whole = run_chunks(&[b"{\"x\":[1,2]}\n{\"y\":\"z\"}\n{\"n\":3}\n"]);
    let split_mid_record = run_chunks(&[b"{\"x\":[1,", b"2]}\n{\"y\"", b":\"z\"}\n{\"n\":3}\n"]);
    let split_at_newlines = run_chunks(&[
        b"{",
        b"\"x\":[1,2]}",
        b"\n",
        b"{\"y\":\"z\"}\n{\"n\":3}",
        b"\n",
    ]);
    assert_eq!(whole.len(), 3);
    assert_eq!(whole, split_mid_record);
    assert_eq!(whole, split_at_newlines);
}

#[test]
fn unterminated_tail_discarded() {
    let mut decoder = JsonLineDecoder::new();
    decoder.feed(&b"{\"a\":1}\n{\"a\":2".to_vec());
    assert_eq!(decoder.next_record().unwrap(), Some(json("{\"a\":1}")));
    assert_eq!(decoder.next_record().unwrap(), None);
    assert!(decoder.end().is_none());
}

#[test]
fn drain_collects_available_records() {
    let mut decoder = JsonLineDecoder::new();
    decoder.feed(&b"1\n2\n{\"k\":true}\ntail".to_vec());
    let records = decoder.drain().unwrap();
    assert_eq!(records, vec![json("1"), json("2"), json("{\"k\":true}")]);
    assert_eq!(decoder.next_record().unwrap(), None);
}

#[test]
fn bad_line_is_decode_error() {
    let mut decoder = JsonLineDecoder::new();
    decoder.feed(&b"{\"ok\":1}\nnot json\n".to_vec());
    assert_eq!(decoder.next_record().unwrap(), Some(json("{\"ok\":1}")));
    match decoder.next_record() {
        Err(Error::Decode { line }) => assert_eq!(line, b"not json".to_vec()),
        other => panic!("expected a decode error, got {:?}", other),
    }
}

#[test]
fn drain_stops_at_decode_error() {
    let mut decoder = JsonLineDecoder::new();
    decoder.feed(&b"{\"ok\":1}\n}{broken\n{\"after\":2}\n".to_vec());
    match decoder.drain() {
        Err(Error::Decode { line }) => assert_eq!(line, b"}{broken".to_vec()),
        other => panic!("expected a decode error, got {:?}", other),
    }
    // everything after the offending line stays buffered
    assert_eq!(decoder.next_record().unwrap(), Some(json("{\"after\":2}")));
}

#[test]
fn empty_input_yields_no_record() {
    let mut decoder = JsonLineDecoder::new();
    assert_eq!(decoder.next_record().unwrap(), None);
    decoder.feed(&Vec::new());
    assert_eq!(decoder.next_record().unwrap(), None);
}
