use tinykv::raft::codec::{decode, encode};
use tinykv::raft::error::RaftResult;
use tinykv::raft::log::{length_prefix, read_record_len, RaftLog};

#[test]
fn raf_log() -> RaftResult<()> {
    let mut file: Vec<u8> = Vec::new();

    {
        // new log
        let mut raft_log = RaftLog::open(file.clone());

        raft_log.append(vec![1, 1])?;
        raft_log.append(vec![2, 2])?;
        raft_log.append(vec![3, 3])?;

        assert_eq!(raft_log.len(), 3);
        assert_eq!(raft_log.get(0)?, vec![1, 1]);

        raft_log.append(vec![4, 4, 4])?;
        raft_log.append(vec![5, 5])?;
        raft_log.append(vec![6, 6])?;
        raft_log.append(vec![7, 7])?;

        assert_eq!(raft_log.len(), 7);
        assert_eq!(raft_log.get(3)?, vec![4, 4, 4]);
        assert_eq!(raft_log.get(4)?, vec![5, 5]);
        assert_eq!(raft_log.get(6)?, vec![7, 7]);

        raft_log.truncate(1)?;
        assert_eq!(raft_log.len(), 5);
        assert_eq!(raft_log.get(0)?, vec![3, 3]);
        assert_eq!(raft_log.get(1)?, vec![4, 4, 4]);

        file = raft_log.as_bytes().clone();
    }

    {
        // existing log
        let mut raft_log = RaftLog::open(file.clone());
        assert_eq!(raft_log.len(), 5);
        assert_eq!(raft_log.get(0)?, vec![3, 3]);
        assert_eq!(raft_log.get(4)?, vec![7, 7]);

        raft_log.rebase(3)?;
        assert_eq!(raft_log.len(), 3);

        assert_eq!(raft_log.get(0)?, vec![3, 3]);
        assert_eq!(raft_log.get(1)?, vec![4, 4, 4]);
        assert_eq!(raft_log.get(2)?, vec![5, 5]);

        file = raft_log.as_bytes().clone();
    }

    {
        // open rebased log
        let raft_log = RaftLog::open(file);
        assert_eq!(raft_log.len(), 3);

        assert_eq!(raft_log.get(0)?, vec![3, 3]);
        assert_eq!(raft_log.get(1)?, vec![4, 4, 4]);
        assert_eq!(raft_log.get(2)?, vec![5, 5]);
    }

    Ok(())
}

fn seven_records() -> RaftLog {
    let mut log = RaftLog::open(Vec::new());
    let items: Vec<Vec<u8>> = vec![
        vec![1, 1],
        vec![2, 2],
        vec![3, 3],
        vec![4, 4, 4],
        vec![5, 5],
        vec![6, 6],
        vec![7, 7],
    ];
    for item in items {
        log.append(item).unwrap();
    }
    log
}

#[test]
fn every_appended_blob_comes_back_at_its_index() {
    let blobs: Vec<Vec<u8>> = vec![
        vec![],
        vec![0],
        vec![255; 3],
        (0..=255).collect(),
        vec![9; 1000],
        vec![],
        vec![1, 2, 3, 4, 5, 6, 7, 8],
    ];
    let mut log = RaftLog::open(Vec::new());
    for blob in &blobs {
        log.append(blob.clone()).unwrap();
    }
    assert_eq!(log.len(), blobs.len());
    for (i, blob) in blobs.iter().enumerate() {
        assert_eq!(&log.get(i).unwrap(), blob);
    }
}

#[test]
fn head_truncation_keeps_the_tail() {
    let mut log = seven_records();
    log.truncate(1).unwrap();
    assert_eq!(log.len(), 5);
    assert_eq!(log.get(0).unwrap(), vec![3, 3]);
    assert_eq!(log.get(1).unwrap(), vec![4, 4, 4]);
    assert_eq!(log.get(4).unwrap(), vec![7, 7]);
}

#[test]
fn tail_rebase_keeps_the_prefix() {
    let mut log = seven_records();
    log.truncate(1).unwrap();
    log.rebase(3).unwrap();
    assert_eq!(log.len(), 3);
    assert_eq!(log.get(0).unwrap(), vec![3, 3]);
    assert_eq!(log.get(1).unwrap(), vec![4, 4, 4]);
    assert_eq!(log.get(2).unwrap(), vec![5, 5]);
    assert!(log.get(3).is_err());
}

#[test]
fn reopening_gives_the_same_records_after_any_change() {
    let mut log = seven_records();
    log.truncate(2).unwrap();
    log.rebase(3).unwrap();
    log.append(vec![8, 8, 8, 8]).unwrap();
    let reopened = RaftLog::open(log.as_bytes().clone());
    assert_eq!(reopened.len(), log.len());
    assert_eq!(reopened.as_bytes(), log.as_bytes());
    for i in 0..log.len() {
        assert_eq!(reopened.get(i).unwrap(), log.get(i).unwrap());
        assert_eq!(reopened.get_payload(i).unwrap(), log.get_payload(i).unwrap());
    }
    assert_eq!(reopened.get(3).unwrap(), vec![8, 8, 8, 8]);
}

#[test]
fn the_file_holds_length_then_payload() {
    let mut log = RaftLog::open(Vec::new());
    log.append_payload(&[1, 1]).unwrap();
    assert_eq!(log.as_bytes(), &vec![2, 0, 0, 0, 0, 0, 0, 0, 1, 1]);
    log.append_payload(&[]).unwrap();
    assert_eq!(
        log.as_bytes(),
        &vec![2, 0, 0, 0, 0, 0, 0, 0, 1, 1, 0, 0, 0, 0, 0, 0, 0, 0]
    );
    assert_eq!(log.len(), 2);
    assert_eq!(log.get_payload(0).unwrap(), vec![1, 1]);
    assert_eq!(log.get_payload(1).unwrap(), Vec::<u8>::new());
}

#[test]
fn an_item_is_stored_in_its_encoding() {
    let mut log = RaftLog::open(Vec::new());
    log.append(vec![1, 1]).unwrap();
    assert_eq!(
        log.as_bytes(),
        &vec![10, 0, 0, 0, 0, 0, 0, 0, 2, 0, 0, 0, 0, 0, 0, 0, 1, 1]
    );
    assert_eq!(
        log.get_payload(0).unwrap(),
        vec![2, 0, 0, 0, 0, 0, 0, 0, 1, 1]
    );
    assert_eq!(log.get(0).unwrap(), vec![1, 1]);
}

#[test]
fn encode_writes_the_length_before_the_bytes() {
    assert_eq!(
        encode(&vec![7, 8, 9]).unwrap(),
        vec![3, 0, 0, 0, 0, 0, 0, 0, 7, 8, 9]
    );
    assert_eq!(encode(&vec![]).unwrap(), vec![0, 0, 0, 0, 0, 0, 0, 0]);
    let long = vec![5u8; 300];
    let payload = encode(&long).unwrap();
    assert_eq!(&payload[..8], &[44, 1, 0, 0, 0, 0, 0, 0]);
    assert_eq!(&payload[8..], &long[..]);
}

#[test]
fn decode_reads_what_encode_wrote_and_ignores_what_follows() {
    assert_eq!(
        decode(&[3, 0, 0, 0, 0, 0, 0, 0, 7, 8, 9]).unwrap(),
        vec![7, 8, 9]
    );
    assert_eq!(
        decode(&[1, 0, 0, 0, 0, 0, 0, 0, 7, 8, 9]).unwrap(),
        vec![7]
    );
    assert_eq!(decode(&[0, 0, 0, 0, 0, 0, 0, 0]).unwrap(), Vec::<u8>::new());
}

#[test]
fn decode_fails_on_a_payload_that_is_cut_short() {
    assert!(decode(&[]).is_err());
    assert!(decode(&[3, 0, 0, 0, 0, 0, 0]).is_err());
    assert!(decode(&[3, 0, 0, 0, 0, 0, 0, 0, 7, 8]).is_err());
    assert!(decode(&[255, 255, 255, 255, 255, 255, 255, 255, 1]).is_err());
}

#[test]
fn get_fails_where_the_payload_is_no_encoding() {
    let mut log = RaftLog::open(Vec::new());
    log.append_payload(&[1, 2, 3]).unwrap();
    log.append(vec![4]).unwrap();
    assert_eq!(log.len(), 2);
    assert!(log.get(0).is_err());
    assert_eq!(log.get_payload(0).unwrap(), vec![1, 2, 3]);
    assert_eq!(log.get(1).unwrap(), vec![4]);
}

#[test]
fn get_out_of_range_is_refused() {
    let log = seven_records();
    let error = log.get(7).unwrap_err();
    assert_eq!(error.0, "log index out of range");
    let error = log.get_payload(usize::MAX).unwrap_err();
    assert_eq!(error.0, "log index out of range");
    assert!(RaftLog::open(Vec::new()).get(0).is_err());
}

#[test]
fn truncate_must_leave_a_record() {
    let mut log = seven_records();
    let before = log.as_bytes().clone();
    assert_eq!(log.truncate(6).unwrap_err().0, "log index out of range");
    assert_eq!(log.truncate(7).unwrap_err().0, "log index out of range");
    assert_eq!(log.truncate(usize::MAX).unwrap_err().0, "log index out of range");
    assert_eq!(log.len(), 7);
    assert_eq!(log.as_bytes(), &before);
    log.truncate(5).unwrap();
    assert_eq!(log.len(), 1);
    assert_eq!(log.get(0).unwrap(), vec![7, 7]);
    assert!(log.truncate(0).is_err());
    assert!(RaftLog::open(Vec::new()).truncate(0).is_err());
}

#[test]
fn truncate_rewrites_the_file_from_its_first_byte() {
    let mut log = RaftLog::open(Vec::new());
    log.append_payload(&[1]).unwrap();
    log.append_payload(&[2, 2]).unwrap();
    log.append_payload(&[3, 3, 3]).unwrap();
    log.truncate(0).unwrap();
    assert_eq!(
        log.as_bytes(),
        &vec![2, 0, 0, 0, 0, 0, 0, 0, 2, 2, 3, 0, 0, 0, 0, 0, 0, 0, 3, 3, 3]
    );
    log.append_payload(&[4]).unwrap();
    assert_eq!(log.get_payload(2).unwrap(), vec![4]);
}

#[test]
fn rebase_beyond_the_end_is_refused() {
    let mut log = seven_records();
    let before = log.as_bytes().clone();
    assert_eq!(log.rebase(8).unwrap_err().0, "log index out of range");
    assert_eq!(log.len(), 7);
    assert_eq!(log.as_bytes(), &before);
    log.rebase(7).unwrap();
    assert_eq!(log.len(), 7);
    assert_eq!(log.as_bytes(), &before);
    log.rebase(0).unwrap();
    assert_eq!(log.len(), 0);
    assert!(log.as_bytes().is_empty());
    log.append(vec![9]).unwrap();
    assert_eq!(log.get(0).unwrap(), vec![9]);
}

#[test]
fn rebase_cuts_the_file_where_the_record_starts() {
    let mut log = RaftLog::open(Vec::new());
    log.append_payload(&[1]).unwrap();
    log.append_payload(&[2, 2]).unwrap();
    log.append_payload(&[3, 3, 3]).unwrap();
    log.rebase(1).unwrap();
    assert_eq!(log.as_bytes(), &vec![1, 0, 0, 0, 0, 0, 0, 0, 1]);
}

#[test]
fn open_drops_a_record_that_was_not_written_whole() {
    let whole = vec![2, 0, 0, 0, 0, 0, 0, 0, 1, 1];

    // a length prefix that is cut short
    let mut bytes = whole.clone();
    bytes.extend_from_slice(&[5, 0, 0]);
    let log = RaftLog::open(bytes);
    assert_eq!(log.len(), 1);
    assert_eq!(log.as_bytes(), &whole);

    // a payload that is cut short
    let mut bytes = whole.clone();
    bytes.extend_from_slice(&[5, 0, 0, 0, 0, 0, 0, 0, 9, 9]);
    let mut log = RaftLog::open(bytes);
    assert_eq!(log.len(), 1);
    assert_eq!(log.as_bytes(), &whole);
    assert_eq!(log.get_payload(0).unwrap(), vec![1, 1]);

    // what is appended next stands right behind the last whole record
    log.append_payload(&[3]).unwrap();
    assert_eq!(log.len(), 2);
    assert_eq!(log.get_payload(1).unwrap(), vec![3]);
    let reopened = RaftLog::open(log.as_bytes().clone());
    assert_eq!(reopened.len(), 2);
}

#[test]
fn open_finds_nothing_in_a_file_without_a_whole_record() {
    assert_eq!(RaftLog::open(Vec::new()).len(), 0);
    assert_eq!(RaftLog::open(vec![1, 2, 3]).len(), 0);
    let log = RaftLog::open(vec![9, 0, 0, 0, 0, 0, 0, 0, 1]);
    assert_eq!(log.len(), 0);
    assert!(log.as_bytes().is_empty());
}

#[test]
fn load_offsets_lists_where_each_record_starts() {
    let mut bytes = Vec::new();
    bytes.extend_from_slice(&[1, 0, 0, 0, 0, 0, 0, 0, 7]);
    bytes.extend_from_slice(&[0, 0, 0, 0, 0, 0, 0, 0]);
    bytes.extend_from_slice(&[2, 0, 0, 0, 0, 0, 0, 0, 8, 8]);
    bytes.extend_from_slice(&[4, 0, 0, 0]);
    let index = RaftLog::load_offsets(&bytes);
    assert_eq!(index.offsets, vec![0, 9, 17]);
    assert_eq!(index.next_item_offset, 27);
}

#[test]
fn load_offsets_reads_lengths_little_endian() {
    let mut bytes = vec![0, 1, 0, 0, 0, 0, 0, 0];
    bytes.extend_from_slice(&[7u8; 256]);
    bytes.extend_from_slice(&[1, 0, 0, 0, 0, 0, 0, 0, 3]);
    let index = RaftLog::load_offsets(&bytes);
    assert_eq!(index.offsets, vec![0, 264]);
    assert_eq!(index.next_item_offset, 273);
    assert_eq!(read_record_len(&bytes, 0), Some(256));
    assert_eq!(read_record_len(&bytes, 264), Some(1));
    assert_eq!(read_record_len(&bytes, 265), None);
    assert_eq!(read_record_len(&bytes, 273), None);
}

#[test]
fn length_prefix_is_eight_bytes_little_endian() {
    assert_eq!(length_prefix(0), vec![0, 0, 0, 0, 0, 0, 0, 0]);
    assert_eq!(length_prefix(2), vec![2, 0, 0, 0, 0, 0, 0, 0]);
    assert_eq!(length_prefix(0x0102), vec![2, 1, 0, 0, 0, 0, 0, 0]);
    assert_eq!(length_prefix(0x01020304), vec![4, 3, 2, 1, 0, 0, 0, 0]);
}

#[test]
fn an_empty_item_is_a_record_of_its_own() {
    let mut log = RaftLog::open(Vec::new());
    log.append(vec![]).unwrap();
    log.append(vec![]).unwrap();
    assert_eq!(log.len(), 2);
    assert_eq!(log.get(0).unwrap(), Vec::<u8>::new());
    assert_eq!(log.get(1).unwrap(), Vec::<u8>::new());
    assert_eq!(log.as_bytes().len(), 32);
}

/// A small generator of numbers that gives the same run every time.
struct Numbers(u64);

impl Numbers {
    fn next(&mut self) -> u64 {
        self.0 = self.0.wrapping_mul(6364136223846793005).wrapping_add(1442695040888963407);
        self.0 >> 33
    }
}

#[test]
fn the_log_agrees_with_a_plain_list_through_a_long_run() {
    let mut numbers = Numbers(7);
    let mut log = RaftLog::open(Vec::new());
    let mut list: Vec<Vec<u8>> = Vec::new();
    for round in 0..400 {
        match numbers.next() % 6 {
            0 | 1 | 2 => {
                let len = (numbers.next() % 40) as usize;
                let item: Vec<u8> = (0..len).map(|_| numbers.next() as u8).collect();
                log.append(item.clone()).unwrap();
                list.push(item);
            }
            3 => {
                let index = (numbers.next() % 8) as usize;
                let result = log.truncate(index);
                if index + 1 < list.len() {
                    result.unwrap();
                    list.drain(..=index);
                } else {
                    assert!(result.is_err());
                }
            }
            4 => {
                let index = (numbers.next() % 12) as usize;
                let result = log.rebase(index);
                if index <= list.len() {
                    result.unwrap();
                    list.truncate(index);
                } else {
                    assert!(result.is_err());
                }
            }
            _ => {
                // close and open again
                log = RaftLog::open(log.as_bytes().clone());
            }
        }
        assert_eq!(log.len(), list.len(), "round {}", round);
        for (i, item) in list.iter().enumerate() {
            assert_eq!(&log.get(i).unwrap(), item, "round {}", round);
        }
        assert!(log.get(list.len()).is_err());
        let size: usize = list.iter().map(|item| item.len() + 16).sum();
        assert_eq!(log.as_bytes().len(), size);
    }
}
