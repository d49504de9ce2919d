use read_api::checkpoint::{
    get_checkpoint, get_checkpoint_contents, get_checkpoint_contents_by_digest,
    get_checkpoint_summary, get_checkpoint_summary_by_digest,
    get_latest_checkpoint_sequence_number, Checkpoint, CheckpointContents, CheckpointError,
    CheckpointId, CheckpointSummary,
};

fn summaries() -> Vec<CheckpointSummary> {
    vec![
        CheckpointSummary { sequence_number: 0, digest: 100, content_digest: 200, epoch: 0 },
        CheckpointSummary { sequence_number: 1, digest: 101, content_digest: 201, epoch: 0 },
        CheckpointSummary { sequence_number: 2, digest: 102, content_digest: 202, epoch: 1 },
    ]
}

fn contents() -> Vec<CheckpointContents> {
    vec![
        CheckpointContents { digest: 200, transactions: vec![1000] },
        CheckpointContents { digest: 201, transactions: vec![1001, 1002] },
        CheckpointContents { digest: 202, transactions: vec![] },
    ]
}

fn assert_consistent(c: &Checkpoint) {
    assert_eq!(c.contents.digest, c.summary.content_digest);
}

#[test]
fn checkpoint_resolves_by_sequence_number_and_is_consistent() {
    let c = get_checkpoint(&summaries(), contents(), CheckpointId::SequenceNumber(1)).unwrap();
    assert_eq!(c.summary.sequence_number, 1);
    assert_eq!(c.contents.transactions, vec![1001, 1002]);
    assert_consistent(&c);
}

#[test]
fn checkpoint_resolves_by_digest_and_is_consistent() {
    let c = get_checkpoint(&summaries(), contents(), CheckpointId::Digest(102)).unwrap();
    assert_eq!(c.summary.sequence_number, 2);
    assert_consistent(&c);
}

#[test]
fn missing_summary_is_a_plain_not_found() {
    match get_checkpoint(&summaries(), contents(), CheckpointId::SequenceNumber(9)) {
        Err(CheckpointError::CheckpointNotFound { id: CheckpointId::SequenceNumber(n) }) => {
            assert_eq!(n, 9)
        }
        _ => panic!("an unknown sequence number is a checkpoint not found"),
    }
}

#[test]
fn missing_contents_after_a_found_summary_is_a_storage_inconsistency() {
    let broken: Vec<CheckpointContents> =
        contents().into_iter().filter(|c| c.digest != 201).collect();
    match get_checkpoint(&summaries(), broken, CheckpointId::SequenceNumber(1)) {
        Err(CheckpointError::StorageInconsistency { content_digest }) => {
            assert_eq!(content_digest, 201)
        }
        _ => panic!("a dangling content digest breaks the store's referential integrity"),
    }
}

#[test]
fn summary_only_accessors_resolve_each_key() {
    let s = get_checkpoint_summary(&summaries(), 2).unwrap();
    assert_eq!(s.digest, 102);
    let s2 = get_checkpoint_summary_by_digest(&summaries(), 100).unwrap();
    assert_eq!(s2.sequence_number, 0);
    match get_checkpoint_summary(&summaries(), 7) {
        Err(CheckpointError::CheckpointNotFound { .. }) => {}
        _ => panic!("an unknown sequence number is a checkpoint not found"),
    }
}

#[test]
fn contents_only_accessors_resolve_each_key() {
    let c = get_checkpoint_contents_by_digest(contents(), 200).unwrap();
    assert_eq!(c.transactions, vec![1000]);
    match get_checkpoint_contents_by_digest(contents(), 999) {
        Err(CheckpointError::ContentsNotFound { content_digest }) => {
            assert_eq!(content_digest, 999)
        }
        _ => panic!("an unknown content digest is a contents not found"),
    }
    let c2 = get_checkpoint_contents(&summaries(), contents(), 0).unwrap();
    assert_eq!(c2.digest, 200);
}

#[test]
fn latest_sequence_number_is_the_maximum_or_absent() {
    assert_eq!(get_latest_checkpoint_sequence_number(&summaries()), Some(2));
    assert_eq!(get_latest_checkpoint_sequence_number(&Vec::new()), None);
    let unordered = vec![
        CheckpointSummary { sequence_number: 5, digest: 1, content_digest: 2, epoch: 0 },
        CheckpointSummary { sequence_number: 3, digest: 4, content_digest: 6, epoch: 0 },
    ];
    assert_eq!(get_latest_checkpoint_sequence_number(&unordered), Some(5));
}
