//! Checkpoint lookups: a checkpoint is a summary plus the contents the
//! summary names by content digest.
//!
//! The summary is resolved first, by sequence number or by checkpoint
//! digest; the contents are then resolved through the content digest the
//! summary embeds. A missing summary is an ordinary not-found; missing
//! contents after the summary was found break the store's own referential
//! integrity and are surfaced as the more severe inconsistency.

use vstd::prelude::*;

verus! {

/// The summary of one checkpoint: its position, its own digest, and the
/// content digest naming its contents.
#[derive(Clone, Copy)]
pub struct CheckpointSummary {
    pub sequence_number: u64,
    pub digest: u64,
    pub content_digest: u64,
    pub epoch: u64,
}

/// The contents of one checkpoint: the transactions it commits, under the
/// content digest the summary refers to.
pub struct CheckpointContents {
    pub digest: u64,
    pub transactions: Vec<u64>,
}

/// How a caller names a checkpoint.
#[derive(Clone, Copy, Debug)]
pub enum CheckpointId {
    SequenceNumber(u64),
    Digest(u64),
}

/// A resolved checkpoint: the summary and the contents it names.
pub struct Checkpoint {
    pub summary: CheckpointSummary,
    pub contents: CheckpointContents,
}

/// Why a checkpoint lookup failed; each variant keeps what was queried.
#[derive(Debug)]
pub enum CheckpointError {
    CheckpointNotFound { id: CheckpointId },
    ContentsNotFound { content_digest: u64 },
    StorageInconsistency { content_digest: u64 },
}

pub open spec fn summary_matches(s: CheckpointSummary, id: CheckpointId) -> bool {
    match id {
        CheckpointId::SequenceNumber(n) => s.sequence_number == n,
        CheckpointId::Digest(d) => s.digest == d,
    }
}

pub open spec fn store_has_summary(summaries: Seq<CheckpointSummary>, id: CheckpointId) -> bool {
    exists|i: int| 0 <= i < summaries.len() && summary_matches(#[trigger] summaries[i], id)
}

pub open spec fn store_has_contents(contents: Seq<CheckpointContents>, d: u64) -> bool {
    exists|i: int| 0 <= i < contents.len() && (#[trigger] contents[i]).digest == d
}

/// The store names each checkpoint once: sequence numbers and digests are
/// unique among summaries.
pub open spec fn summaries_wf(summaries: Seq<CheckpointSummary>) -> bool {
    forall|i: int, j: int|
        0 <= i < j < summaries.len() ==> (#[trigger] summaries[i]).sequence_number != (
        #[trigger] summaries[j]).sequence_number && summaries[i].digest != summaries[j].digest
}

/// The store keeps one contents record per content digest.
pub open spec fn contents_wf(contents: Seq<CheckpointContents>) -> bool {
    forall|i: int, j: int|
        0 <= i < j < contents.len() ==> (#[trigger] contents[i]).digest != (
        #[trigger] contents[j]).digest
}

fn find_summary(summaries: &Vec<CheckpointSummary>, id: CheckpointId) -> (r: Option<
    CheckpointSummary,
>)
    ensures
        r matches Some(s) ==> summary_matches(s, id) && (exists|i: int|
            0 <= i < summaries@.len() && #[trigger] summaries@[i] == s),
        r is None <==> !store_has_summary(summaries@, id),
{
    let mut i: usize = 0;
    while i < summaries.len()
        invariant
            i <= summaries.len(),
            forall|j: int| 0 <= j < i ==> !summary_matches(#[trigger] summaries@[j], id),
        decreases summaries.len() - i,
    {
        let s = summaries[i];
        let matched = match id {
            CheckpointId::SequenceNumber(n) => s.sequence_number == n,
            CheckpointId::Digest(d) => s.digest == d,
        };
        if matched {
            return Some(s);
        }
        i += 1;
    }
    None
}

fn find_contents_index(contents: &Vec<CheckpointContents>, d: u64) -> (r: Option<usize>)
    ensures
        r matches Some(i) ==> i < contents.len() && contents@[i as int].digest == d,
        r is None <==> !store_has_contents(contents@, d),
{
    let mut i: usize = 0;
    while i < contents.len()
        invariant
            i <= contents.len(),
            forall|j: int| 0 <= j < i ==> (#[trigger] contents@[j]).digest != d,
        decreases contents.len() - i,
    {
        if contents[i].digest == d {
            return Some(i);
        }
        i += 1;
    }
    None
}

/// In a store whose summaries are well formed, any summary matching the
/// looked up identifier is the matched one.
proof fn lemma_unique_summary_match(
    summaries: Seq<CheckpointSummary>,
    id: CheckpointId,
    s: CheckpointSummary,
)
    requires
        summaries_wf(summaries),
        summary_matches(s, id),
        exists|i: int| 0 <= i < summaries.len() && #[trigger] summaries[i] == s,
    ensures
        forall|i: int|
            0 <= i < summaries.len() && summary_matches(#[trigger] summaries[i], id)
                ==> summaries[i] == s,
{
    let si = choose|i: int| 0 <= i < summaries.len() && #[trigger] summaries[i] == s;
    assert forall|i: int|
        0 <= i < summaries.len() && summary_matches(#[trigger] summaries[i], id) implies
        summaries[i] == s by {
        if i != si {
            assert(summaries[i].sequence_number != summaries[si].sequence_number);
            assert(summaries[i].digest != summaries[si].digest);
        }
    }
}

/// Resolves a checkpoint by sequence number or digest: the summary first,
/// then its contents through the summary's content digest. When it succeeds,
/// the contents' digest always matches the digest the summary embeds.
pub fn get_checkpoint(
    summaries: &Vec<CheckpointSummary>,
    contents: Vec<CheckpointContents>,
    id: CheckpointId,
) -> (r: Result<Checkpoint, CheckpointError>)
    requires
        summaries_wf(summaries@),
        contents_wf(contents@),
    ensures
        (r matches Err(CheckpointError::CheckpointNotFound { id: q }) && q == id) <==> !
        store_has_summary(summaries@, id),
        (r matches Err(CheckpointError::StorageInconsistency { content_digest: cd }) && (exists|
            i: int,
        |
            0 <= i < summaries@.len() && summary_matches(#[trigger] summaries@[i], id)
                && summaries@[i].content_digest == cd)) <==> (exists|i: int|
            0 <= i < summaries@.len() && summary_matches(#[trigger] summaries@[i], id)
                && !store_has_contents(contents@, summaries@[i].content_digest)),
        r is Ok <==> (exists|i: int|
            0 <= i < summaries@.len() && summary_matches(#[trigger] summaries@[i], id)
                && store_has_contents(contents@, summaries@[i].content_digest)),
        r matches Ok(c) ==> {
            &&& summary_matches(c.summary, id)
            &&& exists|i: int| 0 <= i < summaries@.len() && #[trigger] summaries@[i] == c.summary
            &&& c.contents.digest == c.summary.content_digest
            &&& exists|j: int| 0 <= j < contents@.len() && #[trigger] contents@[j] == c.contents
        },
{
    let summary = match find_summary(summaries, id) {
        None => {
            return Err(CheckpointError::CheckpointNotFound { id });
        },
        Some(s) => s,
    };
    proof {
        lemma_unique_summary_match(summaries@, id, summary);
    }
    match find_contents_index(&contents, summary.content_digest) {
        None => Err(CheckpointError::StorageInconsistency { content_digest: summary.content_digest }),
        Some(j) => {
            let mut contents = contents;
            let c = contents.remove(j);
            Ok(Checkpoint { summary, contents: c })
        },
    }
}

/// Resolves a checkpoint summary by sequence number.
pub fn get_checkpoint_summary(summaries: &Vec<CheckpointSummary>, sequence_number: u64) -> (r:
    Result<CheckpointSummary, CheckpointError>)
    requires
        summaries_wf(summaries@),
    ensures
        (r matches Err(CheckpointError::CheckpointNotFound { id: q }) && q matches
            CheckpointId::SequenceNumber(n) && n == sequence_number) <==> !store_has_summary(
            summaries@,
            CheckpointId::SequenceNumber(sequence_number),
        ),
        r is Ok <==> store_has_summary(summaries@, CheckpointId::SequenceNumber(sequence_number)),
        r matches Ok(s) ==> s.sequence_number == sequence_number && (exists|i: int|
            0 <= i < summaries@.len() && #[trigger] summaries@[i] == s),
{
    match find_summary(summaries, CheckpointId::SequenceNumber(sequence_number)) {
        None => Err(
            CheckpointError::CheckpointNotFound {
                id: CheckpointId::SequenceNumber(sequence_number),
            },
        ),
        Some(s) => Ok(s),
    }
}

/// Resolves a checkpoint summary by checkpoint digest.
pub fn get_checkpoint_summary_by_digest(summaries: &Vec<CheckpointSummary>, digest: u64) -> (r:
    Result<CheckpointSummary, CheckpointError>)
    requires
        summaries_wf(summaries@),
    ensures
        (r matches Err(CheckpointError::CheckpointNotFound { id: q }) && q matches
            CheckpointId::Digest(d) && d == digest) <==> !store_has_summary(
            summaries@,
            CheckpointId::Digest(digest),
        ),
        r is Ok <==> store_has_summary(summaries@, CheckpointId::Digest(digest)),
        r matches Ok(s) ==> s.digest == digest && (exists|i: int|
            0 <= i < summaries@.len() && #[trigger] summaries@[i] == s),
{
    match find_summary(summaries, CheckpointId::Digest(digest)) {
        None => Err(CheckpointError::CheckpointNotFound { id: CheckpointId::Digest(digest) }),
        Some(s) => Ok(s),
    }
}

/// Resolves checkpoint contents directly by content digest.
pub fn get_checkpoint_contents_by_digest(contents: Vec<CheckpointContents>, digest: u64) -> (r:
    Result<CheckpointContents, CheckpointError>)
    requires
        contents_wf(contents@),
    ensures
        (r matches Err(CheckpointError::ContentsNotFound { content_digest: cd }) && cd == digest)
            <==> !store_has_contents(contents@, digest),
        r is Ok <==> store_has_contents(contents@, digest),
        r matches Ok(c) ==> c.digest == digest && (exists|j: int|
            0 <= j < contents@.len() && #[trigger] contents@[j] == c),
{
    match find_contents_index(&contents, digest) {
        None => Err(CheckpointError::ContentsNotFound { content_digest: digest }),
        Some(j) => {
            let mut contents = contents;
            Ok(contents.remove(j))
        },
    }
}

/// Resolves checkpoint contents by sequence number: the summary first, then
/// its contents; contents missing after the summary was found are the
/// store's inconsistency, not a plain not-found.
pub fn get_checkpoint_contents(
    summaries: &Vec<CheckpointSummary>,
    contents: Vec<CheckpointContents>,
    sequence_number: u64,
) -> (r: Result<CheckpointContents, CheckpointError>)
    requires
        summaries_wf(summaries@),
        contents_wf(contents@),
    ensures
        (r matches Err(CheckpointError::CheckpointNotFound { id: q }) && q matches
            CheckpointId::SequenceNumber(n) && n == sequence_number) <==> !store_has_summary(
            summaries@,
            CheckpointId::SequenceNumber(sequence_number),
        ),
        r is Ok <==> (exists|i: int|
            0 <= i < summaries@.len() && summary_matches(
                #[trigger] summaries@[i],
                CheckpointId::SequenceNumber(sequence_number),
            ) && store_has_contents(contents@, summaries@[i].content_digest)),
        r matches Ok(c) ==> (exists|i: int, j: int|
            0 <= i < summaries@.len() && (#[trigger] summaries@[i]).sequence_number
                == sequence_number && 0 <= j < contents@.len() && #[trigger] contents@[j] == c
                && c.digest == summaries@[i].content_digest),
{
    match get_checkpoint(summaries, contents, CheckpointId::SequenceNumber(sequence_number)) {
        Ok(c) => Ok(c.contents),
        Err(e) => Err(e),
    }
}

/// The newest checkpoint the store has: the largest sequence number among
/// its summaries, absent only when the store holds none.
pub fn get_latest_checkpoint_sequence_number(summaries: &Vec<CheckpointSummary>) -> (r: Option<
    u64,
>)
    ensures
        r is None <==> summaries@.len() == 0,
        r matches Some(n) ==> (exists|i: int|
            0 <= i < summaries@.len() && (#[trigger] summaries@[i]).sequence_number == n) && (
        forall|i: int|
            0 <= i < summaries@.len() ==> (#[trigger] summaries@[i]).sequence_number <= n),
{
    if summaries.len() == 0 {
        return None;
    }
    let mut best: u64 = summaries[0].sequence_number;
    let mut i: usize = 1;
    while i < summaries.len()
        invariant
            1 <= i <= summaries@.len(),
            exists|j: int|
                0 <= j < i && (#[trigger] summaries@[j]).sequence_number == best,
            forall|j: int| 0 <= j < i ==> (#[trigger] summaries@[j]).sequence_number <= best,
        decreases summaries.len() - i,
    {
        if summaries[i].sequence_number > best {
            best = summaries[i].sequence_number;
        }
        i += 1;
    }
    Some(best)
}

} // verus!
