//! Moderation status of a catalogue entry and its text encoding in the
//! `varchar` database column.
use vstd::prelude::*;

verus! {

/// Status of an entry in the moderation workflow.
#[derive(Debug, PartialEq, Eq, Structural, Clone, Copy, Hash)]
pub enum Status {
    Draft,
    Moderation,
    Decline,
    Published,
}

/// Why a column value could not be read as a [`Status`].
#[derive(Debug, PartialEq, Eq)]
pub enum StatusDecodeError {
    /// The column held bytes that name no status.
    Unrecognized(Vec<u8>),
    /// The column was `NULL`.
    UnexpectedNull,
}

/// The ASCII bytes stored for each status: "draft", "moderation", "decline",
/// "published".
pub open spec fn status_code(s: Status) -> Seq<u8> {
    match s {
        Status::Draft => seq![100u8, 114, 97, 102, 116],
        Status::Moderation => seq![109u8, 111, 100, 101, 114, 97, 116, 105, 111, 110],
        Status::Decline => seq![100u8, 101, 99, 108, 105, 110, 101],
        Status::Published => seq![112u8, 117, 98, 108, 105, 115, 104, 101, 100],
    }
}

/// The status whose stored bytes are `b`, if any.
pub open spec fn status_of_code(b: Seq<u8>) -> Option<Status> {
    if b == status_code(Status::Draft) {
        Some(Status::Draft)
    } else if b == status_code(Status::Moderation) {
        Some(Status::Moderation)
    } else if b == status_code(Status::Decline) {
        Some(Status::Decline)
    } else if b == status_code(Status::Published) {
        Some(Status::Published)
    } else {
        None
    }
}

/// Whether two byte slices hold the same bytes.
pub fn bytes_equal(a: &[u8], b: &[u8]) -> (r: bool)
    ensures
        r == (a@ == b@),
{
    if a.len() != b.len() {
        return false;
    }
    let n = a.len();
    let mut i: usize = 0;
    while i < n
        invariant
            n == a@.len(),
            n == b@.len(),
            i <= n,
            forall|j: int| 0 <= j < i ==> a@[j] == b@[j],
        decreases n - i,
    {
        if a[i] != b[i] {
            return false;
        }
        i = i + 1;
    }
    assert(a@ =~= b@);
    true
}

impl Status {
    /// The bytes written to the column for this status.
    pub fn to_sql(&self) -> (out: Vec<u8>)
        ensures
            out@ == status_code(*self),
    {
        let out = match self {
            Status::Draft => vec![100u8, 114, 97, 102, 116],
            Status::Moderation => vec![109u8, 111, 100, 101, 114, 97, 116, 105, 111, 110],
            Status::Decline => vec![100u8, 101, 99, 108, 105, 110, 101],
            Status::Published => vec![112u8, 117, 98, 108, 105, 115, 104, 101, 100],
        };
        assert(out@ =~= status_code(*self));
        out
    }

    /// Reads a status from a column value (`None` is SQL `NULL`).
    pub fn build_from_row(value: Option<&[u8]>) -> (res: Result<Status, StatusDecodeError>)
        ensures
            match value {
                None => res == Err::<Status, StatusDecodeError>(StatusDecodeError::UnexpectedNull),
                Some(b) => match status_of_code(b@) {
                    Some(s) => res == Ok::<Status, StatusDecodeError>(s),
                    None => res matches Err(StatusDecodeError::Unrecognized(v)) && v@ == b@,
                },
            },
    {
        match value {
            None => Err(StatusDecodeError::UnexpectedNull),
            Some(b) => {
                let draft = Status::Draft.to_sql();
                let moderation = Status::Moderation.to_sql();
                let decline = Status::Decline.to_sql();
                let published = Status::Published.to_sql();
                if bytes_equal(b, draft.as_slice()) {
                    Ok(Status::Draft)
                } else if bytes_equal(b, moderation.as_slice()) {
                    Ok(Status::Moderation)
                } else if bytes_equal(b, decline.as_slice()) {
                    Ok(Status::Decline)
                } else if bytes_equal(b, published.as_slice()) {
                    Ok(Status::Published)
                } else {
                    Err(StatusDecodeError::Unrecognized(vstd::slice::slice_to_vec(b)))
                }
            },
        }
    }
}

/// Reading back what was written gives the same status, and distinct
/// statuses are written as distinct bytes.
pub proof fn lemma_status_code_roundtrip(s: Status, t: Status)
    ensures
        status_of_code(status_code(s)) == Some(s),
        status_code(s) == status_code(t) ==> s == t,
{
    // The four codes have pairwise distinct lengths (5, 10, 7, 9).
    assert(status_code(Status::Draft).len() == 5);
    assert(status_code(Status::Moderation).len() == 10);
    assert(status_code(Status::Decline).len() == 7);
    assert(status_code(Status::Published).len() == 9);
}

} // verus!
