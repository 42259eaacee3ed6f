//! Frames: the messages that a client and the daemon exchange on a socket.
use vstd::prelude::*;

verus! {

/// Why a batch of operations failed as a whole.
#[derive(Debug, Clone, Copy, PartialEq, Eq, Structural)]
pub enum BatchFailureReason {
    EngineUnavailable,
    EngineRejected,
}

/// Whether the failed batch may be sent again.
#[derive(Debug, Clone, Copy, PartialEq, Eq, Structural)]
pub enum RetryClassification {
    Unknown,
    NotRetryable,
}

/// Whether the failed batch left something in the store.
#[derive(Debug, Clone, Copy, PartialEq, Eq, Structural)]
pub enum CommitStatus {
    Unknown,
    NotCommitted,
}

/// At least one item, in order.
#[derive(Debug, PartialEq, Eq)]
pub struct NonEmpty<T> {
    head: T,
    tail: Vec<T>,
}

impl<T> View for NonEmpty<T> {
    type V = Seq<T>;

    closed spec fn view(&self) -> Seq<T> {
        seq![self.head] + self.tail@
    }
}

impl<T> NonEmpty<T> {
    pub fn single(head: T) -> (items: Self)
        ensures
            items@ == seq![head],
    {
        let items = Self { head, tail: Vec::new() };
        assert(items@ =~= seq![head]);
        items
    }

    /// The items `head` and, behind it, `tail`.
    pub fn from_head_and_tail(head: T, tail: Vec<T>) -> (items: Self)
        ensures
            items@ == seq![head] + tail@,
    {
        Self { head, tail }
    }

    pub fn push(&mut self, item: T)
        ensures
            final(self)@ == old(self)@.push(item),
    {
        self.tail.push(item);
        assert(self@ =~= old(self)@.push(item));
    }

    pub fn len(&self) -> (count: usize)
        requires
            self@.len() <= usize::MAX,
        ensures
            count == self@.len(),
    {
        1 + self.tail.len()
    }

    pub fn head(&self) -> (head: &T)
        ensures
            *head == self@[0],
    {
        &self.head
    }

    pub fn into_head(self) -> (head: T)
        ensures
            head == self@[0],
    {
        self.head
    }

    pub fn into_head_and_tail(self) -> (parts: (T, Vec<T>))
        ensures
            seq![parts.0] + parts.1@ == self@,
    {
        (self.head, self.tail)
    }

    /// There is always a first item.
    pub proof fn lemma_not_empty(&self)
        ensures
            self@.len() > 0,
    {
    }
}

/// What became of one operation of a batch.
#[derive(Debug, PartialEq, Eq)]
pub enum SubReply<Payload> {
    /// The operation was carried out.
    Completed(Payload),
    /// The operation was undone or never run because the batch failed.
    Invalidated,
    /// The operation itself failed.
    Failed,
}

/// What became of an accepted batch.
#[derive(Debug, Clone, Copy, PartialEq, Eq)]
pub enum AcceptedOutcome {
    Committed,
    BatchAborted { reason: BatchFailureReason, retry: RetryClassification, commit: CommitStatus },
}

/// The reply to a batch of operations.
#[derive(Debug, PartialEq, Eq)]
pub enum FrameReply<Payload> {
    Accepted { outcome: AcceptedOutcome, per_operation: NonEmpty<SubReply<Payload>> },
    Rejected,
}

/// A batch of operations.
#[derive(Debug, PartialEq, Eq)]
pub struct Request<Operation> {
    pub payloads: NonEmpty<Operation>,
}

impl<Operation> Request<Operation> {
    /// The batch of one operation.
    pub fn of(operation: Operation) -> (request: Self)
        ensures
            request.payloads@ == seq![operation],
    {
        Self { payloads: NonEmpty::single(operation) }
    }
}

impl<Payload> FrameReply<Payload> {
    /// The reply to a batch that was carried out.
    pub fn committed(per_operation: NonEmpty<SubReply<Payload>>) -> (reply: Self)
        ensures
            reply == (FrameReply::Accepted { outcome: AcceptedOutcome::Committed, per_operation }),
    {
        FrameReply::Accepted { outcome: AcceptedOutcome::Committed, per_operation }
    }

    /// The reply to a batch that failed.
    pub fn batch_aborted(
        reason: BatchFailureReason,
        retry: RetryClassification,
        commit: CommitStatus,
        per_operation: NonEmpty<SubReply<Payload>>,
    ) -> (reply: Self)
        ensures
            reply == (FrameReply::Accepted {
                outcome: AcceptedOutcome::BatchAborted { reason, retry, commit },
                per_operation,
            }),
    {
        FrameReply::Accepted {
            outcome: AcceptedOutcome::BatchAborted { reason, retry, commit },
            per_operation,
        }
    }
}

} // verus!
