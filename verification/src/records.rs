//! Stored records: what the ledger keeps, and the key each record is kept under.
use vstd::prelude::*;
use vstd::string::StringExecFns;

use crate::contract::{
    Commit, CommitModel, CommitObservation, CommitObservationModel, Event, EventModel,
    EventSequence, Name, ReceiveHookNotification, Registration, RegistrationModel, Timestamp,
};
use crate::meta_contract::{
    MirrorPolicy, MirrorPolicyModel, SpoolDirectoryPolicy, SpoolDirectoryPolicyModel,
};
use crate::model::Duplicate;
use crate::text;
use crate::text::Text;

verus! {

#[derive(Debug, PartialEq, Eq)]
pub struct RecordKeyKind;

/// The key that a record is kept under in its table.
pub type RecordKey = Text<RecordKeyKind>;

/// A record that a table can keep.
pub trait EngineRecord: Duplicate {
    /// The key of a record.
    spec fn key_of(record: Self::V) -> Seq<char>;

    fn record_key(&self) -> (key: RecordKey)
        ensures
            key@ == Self::key_of(self@),
    ;
}

/// The decimal digit `digit`, which is below ten.
pub open spec fn digit_char(digit: nat) -> char {
    (48 + digit) as char
}

/// The last `width` decimal digits of `number`, with leading zeros.
pub open spec fn padded(number: nat, width: nat) -> Seq<char>
    decreases width,
{
    if width == 0 {
        Seq::empty()
    } else {
        padded(number / 10, (width - 1) as nat).push(digit_char(number % 10))
    }
}

/// Ten to the power of `exponent`.
pub open spec fn power_of_ten(exponent: nat) -> nat
    decreases exponent,
{
    if exponent == 0 {
        1
    } else {
        10 * power_of_ten((exponent - 1) as nat)
    }
}

proof fn lemma_precedes_push(left: Seq<char>, right: Seq<char>, x: char, y: char)
    requires
        left.len() == right.len(),
    ensures
        text::text_precedes(left.push(x), right.push(y)) == (text::text_precedes(left, right) || (left
            == right && x < y)),
    decreases left.len(),
{
    if left.len() == 0 {
        assert(left =~= right);
        assert(left.push(x).drop_first() =~= Seq::<char>::empty());
        assert(right.push(y).drop_first() =~= Seq::<char>::empty());
        text::lemma_precedes_irreflexive(Seq::<char>::empty());
    } else {
        let l = left.drop_first();
        let r = right.drop_first();
        assert(left.push(x).drop_first() =~= l.push(x));
        assert(right.push(y).drop_first() =~= r.push(y));
        lemma_precedes_push(l, r, x, y);
        if left[0] == right[0] && l == r {
            assert(left =~= seq![left[0]] + l);
            assert(right =~= seq![right[0]] + r);
        }
    }
}

/// A number is written with exactly as many digits as asked for.
pub proof fn lemma_padded_length(number: nat, width: nat)
    ensures
        padded(number, width).len() == width,
    decreases width,
{
    if width > 0 {
        lemma_padded_length(number / 10, (width - 1) as nat);
    }
}

/// Numbers written with the same number of digits are ordered as texts exactly
/// as they are ordered as numbers.
pub proof fn lemma_padded_order(left: nat, right: nat, width: nat)
    requires
        left < power_of_ten(width),
        right < power_of_ten(width),
    ensures
        text::text_precedes(padded(left, width), padded(right, width)) == (left < right),
        padded(left, width) == padded(right, width) ==> left == right,
    decreases width,
{
    if width > 0 {
        let rest = (width - 1) as nat;
        lemma_padded_order(left / 10, right / 10, rest);
        lemma_padded_length(left / 10, rest);
        lemma_padded_length(right / 10, rest);
        lemma_precedes_push(
            padded(left / 10, rest),
            padded(right / 10, rest),
            digit_char(left % 10),
            digit_char(right % 10),
        );
        if padded(left, width) == padded(right, width) {
            assert(padded(left, width).drop_last() =~= padded(left / 10, rest));
            assert(padded(right, width).drop_last() =~= padded(right / 10, rest));
            assert(padded(left, width).last() == padded(right, width).last());
        }
    }
}

/// A sequence number always fits in the digits of a key.
pub proof fn lemma_sequence_fits(sequence: u64)
    ensures
        sequence < power_of_ten(20),
{
    reveal_with_fuel(power_of_ten, 21);
}

fn digit_text(digit: u64) -> (text: &'static str)
    requires
        digit < 10,
    ensures
        text@ == seq![digit_char(digit as nat)],
{
    proof {
        reveal_strlit("0");
        reveal_strlit("1");
        reveal_strlit("2");
        reveal_strlit("3");
        reveal_strlit("4");
        reveal_strlit("5");
        reveal_strlit("6");
        reveal_strlit("7");
        reveal_strlit("8");
        reveal_strlit("9");
    }
    let text: &'static str = match digit {
        0 => "0",
        1 => "1",
        2 => "2",
        3 => "3",
        4 => "4",
        5 => "5",
        6 => "6",
        7 => "7",
        8 => "8",
        _ => "9",
    };
    assert(text@ =~= seq![digit_char(digit as nat)]);
    text
}

/// What is written for digits that are kept from the last to the first.
spec fn written_digits(digits: Seq<u64>) -> Seq<char> {
    digits.reverse().map_values(|digit: u64| digit_char(digit as nat))
}

proof fn lemma_written_digits(digits: Seq<u64>, digit: u64)
    ensures
        written_digits(digits.push(digit)) == seq![digit_char(digit as nat)] + written_digits(
            digits,
        ),
{
    assert(written_digits(digits.push(digit)) =~= seq![digit_char(digit as nat)] + written_digits(
        digits,
    ));
}

/// Writes the last `width` decimal digits of `number`, with leading zeros.
pub fn padded_text(number: u64, width: usize) -> (text: String)
    ensures
        text@ == padded(number as nat, width as nat),
{
    let ghost whole = padded(number as nat, width as nat);
    let mut digits: Vec<u64> = Vec::new();
    let mut rest: u64 = number;
    assert(whole =~= whole + written_digits(digits@));
    while digits.len() < width
        invariant
            digits.len() <= width,
            forall|place: int| 0 <= place < digits.len() ==> digits[place] < 10,
            whole == padded(rest as nat, (width - digits.len()) as nat) + written_digits(digits@),
        decreases width - digits.len(),
    {
        let ghost head = padded((rest / 10) as nat, (width - digits.len() - 1) as nat);
        let ghost tail = written_digits(digits@);
        let digit: u64 = rest % 10;
        proof {
            lemma_written_digits(digits@, digit);
            assert(head.push(digit_char(digit as nat)) + tail =~= head + (seq![
                digit_char(digit as nat),
            ] + tail));
        }
        digits.push(digit);
        rest = rest / 10;
    }
    let mut text = String::new();
    assert(whole =~= text@ + written_digits(digits@));
    while digits.len() > 0
        invariant
            forall|place: int| 0 <= place < digits.len() ==> digits[place] < 10,
            whole == text@ + written_digits(digits@),
        decreases digits.len(),
    {
        let ghost before = text@;
        let ghost all = digits@;
        let ghost kept = all.drop_last();
        let digit: u64 = digits[digits.len() - 1];
        digits.truncate(digits.len() - 1);
        text.append(digit_text(digit));
        proof {
            assert(digits@ =~= kept);
            assert(all =~= kept.push(digit));
            lemma_written_digits(kept, digit);
            assert(before + (seq![digit_char(digit as nat)] + written_digits(kept)) =~= text@
                + written_digits(digits@));
        }
    }
    assert(text@ =~= whole);
    text
}

/// The number that decimal digits write down.
pub open spec fn digits_value(digits: Seq<char>) -> int
    decreases digits.len(),
{
    if digits.len() == 0 {
        0
    } else {
        10 * digits_value(digits.drop_last()) + (digits.last() as int - 48)
    }
}

/// A number that fits is written in decimal digits alone, as many as asked for, and
/// they write down that number.
pub proof fn lemma_padded_reads_back(number: nat, width: nat)
    requires
        number < power_of_ten(width),
    ensures
        padded(number, width).len() == width,
        forall|i: int|
            0 <= i < width ==> 48 <= (#[trigger] padded(number, width)[i]) as int <= 57,
        digits_value(padded(number, width)) == number,
    decreases width,
{
    if width > 0 {
        let rest = (width - 1) as nat;
        lemma_padded_reads_back(number / 10, rest);
        assert(padded(number, width).drop_last() =~= padded(number / 10, rest));
    }
}

/// A push as the ledger keeps it.
#[derive(Debug, PartialEq, Eq)]
pub struct StoredEvent {
    pub sequence: EventSequence,
    pub notification: ReceiveHookNotification,
}

impl View for StoredEvent {
    type V = EventModel;

    open spec fn view(&self) -> EventModel {
        EventModel {
            sequence: self.sequence@,
            notification: self.notification@,
        }
    }
}

impl Duplicate for StoredEvent {
    fn duplicate(&self) -> (copy: Self) {
        Self {
            sequence: self.sequence,
            notification: self.notification.duplicate(),
        }
    }
}

impl StoredEvent {
    /// The event as the contract speaks of it.
    pub fn into_contract(self) -> (event: Event)
        ensures
            event@ == self@,
    {
        Event { sequence: self.sequence, notification: self.notification }
    }
}

/// The key of an event: its sequence number, in twenty digits.
pub open spec fn event_key(sequence: u64) -> Seq<char> {
    padded(sequence as nat, 20)
}

impl EngineRecord for StoredEvent {
    open spec fn key_of(record: EventModel) -> Seq<char> {
        event_key(record.sequence)
    }

    fn record_key(&self) -> (key: RecordKey) {
        RecordKey::from_string(padded_text(self.sequence.into_u64(), 20))
    }
}

/// The keys of events are ordered as their sequence numbers, and differ where
/// the numbers do.
pub proof fn lemma_event_key_order(left: u64, right: u64)
    ensures
        text::text_precedes(event_key(left), event_key(right)) == (left < right),
        event_key(left) == event_key(right) ==> left == right,
{
    lemma_sequence_fits(left);
    lemma_sequence_fits(right);
    lemma_padded_order(left as nat, right as nat, 20);
}

/// The key of an event is its sequence number in twenty decimal digits.
pub proof fn lemma_event_key(event: EventModel)
    ensures
        StoredEvent::key_of(event).len() == 20,
        forall|i: int|
            0 <= i < 20 ==> 48 <= (#[trigger] StoredEvent::key_of(event)[i]) as int <= 57,
        digits_value(StoredEvent::key_of(event)) == event.sequence,
{
    lemma_sequence_fits(event.sequence);
    lemma_padded_reads_back(event.sequence as nat, 20);
}

/// A commit as the ledger keeps it, with the push that brought it.
#[derive(Debug, PartialEq, Eq)]
pub struct StoredCommit {
    pub repository_name: Name,
    pub received_at: Timestamp,
    pub sequence: EventSequence,
    pub commit: CommitObservation,
}

/// The model of a [`StoredCommit`].
#[verifier::ext_equal]
pub struct StoredCommitModel {
    pub repository_name: Seq<char>,
    pub received_at: Seq<char>,
    pub sequence: u64,
    pub commit: CommitObservationModel,
}

impl View for StoredCommit {
    type V = StoredCommitModel;

    open spec fn view(&self) -> StoredCommitModel {
        StoredCommitModel {
            repository_name: self.repository_name@,
            received_at: self.received_at@,
            sequence: self.sequence@,
            commit: self.commit@,
        }
    }
}

impl Duplicate for StoredCommit {
    fn duplicate(&self) -> (copy: Self) {
        Self {
            repository_name: self.repository_name.duplicate(),
            received_at: self.received_at.duplicate(),
            sequence: self.sequence,
            commit: self.commit.duplicate(),
        }
    }
}

/// A stored commit without its file changes.
pub open spec fn commit_summary(commit: StoredCommitModel) -> CommitModel {
    CommitModel {
        repository_name: commit.repository_name,
        received_at: commit.received_at,
        sequence: commit.sequence,
        object_identifier: commit.commit.object_identifier,
        ref_name: commit.commit.ref_name,
        commit_timestamp: commit.commit.commit_timestamp,
        message: commit.commit.message,
    }
}

impl StoredCommit {
    /// The commit as the contract speaks of it.
    pub fn into_contract(self) -> (commit: Commit)
        ensures
            commit@ == commit_summary(self@),
    {
        Commit {
            repository_name: self.repository_name,
            received_at: self.received_at,
            sequence: self.sequence,
            object_identifier: self.commit.object_identifier,
            ref_name: self.commit.ref_name,
            commit_timestamp: self.commit.commit_timestamp,
            message: self.commit.message,
        }
    }
}

impl EngineRecord for StoredCommit {
    /// The sequence number of the push in twenty digits, the commit and the
    /// ref, with a hyphen between them.
    open spec fn key_of(record: StoredCommitModel) -> Seq<char> {
        padded(record.sequence as nat, 20) + seq!['-'] + record.commit.object_identifier + seq!['-']
            + record.commit.ref_name
    }

    fn record_key(&self) -> (key: RecordKey) {
        let mut key = padded_text(self.sequence.into_u64(), 20);
        key.append("-");
        key.append(self.commit.object_identifier.as_str());
        key.append("-");
        key.append(self.commit.ref_name.as_str());
        proof {
            reveal_strlit("-");
            assert("-"@ =~= seq!['-']);
        }
        RecordKey::from_string(key)
    }
}

/// The key of a commit holds the number of its push in twenty decimal digits, its
/// identifier and its ref, in this order and with a hyphen before each of the last
/// two, and nothing else.
pub proof fn lemma_commit_key(commit: StoredCommitModel)
    ensures
        ({
            let key = StoredCommit::key_of(commit);
            let identifier = commit.commit.object_identifier;
            let ref_name = commit.commit.ref_name;
            let middle = 21 + identifier.len() as int;
            &&& key.len() == 22 + identifier.len() + ref_name.len()
            &&& digits_value(key.take(20)) == commit.sequence
            &&& forall|i: int| 0 <= i < 20 ==> 48 <= (#[trigger] key.take(20)[i]) as int <= 57
            &&& key[20] == '-'
            &&& key.subrange(21, middle) == identifier
            &&& key[middle] == '-'
            &&& key.skip(middle + 1) == ref_name
        }),
{
    let key = StoredCommit::key_of(commit);
    let middle = 21 + commit.commit.object_identifier.len() as int;
    lemma_sequence_fits(commit.sequence);
    lemma_padded_reads_back(commit.sequence as nat, 20);
    assert(key.take(20) =~= padded(commit.sequence as nat, 20));
    assert(key.subrange(21, middle) =~= commit.commit.object_identifier);
    assert(key.skip(middle + 1) =~= commit.commit.ref_name);
}

/// Registrations and mirror policies are kept under the name of their repository,
/// and every spool policy under one and the same key.
pub proof fn lemma_policy_keys(
    registration: RegistrationModel,
    mirror: MirrorPolicyModel,
    spool: SpoolDirectoryPolicyModel,
)
    ensures
        StoredRegistration::key_of(registration) == registration.repository_name,
        StoredMirrorPolicy::key_of(mirror) == mirror.repository_name,
        StoredSpoolDirectoryPolicy::key_of(spool) == "active"@,
{
}

/// A registration as the ledger keeps it.
#[derive(Debug, PartialEq, Eq)]
pub struct StoredRegistration {
    pub registration: Registration,
}

impl View for StoredRegistration {
    type V = RegistrationModel;

    open spec fn view(&self) -> RegistrationModel {
        self.registration@
    }
}

impl Duplicate for StoredRegistration {
    fn duplicate(&self) -> (copy: Self) {
        Self { registration: self.registration.duplicate() }
    }
}

impl EngineRecord for StoredRegistration {
    /// The name of the repository.
    open spec fn key_of(record: RegistrationModel) -> Seq<char> {
        record.repository_name
    }

    fn record_key(&self) -> (key: RecordKey) {
        RecordKey::new(self.registration.repository_name.as_str())
    }
}

/// The one key under which the spool policy is kept.
pub open spec fn active_key() -> Seq<char> {
    "active"@
}

/// The spool policy as the ledger keeps it.
#[derive(Debug, PartialEq, Eq)]
pub struct StoredSpoolDirectoryPolicy {
    pub policy: SpoolDirectoryPolicy,
}

impl View for StoredSpoolDirectoryPolicy {
    type V = SpoolDirectoryPolicyModel;

    open spec fn view(&self) -> SpoolDirectoryPolicyModel {
        self.policy@
    }
}

impl Duplicate for StoredSpoolDirectoryPolicy {
    fn duplicate(&self) -> (copy: Self) {
        Self { policy: self.policy.duplicate() }
    }
}

impl EngineRecord for StoredSpoolDirectoryPolicy {
    /// The same key for every policy: the table holds at most one.
    open spec fn key_of(record: SpoolDirectoryPolicyModel) -> Seq<char> {
        active_key()
    }

    fn record_key(&self) -> (key: RecordKey) {
        RecordKey::new("active")
    }
}

/// A mirror policy as the ledger keeps it.
#[derive(Debug, PartialEq, Eq)]
pub struct StoredMirrorPolicy {
    pub policy: MirrorPolicy,
}

impl View for StoredMirrorPolicy {
    type V = MirrorPolicyModel;

    open spec fn view(&self) -> MirrorPolicyModel {
        self.policy@
    }
}

impl Duplicate for StoredMirrorPolicy {
    fn duplicate(&self) -> (copy: Self) {
        Self { policy: self.policy.duplicate() }
    }
}

impl EngineRecord for StoredMirrorPolicy {
    /// The name of the repository.
    open spec fn key_of(record: MirrorPolicyModel) -> Seq<char> {
        record.repository_name
    }

    fn record_key(&self) -> (key: RecordKey) {
        RecordKey::new(self.policy.repository_name.as_str())
    }
}

impl StoredEvent {
    /// The model says what the value says, field by field.
    pub proof fn lemma_modelled(&self)
        ensures
            self@.sequence == self.sequence@,
            self@.notification == self.notification@,
    {
    }
}

impl StoredCommit {
    /// The model says what the value says, field by field.
    pub proof fn lemma_modelled(&self)
        ensures
            self@.repository_name == self.repository_name@,
            self@.received_at == self.received_at@,
            self@.sequence == self.sequence@,
            self@.commit == self.commit@,
    {
    }
}

impl StoredRegistration {
    /// The model says what the value says, field by field.
    pub proof fn lemma_modelled(&self)
        ensures
            self@ == self.registration@,
    {
    }
}

impl StoredSpoolDirectoryPolicy {
    /// The model says what the value says, field by field.
    pub proof fn lemma_modelled(&self)
        ensures
            self@ == self.policy@,
    {
    }
}

impl StoredMirrorPolicy {
    /// The model says what the value says, field by field.
    pub proof fn lemma_modelled(&self)
        ensures
            self@ == self.policy@,
    {
    }
}

/// A number is written in as many digits as asked for, and a number that fits is
/// written in digits that write down that number.
pub proof fn lemma_number_written(number: u64, width: usize, text: String)
    requires
        call_ensures(padded_text, (number, width), text),
    ensures
        text@.len() == width,
        number < power_of_ten(width as nat) ==> digits_value(text@) == number && forall|i: int|
            0 <= i < text@.len() ==> 48 <= (#[trigger] text@[i]) as int <= 57,
{
    lemma_padded_length(number as nat, width as nat);
    if number < power_of_ten(width as nat) {
        lemma_padded_reads_back(number as nat, width as nat);
    }
}

/// A stored record is given out with what was stored.
pub proof fn lemma_given_out_whole(
    stored_event: StoredEvent,
    event: Event,
    stored_commit: StoredCommit,
    commit: Commit,
)
    requires
        call_ensures(StoredEvent::into_contract, (stored_event,), event),
        call_ensures(StoredCommit::into_contract, (stored_commit,), commit),
    ensures
        event.sequence@ == stored_event.sequence@,
        event.notification@ == stored_event.notification@,
        commit.repository_name@ == stored_commit.repository_name@,
        commit.received_at@ == stored_commit.received_at@,
        commit.sequence@ == stored_commit.sequence@,
        commit.object_identifier@ == stored_commit.commit.object_identifier@,
        commit.ref_name@ == stored_commit.commit.ref_name@,
        commit.commit_timestamp@ == stored_commit.commit.commit_timestamp@,
        commit.message@ == stored_commit.commit.message@,
{
    assert(event@ == stored_event@);
    assert(commit@ == commit_summary(stored_commit@));
}

} // verus!
