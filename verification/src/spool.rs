//! The spool: files that a receive hook left behind because it could not submit
//! its notification, and how they are taken in.
use vstd::prelude::*;

use crate::contract::{
    GitoliteUser, Name, ObjectIdentifier, ReceiveHookNotification, ReceiveHookNotificationModel,
    RefName, RefUpdate, RefUpdateModel, Timestamp,
};
use crate::error::{Error, Result};
use crate::ledger;
use crate::ledger::LedgerState;
use crate::model;
use crate::model::Duplicate;
use crate::notation;
use crate::notation::{
    decode_named_string, decode_named_truth, expect_fields, expect_record_body, read_text, Block,
    NotaDecodeError, NotaFault,
};
use crate::order;
use crate::order::{sort_ranked, Ranked};
use crate::path;
use crate::path::UnixPath;
use crate::store::Store;

verus! {

/// What a block of a ref update says: the old and the new object, and the ref.
pub open spec fn ref_update_of(block: Block) -> core::result::Result<RefUpdateModel, NotaFault> {
    match notation::counted_fields(block, "RefUpdate"@, 3) {
        Err(fault) => Err(fault),
        Ok(fields) => match notation::text_of(fields[0]) {
            Err(fault) => Err(fault),
            Ok(old_object_identifier) => match notation::text_of(fields[1]) {
                Err(fault) => Err(fault),
                Ok(new_object_identifier) => match notation::text_of(fields[2]) {
                    Err(fault) => Err(fault),
                    Ok(ref_name) => Ok(
                        RefUpdateModel { old_object_identifier, new_object_identifier, ref_name },
                    ),
                },
            },
        },
    }
}

/// What blocks of ref updates say, in order; the first fault counts.
pub open spec fn ref_updates_of(blocks: Seq<Block>) -> core::result::Result<
    Seq<RefUpdateModel>,
    NotaFault,
>
    decreases blocks.len(),
{
    if blocks.len() == 0 {
        Ok(Seq::empty())
    } else {
        match ref_updates_of(blocks.drop_last()) {
            Err(fault) => Err(fault),
            Ok(updates) => match ref_update_of(blocks.last()) {
                Err(fault) => Err(fault),
                Ok(update) => Ok(updates.push(update)),
            },
        }
    }
}

/// What a spool file says: the notification that its root block writes down. The
/// fields are read in order, and the first fault counts.
pub open spec fn notification_of(root: Block) -> core::result::Result<
    ReceiveHookNotificationModel,
    NotaFault,
> {
    match notation::counted_fields(root, "ReceiveHookNotification"@, 5) {
        Err(fault) => Err(fault),
        Ok(fields) => match notation::named_text_of(fields[0], "Name"@) {
            Err(fault) => Err(fault),
            Ok(repository_name) => match notation::named_text_of(fields[1], "GitoliteUser"@) {
                Err(fault) => Err(fault),
                Ok(gitolite_user) => match notation::named_text_of(fields[2], "ReceivedAt"@) {
                    Err(fault) => Err(fault),
                    Ok(received_at) => match notation::named_truth_of(
                        fields[3],
                        "DaemonSocketPresent"@,
                    ) {
                        Err(fault) => Err(fault),
                        Ok(daemon_socket_present) => match notation::fields_of(
                            fields[4],
                            "RefUpdates"@,
                        ) {
                            Err(fault) => Err(fault),
                            Ok(blocks) => match ref_updates_of(blocks) {
                                Err(fault) => Err(fault),
                                Ok(ref_updates) => Ok(
                                    ReceiveHookNotificationModel {
                                        repository_name,
                                        gitolite_user,
                                        received_at,
                                        daemon_socket_present,
                                        ref_updates,
                                    },
                                ),
                            },
                        },
                    },
                },
            },
        },
    }
}

proof fn lemma_ref_updates_stuck(blocks: Seq<Block>, count: int)
    requires
        0 <= count <= blocks.len(),
        ref_updates_of(blocks.take(count)) is Err,
    ensures
        ref_updates_of(blocks) == ref_updates_of(blocks.take(count)),
    decreases blocks.len(),
{
    if count == blocks.len() {
        assert(blocks.take(count) =~= blocks);
    } else {
        assert(blocks.drop_last().take(count) =~= blocks.take(count));
        lemma_ref_updates_stuck(blocks.drop_last(), count);
    }
}

/// A spool file whose text was read and parsed.
#[derive(Debug, PartialEq, Eq)]
pub struct SpoolNotificationFile {
    root: Block,
}

impl SpoolNotificationFile {
    /// The root block of the file.
    pub closed spec fn root(&self) -> Block {
        self.root
    }

    /// The file whose text has the given root block.
    pub fn from_root(root: Block) -> (file: Self)
        ensures
            file.root() == root,
    {
        SpoolNotificationFile { root }
    }

    /// Reads the notification that the file writes down.
    pub fn decode(&self) -> (result: core::result::Result<ReceiveHookNotification, NotaDecodeError>)
        ensures
            notation::says(result, notification_of(self.root())),
            result matches Ok(notification) ==> writes_notification(self.root(), notification@),
            result is Err ==> writes_none(self.root()),
    {
        let result = Self::decode_root(&self.root);
        proof {
            assert forall|notification: ReceiveHookNotificationModel| #[trigger]
                writes_notification(self.root(), notification) == (notification_of(self.root())
                    == Ok::<ReceiveHookNotificationModel, NotaFault>(notification)) by {
                lemma_notification_read_back(self.root(), notification);
            }
        }
        result
    }

    fn decode_root(root: &Block) -> (result: core::result::Result<
        ReceiveHookNotification,
        NotaDecodeError,
    >)
        ensures
            notation::says(result, notification_of(*root)),
    {
        let fields = expect_fields(root, "ReceiveHookNotification", 5)?;
        let repository_name = Name::from_string(decode_named_string(&fields[0], "Name")?);
        let gitolite_user = GitoliteUser::from_string(
            decode_named_string(&fields[1], "GitoliteUser")?,
        );
        let received_at = Self::decode_received_at(&fields[2])?;
        let daemon_socket_present = Self::decode_daemon_socket_present(&fields[3])?;
        let ref_updates = Self::decode_ref_updates(&fields[4])?;
        Ok(
            ReceiveHookNotification {
                repository_name,
                gitolite_user,
                received_at,
                daemon_socket_present,
                ref_updates,
            },
        )
    }

    fn decode_received_at(block: &Block) -> (result: core::result::Result<
        Timestamp,
        NotaDecodeError,
    >)
        ensures
            notation::says(result, notation::named_text_of(*block, "ReceivedAt"@)),
    {
        let value = decode_named_string(block, "ReceivedAt")?;
        Ok(Timestamp::from_string(value))
    }

    fn decode_daemon_socket_present(block: &Block) -> (result: core::result::Result<
        bool,
        NotaDecodeError,
    >)
        ensures
            notation::says(result, notation::named_truth_of(*block, "DaemonSocketPresent"@)),
    {
        decode_named_truth(block, "DaemonSocketPresent")
    }

    fn decode_ref_update(block: &Block) -> (result: core::result::Result<RefUpdate, NotaDecodeError>)
        ensures
            notation::says(result, ref_update_of(*block)),
    {
        let fields = expect_fields(block, "RefUpdate", 3)?;
        let old_object_identifier = read_text(&fields[0])?;
        let new_object_identifier = read_text(&fields[1])?;
        let ref_name = read_text(&fields[2])?;
        Ok(
            RefUpdate {
                old_object_identifier: ObjectIdentifier::from_string(old_object_identifier),
                new_object_identifier: ObjectIdentifier::from_string(new_object_identifier),
                ref_name: RefName::from_string(ref_name),
            },
        )
    }

    fn decode_ref_updates(block: &Block) -> (result: core::result::Result<
        Vec<RefUpdate>,
        NotaDecodeError,
    >)
        ensures
            match notation::fields_of(*block, "RefUpdates"@) {
                Err(fault) => result matches Err(error) && error@ == fault,
                Ok(blocks) => match ref_updates_of(blocks) {
                    Err(fault) => result matches Err(error) && error@ == fault,
                    Ok(updates) => result matches Ok(decoded) && model::models(decoded@) == updates,
                },
            },
    {
        let blocks = expect_record_body(block, "RefUpdates")?;
        let mut updates: Vec<RefUpdate> = Vec::new();
        let mut i: usize = 0;
        assert(blocks@.take(0) =~= Seq::empty());
        assert(model::models(updates@) =~= Seq::empty());
        while i < blocks.len()
            invariant
                i <= blocks@.len(),
                notation::fields_of(*block, "RefUpdates"@) == Ok::<Seq<Block>, NotaFault>(blocks@),
                ref_updates_of(blocks@.take(i as int)) == Ok::<Seq<RefUpdateModel>, NotaFault>(
                    model::models(updates@),
                ),
            decreases blocks.len() - i,
        {
            let ghost before = model::models(updates@);
            assert(blocks@.take(i + 1).drop_last() =~= blocks@.take(i as int));
            assert(blocks@.take(i + 1).last() == blocks@[i as int]);
            match Self::decode_ref_update(&blocks[i]) {
                Ok(update) => {
                    let ghost added = update@;
                    updates.push(update);
                    assert(model::models(updates@) =~= before.push(added));
                },
                Err(error) => {
                    proof {
                        lemma_ref_updates_stuck(blocks@, i + 1);
                    }
                    return Err(error);
                },
            }
            i += 1;
        }
        assert(blocks@.take(blocks@.len() as int) =~= blocks@);
        Ok(updates)
    }
}

/// How much a run over the spool took in.
#[derive(Debug, Clone, Copy, PartialEq, Eq, Structural)]
pub struct SpoolIngestSummary {
    pub files_seen: usize,
    pub files_recorded: usize,
}

impl SpoolIngestSummary {
    pub fn empty() -> (summary: Self)
        ensures
            summary == (SpoolIngestSummary { files_seen: 0, files_recorded: 0 }),
    {
        SpoolIngestSummary { files_seen: 0, files_recorded: 0 }
    }

    /// Counts a file that was recorded.
    pub fn record_file(&mut self)
        requires
            old(self).files_seen < usize::MAX,
            old(self).files_recorded < usize::MAX,
        ensures
            final(self).files_seen == old(self).files_seen + 1,
            final(self).files_recorded == old(self).files_recorded + 1,
    {
        self.files_seen += 1;
        self.files_recorded += 1;
    }
}

/// One entry of the spool directory.
#[derive(Debug, PartialEq, Eq)]
pub struct SpoolEntry {
    pub name: UnixPath,
    pub is_file: bool,
}

/// The model of a [`SpoolEntry`].
#[verifier::ext_equal]
pub struct SpoolEntryModel {
    pub name: Seq<u8>,
    pub is_file: bool,
}

impl View for SpoolEntry {
    type V = SpoolEntryModel;

    open spec fn view(&self) -> SpoolEntryModel {
        SpoolEntryModel { name: self.name@, is_file: self.is_file }
    }
}

/// The extension of a spool file with its dot, as bytes.
pub open spec fn nota_suffix() -> Seq<u8> {
    seq![46u8, 110u8, 111u8, 116u8, 97u8]
}

/// Whether a name has the extension of a spool file: it ends in `.nota`, behind
/// at least one byte.
pub open spec fn is_nota_name(name: Seq<u8>) -> bool {
    name.len() > 5 && name.skip(name.len() - 5) == nota_suffix()
}

/// Decides [`is_nota_name`].
pub fn has_nota_extension(name: &UnixPath) -> (found: bool)
    ensures
        found == is_nota_name(name@),
{
    let bytes = name.as_bytes();
    let length: usize = bytes.len();
    if length <= 5 {
        return false;
    }
    let start: usize = length - 5;
    let found = bytes[start] == 46 && bytes[start + 1] == 110 && bytes[start + 2] == 111
        && bytes[start + 3] == 116 && bytes[start + 4] == 97;
    proof {
        let tail = name@.skip(start as int);
        assert(tail[0] == bytes@[start as int]);
        assert(tail[1] == bytes@[start + 1]);
        assert(tail[2] == bytes@[start + 2]);
        assert(tail[3] == bytes@[start + 3]);
        assert(tail[4] == bytes@[start + 4]);
        if found {
            assert(tail =~= nota_suffix());
        }
    }
    found
}

/// The files of a spool directory that hold notifications, in the order of their
/// names.
pub open spec fn candidates_of(entries: Seq<SpoolEntryModel>) -> Seq<Seq<u8>> {
    order::ranked::<UnixPath>(
        entries.filter(
            |entry: SpoolEntryModel| entry.is_file && is_nota_name(entry.name),
        ).map_values(|entry: SpoolEntryModel| entry.name),
    )
}

/// Chooses the files of a spool directory that hold notifications, and puts them
/// in the order of their names.
pub fn choose_candidates(entries: Vec<SpoolEntry>) -> (names: Vec<UnixPath>)
    ensures
        model::models(names@) == candidates_of(model::models(entries@)),
{
    let ghost all = model::models(entries@);
    let ghost wanted = |entry: SpoolEntryModel| entry.is_file && is_nota_name(entry.name);
    let ghost named = |entry: SpoolEntryModel| entry.name;
    let mut names: Vec<UnixPath> = Vec::new();
    assert(all.take(0).filter(wanted) =~= Seq::empty());
    assert(model::models(names@) =~= all.take(0).filter(wanted).map_values(named));
    for entry in it: entries
        invariant
            all == model::models(it.seq()),
            wanted == (|entry: SpoolEntryModel| entry.is_file && is_nota_name(entry.name)),
            named == (|entry: SpoolEntryModel| entry.name),
            model::models(names@) == all.take(it.index()).filter(wanted).map_values(named),
    {
        broadcast use Seq::lemma_filter_push;
        let ghost count = it.index();
        let ghost before = model::models(names@);
        let ghost offered = entry@;
        proof {
            assert(entry == it.seq()[count]);
            assert(all[count] == offered);
            assert(all.take(count + 1) =~= all.take(count).push(offered));
        }
        if entry.is_file && has_nota_extension(&entry.name) {
            names.push(entry.name);
            assert(model::models(names@) =~= before.push(offered.name));
            assert(all.take(count).filter(wanted).push(offered).map_values(named) =~= all.take(
                count,
            ).filter(wanted).map_values(named).push(offered.name));
        }
    }
    assert(all.take(all.len() as int) =~= all);
    sort_ranked(names)
}

/// Whether a block is a record of the given name with `count` fields: a pair of
/// parentheses around the name and, behind it, the fields.
pub open spec fn is_record(block: Block, head: Seq<char>, count: nat) -> bool {
    &&& block.children matches Some(children)
    &&& children@.len() == count + 1
    &&& children@[0].atom matches Some(name)
    &&& name@ == head
}

/// Whether a block says a text.
pub open spec fn says_text(block: Block, text: Seq<char>) -> bool {
    block.text matches Ok(said) && said@ == text
}

/// Whether a block is a record of the given name around one text.
pub open spec fn writes_text(block: Block, head: Seq<char>, text: Seq<char>) -> bool {
    is_record(block, head, 1) && says_text(block.children->0@[1], text)
}

/// Whether a block writes down a ref update: the old object, the new object and the
/// ref, in this order.
pub open spec fn writes_ref_update(block: Block, update: RefUpdateModel) -> bool {
    &&& is_record(block, "RefUpdate"@, 3)
    &&& says_text(block.children->0@[1], update.old_object_identifier)
    &&& says_text(block.children->0@[2], update.new_object_identifier)
    &&& says_text(block.children->0@[3], update.ref_name)
}

/// Whether a block writes down ref updates, one after the other.
pub open spec fn writes_ref_updates(block: Block, updates: Seq<RefUpdateModel>) -> bool {
    &&& is_record(block, "RefUpdates"@, updates.len())
    &&& forall|i: int|
        0 <= i < updates.len() ==> writes_ref_update(
            block.children->0@[i + 1],
            #[trigger] updates[i],
        )
}

/// Whether a block writes down a notification: the repository, the user, the time,
/// whether the socket was there, and the ref updates, in this order.
pub open spec fn writes_notification(
    block: Block,
    notification: ReceiveHookNotificationModel,
) -> bool {
    let fields = block.children->0@;
    &&& is_record(block, "ReceiveHookNotification"@, 5)
    &&& writes_text(fields[1], "Name"@, notification.repository_name)
    &&& writes_text(fields[2], "GitoliteUser"@, notification.gitolite_user)
    &&& writes_text(fields[3], "ReceivedAt"@, notification.received_at)
    &&& is_record(fields[4], "DaemonSocketPresent"@, 1)
    &&& fields[4].children->0@[1].truth == Ok::<bool, NotaDecodeError>(
        notification.daemon_socket_present,
    )
    &&& writes_ref_updates(fields[5], notification.ref_updates)
}

/// Whether a block writes no notification down.
pub open spec fn writes_none(block: Block) -> bool {
    forall|notification: ReceiveHookNotificationModel|
        !#[trigger] writes_notification(block, notification)
}

/// A record of three texts is read as the ref update that it writes down, and no
/// other block is read as one.
pub proof fn lemma_ref_update_read_back(block: Block, update: RefUpdateModel)
    ensures
        ref_update_of(block) == Ok::<RefUpdateModel, NotaFault>(update) <==> writes_ref_update(
            block,
            update,
        ),
{
    if block.children is Some {
        let children = block.children->0@;
        if children.len() == 4 {
            assert(children.skip(1)[0] == children[1]);
            assert(children.skip(1)[1] == children[2]);
            assert(children.skip(1)[2] == children[3]);
        }
    }
}

proof fn lemma_ref_updates_read(blocks: Seq<Block>, updates: Seq<RefUpdateModel>)
    ensures
        ref_updates_of(blocks) == Ok::<Seq<RefUpdateModel>, NotaFault>(updates) <==> (blocks.len()
            == updates.len() && forall|i: int|
            0 <= i < updates.len() ==> writes_ref_update(blocks[i], #[trigger] updates[i])),
    decreases blocks.len(),
{
    if blocks.len() > 0 {
        let last = blocks.len() - 1;
        if updates.len() > 0 {
            lemma_ref_updates_read(blocks.drop_last(), updates.drop_last());
            lemma_ref_update_read_back(blocks.last(), updates.last());
            assert(updates.drop_last().push(updates.last()) =~= updates);
            if blocks.len() == updates.len() && forall|i: int|
                0 <= i < updates.len() ==> writes_ref_update(blocks[i], #[trigger] updates[i]) {
                assert(writes_ref_update(blocks[last], updates[last]));
                assert forall|i: int| 0 <= i < last implies writes_ref_update(
                    blocks.drop_last()[i],
                    #[trigger] updates.drop_last()[i],
                ) by {
                    assert(updates.drop_last()[i] == updates[i]);
                }
            }
            if ref_updates_of(blocks) == Ok::<Seq<RefUpdateModel>, NotaFault>(updates) {
                let earlier = ref_updates_of(blocks.drop_last())->Ok_0;
                let added = ref_update_of(blocks.last())->Ok_0;
                assert(updates == earlier.push(added));
                assert(updates.drop_last() =~= earlier);
                assert(updates.last() == added);
                assert forall|i: int| 0 <= i < updates.len() implies writes_ref_update(
                    blocks[i],
                    #[trigger] updates[i],
                ) by {
                    if i < last {
                        assert(updates.drop_last()[i] == updates[i]);
                        assert(blocks.drop_last()[i] == blocks[i]);
                    }
                }
            }
        }
    } else if updates.len() == 0 {
        assert(updates =~= Seq::empty());
    }
}

/// A spool file is read back as the notification that it writes down, every field
/// and every ref update in its place, and a file that writes none down is read as
/// none.
pub proof fn lemma_notification_read_back(
    block: Block,
    notification: ReceiveHookNotificationModel,
)
    ensures
        notification_of(block) == Ok::<ReceiveHookNotificationModel, NotaFault>(notification)
            <==> writes_notification(block, notification),
{
    if block.children is Some {
        let children = block.children->0@;
        if children.len() == 6 {
            let fields = children.skip(1);
            assert(fields[0] == children[1]);
            assert(fields[1] == children[2]);
            assert(fields[2] == children[3]);
            assert(fields[3] == children[4]);
            assert(fields[4] == children[5]);
            lemma_named_text(fields[0], "Name"@, notification.repository_name);
            lemma_named_text(fields[1], "GitoliteUser"@, notification.gitolite_user);
            lemma_named_text(fields[2], "ReceivedAt"@, notification.received_at);
            lemma_named_truth(
                fields[3],
                "DaemonSocketPresent"@,
                notification.daemon_socket_present,
            );
            lemma_ref_updates_block(fields[4], notification.ref_updates);
        }
    }
}

proof fn lemma_named_text(block: Block, head: Seq<char>, text: Seq<char>)
    ensures
        notation::named_text_of(block, head) == Ok::<Seq<char>, NotaFault>(text) <==> writes_text(
            block,
            head,
            text,
        ),
{
    if block.children is Some && block.children->0@.len() == 2 {
        assert(block.children->0@.skip(1)[0] == block.children->0@[1]);
    }
}

proof fn lemma_named_truth(block: Block, head: Seq<char>, truth: bool)
    ensures
        notation::named_truth_of(block, head) == Ok::<bool, NotaFault>(truth) <==> (is_record(
            block,
            head,
            1,
        ) && block.children->0@[1].truth == Ok::<bool, NotaDecodeError>(truth)),
{
    if block.children is Some && block.children->0@.len() == 2 {
        assert(block.children->0@.skip(1)[0] == block.children->0@[1]);
    }
}

proof fn lemma_ref_updates_block(block: Block, updates: Seq<RefUpdateModel>)
    ensures
        (match notation::fields_of(block, "RefUpdates"@) {
            Err(_) => false,
            Ok(blocks) => ref_updates_of(blocks) == Ok::<Seq<RefUpdateModel>, NotaFault>(updates),
        }) <==> writes_ref_updates(block, updates),
{
    if block.children is Some {
        let children = block.children->0@;
        if children.len() > 0 {
            let blocks = children.skip(1);
            lemma_ref_updates_read(blocks, updates);
            assert forall|i: int| 0 <= i < blocks.len() implies blocks[i] == #[trigger] children[i
                + 1] by {}
            if blocks.len() == updates.len() {
                assert forall|i: int| 0 <= i < updates.len() implies writes_ref_update(
                    blocks[i],
                    #[trigger] updates[i],
                ) == writes_ref_update(children[i + 1], updates[i]) by {}
            }
        }
    }
}

/// A file that writes no notification down is refused with the fault of the first
/// part that does not say what it should: the record itself, then its fields from
/// the first to the last, and of the ref updates the first faulty one.
pub proof fn lemma_first_fault(root: Block)
    ensures
        ({
            let record = notation::counted_fields(root, "ReceiveHookNotification"@, 5);
            let fields = record->Ok_0;
            let name = notation::named_text_of(fields[0], "Name"@);
            let user = notation::named_text_of(fields[1], "GitoliteUser"@);
            let time = notation::named_text_of(fields[2], "ReceivedAt"@);
            let present = notation::named_truth_of(fields[3], "DaemonSocketPresent"@);
            let list = notation::fields_of(fields[4], "RefUpdates"@);
            let said = notification_of(root);
            &&& record matches Err(fault) ==> said == Err::<ReceiveHookNotificationModel, NotaFault>(
                fault,
            )
            &&& record is Ok && name is Err ==> said == Err::<
                ReceiveHookNotificationModel,
                NotaFault,
            >(name->Err_0)
            &&& record is Ok && name is Ok && user is Err ==> said == Err::<
                ReceiveHookNotificationModel,
                NotaFault,
            >(user->Err_0)
            &&& record is Ok && name is Ok && user is Ok && time is Err ==> said == Err::<
                ReceiveHookNotificationModel,
                NotaFault,
            >(time->Err_0)
            &&& record is Ok && name is Ok && user is Ok && time is Ok && present is Err ==> said
                == Err::<ReceiveHookNotificationModel, NotaFault>(present->Err_0)
            &&& record is Ok && name is Ok && user is Ok && time is Ok && present is Ok
                && list is Err ==> said == Err::<ReceiveHookNotificationModel, NotaFault>(
                list->Err_0,
            )
        }),
{
}

/// Of several faulty ref updates the first is the one that counts.
pub proof fn lemma_first_faulty_update(blocks: Seq<Block>, at: int)
    requires
        0 <= at < blocks.len(),
        ref_update_of(blocks[at]) is Err,
        forall|i: int| 0 <= i < at ==> ref_update_of(#[trigger] blocks[i]) is Ok,
    ensures
        ref_updates_of(blocks) == Err::<Seq<RefUpdateModel>, NotaFault>(
            ref_update_of(blocks[at])->Err_0,
        ),
{
    let upto = blocks.take(at + 1);
    assert(upto.drop_last() =~= blocks.take(at));
    assert(upto.last() == blocks[at]);
    lemma_updates_read(blocks.take(at));
    lemma_ref_updates_stuck(blocks, at + 1);
}

proof fn lemma_updates_read(blocks: Seq<Block>)
    requires
        forall|i: int| 0 <= i < blocks.len() ==> ref_update_of(#[trigger] blocks[i]) is Ok,
    ensures
        ref_updates_of(blocks) is Ok,
    decreases blocks.len(),
{
    if blocks.len() > 0 {
        let earlier = blocks.drop_last();
        assert forall|i: int| 0 <= i < earlier.len() implies ref_update_of(
            #[trigger] earlier[i],
        ) is Ok by {
            assert(earlier[i] == blocks[i]);
        }
        lemma_updates_read(earlier);
        assert(blocks[blocks.len() - 1] == blocks.last());
    }
}

/// The files that a run takes in, in full: the names of the entries that are files
/// and whose name ends in `.nota` behind at least one byte, each as often as it is
/// listed, in the order of their bytes.
pub proof fn lemma_candidates(entries: Seq<SpoolEntryModel>)
    ensures
        ({
            let names = candidates_of(entries);
            let wanted = entries.filter(
                |entry: SpoolEntryModel|
                    {
                        &&& entry.is_file
                        &&& entry.name.len() > 5
                        &&& entry.name[entry.name.len() - 5] == 46u8
                        &&& entry.name[entry.name.len() - 4] == 110u8
                        &&& entry.name[entry.name.len() - 3] == 111u8
                        &&& entry.name[entry.name.len() - 2] == 116u8
                        &&& entry.name[entry.name.len() - 1] == 97u8
                    },
            );
            &&& names.to_multiset() == wanted.map_values(
                |entry: SpoolEntryModel| entry.name,
            ).to_multiset()
            &&& names.len() == wanted.len()
            &&& forall|i: int, j: int|
                0 <= i < j < names.len() ==> (#[trigger] names[i] == #[trigger] names[j]
                    || path::bytes_precede(names[i], names[j]))
            &&& forall|name: Seq<u8>| #[trigger]
                names.contains(name) <==> exists|i: int|
                    0 <= i < wanted.len() && (#[trigger] wanted[i]).name == name
        }),
{
    let names = candidates_of(entries);
    let written = |entry: SpoolEntryModel|
        {
            &&& entry.is_file
            &&& entry.name.len() > 5
            &&& entry.name[entry.name.len() - 5] == 46u8
            &&& entry.name[entry.name.len() - 4] == 110u8
            &&& entry.name[entry.name.len() - 3] == 111u8
            &&& entry.name[entry.name.len() - 2] == 116u8
            &&& entry.name[entry.name.len() - 1] == 97u8
        };
    let chosen = |entry: SpoolEntryModel| entry.is_file && is_nota_name(entry.name);
    let named = |entry: SpoolEntryModel| entry.name;
    assert forall|entry: SpoolEntryModel| #[trigger] written(entry) == chosen(entry) by {
        if entry.name.len() > 5 {
            let tail = entry.name.skip(entry.name.len() - 5);
            if written(entry) {
                assert(tail =~= nota_suffix());
            }
            if chosen(entry) {
                assert(tail[0] == entry.name[entry.name.len() - 5]);
                assert(tail[1] == entry.name[entry.name.len() - 4]);
                assert(tail[2] == entry.name[entry.name.len() - 3]);
                assert(tail[3] == entry.name[entry.name.len() - 2]);
                assert(tail[4] == entry.name[entry.name.len() - 1]);
            }
        }
    }
    order::lemma_filters_agree(entries, written, chosen);
    let wanted = entries.filter(written);
    let all = wanted.map_values(named);
    order::lemma_ranked::<UnixPath>(all);
    order::lemma_ranked_permutes::<UnixPath>(all);
    assert forall|i: int, j: int| 0 <= i < j < names.len() implies (#[trigger] names[i]
        == #[trigger] names[j] || path::bytes_precede(names[i], names[j])) by {
        assert(!UnixPath::ranks_before(names[j], names[i]));
        path::lemma_bytes_total(names[i], names[j]);
    }
    assert forall|name: Seq<u8>| #[trigger] names.contains(name) <==> exists|i: int|
        0 <= i < wanted.len() && (#[trigger] wanted[i]).name == name by {
        if all.contains(name) {
            let i = choose|i: int| 0 <= i < all.len() && all[i] == name;
            assert(wanted[i].name == name);
        }
        if exists|i: int| 0 <= i < wanted.len() && (#[trigger] wanted[i]).name == name {
            let i = choose|i: int| 0 <= i < wanted.len() && (#[trigger] wanted[i]).name == name;
            assert(all[i] == name);
        }
    }
}

/// The directory that a receive hook leaves its files in.
#[derive(Debug, PartialEq, Eq)]
pub struct SpoolDirectory {
    path: UnixPath,
}

impl View for SpoolDirectory {
    type V = Seq<u8>;

    closed spec fn view(&self) -> Seq<u8> {
        self.path@
    }
}

impl SpoolDirectory {
    pub fn new(path: UnixPath) -> (directory: Self)
        ensures
            directory@ == path@,
    {
        SpoolDirectory { path }
    }

    pub fn path(&self) -> (path: &UnixPath)
        ensures
            path@ == self@,
    {
        &self.path
    }

    /// Begins a run over the spool. There are no entries where the directory does
    /// not exist.
    pub fn ingestion(&self, entries: Option<Vec<SpoolEntry>>) -> (run: SpoolIngestion)
        ensures
            run.well_formed(),
            run@ == (SpoolIngestionModel {
                names: match entries {
                    Some(entries) => candidates_of(model::models(entries@)),
                    None => Seq::empty(),
                },
                taken: 0,
                phase: SpoolPhaseModel::Reading,
            }),
    {
        let names = match entries {
            Some(entries) => choose_candidates(entries),
            None => Vec::new(),
        };
        let run = SpoolIngestion {
            names,
            summary: SpoolIngestSummary::empty(),
            phase: SpoolPhase::Reading,
        };
        assert(entries is None ==> run@.names =~= Seq::empty());
        run
    }
}

/// What is to be done with the file at hand.
#[derive(Debug, PartialEq, Eq)]
enum SpoolPhase {
    /// It is to be read.
    Reading,
    /// It was recorded, and the record engine is to make the writes of the store.
    Settling,
    /// The record engine holds what it said, and it is to be removed.
    Reclaiming,
    /// It met an error, which ended the run.
    Failed(Error),
}

/// The model of the phase of a run.
#[verifier::ext_equal]
pub enum SpoolPhaseModel {
    Reading,
    Settling,
    Reclaiming,
    Failed(Error),
}

/// What the caller is to do next in a run over the spool.
#[derive(Debug, PartialEq, Eq)]
pub enum SpoolAction {
    /// Read and parse the file, and hand over what came of it.
    Read(UnixPath),
    /// Make the writes of the store, which the file was recorded in, and hand over
    /// what came of it.
    Settle(UnixPath),
    /// Remove the file, and hand over what came of it.
    Reclaim(UnixPath),
    /// Nothing: the run is over.
    Stop,
}

/// A run over the spool: file after file is read and recorded, and removed once the
/// record engine holds what it said. The first error ends the run.
#[derive(Debug, PartialEq, Eq)]
pub struct SpoolIngestion {
    names: Vec<UnixPath>,
    summary: SpoolIngestSummary,
    phase: SpoolPhase,
}

/// The model of a [`SpoolIngestion`]: the files, how many of them were taken in,
/// and the phase of the one at hand.
#[verifier::ext_equal]
pub struct SpoolIngestionModel {
    pub names: Seq<Seq<u8>>,
    pub taken: nat,
    pub phase: SpoolPhaseModel,
}

impl View for SpoolIngestion {
    type V = SpoolIngestionModel;

    closed spec fn view(&self) -> SpoolIngestionModel {
        SpoolIngestionModel {
            names: model::models(self.names@),
            taken: self.summary.files_recorded as nat,
            phase: match self.phase {
                SpoolPhase::Reading => SpoolPhaseModel::Reading,
                SpoolPhase::Settling => SpoolPhaseModel::Settling,
                SpoolPhase::Reclaiming => SpoolPhaseModel::Reclaiming,
                SpoolPhase::Failed(error) => SpoolPhaseModel::Failed(error),
            },
        }
    }
}

/// Whether a run is to read the next file.
pub open spec fn awaits_read(run: SpoolIngestionModel) -> bool {
    run.phase is Reading && run.taken < run.names.len()
}

/// Whether a run is to have the writes of the store made.
pub open spec fn awaits_settling(run: SpoolIngestionModel) -> bool {
    run.phase is Settling
}

/// Whether a run is to have a file removed.
pub open spec fn awaits_reclaim(run: SpoolIngestionModel) -> bool {
    run.phase is Reclaiming
}

/// What a file that was read leads to: its notification, unless it could not be
/// read, parsed or decoded.
pub open spec fn file_notification(root: Result<Block>) -> Option<ReceiveHookNotificationModel> {
    match root {
        Ok(block) => match notification_of(block) {
            Ok(notification) => Some(notification),
            Err(_) => None,
        },
        Err(_) => None,
    }
}

/// Whether a file that was read gives a notification to record.
pub fn gives_notification(root: &Result<Block>) -> (gives: bool)
    ensures
        gives == (file_notification(*root) is Some),
{
    match root {
        Ok(block) => match SpoolNotificationFile::decode_root(block) {
            Ok(_) => true,
            Err(_) => false,
        },
        Err(_) => false,
    }
}

/// A file gives a notification exactly where it could be read and parsed and writes
/// that notification down.
pub proof fn lemma_file_gives(root: Result<Block>, notification: ReceiveHookNotificationModel)
    ensures
        file_notification(root) == Some(notification) <==> (root matches Ok(block)
            && writes_notification(block, notification)),
{
    if root is Ok {
        lemma_notification_read_back(root->Ok_0, notification);
    }
}

/// What happened in one step of a run, and to which file.
pub enum SpoolOutcome {
    /// The file was read, and its notification recorded.
    Recorded { name: Seq<u8>, notification: ReceiveHookNotificationModel },
    /// The file gave no notification.
    Unreadable { name: Seq<u8> },
    /// The record engine holds what the file said.
    Settled { name: Seq<u8> },
    /// The record engine did not make the writes.
    Unsettled { name: Seq<u8> },
    /// The recorded file was removed.
    Removed { name: Seq<u8> },
    /// The recorded file could not be removed.
    Kept { name: Seq<u8> },
}

/// The file at hand in a run.
pub open spec fn file_at_hand(run: SpoolIngestionModel) -> Seq<u8> {
    run.names[run.taken as int]
}

/// What the file of a name comes to once it was read.
pub open spec fn read_outcome(name: Seq<u8>, root: Result<Block>) -> SpoolOutcome {
    match file_notification(root) {
        Some(notification) => SpoolOutcome::Recorded { name, notification },
        None => SpoolOutcome::Unreadable { name },
    }
}

/// What the writes that a file led to come to.
pub open spec fn settling_outcome(name: Seq<u8>, outcome: Result<()>) -> SpoolOutcome {
    match outcome {
        Ok(()) => SpoolOutcome::Settled { name },
        Err(_) => SpoolOutcome::Unsettled { name },
    }
}

/// What the removal of a recorded file comes to.
pub open spec fn removal_outcome(name: Seq<u8>, outcome: Result<()>) -> SpoolOutcome {
    match outcome {
        Ok(()) => SpoolOutcome::Removed { name },
        Err(_) => SpoolOutcome::Kept { name },
    }
}

/// How one step takes a run and the ledger on.
pub open spec fn progressed(
    before: SpoolIngestionModel,
    after: SpoolIngestionModel,
    state_before: LedgerState,
    state_after: LedgerState,
    outcome: SpoolOutcome,
) -> bool {
    &&& after.names == before.names
    &&& match outcome {
        SpoolOutcome::Recorded { name, notification } => {
            &&& name == file_at_hand(before)
            &&& awaits_read(before)
            &&& after.taken == before.taken
            &&& after.phase is Settling
            &&& state_after == ledger::notified(state_before, notification)
        },
        SpoolOutcome::Unreadable { name } => {
            &&& name == file_at_hand(before)
            &&& awaits_read(before)
            &&& after.taken == before.taken
            &&& after.phase is Failed
            &&& state_after == state_before
        },
        SpoolOutcome::Settled { name } => {
            &&& name == file_at_hand(before)
            &&& awaits_settling(before)
            &&& after.taken == before.taken
            &&& after.phase is Reclaiming
            &&& state_after == state_before
        },
        SpoolOutcome::Unsettled { name } => {
            &&& name == file_at_hand(before)
            &&& awaits_settling(before)
            &&& after.taken == before.taken
            &&& after.phase is Failed
            &&& state_after == state_before
        },
        SpoolOutcome::Removed { name } => {
            &&& name == file_at_hand(before)
            &&& awaits_reclaim(before)
            &&& after.taken == before.taken + 1
            &&& after.phase is Reading
            &&& state_after == state_before
        },
        SpoolOutcome::Kept { name } => {
            &&& name == file_at_hand(before)
            &&& awaits_reclaim(before)
            &&& after.taken == before.taken
            &&& after.phase is Failed
            &&& state_after == state_before
        },
    }
}

/// Whether a run went through the given steps: `runs` and `states` hold the run and
/// the ledger before the first step and after each.
pub open spec fn went_through(
    runs: Seq<SpoolIngestionModel>,
    states: Seq<LedgerState>,
    outcomes: Seq<SpoolOutcome>,
) -> bool {
    &&& runs.len() == outcomes.len() + 1
    &&& states.len() == outcomes.len() + 1
    &&& runs[0].taken == 0
    &&& runs[0].phase is Reading
    &&& forall|i: int|
        0 <= i < outcomes.len() ==> progressed(
            runs[i],
            runs[i + 1],
            states[i],
            states[i + 1],
            #[trigger] outcomes[i],
        )
}

/// The notifications that were recorded, in order.
pub open spec fn recorded_notifications(outcomes: Seq<SpoolOutcome>) -> Seq<
    ReceiveHookNotificationModel,
>
    decreases outcomes.len(),
{
    if outcomes.len() == 0 {
        Seq::empty()
    } else {
        match outcomes.last() {
            SpoolOutcome::Recorded { notification, .. } => recorded_notifications(
                outcomes.drop_last(),
            ).push(notification),
            _ => recorded_notifications(outcomes.drop_last()),
        }
    }
}

/// The names of the files whose notifications were recorded, in order.
pub open spec fn recorded_names(outcomes: Seq<SpoolOutcome>) -> Seq<Seq<u8>>
    decreases outcomes.len(),
{
    if outcomes.len() == 0 {
        Seq::empty()
    } else {
        match outcomes.last() {
            SpoolOutcome::Recorded { name, .. } => recorded_names(outcomes.drop_last()).push(name),
            _ => recorded_names(outcomes.drop_last()),
        }
    }
}

/// The names of the files whose writes the record engine made, in order.
pub open spec fn settled_names(outcomes: Seq<SpoolOutcome>) -> Seq<Seq<u8>>
    decreases outcomes.len(),
{
    if outcomes.len() == 0 {
        Seq::empty()
    } else {
        match outcomes.last() {
            SpoolOutcome::Settled { name } => settled_names(outcomes.drop_last()).push(name),
            _ => settled_names(outcomes.drop_last()),
        }
    }
}

/// The names of the files that were removed, in order.
pub open spec fn removed_names(outcomes: Seq<SpoolOutcome>) -> Seq<Seq<u8>>
    decreases outcomes.len(),
{
    if outcomes.len() == 0 {
        Seq::empty()
    } else {
        match outcomes.last() {
            SpoolOutcome::Removed { name } => removed_names(outcomes.drop_last()).push(name),
            _ => removed_names(outcomes.drop_last()),
        }
    }
}

/// The ledger after some notifications were recorded, one after the other.
pub open spec fn all_notified(
    state: LedgerState,
    notifications: Seq<ReceiveHookNotificationModel>,
) -> LedgerState
    decreases notifications.len(),
{
    if notifications.len() == 0 {
        state
    } else {
        ledger::notified(
            all_notified(state, notifications.drop_last()),
            notifications.last(),
        )
    }
}

/// Notifications that are recorded one after the other become as many events behind
/// those that were there, each whole and in order, with numbers that follow one
/// another; nothing else changes.
pub proof fn lemma_all_notified(
    state: LedgerState,
    notifications: Seq<ReceiveHookNotificationModel>,
)
    requires
        ledger::last_sequence(state.events) + notifications.len() <= u64::MAX,
    ensures
        ({
            let after = all_notified(state, notifications);
            let first = state.events.len() as int;
            let last = if first == 0 {
                0int
            } else {
                state.events.last().sequence as int
            };
            &&& after.events.len() == first + notifications.len()
            &&& after.events.take(first) == state.events
            &&& forall|k: int|
                0 <= k < notifications.len() ==> {
                    &&& after.events[first + k].notification == #[trigger] notifications[k]
                    &&& after.events[first + k].sequence == last + 1 + k
                }
            &&& after.commits == state.commits
            &&& after.registrations == state.registrations
            &&& after.spool_directory_policy == state.spool_directory_policy
            &&& after.mirror_policies == state.mirror_policies
        }),
    decreases notifications.len(),
{
    let after = all_notified(state, notifications);
    let first = state.events.len() as int;
    if notifications.len() == 0 {
        assert(after.events.take(first) =~= state.events);
    } else {
        let earlier = notifications.drop_last();
        let before = all_notified(state, earlier);
        lemma_all_notified(state, earlier);
        assert(after.events.take(first) =~= before.events.take(first));
        if earlier.len() > 0 {
            let k = earlier.len() - 1;
            assert(earlier[k] == notifications[k]);
            assert(before.events[first + k] == before.events.last());
        } else {
            assert(before.events =~= state.events);
        }
        let last = if first == 0 {
            0int
        } else {
            state.events.last().sequence as int
        };
        assert forall|k: int| 0 <= k < notifications.len() implies after.events[first
            + k].notification == #[trigger] notifications[k] && after.events[first + k].sequence
            == last + 1 + k by {
            if k < earlier.len() {
                assert(earlier[k] == notifications[k]);
                assert(after.events[first + k] == before.events[first + k]);
            }
        }
    }
}

/// At every point of a run the ledger holds exactly the notifications that were
/// recorded, which came from the first files, in the order of the files. The files
/// whose writes the record engine made are the first of those, and the files that
/// were removed the first of these, so that a file is removed only after the record
/// engine holds its notification. Where no error ended the run, every recorded file
/// but the one at hand was removed.
pub proof fn lemma_spool_run(
    runs: Seq<SpoolIngestionModel>,
    states: Seq<LedgerState>,
    outcomes: Seq<SpoolOutcome>,
)
    requires
        went_through(runs, states, outcomes),
    ensures
        states.last() == all_notified(states[0], recorded_notifications(outcomes)),
        runs.last().names == runs[0].names,
        recorded_notifications(outcomes).len() <= runs[0].names.len(),
        recorded_names(outcomes) == runs[0].names.take(
            recorded_notifications(outcomes).len() as int,
        ),
        settled_names(outcomes).len() <= recorded_notifications(outcomes).len(),
        settled_names(outcomes) == runs[0].names.take(settled_names(outcomes).len() as int),
        runs.last().taken <= settled_names(outcomes).len(),
        removed_names(outcomes) == runs[0].names.take(runs.last().taken as int),
        runs.last().phase is Reading ==> runs.last().taken == recorded_notifications(
            outcomes,
        ).len(),
        runs.last().phase is Settling ==> runs.last().taken == settled_names(outcomes).len()
            && runs.last().taken + 1 == recorded_notifications(outcomes).len(),
        runs.last().phase is Reclaiming ==> runs.last().taken + 1 == settled_names(outcomes).len()
            && runs.last().taken + 1 == recorded_notifications(outcomes).len(),
    decreases outcomes.len(),
{
    if outcomes.len() > 0 {
        let last = outcomes.len() - 1;
        let earlier = outcomes.drop_last();
        lemma_shorter_run(runs, states, outcomes);
        lemma_spool_run(runs.drop_last(), states.drop_last(), earlier);
        assert(progressed(
            runs[last],
            runs[last + 1],
            states[last],
            states[last + 1],
            outcomes[last],
        ));
        let names = runs[0].names;
        match outcomes.last() {
            SpoolOutcome::Recorded { name, notification } => {
                let before = recorded_notifications(earlier);
                assert(before.push(notification).drop_last() =~= before);
                assert(names.take(before.len() as int).push(name) =~= names.take(
                    before.len() as int + 1,
                ));
            },
            SpoolOutcome::Settled { name } => {
                let before = settled_names(earlier).len() as int;
                assert(names.take(before).push(name) =~= names.take(before + 1));
            },
            SpoolOutcome::Removed { name } => {
                let before = runs[last].taken as int;
                assert(names.take(before).push(name) =~= names.take(before + 1));
            },
            _ => {},
        }
    } else {
        assert(runs[0].names.take(0) =~= Seq::empty());
    }
}

proof fn lemma_shorter_run(
    runs: Seq<SpoolIngestionModel>,
    states: Seq<LedgerState>,
    outcomes: Seq<SpoolOutcome>,
)
    requires
        went_through(runs, states, outcomes),
        outcomes.len() > 0,
    ensures
        went_through(runs.drop_last(), states.drop_last(), outcomes.drop_last()),
{
    let earlier = outcomes.drop_last();
    assert forall|i: int| 0 <= i < earlier.len() implies progressed(
        runs.drop_last()[i],
        runs.drop_last()[i + 1],
        states.drop_last()[i],
        states.drop_last()[i + 1],
        #[trigger] earlier[i],
    ) by {
        assert(earlier[i] == outcomes[i]);
    }
}

/// Whether every file that was read in a run gave what `files` says of its name.
pub open spec fn read_from(
    outcomes: Seq<SpoolOutcome>,
    files: spec_fn(Seq<u8>) -> Result<Block>,
) -> bool {
    forall|i: int|
        0 <= i < outcomes.len() ==> match #[trigger] outcomes[i] {
            SpoolOutcome::Recorded { name, .. } => outcomes[i] == read_outcome(name, files(name)),
            SpoolOutcome::Unreadable { name } => outcomes[i] == read_outcome(name, files(name)),
            _ => true,
        }
}

/// What the files of the given names write down, in order.
pub open spec fn written_down(
    names: Seq<Seq<u8>>,
    files: spec_fn(Seq<u8>) -> Result<Block>,
) -> Seq<ReceiveHookNotificationModel> {
    names.map_values(|name: Seq<u8>| file_notification(files(name))->0)
}

proof fn lemma_recorded_written_down(
    outcomes: Seq<SpoolOutcome>,
    files: spec_fn(Seq<u8>) -> Result<Block>,
)
    requires
        read_from(outcomes, files),
    ensures
        recorded_notifications(outcomes) == written_down(recorded_names(outcomes), files),
        forall|k: int|
            0 <= k < recorded_names(outcomes).len() ==> file_notification(
                files(#[trigger] recorded_names(outcomes)[k]),
            ) is Some,
    decreases outcomes.len(),
{
    if outcomes.len() > 0 {
        let earlier = outcomes.drop_last();
        assert forall|i: int| 0 <= i < earlier.len() implies match #[trigger] earlier[i] {
            SpoolOutcome::Recorded { name, .. } => earlier[i] == read_outcome(name, files(name)),
            SpoolOutcome::Unreadable { name } => earlier[i] == read_outcome(name, files(name)),
            _ => true,
        } by {
            assert(earlier[i] == outcomes[i]);
        }
        lemma_recorded_written_down(earlier, files);
        assert(outcomes[outcomes.len() - 1] == outcomes.last());
        assert forall|k: int| 0 <= k < recorded_names(outcomes).len() implies file_notification(
            files(#[trigger] recorded_names(outcomes)[k]),
        ) is Some by {
            if k < recorded_names(earlier).len() {
                assert(recorded_names(earlier)[k] == recorded_names(outcomes)[k]);
            }
        }
    }
    assert(recorded_notifications(outcomes) =~= written_down(recorded_names(outcomes), files));
}

/// A run that ended without error has recorded what each file writes down, one
/// event for each file, in the order of the files, and nothing else.
pub proof fn lemma_spool_run_complete(
    runs: Seq<SpoolIngestionModel>,
    states: Seq<LedgerState>,
    outcomes: Seq<SpoolOutcome>,
    files: spec_fn(Seq<u8>) -> Result<Block>,
)
    requires
        went_through(runs, states, outcomes),
        read_from(outcomes, files),
        runs.last().phase is Reading,
        runs.last().taken == runs[0].names.len(),
    ensures
        forall|k: int|
            0 <= k < runs[0].names.len() ==> file_notification(
                files(#[trigger] runs[0].names[k]),
            ) is Some,
        states.last() == all_notified(states[0], written_down(runs[0].names, files)),
{
    let names = runs[0].names;
    lemma_spool_run(runs, states, outcomes);
    lemma_recorded_written_down(outcomes, files);
    assert(names.take(names.len() as int) =~= names);
}

/// A run that ended without error has removed every file that it took in, so that
/// nothing is left for another run: the entries that are left, none of which bears
/// the name of a removed file, hold no file of notifications, and a run over them
/// takes no step and leaves the ledger as it is.
pub proof fn lemma_spool_drained(
    runs: Seq<SpoolIngestionModel>,
    states: Seq<LedgerState>,
    outcomes: Seq<SpoolOutcome>,
    entries: Seq<SpoolEntryModel>,
    left: Seq<SpoolEntryModel>,
)
    requires
        went_through(runs, states, outcomes),
        runs[0].names == candidates_of(entries),
        runs.last().phase is Reading,
        runs.last().taken == runs[0].names.len(),
        forall|entry: SpoolEntryModel| #[trigger]
            left.contains(entry) ==> entries.contains(entry) && !removed_names(outcomes).contains(
                entry.name,
            ),
    ensures
        removed_names(outcomes) == candidates_of(entries),
        candidates_of(left) == Seq::<Seq<u8>>::empty(),
        forall|
            again: Seq<SpoolIngestionModel>,
            later: Seq<LedgerState>,
            steps: Seq<SpoolOutcome>,
        | #[trigger]
            went_through(again, later, steps) && again[0].names == candidates_of(left)
                ==> steps.len() == 0 && later.last() == later[0],
{
    let wanted = |entry: SpoolEntryModel| entry.is_file && is_nota_name(entry.name);
    let named = |entry: SpoolEntryModel| entry.name;
    let names = runs[0].names;
    lemma_spool_run(runs, states, outcomes);
    assert(names.take(names.len() as int) =~= names);
    order::lemma_ranked::<UnixPath>(entries.filter(wanted).map_values(named));
    order::lemma_ranked::<UnixPath>(left.filter(wanted).map_values(named));
    assert forall|entry: SpoolEntryModel| left.contains(entry) implies !wanted(entry) by {
        if wanted(entry) {
            let at = entries.index_of(entry);
            entries.lemma_filter_contains(wanted, at);
            let kept = entries.filter(wanted).index_of(entry);
            assert(entries.filter(wanted).map_values(named)[kept] == entry.name);
            assert(names.contains(entry.name));
        }
    }
    let unwanted = |entry: SpoolEntryModel| !wanted(entry);
    assert(left.all(unwanted)) by {
        assert forall|i: int| 0 <= i < left.len() implies unwanted(#[trigger] left[i]) by {
            assert(left.contains(left[i]));
        }
    }
    left.lemma_all_neg_filter_empty(wanted);
    assert(candidates_of(left) =~= Seq::empty());
    assert forall|
        again: Seq<SpoolIngestionModel>,
        later: Seq<LedgerState>,
        steps: Seq<SpoolOutcome>,
    | #[trigger]
        went_through(again, later, steps) && again[0].names == candidates_of(
            left,
        ) implies steps.len() == 0 && later.last() == later[0] by {
        if steps.len() > 0 {
            assert(progressed(again[0], again[1], later[0], later[1], steps[0]));
        }
    }
}

impl SpoolIngestion {
    /// Whether the counts agree, no more files were taken in than there are, and
    /// there is a file at hand where one is to be settled or removed.
    pub closed spec fn well_formed(&self) -> bool {
        &&& self.summary.files_seen == self.summary.files_recorded
        &&& self.summary.files_recorded <= self.names@.len()
        &&& self.phase is Settling || self.phase is Reclaiming ==> self.summary.files_recorded
            < self.names@.len()
    }

    /// A well-formed run has taken in no more files than there are, and has one
    /// at hand where one is to be settled or removed.
    pub proof fn lemma_well_formed(&self)
        requires
            self.well_formed(),
        ensures
            self@.taken <= self@.names.len(),
            awaits_settling(self@) || awaits_reclaim(self@) ==> self@.taken < self@.names.len(),
    {
    }

    /// What the caller is to do next.
    pub fn next_action(&self) -> (action: SpoolAction)
        requires
            self.well_formed(),
        ensures
            match action {
                SpoolAction::Read(name) => awaits_read(self@) && name@
                    == self@.names[self@.taken as int],
                SpoolAction::Settle(name) => awaits_settling(self@) && name@
                    == self@.names[self@.taken as int],
                SpoolAction::Reclaim(name) => awaits_reclaim(self@) && name@
                    == self@.names[self@.taken as int],
                SpoolAction::Stop => !awaits_read(self@) && !awaits_settling(self@)
                    && !awaits_reclaim(self@),
            },
    {
        let at: usize = self.summary.files_recorded;
        match &self.phase {
            SpoolPhase::Reading => if at < self.names.len() {
                SpoolAction::Read(self.names[at].duplicate())
            } else {
                SpoolAction::Stop
            },
            SpoolPhase::Settling => SpoolAction::Settle(self.names[at].duplicate()),
            SpoolPhase::Reclaiming => SpoolAction::Reclaim(self.names[at].duplicate()),
            SpoolPhase::Failed(_) => SpoolAction::Stop,
        }
    }

    /// Records the notification of the file that was read. A file that could not
    /// be read, parsed or decoded ends the run and leaves the store as it was.
    pub fn file_read(&mut self, store: &mut Store, root: Result<Block>)
        requires
            old(self).well_formed(),
            old(store).well_formed(),
            awaits_read(old(self)@),
            file_notification(root) is Some ==> ledger::has_room(old(store)@.events),
        ensures
            final(self).well_formed(),
            final(store).well_formed(),
            progressed(
                old(self)@,
                final(self)@,
                old(store)@,
                final(store)@,
                read_outcome(file_at_hand(old(self)@), root),
            ),
            match file_notification(root) {
                Some(notification) => {
                    &&& final(store).pending() == old(store).pending()
                        + ledger::notification_writes(old(store)@, notification)
                    &&& final(store)@.events.drop_last() == old(store)@.events
                    &&& final(store)@.events.last().notification == notification
                    &&& final(store)@.commits == old(store)@.commits
                },
                None => {
                    &&& final(store).pending() == old(store).pending()
                    &&& final(self)@.phase matches SpoolPhaseModel::Failed(error)
                    &&& match root {
                        Err(met) => error == met,
                        Ok(block) => error matches Error::Nota(fault) && notification_of(block)
                            == Err::<ReceiveHookNotificationModel, NotaFault>(fault@),
                    }
                },
            },
    {
        let block = match root {
            Ok(block) => block,
            Err(error) => {
                self.phase = SpoolPhase::Failed(error);
                return ;
            },
        };
        match SpoolNotificationFile::from_root(block).decode() {
            Ok(notification) => match store.record_hook_notification(notification) {
                Ok(_) => {
                    self.phase = SpoolPhase::Settling;
                },
                Err(error) => {
                    self.phase = SpoolPhase::Failed(error);
                },
            },
            Err(error) => {
                self.phase = SpoolPhase::Failed(Error::Nota(error));
            },
        }
    }

    /// Goes on to remove the recorded file once the record engine has made the writes
    /// of the store. Where it could not make them, the run ends and the file stays.
    pub fn writes_settled(&mut self, store: &Store, outcome: Result<()>)
        requires
            old(self).well_formed(),
            awaits_settling(old(self)@),
            outcome is Ok ==> store.pending().len() == 0,
        ensures
            final(self).well_formed(),
            forall|state: LedgerState| #[trigger]
                progressed(
                    old(self)@,
                    final(self)@,
                    state,
                    state,
                    settling_outcome(file_at_hand(old(self)@), outcome),
                ),
            outcome matches Err(error) ==> final(self)@.phase == SpoolPhaseModel::Failed(error),
    {
        match outcome {
            Ok(()) => {
                self.phase = SpoolPhase::Reclaiming;
            },
            Err(error) => {
                self.phase = SpoolPhase::Failed(error);
            },
        }
    }

    /// Goes on to the next file once the recorded one was removed. A file that
    /// could not be removed ends the run.
    pub fn file_reclaimed(&mut self, outcome: Result<()>)
        requires
            old(self).well_formed(),
            awaits_reclaim(old(self)@),
        ensures
            final(self).well_formed(),
            forall|state: LedgerState| #[trigger]
                progressed(
                    old(self)@,
                    final(self)@,
                    state,
                    state,
                    removal_outcome(file_at_hand(old(self)@), outcome),
                ),
            outcome matches Err(error) ==> final(self)@.phase == SpoolPhaseModel::Failed(error),
    {
        match outcome {
            Ok(()) => {
                assert(self.names.len() == self.names@.len());
                self.summary.record_file();
                self.phase = SpoolPhase::Reading;
            },
            Err(error) => {
                self.phase = SpoolPhase::Failed(error);
            },
        }
    }

    /// What came of a run that is over: how many files it took in, which are all of
    /// them, or the error that ended it.
    pub fn finish(self) -> (result: Result<SpoolIngestSummary>)
        requires
            self.well_formed(),
            !awaits_read(self@),
            !awaits_settling(self@),
            !awaits_reclaim(self@),
        ensures
            match result {
                Ok(summary) => {
                    &&& !(self@.phase is Failed)
                    &&& self@.taken == self@.names.len()
                    &&& summary.files_seen == self@.taken
                    &&& summary.files_recorded == self@.taken
                },
                Err(error) => self@.phase == SpoolPhaseModel::Failed(error),
            },
    {
        match self.phase {
            SpoolPhase::Failed(error) => Err(error),
            SpoolPhase::Reading | SpoolPhase::Settling | SpoolPhase::Reclaiming => Ok(self.summary),
        }
    }
}

impl SpoolEntry {
    /// The model says what the value says, field by field.
    pub proof fn lemma_modelled(&self)
        ensures
            self@.name == self.name@,
            self@.is_file == self.is_file,
    {
    }
}

/// Decoding a file gives exactly the notification that it writes down, and choosing
/// among the entries of a directory gives the files that end in `.nota`.
pub proof fn lemma_files_decoded(
    file: &SpoolNotificationFile,
    result: core::result::Result<ReceiveHookNotification, NotaDecodeError>,
    root: &Result<Block>,
    gives: bool,
    entries: Vec<SpoolEntry>,
    names: Vec<UnixPath>,
)
    requires
        call_ensures(SpoolNotificationFile::decode, (file,), result),
        call_ensures(gives_notification, (root,), gives),
        call_ensures(choose_candidates, (entries,), names),
    ensures
        result matches Ok(notification) ==> writes_notification(file.root(), notification@),
        forall|notification: ReceiveHookNotificationModel| #[trigger]
            writes_notification(file.root(), notification) ==> (result matches Ok(read) && read@
                == notification),
        gives <==> exists|notification: ReceiveHookNotificationModel|
            root is Ok && #[trigger] writes_notification(root->Ok_0, notification),
        forall|name: Seq<u8>| #[trigger]
            model::models(names@).contains(name) ==> exists|i: int|
                0 <= i < entries@.len() && (#[trigger] entries@[i]).is_file && entries@[i].name@
                    == name,
{
    assert forall|notification: ReceiveHookNotificationModel| #[trigger]
        writes_notification(file.root(), notification) implies (result matches Ok(read) && read@
        == notification) by {
        lemma_notification_read_back(file.root(), notification);
    }
    if gives {
        let notification = file_notification(*root)->0;
        lemma_file_gives(*root, notification);
    }
    if exists|notification: ReceiveHookNotificationModel|
        root is Ok && #[trigger] writes_notification(root->Ok_0, notification) {
        let notification = choose|notification: ReceiveHookNotificationModel|
            root is Ok && #[trigger] writes_notification(root->Ok_0, notification);
        lemma_file_gives(*root, notification);
    }
    let all = model::models(entries@);
    let written = |entry: SpoolEntryModel|
        {
            &&& entry.is_file
            &&& entry.name.len() > 5
            &&& entry.name[entry.name.len() - 5] == 46u8
            &&& entry.name[entry.name.len() - 4] == 110u8
            &&& entry.name[entry.name.len() - 3] == 111u8
            &&& entry.name[entry.name.len() - 2] == 116u8
            &&& entry.name[entry.name.len() - 1] == 97u8
        };
    lemma_candidates(all);
    let wanted = all.filter(written);
    assert forall|name: Seq<u8>| #[trigger] model::models(names@).contains(name) implies exists|
        i: int,
    |
        0 <= i < entries@.len() && (#[trigger] entries@[i]).is_file && entries@[i].name@ == name by {
        assert(candidates_of(all).contains(name));
        let k = choose|k: int| 0 <= k < wanted.len() && (#[trigger] wanted[k]).name == name;
        all.lemma_filter_pred(written, k);
        lemma_kept_was_there(all, written, k);
        let i = choose|i: int| 0 <= i < all.len() && all[i] == wanted[k];
        assert(entries@[i].is_file);
    }
}

proof fn lemma_kept_was_there<T>(items: Seq<T>, wanted: spec_fn(T) -> bool, k: int)
    requires
        0 <= k < items.filter(wanted).len(),
    ensures
        items.contains(items.filter(wanted)[k]),
    decreases items.len(),
{
    reveal(Seq::filter);
    if items.len() > 0 {
        let earlier = items.drop_last();
        if k < earlier.filter(wanted).len() {
            lemma_kept_was_there(earlier, wanted, k);
            let i = choose|i: int| 0 <= i < earlier.len() && earlier[i] == earlier.filter(wanted)[k];
            assert(items[i] == items.filter(wanted)[k]);
        } else {
            assert(items[items.len() - 1] == items.filter(wanted)[k]);
        }
    }
}

/// A run over the spool, step by step. It starts with the files that hold
/// notifications, none of them taken in, and with nothing where there is no directory.
/// The file at hand is read, then settled, then removed, and only then counted; an
/// error at any of these steps ends the run with that error and the file uncounted.
pub proof fn lemma_run_begins(
    directory: &SpoolDirectory,
    entries: Option<Vec<SpoolEntry>>,
    run: SpoolIngestion,
    action: SpoolAction,
)
    requires
        call_ensures(SpoolDirectory::ingestion, (directory, entries), run),
        call_ensures(SpoolIngestion::next_action, (&run,), action),
    ensures
        run@.taken == 0,
        run@.phase is Reading,
        entries is None ==> run@.names.len() == 0,
        entries matches Some(listed) ==> run@.names == candidates_of(model::models(listed@)),
        run@.names.len() == 0 ==> action is Stop,
        run@.names.len() > 0 ==> (action matches SpoolAction::Read(name) && name@
            == run@.names[0]),
{
}

/// What is settled goes on to be removed, and what could not be settled ends the run;
/// the file stays at hand either way.
pub proof fn lemma_run_settles(
    run: &mut SpoolIngestion,
    store: &Store,
    outcome: Result<()>,
    returned: (),
)
    requires
        call_ensures(SpoolIngestion::writes_settled, (run, store, outcome), returned),
    ensures
        final(run)@.names == old(run)@.names,
        final(run)@.taken == old(run)@.taken,
        outcome is Ok ==> final(run)@.phase is Reclaiming,
        outcome matches Err(error) ==> final(run)@.phase == SpoolPhaseModel::Failed(error),
{
    let state = store@;
    assert(progressed(
        old(run)@,
        final(run)@,
        state,
        state,
        settling_outcome(file_at_hand(old(run)@), outcome),
    ));
}

/// A file that was removed is counted, and the next one is at hand; one that could
/// not be removed ends the run uncounted.
pub proof fn lemma_run_reclaims(run: &mut SpoolIngestion, outcome: Result<()>, returned: ())
    requires
        call_ensures(SpoolIngestion::file_reclaimed, (run, outcome), returned),
    ensures
        final(run)@.names == old(run)@.names,
        outcome is Ok ==> final(run)@.taken == old(run)@.taken + 1 && final(run)@.phase is Reading,
        outcome matches Err(error) ==> final(run)@.taken == old(run)@.taken && final(run)@.phase
            == SpoolPhaseModel::Failed(error),
{
    let state = LedgerState {
        events: Seq::empty(),
        commits: Seq::empty(),
        registrations: Seq::empty(),
        spool_directory_policy: Seq::empty(),
        mirror_policies: Seq::empty(),
    };
    assert(progressed(
        old(run)@,
        final(run)@,
        state,
        state,
        removal_outcome(file_at_hand(old(run)@), outcome),
    ));
}

/// A run that met no error has taken in and counted every file, and one that met an
/// error ends with that error.
pub proof fn lemma_run_ends(run: SpoolIngestion, result: Result<SpoolIngestSummary>)
    requires
        call_ensures(SpoolIngestion::finish, (run,), result),
    ensures
        result matches Ok(summary) ==> {
            &&& run@.taken == run@.names.len()
            &&& summary.files_seen == run@.names.len()
            &&& summary.files_recorded == run@.names.len()
            &&& !(run@.phase is Failed)
        },
        result matches Err(error) ==> run@.phase == SpoolPhaseModel::Failed(error),
{
}

} // verus!
