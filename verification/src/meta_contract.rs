//! The meta contract: registration of repositories, and spool and mirror policy.
use vstd::prelude::*;

use crate::contract::{FilesystemPath, Name, Registration, RegistrationModel, UnimplementedReason};
use crate::model::Duplicate;
use crate::text::Text;

verus! {

#[derive(Debug, PartialEq, Eq)]
pub struct MirrorTargetKind;

/// Where a repository is mirrored to.
pub type MirrorTarget = Text<MirrorTargetKind>;

/// Asks to take a repository out of the catalog.
#[derive(Debug, PartialEq, Eq)]
pub struct Retirement {
    pub repository_name: Name,
}

/// The model of a [`Retirement`].
#[verifier::ext_equal]
pub struct RetirementModel {
    pub repository_name: Seq<char>,
}

impl View for Retirement {
    type V = RetirementModel;

    open spec fn view(&self) -> RetirementModel {
        RetirementModel {
            repository_name: self.repository_name@,
        }
    }
}

/// Where the receive hook leaves files that it could not submit.
#[derive(Debug, PartialEq, Eq)]
pub struct SpoolDirectoryPolicy {
    pub path: FilesystemPath,
}

/// The model of a [`SpoolDirectoryPolicy`].
#[verifier::ext_equal]
pub struct SpoolDirectoryPolicyModel {
    pub path: Seq<char>,
}

impl View for SpoolDirectoryPolicy {
    type V = SpoolDirectoryPolicyModel;

    open spec fn view(&self) -> SpoolDirectoryPolicyModel {
        SpoolDirectoryPolicyModel {
            path: self.path@,
        }
    }
}

impl Duplicate for SpoolDirectoryPolicy {
    fn duplicate(&self) -> (copy: Self) {
        Self {
            path: self.path.duplicate(),
        }
    }
}

/// Where one repository is mirrored to.
#[derive(Debug, PartialEq, Eq)]
pub struct MirrorPolicy {
    pub repository_name: Name,
    pub target: MirrorTarget,
}

/// The model of a [`MirrorPolicy`].
#[verifier::ext_equal]
pub struct MirrorPolicyModel {
    pub repository_name: Seq<char>,
    pub target: Seq<char>,
}

impl View for MirrorPolicy {
    type V = MirrorPolicyModel;

    open spec fn view(&self) -> MirrorPolicyModel {
        MirrorPolicyModel {
            repository_name: self.repository_name@,
            target: self.target@,
        }
    }
}

impl Duplicate for MirrorPolicy {
    fn duplicate(&self) -> (copy: Self) {
        Self {
            repository_name: self.repository_name.duplicate(),
            target: self.target.duplicate(),
        }
    }
}

/// The receipt of a registration.
#[derive(Debug, PartialEq, Eq)]
pub struct Registered {
    pub repository_name: Name,
}

/// The model of a [`Registered`].
#[verifier::ext_equal]
pub struct RegisteredModel {
    pub repository_name: Seq<char>,
}

impl View for Registered {
    type V = RegisteredModel;

    open spec fn view(&self) -> RegisteredModel {
        RegisteredModel {
            repository_name: self.repository_name@,
        }
    }
}

/// The receipt of a retirement.
#[derive(Debug, PartialEq, Eq)]
pub struct Retired {
    pub repository_name: Name,
}

/// The model of a [`Retired`].
#[verifier::ext_equal]
pub struct RetiredModel {
    pub repository_name: Seq<char>,
}

impl View for Retired {
    type V = RetiredModel;

    open spec fn view(&self) -> RetiredModel {
        RetiredModel {
            repository_name: self.repository_name@,
        }
    }
}

/// The receipt of a spool policy.
#[derive(Debug, PartialEq, Eq)]
pub struct SpoolDirectoryPolicySet {
    pub path: FilesystemPath,
}

/// The model of a [`SpoolDirectoryPolicySet`].
#[verifier::ext_equal]
pub struct SpoolDirectoryPolicySetModel {
    pub path: Seq<char>,
}

impl View for SpoolDirectoryPolicySet {
    type V = SpoolDirectoryPolicySetModel;

    open spec fn view(&self) -> SpoolDirectoryPolicySetModel {
        SpoolDirectoryPolicySetModel {
            path: self.path@,
        }
    }
}

/// The receipt of a mirror policy.
#[derive(Debug, PartialEq, Eq)]
pub struct MirrorPolicySet {
    pub repository_name: Name,
    pub target: MirrorTarget,
}

/// The model of a [`MirrorPolicySet`].
#[verifier::ext_equal]
pub struct MirrorPolicySetModel {
    pub repository_name: Seq<char>,
    pub target: Seq<char>,
}

impl View for MirrorPolicySet {
    type V = MirrorPolicySetModel;

    open spec fn view(&self) -> MirrorPolicySetModel {
        MirrorPolicySetModel {
            repository_name: self.repository_name@,
            target: self.target@,
        }
    }
}

/// A request of the meta contract.
#[derive(Debug, PartialEq, Eq)]
pub enum Operation {
    Register(Registration),
    Retire(Retirement),
    SetSpoolDirectory(SpoolDirectoryPolicy),
    SetMirror(MirrorPolicy),
}

/// The model of a [`Operation`].
#[verifier::ext_equal]
pub enum OperationModel {
    Register(RegistrationModel),
    Retire(RetirementModel),
    SetSpoolDirectory(SpoolDirectoryPolicyModel),
    SetMirror(MirrorPolicyModel),
}

impl View for Operation {
    type V = OperationModel;

    open spec fn view(&self) -> OperationModel {
        match self {
            Operation::Register(value) => OperationModel::Register(value@),
            Operation::Retire(value) => OperationModel::Retire(value@),
            Operation::SetSpoolDirectory(value) => OperationModel::SetSpoolDirectory(value@),
            Operation::SetMirror(value) => OperationModel::SetMirror(value@),
        }
    }
}

/// Which operation an [`Operation`] is.
#[derive(Debug, Clone, Copy, PartialEq, Eq, Structural)]
pub enum OperationKind {
    Register,
    Retire,
    SetSpoolDirectory,
    SetMirror,
}

/// Which operation an operation's model is.
pub open spec fn operation_kind(operation: OperationModel) -> OperationKind {
    match operation {
        OperationModel::Register(_) => OperationKind::Register,
        OperationModel::Retire(_) => OperationKind::Retire,
        OperationModel::SetSpoolDirectory(_) => OperationKind::SetSpoolDirectory,
        OperationModel::SetMirror(_) => OperationKind::SetMirror,
    }
}

impl Operation {
    pub fn operation_kind(&self) -> (kind: OperationKind)
        ensures
            kind == operation_kind(self@),
    {
        match self {
            Operation::Register(_) => OperationKind::Register,
            Operation::Retire(_) => OperationKind::Retire,
            Operation::SetSpoolDirectory(_) => OperationKind::SetSpoolDirectory,
            Operation::SetMirror(_) => OperationKind::SetMirror,
        }
    }
}

/// Says which request was not carried out, and why.
#[derive(Debug, Clone, Copy, PartialEq, Eq)]
pub struct RequestUnimplemented {
    pub operation: OperationKind,
    pub reason: UnimplementedReason,
}

/// The ledger's reply to an [`Operation`].
#[derive(Debug, PartialEq, Eq)]
pub enum Reply {
    Registered(Registered),
    Retired(Retired),
    SpoolDirectoryPolicySet(SpoolDirectoryPolicySet),
    MirrorPolicySet(MirrorPolicySet),
    RequestUnimplemented(RequestUnimplemented),
}

/// The model of a [`Reply`].
#[verifier::ext_equal]
pub enum ReplyModel {
    Registered(RegisteredModel),
    Retired(RetiredModel),
    SpoolDirectoryPolicySet(SpoolDirectoryPolicySetModel),
    MirrorPolicySet(MirrorPolicySetModel),
    RequestUnimplemented(RequestUnimplemented),
}

impl View for Reply {
    type V = ReplyModel;

    open spec fn view(&self) -> ReplyModel {
        match self {
            Reply::Registered(value) => ReplyModel::Registered(value@),
            Reply::Retired(value) => ReplyModel::Retired(value@),
            Reply::SpoolDirectoryPolicySet(value) => ReplyModel::SpoolDirectoryPolicySet(value@),
            Reply::MirrorPolicySet(value) => ReplyModel::MirrorPolicySet(value@),
            Reply::RequestUnimplemented(value) => ReplyModel::RequestUnimplemented(*value),
        }
    }
}

impl Retirement {
    /// The model says what the value says, field by field.
    pub proof fn lemma_modelled(&self)
        ensures
            self@.repository_name == self.repository_name@,
    {
    }
}

impl SpoolDirectoryPolicy {
    /// The model says what the value says, field by field.
    pub proof fn lemma_modelled(&self)
        ensures
            self@.path == self.path@,
    {
    }
}

impl MirrorPolicy {
    /// The model says what the value says, field by field.
    pub proof fn lemma_modelled(&self)
        ensures
            self@.repository_name == self.repository_name@,
            self@.target == self.target@,
    {
    }
}

impl Registered {
    /// The model says what the value says, field by field.
    pub proof fn lemma_modelled(&self)
        ensures
            self@.repository_name == self.repository_name@,
    {
    }
}

impl Retired {
    /// The model says what the value says, field by field.
    pub proof fn lemma_modelled(&self)
        ensures
            self@.repository_name == self.repository_name@,
    {
    }
}

impl SpoolDirectoryPolicySet {
    /// The model says what the value says, field by field.
    pub proof fn lemma_modelled(&self)
        ensures
            self@.path == self.path@,
    {
    }
}

impl MirrorPolicySet {
    /// The model says what the value says, field by field.
    pub proof fn lemma_modelled(&self)
        ensures
            self@.repository_name == self.repository_name@,
            self@.target == self.target@,
    {
    }
}

impl Operation {
    /// The model is of the same variant, and says what the value says.
    pub proof fn lemma_modelled(&self)
        ensures
            match *self {
                Operation::Register(value) => self@ == OperationModel::Register(value@),
                Operation::Retire(value) => self@ == OperationModel::Retire(value@),
                Operation::SetSpoolDirectory(value) => self@ == OperationModel::SetSpoolDirectory(value@),
                Operation::SetMirror(value) => self@ == OperationModel::SetMirror(value@),
            },
    {
    }
}

impl Reply {
    /// The model is of the same variant, and says what the value says.
    pub proof fn lemma_modelled(&self)
        ensures
            match *self {
                Reply::Registered(value) => self@ == ReplyModel::Registered(value@),
                Reply::Retired(value) => self@ == ReplyModel::Retired(value@),
                Reply::SpoolDirectoryPolicySet(value) => self@ == ReplyModel::SpoolDirectoryPolicySet(value@),
                Reply::MirrorPolicySet(value) => self@ == ReplyModel::MirrorPolicySet(value@),
                Reply::RequestUnimplemented(value) => self@ == ReplyModel::RequestUnimplemented(value),
            },
    {
    }
}

} // verus!
