//! The daemon's configuration, and its archive: the binary file that the daemon is
//! started with.
use vstd::prelude::*;

use crate::contract::{
    DaemonConfiguration, DaemonConfigurationModel, FilesystemPath, SocketMode,
};
use crate::model::Duplicate;
use crate::path::UnixPath;

verus! {

/// The failure of the archive format, which says nothing of its cause.
#[verifier::external_type_specification]
#[verifier::external_body]
pub struct ExArchiveFailure(rkyv::rancor::Failure);

/// The fields of a configuration, in the order of the archive: the path and the
/// mode of the ordinary socket, those of the meta socket, the store, and the
/// spool.
pub type ConfigurationFields = (Seq<char>, u32, Seq<char>, u32, Seq<char>, Seq<char>);

/// The bytes that `rkyv` archives a tuple of these fields to.
pub uninterp spec fn archived_bytes(
    fields: (Seq<char>, u32, Seq<char>, u32, Seq<char>, Seq<char>),
) -> Seq<u8>;

/// The tuple of fields that `rkyv` finds in an archive, where it finds one, if the
/// fields lie at an address aligned to four bytes.
pub uninterp spec fn archived_fields(
    bytes: Seq<u8>,
) -> Option<(Seq<char>, u32, Seq<char>, u32, Seq<char>, Seq<char>)>;

/// How many bytes a text takes.
pub open spec fn byte_length(text: Seq<char>) -> nat {
    vstd::utf8::encode_utf8(text).len()
}

/// The most bytes of a text that stand in the archive's own fields. A longer text
/// stands before the fields, and its field holds its length and its distance.
pub const INLINE_TEXT_BYTES: usize = 8;

/// The most bytes that the archive can count of a text before its fields.
pub const ARCHIVED_TEXT_LIMIT: usize = 0x3fff_ffff;

/// The archive keeps the length of a text as a number of thirty-two bits.
pub const ARCHIVED_LENGTH_RANGE: u64 = 0x1_0000_0000;

/// The farthest that a text can stand before its field: distances are kept as
/// signed numbers of thirty-two bits.
pub const ARCHIVED_REACH: u64 = 0x8000_0000;

/// How many bytes the fields of an archive take together.
pub const ARCHIVED_FIELDS_BYTES: usize = 40;

/// Whether `rkyv` takes a text into an archive: one that stands before the fields
/// must have a length, as a number of thirty-two bits, within the limit.
pub open spec fn text_accepted(text: Seq<char>) -> bool {
    ||| byte_length(text) <= INLINE_TEXT_BYTES
    ||| byte_length(text) % (ARCHIVED_LENGTH_RANGE as nat) <= ARCHIVED_TEXT_LIMIT
}

/// Whether `rkyv` takes all texts of a configuration into an archive.
pub open spec fn texts_accepted(fields: ConfigurationFields) -> bool {
    &&& text_accepted(fields.0)
    &&& text_accepted(fields.2)
    &&& text_accepted(fields.4)
    &&& text_accepted(fields.5)
}

/// How many bytes of a text stand before the fields.
pub open spec fn outlying_bytes(text: Seq<char>) -> nat {
    if byte_length(text) <= INLINE_TEXT_BYTES {
        0
    } else {
        byte_length(text)
    }
}

/// Where the fields begin: behind all texts that stand before them, aligned to
/// four bytes.
pub open spec fn fields_start(fields: ConfigurationFields) -> nat {
    ((outlying_bytes(fields.0) + outlying_bytes(fields.2) + outlying_bytes(fields.4)
        + outlying_bytes(fields.5) + 3) / 4 * 4) as nat
}

/// Whether memory can hold the archive, aligned.
pub open spec fn fits_memory(fields: ConfigurationFields) -> bool {
    fields_start(fields) + ARCHIVED_FIELDS_BYTES <= isize::MAX - 15
}

/// Whether every text that stands before the fields is within the reach of its
/// field. The texts stand in the order of the fields, which are twelve, twelve and
/// eight bytes apart.
pub open spec fn within_reach(fields: ConfigurationFields) -> bool {
    let start = fields_start(fields) as int;
    let ordinary = outlying_bytes(fields.0) as int;
    let meta = outlying_bytes(fields.2) as int;
    let store = outlying_bytes(fields.4) as int;
    let spool = outlying_bytes(fields.5) as int;
    &&& ordinary > 0 ==> start <= ARCHIVED_REACH
    &&& meta > 0 ==> start + 12 - ordinary <= ARCHIVED_REACH
    &&& store > 0 ==> start + 24 - ordinary - meta <= ARCHIVED_REACH
    &&& spool > 0 ==> start + 32 - ordinary - meta - store <= ARCHIVED_REACH
}

/// Whether there is an archive of a configuration.
pub open spec fn archivable(fields: ConfigurationFields) -> bool {
    texts_accepted(fields) && fits_memory(fields)
}

/// Archives a tuple with `rkyv::to_bytes`. It succeeds exactly where all texts are
/// accepted, with bytes that depend on the fields alone: the texts, and the fields
/// behind them, aligned to four bytes. Where every text is within reach,
/// `rkyv::from_bytes` finds the same fields in them; where one is not, its distance
/// is cut to thirty-two bits, and nothing is said of what is found. What the bytes
/// are is left to the archive format.
#[verifier::external_body]
fn archive_fields(
    ordinary_socket_path: &str,
    ordinary_socket_mode: u32,
    meta_socket_path: &str,
    meta_socket_mode: u32,
    store_path: &str,
    spool_directory: &str,
) -> (result: Result<Vec<u8>, rkyv::rancor::Failure>)
    requires
        fits_memory(
            (
                ordinary_socket_path@,
                ordinary_socket_mode,
                meta_socket_path@,
                meta_socket_mode,
                store_path@,
                spool_directory@,
            ),
        ),
    ensures
        result is Ok <==> texts_accepted(
            (
                ordinary_socket_path@,
                ordinary_socket_mode,
                meta_socket_path@,
                meta_socket_mode,
                store_path@,
                spool_directory@,
            ),
        ),
        result is Ok ==> result->Ok_0@.len() == fields_start(
            (
                ordinary_socket_path@,
                ordinary_socket_mode,
                meta_socket_path@,
                meta_socket_mode,
                store_path@,
                spool_directory@,
            ),
        ) + ARCHIVED_FIELDS_BYTES,
        result is Ok ==> result->Ok_0@ == archived_bytes(
            (
                ordinary_socket_path@,
                ordinary_socket_mode,
                meta_socket_path@,
                meta_socket_mode,
                store_path@,
                spool_directory@,
            ),
        ),
        result is Ok && within_reach(
            (
                ordinary_socket_path@,
                ordinary_socket_mode,
                meta_socket_path@,
                meta_socket_mode,
                store_path@,
                spool_directory@,
            ),
        ) ==> archived_fields(result->Ok_0@) == Some(
            (
                ordinary_socket_path@,
                ordinary_socket_mode,
                meta_socket_path@,
                meta_socket_mode,
                store_path@,
                spool_directory@,
            ),
        ),
{
    rkyv::to_bytes::<rkyv::rancor::Failure>(
        &(
            ordinary_socket_path.to_owned(),
            ordinary_socket_mode,
            meta_socket_path.to_owned(),
            meta_socket_mode,
            store_path.to_owned(),
            spool_directory.to_owned(),
        ),
    ).map(|bytes| bytes.to_vec())
}

/// Reads a tuple from an archive with `rkyv::from_bytes`, where the archive lies.
/// The call refuses fields that lie unaligned, so whether it succeeds depends on an
/// address too; what it gives depends on the bytes alone. Which bytes hold a tuple
/// is left to the archive format.
#[verifier::external_body]
fn unarchive_in_place(bytes: &[u8]) -> (result: Result<
    (String, u32, String, u32, String, String),
    rkyv::rancor::Failure,
>)
    ensures
        result is Ok ==> archived_fields(bytes@) == Some(
            (
                result->Ok_0.0@,
                result->Ok_0.1,
                result->Ok_0.2@,
                result->Ok_0.3,
                result->Ok_0.4@,
                result->Ok_0.5@,
            ),
        ),
{
    rkyv::from_bytes::<(String, u32, String, u32, String, String), rkyv::rancor::Failure>(bytes)
}

/// Reads a tuple with `rkyv::from_bytes` from a copy of an archive in an
/// `rkyv::util::AlignedVec`. There the fields, which end with the archive, are
/// aligned exactly where its length is a multiple of four, so that what is found
/// depends on the bytes alone. Which bytes hold a tuple is left to the archive
/// format.
#[verifier::external_body]
fn unarchive_copy(bytes: &[u8]) -> (result: Result<
    (String, u32, String, u32, String, String),
    rkyv::rancor::Failure,
>)
    requires
        bytes@.len() <= isize::MAX - 15,
    ensures
        match result {
            Ok(fields) => bytes@.len() % 4 == 0 && archived_fields(bytes@) == Some(
                (fields.0@, fields.1, fields.2@, fields.3, fields.4@, fields.5@),
            ),
            Err(_) => bytes@.len() % 4 != 0 || archived_fields(bytes@) is None,
        },
{
    let mut aligned: rkyv::util::AlignedVec<16> = rkyv::util::AlignedVec::new();
    aligned.extend_from_slice(bytes);
    rkyv::from_bytes::<(String, u32, String, u32, String, String), rkyv::rancor::Failure>(&aligned)
}

/// Why a configuration file could not be read or written.
#[derive(Debug, PartialEq, Eq)]
pub enum ConfigurationError {
    Read { path: UnixPath, detail: String },
    Decode { path: UnixPath },
    Encode,
    Write { path: UnixPath, detail: String },
}

/// What the daemon is started with.
#[derive(Debug, PartialEq, Eq)]
pub struct Configuration {
    wire: DaemonConfiguration,
}

impl View for Configuration {
    type V = DaemonConfigurationModel;

    closed spec fn view(&self) -> DaemonConfigurationModel {
        self.wire@
    }
}

/// The fields of a configuration, in the order of the archive.
pub open spec fn configuration_fields(
    configuration: DaemonConfigurationModel,
) -> ConfigurationFields {
    (
        configuration.ordinary_socket_path,
        configuration.ordinary_socket_mode,
        configuration.meta_socket_path,
        configuration.meta_socket_mode,
        configuration.store_path,
        configuration.spool_directory,
    )
}

/// The configuration that some fields make.
pub open spec fn configuration_of(fields: ConfigurationFields) -> DaemonConfigurationModel {
    DaemonConfigurationModel {
        ordinary_socket_path: fields.0,
        ordinary_socket_mode: fields.1,
        meta_socket_path: fields.2,
        meta_socket_mode: fields.3,
        store_path: fields.4,
        spool_directory: fields.5,
    }
}

/// The fields of an archive are those of the configuration, in the order of the
/// archive, and make that configuration again.
pub proof fn lemma_fields_make_configuration(configuration: DaemonConfigurationModel)
    ensures
        ({
            let fields = configuration_fields(configuration);
            &&& fields.0 == configuration.ordinary_socket_path
            &&& fields.1 == configuration.ordinary_socket_mode
            &&& fields.2 == configuration.meta_socket_path
            &&& fields.3 == configuration.meta_socket_mode
            &&& fields.4 == configuration.store_path
            &&& fields.5 == configuration.spool_directory
            &&& configuration_of(fields) == configuration
        }),
{
}

/// Every configuration whose texts are of an ordinary size has an archive, and every
/// text of it is within the reach of its field.
pub proof fn lemma_ordinary_texts_archivable(fields: ConfigurationFields)
    requires
        vstd::utf8::encode_utf8(fields.0).len() <= 0x1000_0000,
        vstd::utf8::encode_utf8(fields.2).len() <= 0x1000_0000,
        vstd::utf8::encode_utf8(fields.4).len() <= 0x1000_0000,
        vstd::utf8::encode_utf8(fields.5).len() <= 0x1000_0000,
    ensures
        archivable(fields),
        within_reach(fields),
{
}

/// The configuration that an archive holds, where it holds one. The fields of an
/// archive are aligned in it, and nothing is read from more bytes than memory can
/// hold aligned.
pub open spec fn archived_configuration(bytes: Seq<u8>) -> Option<DaemonConfigurationModel> {
    if bytes.len() > isize::MAX - 15 || bytes.len() % 4 != 0 {
        None
    } else {
        match archived_fields(bytes) {
            Some(fields) => Some(configuration_of(fields)),
            None => None,
        }
    }
}

/// An archive is read as the fields that are found in it, each in its place, where its
/// length keeps them aligned and memory can hold it; no other is read.
pub proof fn lemma_archive_read(bytes: Seq<u8>)
    ensures
        bytes.len() > isize::MAX - 15 ==> archived_configuration(bytes) is None,
        bytes.len() % 4 != 0 ==> archived_configuration(bytes) is None,
        archived_fields(bytes) is None ==> archived_configuration(bytes) is None,
        bytes.len() <= isize::MAX - 15 && bytes.len() % 4 == 0 && archived_fields(bytes) is Some
            ==> {
            let fields = archived_fields(bytes)->0;
            &&& archived_configuration(bytes) matches Some(configuration)
            &&& configuration.ordinary_socket_path == fields.0
            &&& configuration.ordinary_socket_mode == fields.1
            &&& configuration.meta_socket_path == fields.2
            &&& configuration.meta_socket_mode == fields.3
            &&& configuration.store_path == fields.4
            &&& configuration.spool_directory == fields.5
        },
{
}

/// How many bytes of a text stand before the fields of an archive.
fn count_outlying_bytes(text: &str) -> (count: u128)
    ensures
        count == outlying_bytes(text@),
        count <= usize::MAX,
{
    let length: usize = text.as_bytes().len();
    if length <= INLINE_TEXT_BYTES {
        0
    } else {
        length as u128
    }
}

/// Whether memory can hold the archive of a configuration.
fn archive_fits_memory(wire: &DaemonConfiguration) -> (fits: bool)
    ensures
        fits == fits_memory(configuration_fields(wire@)),
{
    let texts: u128 = count_outlying_bytes(wire.ordinary_socket_path.as_str())
        + count_outlying_bytes(wire.meta_socket_path.as_str()) + count_outlying_bytes(
        wire.store_path.as_str(),
    ) + count_outlying_bytes(wire.spool_directory.as_str());
    (texts + 3) / 4 * 4 + ARCHIVED_FIELDS_BYTES as u128 <= (isize::MAX as usize - 15) as u128
}

/// Encodes a configuration as an archive; there is none where a text is not
/// accepted or memory cannot hold it.
pub fn encode_configuration(wire: &DaemonConfiguration) -> (archive: Option<Vec<u8>>)
    ensures
        match archive {
            Some(bytes) => {
                &&& archivable(configuration_fields(wire@))
                &&& bytes@ == archived_bytes(configuration_fields(wire@))
                &&& within_reach(configuration_fields(wire@)) ==> archived_configuration(bytes@)
                    == Some(wire@)
            },
            None => !archivable(configuration_fields(wire@)),
        },
{
    if !archive_fits_memory(wire) {
        return None;
    }
    let result = archive_fields(
        wire.ordinary_socket_path.as_str(),
        wire.ordinary_socket_mode.into_u32(),
        wire.meta_socket_path.as_str(),
        wire.meta_socket_mode.into_u32(),
        wire.store_path.as_str(),
        wire.spool_directory.as_str(),
    );
    match result {
        Ok(bytes) => Some(bytes),
        Err(_) => None,
    }
}

fn wire_from_fields(fields: (String, u32, String, u32, String, String)) -> (wire:
    DaemonConfiguration)
    ensures
        wire@ == configuration_of(
            (fields.0@, fields.1, fields.2@, fields.3, fields.4@, fields.5@),
        ),
{
    DaemonConfiguration {
        ordinary_socket_path: FilesystemPath::from_string(fields.0),
        ordinary_socket_mode: SocketMode::new(fields.1),
        meta_socket_path: FilesystemPath::from_string(fields.2),
        meta_socket_mode: SocketMode::new(fields.3),
        store_path: FilesystemPath::from_string(fields.4),
        spool_directory: FilesystemPath::from_string(fields.5),
    }
}

/// Decodes an archive; there is no configuration where it holds none.
pub fn decode_configuration(bytes: &[u8]) -> (wire: Option<DaemonConfiguration>)
    ensures
        match wire {
            Some(wire) => archived_configuration(bytes@) == Some(wire@),
            None => archived_configuration(bytes@) is None,
        },
{
    if bytes.len() > isize::MAX as usize - 15 {
        return None;
    }
    match unarchive_copy(bytes) {
        Ok(fields) => Some(wire_from_fields(fields)),
        Err(_) => None,
    }
}

impl Configuration {
    pub fn from_wire(wire: DaemonConfiguration) -> (configuration: Self)
        ensures
            configuration@ == wire@,
    {
        Configuration { wire }
    }

    /// The configuration that was found in an archive, or the error where none was.
    pub fn from_fields(fields: Option<(String, u32, String, u32, String, String)>) -> (result:
        Result<Self, ConfigurationError>)
        ensures
            match fields {
                Some(found) => result matches Ok(configuration) && configuration@
                    == configuration_of(
                    (found.0@, found.1, found.2@, found.3, found.4@, found.5@),
                ),
                None => {
                    &&& result matches Err(error)
                    &&& error matches ConfigurationError::Decode { path }
                    &&& path@ == Seq::<u8>::empty()
                },
            },
    {
        match fields {
            Some(found) => Ok(Self::from_wire(wire_from_fields(found))),
            None => Err(ConfigurationError::Decode { path: UnixPath::from_bytes(Vec::new()) }),
        }
    }

    /// Reads a configuration from its archive, where it lies. An archive is refused
    /// where it holds no configuration, and where its fields lie unaligned, which is
    /// not said of the bytes.
    pub fn from_binary_bytes(bytes: &[u8]) -> (result: Result<Self, ConfigurationError>)
        ensures
            match result {
                Ok(configuration) => archived_fields(bytes@) == Some(
                    configuration_fields(configuration@),
                ),
                Err(error) => {
                    &&& error matches ConfigurationError::Decode { path }
                    &&& path@ == Seq::<u8>::empty()
                },
            },
    {
        let found = match unarchive_in_place(bytes) {
            Ok(fields) => Some(fields),
            Err(_) => None,
        };
        Self::from_fields(found)
    }

    /// Reads a configuration from the contents of the file at `path`, or from
    /// what is said of why it could not be read.
    pub fn from_binary_file(path: &UnixPath, contents: Result<Vec<u8>, String>) -> (result: Result<
        Self,
        ConfigurationError,
    >)
        ensures
            match contents {
                Ok(bytes) => match result {
                    Ok(configuration) => archived_configuration(bytes@) == Some(configuration@),
                    Err(error) => {
                        &&& archived_configuration(bytes@) is None
                        &&& error matches ConfigurationError::Decode { path: at }
                        &&& at@ == path@
                    },
                },
                Err(reason) => {
                    &&& result matches Err(error)
                    &&& error matches ConfigurationError::Read { path: at, detail }
                    &&& at@ == path@
                    &&& detail == reason
                },
            },
    {
        let bytes = match contents {
            Ok(bytes) => bytes,
            Err(detail) => return Err(ConfigurationError::Read { path: path.duplicate(), detail }),
        };
        match decode_configuration(bytes.as_slice()) {
            Some(wire) => Ok(Self::from_wire(wire)),
            None => Err(ConfigurationError::Decode { path: path.duplicate() }),
        }
    }

    /// Writes the configuration as an archive.
    pub fn to_binary_bytes(&self) -> (result: Result<Vec<u8>, ConfigurationError>)
        ensures
            match result {
                Ok(bytes) => {
                    &&& archivable(configuration_fields(self@))
                    &&& bytes@ == archived_bytes(configuration_fields(self@))
                    &&& within_reach(configuration_fields(self@)) ==> archived_configuration(bytes@)
                        == Some(self@)
                },
                Err(error) => {
                    &&& !archivable(configuration_fields(self@))
                    &&& error is Encode
                },
            },
    {
        match encode_configuration(&self.wire) {
            Some(bytes) => Ok(bytes),
            None => Err(ConfigurationError::Encode),
        }
    }

    pub fn wire(&self) -> (wire: &DaemonConfiguration)
        ensures
            wire@ == self@,
    {
        &self.wire
    }

    pub fn store_path(&self) -> (path: &str)
        ensures
            path@ == self@.store_path,
    {
        self.wire.store_path.as_str()
    }

    pub fn spool_directory(&self) -> (path: &str)
        ensures
            path@ == self@.spool_directory,
    {
        self.wire.spool_directory.as_str()
    }

    /// Where the ordinary socket is bound.
    pub fn socket_path(&self) -> (path: &str)
        ensures
            path@ == self@.ordinary_socket_path,
    {
        self.wire.ordinary_socket_path.as_str()
    }

    /// The mode that the ordinary socket is given.
    pub fn ordinary_socket_mode(&self) -> (mode: SocketMode)
        ensures
            mode@ == self@.ordinary_socket_mode,
    {
        self.wire.ordinary_socket_mode
    }

    /// Where the meta socket is bound.
    pub fn meta_socket_path(&self) -> (path: &str)
        ensures
            path@ == self@.meta_socket_path,
    {
        self.wire.meta_socket_path.as_str()
    }

    /// The mode that the meta socket is given.
    pub fn meta_socket_mode(&self) -> (mode: SocketMode)
        ensures
            mode@ == self@.meta_socket_mode,
    {
        self.wire.meta_socket_mode
    }
}

/// A configuration is made of what it was given, and gives each part out as that part.
pub proof fn lemma_configuration_parts(
    wire: DaemonConfiguration,
    configuration: &Configuration,
    store_path: &str,
    spool_directory: &str,
    socket_path: &str,
    ordinary_socket_mode: SocketMode,
    meta_socket_path: &str,
    meta_socket_mode: SocketMode,
)
    requires
        call_ensures(Configuration::from_wire, (wire,), *configuration),
        call_ensures(Configuration::store_path, (configuration,), store_path),
        call_ensures(Configuration::spool_directory, (configuration,), spool_directory),
        call_ensures(Configuration::socket_path, (configuration,), socket_path),
        call_ensures(Configuration::ordinary_socket_mode, (configuration,), ordinary_socket_mode),
        call_ensures(Configuration::meta_socket_path, (configuration,), meta_socket_path),
        call_ensures(Configuration::meta_socket_mode, (configuration,), meta_socket_mode),
    ensures
        store_path@ == wire.store_path@,
        spool_directory@ == wire.spool_directory@,
        socket_path@ == wire.ordinary_socket_path@,
        ordinary_socket_mode@ == wire.ordinary_socket_mode@,
        meta_socket_path@ == wire.meta_socket_path@,
        meta_socket_mode@ == wire.meta_socket_mode@,
{
    assert(configuration@ == wire@);
}

} // verus!
