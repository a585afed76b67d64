//! What a NameNode reports about files and directories, and what the client makes of it.
use vstd::prelude::*;
use vstd::utf8::{decode_utf8, valid_utf8};

use crate::path::{
    components, is_absolute, join, join_text, law_join_is_text, lemma_join, names, starts_with,
};
use crate::text::decode;

verus! {

/// The kind of an entry of the name space.
#[derive(Clone, Copy, Debug, PartialEq, Eq, Structural)]
pub enum FileType {
    IsDir,
    IsFile,
    IsSymlink,
}

/// The status of an entry as a NameNode reports it. `E` holds what is reported beyond the parts
/// that the client reads, such as the erasure coding policy; the entries of a listing do without.
#[derive(Debug)]
pub struct HdfsFileStatus<E = ()> {
    pub file_type: FileType,
    /// The name of the entry, relative to the path that was asked for; empty for that path
    /// itself.
    pub path: Vec<u8>,
    pub length: u64,
    /// The permission bits.
    pub permission: u32,
    pub owner: String,
    pub group: String,
    pub modification_time: u64,
    pub access_time: u64,
    pub block_replication: Option<u32>,
    pub blocksize: Option<u64>,
    pub file_id: Option<u64>,
    /// Whether the file carries encryption information.
    pub encrypted: bool,
    /// The rest of what was reported. It reaches the reader or the writer of the file unchanged.
    pub extra: E,
}

/// What a reported status says.
#[verifier::ext_equal]
pub struct EntryView<E = ()> {
    pub file_type: FileType,
    pub path: Seq<u8>,
    pub length: u64,
    pub permission: u32,
    pub owner: Seq<char>,
    pub group: Seq<char>,
    pub modification_time: u64,
    pub access_time: u64,
    pub block_replication: Option<u32>,
    pub blocksize: Option<u64>,
    pub file_id: Option<u64>,
    pub encrypted: bool,
    pub extra: E,
}

impl<E> View for HdfsFileStatus<E> {
    type V = EntryView<E>;

    open spec fn view(&self) -> EntryView<E> {
        EntryView {
            file_type: self.file_type,
            path: self.path@,
            length: self.length,
            permission: self.permission,
            owner: self.owner@,
            group: self.group@,
            modification_time: self.modification_time,
            access_time: self.access_time,
            block_replication: self.block_replication,
            blocksize: self.blocksize,
            file_id: self.file_id,
            encrypted: self.encrypted,
            extra: self.extra,
        }
    }
}

/// The status of a file or directory.
#[derive(Debug)]
pub struct FileStatus {
    pub path: String,
    pub length: usize,
    pub isdir: bool,
    pub permission: u16,
    pub owner: String,
    pub group: String,
    pub modification_time: u64,
    pub access_time: u64,
    pub replication: Option<u32>,
    pub blocksize: Option<u64>,
}

/// What a status says.
#[verifier::ext_equal]
pub struct StatusView {
    pub path: Seq<char>,
    pub length: usize,
    pub isdir: bool,
    pub permission: u16,
    pub owner: Seq<char>,
    pub group: Seq<char>,
    pub modification_time: u64,
    pub access_time: u64,
    pub replication: Option<u32>,
    pub blocksize: Option<u64>,
}

impl View for FileStatus {
    type V = StatusView;

    open spec fn view(&self) -> StatusView {
        StatusView {
            path: self.path@,
            length: self.length,
            isdir: self.isdir,
            permission: self.permission,
            owner: self.owner@,
            group: self.group@,
            modification_time: self.modification_time,
            access_time: self.access_time,
            replication: self.replication,
            blocksize: self.blocksize,
        }
    }
}

/// The path of an entry: its name joined onto the path that was asked for. A name that is empty
/// or no text stands for that path itself.
pub open spec fn entry_path(base: Seq<char>, name: Seq<u8>) -> Seq<char> {
    if valid_utf8(name) && decode_utf8(name).len() > 0 {
        join(base, decode_utf8(name))
    } else {
        base
    }
}

/// The status of an entry that was reported for the path `base`. Of the permission, the low 16
/// bits are kept.
pub open spec fn status_of<E>(entry: EntryView<E>, base: Seq<char>) -> StatusView {
    StatusView {
        path: entry_path(base, entry.path),
        length: entry.length as usize,
        isdir: entry.file_type == FileType::IsDir,
        permission: (entry.permission % 0x1_0000) as u16,
        owner: entry.owner,
        group: entry.group,
        modification_time: entry.modification_time,
        access_time: entry.access_time,
        replication: entry.block_replication,
        blocksize: entry.blocksize,
    }
}

/// The status of an entry reports what was reported of the entry, each part under its own name:
/// sizes, times, owner and group are those of the entry, and of the permission the low 16 bits.
pub proof fn law_status_reports_entry<E>(entry: EntryView<E>, base: Seq<char>)
    ensures
        status_of(entry, base).length == entry.length as usize,
        status_of(entry, base).isdir <==> entry.file_type == FileType::IsDir,
        status_of(entry, base).permission as int == entry.permission as int % 0x1_0000,
        status_of(entry, base).owner == entry.owner,
        status_of(entry, base).group == entry.group,
        status_of(entry, base).modification_time == entry.modification_time,
        status_of(entry, base).access_time == entry.access_time,
        status_of(entry, base).replication == entry.block_replication,
        status_of(entry, base).blocksize == entry.blocksize,
{
}

/// The path in a status is the path that was asked for, with the entry's name behind it and one
/// separator between them; a name that is empty or no text adds nothing, and one that is an
/// absolute path stands alone.
pub proof fn law_status_path_is_text<E>(entry: EntryView<E>, base: Seq<char>)
    ensures
        !valid_utf8(entry.path) || decode_utf8(entry.path).len() == 0 ==> status_of(
            entry,
            base,
        ).path == base,
        valid_utf8(entry.path) && decode_utf8(entry.path).len() > 0 ==> {
            let name = decode_utf8(entry.path);
            &&& name[0] == '/' ==> status_of(entry, base).path == name
            &&& name[0] != '/' && base.len() == 0 ==> status_of(entry, base).path == name
            &&& name[0] != '/' && base.len() > 0 && base.last() == '/' ==> status_of(
                entry,
                base,
            ).path == base + name
            &&& name[0] != '/' && base.len() > 0 && base.last() != '/' ==> status_of(
                entry,
                base,
            ).path == base + seq!['/'] + name
        },
{
    law_join_is_text(base, decode_utf8(entry.path));
}

/// What a reported status says is what it holds.
pub proof fn law_entry_says_what_it_holds<E>(entry: HdfsFileStatus<E>)
    ensures
        entry@.file_type == entry.file_type,
        entry@.path == entry.path@,
        entry@.length == entry.length,
        entry@.permission == entry.permission,
        entry@.owner == entry.owner@,
        entry@.group == entry.group@,
        entry@.modification_time == entry.modification_time,
        entry@.access_time == entry.access_time,
        entry@.block_replication == entry.block_replication,
        entry@.blocksize == entry.blocksize,
        entry@.file_id == entry.file_id,
        entry@.encrypted == entry.encrypted,
        entry@.extra == entry.extra,
{
}

/// What a status says is what it holds.
pub proof fn law_status_says_what_it_holds(status: FileStatus)
    ensures
        status@.path == status.path@,
        status@.length == status.length,
        status@.isdir == status.isdir,
        status@.permission == status.permission,
        status@.owner == status.owner@,
        status@.group == status.group@,
        status@.modification_time == status.modification_time,
        status@.access_time == status.access_time,
        status@.replication == status.replication,
        status@.blocksize == status.blocksize,
{
}

/// The path of an entry lies under the directory that was asked for, unless the entry's name is
/// an absolute path, and its further components are those of the name.
pub proof fn law_entry_lies_under_directory(base: Seq<char>, name: Seq<u8>)
    requires
        base.len() > 0,
        valid_utf8(name) ==> !is_absolute(decode_utf8(name)),
    ensures
        starts_with(entry_path(base, name), base),
        components(base).is_prefix_of(components(entry_path(base, name))),
        valid_utf8(name) ==> components(entry_path(base, name)) == components(base) + names(
            decode_utf8(name),
        ),
{
    if valid_utf8(name) {
        let text = decode_utf8(name);
        lemma_join(base, text);
        if text.len() == 0 {
            assert(components(base) + names(text) =~= components(base));
        }
    }
    assert(components(entry_path(base, name)).take(components(base).len() as int) =~= components(
        base,
    ));
}

impl FileStatus {
    /// The status of an entry that was reported for the path `base_path`.
    pub fn from<E>(value: HdfsFileStatus<E>, base_path: &str) -> (res: Self)
        ensures
            res@ == status_of(value@, base_path@),
            res.path@ == status_of(value@, base_path@).path,
            res.length == value.length as usize,
            res.isdir <==> value.file_type == FileType::IsDir,
            res.permission as int == value.permission as int % 0x1_0000,
            res.owner == value.owner,
            res.group == value.group,
            res.modification_time == value.modification_time,
            res.access_time == value.access_time,
            res.replication == value.block_replication,
            res.blocksize == value.blocksize,
    {
        let path = match decode(&value.path) {
            Some(relative_path) => if relative_path.as_str().is_empty() {
                base_path.to_string()
            } else {
                join_text(base_path, &relative_path)
            },
            None => base_path.to_string(),
        };
        let bits: u32 = value.permission;
        assert(bits as u16 == (bits % 0x1_0000) as u16) by (bit_vector);
        FileStatus {
            isdir: value.file_type == FileType::IsDir,
            path,
            length: #[verifier::truncate] (value.length as usize),
            permission: #[verifier::truncate] (bits as u16),
            owner: value.owner,
            group: value.group,
            modification_time: value.modification_time,
            access_time: value.access_time,
            replication: value.block_replication,
            blocksize: value.blocksize,
        }
    }
}

/// The summary of a directory tree as a NameNode reports it.
#[derive(Clone, Copy, Debug, PartialEq, Eq, Structural)]
pub struct ContentSummaryProto {
    pub length: u64,
    pub file_count: u64,
    pub directory_count: u64,
    pub quota: u64,
    pub space_consumed: u64,
    pub space_quota: u64,
}

/// The summary of a directory tree.
#[derive(Clone, Copy, Debug, PartialEq, Eq, Structural)]
pub struct ContentSummary {
    pub length: u64,
    pub file_count: u64,
    pub directory_count: u64,
    pub quota: u64,
    pub space_consumed: u64,
    pub space_quota: u64,
}

impl From<ContentSummaryProto> for ContentSummary {
    fn from(value: ContentSummaryProto) -> (res: Self) {
        ContentSummary {
            length: value.length,
            file_count: value.file_count,
            directory_count: value.directory_count,
            quota: value.quota,
            space_consumed: value.space_consumed,
            space_quota: value.space_quota,
        }
    }
}

impl vstd::std_specs::convert::FromSpecImpl<ContentSummaryProto> for ContentSummary {
    open spec fn obeys_from_spec() -> bool {
        true
    }

    open spec fn from_spec(value: ContentSummaryProto) -> Self {
        ContentSummary {
            length: value.length,
            file_count: value.file_count,
            directory_count: value.directory_count,
            quota: value.quota,
            space_consumed: value.space_consumed,
            space_quota: value.space_quota,
        }
    }
}

/// A content summary reports what was reported, each part under its own name.
pub proof fn law_summary_reports_all(value: ContentSummaryProto)
    ensures
        ({
            let summary = <ContentSummary as vstd::std_specs::convert::FromSpec<
                ContentSummaryProto,
            >>::from_spec(value);
            &&& summary.length == value.length
            &&& summary.file_count == value.file_count
            &&& summary.directory_count == value.directory_count
            &&& summary.quota == value.quota
            &&& summary.space_consumed == value.space_consumed
            &&& summary.space_quota == value.space_quota
        }),
{
}

} // verus!
