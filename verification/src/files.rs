//! Data model of the remote store as the UI sees it: directory entries,
//! stored connection configurations, file-content previews and ACLs, with
//! the verified computations that build them from what the remote store
//! reports.

use crate::paths::file_name_of;
use crate::paths::file_name_of_path;
use crate::paths::norm_seps;
use crate::paths::normalize_separators;
use crate::paths::parent_of;
use crate::paths::parent_path_of;
use crate::paths::str_ends_with;
use crate::paths::str_starts_with;
use vstd::prelude::*;

verus! {

/// One directory entry of the remote store: its path bookkeeping, ownership
/// and permission metadata, and (for directories, on request) the content
/// summary of the subtree below it.
#[derive(Debug, Clone)]
pub struct HdfsFile {
    pub name: String,
    pub path: String,
    pub parent_path: String,
    pub owner: String,
    pub isdir: bool,
    pub group: String,
    pub permission: u16,
    pub modification_time: u64,
    pub access_time: u64,
    pub length: usize,
    pub file_count: Option<u64>,
    pub directory_count: Option<u64>,
    pub quota: Option<u64>,
    pub space_consumed: Option<u64>,
    pub space_quota: Option<u64>,
}

impl HdfsFile {
    /// Build an entry from the fields a remote file status reports: the
    /// entry's name is the last path segment, its parent is everything
    /// before it, and the stored path has its separators normalized.
    pub fn from_status(
        path: &str,
        owner: String,
        group: String,
        isdir: bool,
        permission: u16,
        modification_time: u64,
        access_time: u64,
        length: usize,
    ) -> (r: HdfsFile)
        ensures
            r.name@ == file_name_of(path@),
            r.path@ == norm_seps(path@),
            r.parent_path@ == parent_of(path@),
            r.owner == owner,
            r.group == group,
            r.isdir == isdir,
            r.permission == permission,
            r.modification_time == modification_time,
            r.access_time == access_time,
            r.length == length,
            r.file_count is None && r.directory_count is None && r.quota is None
                && r.space_consumed is None && r.space_quota is None,
    {
        HdfsFile {
            name: file_name_of_path(path),
            path: normalize_separators(path),
            parent_path: parent_path_of(path),
            owner,
            group,
            isdir,
            permission,
            modification_time,
            access_time,
            length,
            file_count: None,
            directory_count: None,
            quota: None,
            space_consumed: None,
            space_quota: None,
        }
    }

    /// The same entry with the listing's parent path recorded instead of
    /// the one derived from the entry's own path.
    pub fn with_parent(self, parent_path: String) -> (r: HdfsFile)
        ensures
            r == (HdfsFile { parent_path, ..self }),
    {
        HdfsFile { parent_path, ..self }
    }

    /// The same entry with a directory's content summary filled in.
    pub fn with_content_summary(
        self,
        length: usize,
        file_count: u64,
        directory_count: u64,
        quota: u64,
        space_consumed: u64,
        space_quota: u64,
    ) -> (r: HdfsFile)
        ensures
            r == (HdfsFile {
                length,
                file_count: Option::Some(file_count),
                directory_count: Option::Some(directory_count),
                quota: Option::Some(quota),
                space_consumed: Option::Some(space_consumed),
                space_quota: Option::Some(space_quota),
                ..self
            }),
    {
        HdfsFile {
            length,
            file_count: Some(file_count),
            directory_count: Some(directory_count),
            quota: Some(quota),
            space_consumed: Some(space_consumed),
            space_quota: Some(space_quota),
            ..self
        }
    }
}

/// A stored connection configuration: a display name, the remote store URL,
/// and further settings as a JSON object in text form.
#[derive(Debug, Clone)]
pub struct HdfsConfig {
    pub id: i64,
    pub name: String,
    pub hdfs_config: String,
    pub hdfs_url: String,
    pub del_flag: i64,
}

/// The characters that `String::from_utf8_lossy` decodes from a byte
/// sequence: a function of the bytes alone — valid UTF-8 decodes to its
/// characters, invalid sequences are replaced.
pub uninterp spec fn lossy_utf8(bytes: Seq<u8>) -> Seq<char>;

/// Relies on `String::from_utf8_lossy`: the decoding depends on the bytes
/// alone, and an empty input decodes to an empty string.
#[verifier::external_body]
pub(crate) fn utf8_lossy(bytes: &Vec<u8>) -> (r: String)
    ensures
        r@ == lossy_utf8(bytes@),
        bytes@.len() == 0 ==> r@.len() == 0,
{
    String::from_utf8_lossy(bytes.as_slice()).to_string()
}

/// The first bytes of a file decoded for display, together with what the
/// decoded text reveals about the file's format.
#[derive(Debug, Clone)]
pub struct HdfsFileContentPreview {
    pub length: usize,
    pub content: String,
    pub isorc: bool,
    pub isparquet: bool,
    pub isavro: bool,
}

/// Classify a file from the first bytes read out of it: ORC and Parquet
/// files announce themselves with a magic prefix, Avro files are recognized
/// by their path's extension. The preview text is the lossy decoding of the
/// bytes; the recorded length is the file's total length, not the preview's.
pub fn classify_preview(buf: &Vec<u8>, file_path: &str, total_length: usize) -> (r:
    HdfsFileContentPreview)
    ensures
        r.content@ == lossy_utf8(buf@),
        r.length == total_length,
        r.isorc == "ORC"@.is_prefix_of(lossy_utf8(buf@)),
        r.isparquet == "PAR1"@.is_prefix_of(lossy_utf8(buf@)),
        r.isavro == ".avro"@.is_suffix_of(file_path@),
{
    let content = utf8_lossy(buf);
    let isorc = str_starts_with(content.as_str(), "ORC");
    let isparquet = str_starts_with(content.as_str(), "PAR1");
    let isavro = str_ends_with(file_path, ".avro");
    HdfsFileContentPreview { length: total_length, content, isorc, isparquet, isavro }
}

/// A file's full content decoded for display.
#[derive(Debug, Clone)]
pub struct HdfsFileContent {
    pub length: usize,
    pub content: String,
}

/// Decode a file's bytes for display, keeping the file's total length
/// alongside.
pub fn file_content_of(buf: &Vec<u8>, total_length: usize) -> (r: HdfsFileContent)
    ensures
        r.content@ == lossy_utf8(buf@),
        r.length == total_length,
{
    HdfsFileContent { length: total_length, content: utf8_lossy(buf) }
}

/// One entry of a file's access control list, in display form.
#[derive(Debug, Clone)]
pub struct HdfsAclEntry {
    pub rtype: String,
    pub scope: String,
    pub permissions: String,
    pub name: Option<String>,
}

/// A file's access control list together with the file's own status.
#[derive(Debug, Clone)]
pub struct HdfsAcl {
    pub owner: String,
    pub group: String,
    pub sticky: bool,
    pub entries: Vec<HdfsAclEntry>,
    pub permission: u16,
    pub filestatus: HdfsFile,
}

} // verus!
