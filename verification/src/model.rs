use vstd::prelude::*;

use crate::chunks::blocks_view;
use crate::chunks::chunking;
use crate::ids::version_id_view;

verus! {

/// Largest content length accepted for a single file: 10 MiB.
pub const MAX_FILE_SIZE: usize = 10 * 1024 * 1024;

/// Total capacity of the store: 1 GiB.
pub const MAX_STORAGE_SIZE: usize = 1024 * 1024 * 1024;

/// Descriptive record attached to a stored file.
pub struct FileMetadata {
    /// Equal to the file's key in the store.
    pub name: String,
    /// Byte length of the file's current content.
    pub size: usize,
    /// Seconds since epoch at upload, supplied by the caller's clock.
    pub upload_timestamp: u64,
    /// Seconds since epoch at the last metadata or content change.
    pub last_modified: u64,
    /// Free-form type label; not validated.
    pub file_type: String,
    /// Never set by any current operation.
    pub is_encrypted: bool,
    /// Identifiers of recorded version snapshots, append-only.
    pub version_history: Vec<String>,
    /// Tag list, replaceable wholesale on metadata update.
    pub tags: Vec<String>,
}

/// A stored object: a named byte sequence plus its metadata.
pub struct File {
    pub name: String,
    pub content: Vec<u8>,
    pub metadata: FileMetadata,
}

/// One entry of the chunk-shard mapping: a key (file name or version id)
/// and the blocks the keyed content was split into.
pub struct ChunkEntry {
    pub key: String,
    pub blocks: Vec<Vec<u8>>,
}

/// Mathematical value of a metadata record.
#[verifier::ext_equal]
pub struct MetaModel {
    pub name: Seq<char>,
    pub size: nat,
    pub upload_timestamp: u64,
    pub last_modified: u64,
    pub file_type: Seq<char>,
    pub is_encrypted: bool,
    pub version_history: Seq<Seq<char>>,
    pub tags: Seq<Seq<char>>,
}

/// Mathematical value of a stored file.
#[verifier::ext_equal]
pub struct FileModel {
    pub name: Seq<char>,
    pub content: Seq<u8>,
    pub metadata: MetaModel,
}

/// Mathematical value of the whole store.
#[verifier::ext_equal]
pub struct StorageModel {
    /// The primary map, file name to file.
    pub files: Map<Seq<char>, FileModel>,
    /// The chunk-shard map, file name or version id to blocks.
    pub chunks: Map<Seq<char>, Seq<Seq<u8>>>,
    /// Sum of the content lengths of all live files.
    pub storage_usage: nat,
    /// Fixed capacity ceiling.
    pub max_storage_size: nat,
}

/// The character sequences held by a vector of strings.
pub open spec fn str_views(v: Seq<String>) -> Seq<Seq<char>> {
    v.map_values(|s: String| s@)
}

/// The character sequences held by an optional replacement tag list.
pub open spec fn opt_str_views(v: Option<Vec<String>>) -> Option<Seq<Seq<char>>> {
    match v {
        Option::Some(t) => Option::Some(str_views(t@)),
        Option::None => Option::None,
    }
}

impl View for FileMetadata {
    type V = MetaModel;

    open spec fn view(&self) -> MetaModel {
        MetaModel {
            name: self.name@,
            size: self.size as nat,
            upload_timestamp: self.upload_timestamp,
            last_modified: self.last_modified,
            file_type: self.file_type@,
            is_encrypted: self.is_encrypted,
            version_history: str_views(self.version_history@),
            tags: str_views(self.tags@),
        }
    }
}

impl View for File {
    type V = FileModel;

    open spec fn view(&self) -> FileModel {
        FileModel { name: self.name@, content: self.content@, metadata: self.metadata@ }
    }
}

impl FileModel {
    /// The metadata agrees with the file it describes.
    pub open spec fn wf(self) -> bool {
        &&& self.metadata.name == self.name
        &&& self.metadata.size == self.content.len()
    }
}

/// The models of a sequence of stored files.
pub open spec fn file_views(s: Seq<File>) -> Seq<FileModel> {
    s.map_values(|f: File| f@)
}

/// Some file in `s` carries this name.
pub open spec fn contains_name(s: Seq<File>, name: Seq<char>) -> bool {
    exists|i: int| 0 <= i < s.len() && s[i].name@ == name
}

/// No two files in `s` share a name.
pub open spec fn names_distinct(s: Seq<File>) -> bool {
    forall|i: int, j: int| 0 <= i < j < s.len() ==> s[i].name@ != s[j].name@
}

/// Some shard entry in `s` carries this key.
pub open spec fn contains_key(s: Seq<ChunkEntry>, key: Seq<char>) -> bool {
    exists|i: int| 0 <= i < s.len() && s[i].key@ == key
}

/// No two shard entries in `s` share a key.
pub open spec fn keys_distinct(s: Seq<ChunkEntry>) -> bool {
    forall|i: int, j: int| 0 <= i < j < s.len() ==> s[i].key@ != s[j].key@
}

/// Sum of the content lengths of the files in `s`.
pub open spec fn total_size(s: Seq<File>) -> nat
    decreases s.len(),
{
    if s.len() == 0 {
        0
    } else {
        total_size(s.drop_last()) + s.last().content@.len()
    }
}

/// The name-keyed map held by a sequence of stored files.
pub open spec fn files_map(s: Seq<File>) -> Map<Seq<char>, FileModel>
    decreases s.len(),
{
    if s.len() == 0 {
        Map::empty()
    } else {
        files_map(s.drop_last()).insert(s.last().name@, s.last()@)
    }
}

/// The key-keyed map held by a sequence of shard entries.
pub open spec fn chunks_map(s: Seq<ChunkEntry>) -> Map<Seq<char>, Seq<Seq<u8>>>
    decreases s.len(),
{
    if s.len() == 0 {
        Map::empty()
    } else {
        chunks_map(s.drop_last()).insert(s.last().key@, blocks_view(s.last().blocks@))
    }
}

/// Every tag of the query appears in the file's tag list.
pub open spec fn has_all_tags_seq(tags: Seq<Seq<char>>, q: Seq<Seq<char>>) -> bool {
    forall|i: int| 0 <= i < q.len() ==> tags.contains(#[trigger] q[i])
}

/// Every tag of the query appears among the file's tags.
pub open spec fn has_all_tags(f: FileModel, q: Seq<Seq<char>>) -> bool {
    has_all_tags_seq(f.metadata.tags, q)
}

/// Number of files in `files` whose type label is `t`.
pub open spec fn count_type(files: Seq<FileModel>, t: Seq<char>) -> nat
    decreases files.len(),
{
    if files.len() == 0 {
        0
    } else {
        count_type(files.drop_last(), t) + if files.last().metadata.file_type == t {
            1nat
        } else {
            0nat
        }
    }
}

/// The store accepts an upload of this length: it is within the per-file cap
/// and fits under the capacity ceiling next to what is already used.
pub open spec fn upload_accepted(s: StorageModel, len: nat) -> bool {
    &&& len <= MAX_FILE_SIZE
    &&& s.storage_usage + len <= s.max_storage_size
}

/// Content length charged to the name before an upload: the stored file's
/// size when the name is taken, zero otherwise.
pub open spec fn prior_size(s: StorageModel, name: Seq<char>) -> nat {
    if s.files.contains_key(name) {
        s.files[name].content.len()
    } else {
        0
    }
}

/// The file record a successful upload stores.
pub open spec fn fresh_file_model(
    name: Seq<char>,
    content: Seq<u8>,
    file_type: Seq<char>,
    tags: Seq<Seq<char>>,
    now: u64,
) -> FileModel {
    FileModel {
        name,
        content,
        metadata: MetaModel {
            name,
            size: content.len(),
            upload_timestamp: now,
            last_modified: now,
            file_type,
            is_encrypted: false,
            version_history: Seq::empty(),
            tags,
        },
    }
}

/// State change of a successful upload: the file and its shard are written
/// under `name`, and the usage gains the new length in place of whatever the
/// name was charged before.
pub open spec fn upload_post(
    pre: StorageModel,
    post: StorageModel,
    name: Seq<char>,
    content: Seq<u8>,
    file_type: Seq<char>,
    tags: Seq<Seq<char>>,
    now: u64,
) -> bool {
    &&& post.files == pre.files.insert(
        name,
        fresh_file_model(name, content, file_type, tags, now),
    )
    &&& post.chunks == pre.chunks.insert(name, chunking(content))
    &&& post.storage_usage == pre.storage_usage + content.len() - prior_size(pre, name)
    &&& post.max_storage_size == pre.max_storage_size
}

/// State change of a successful delete: the file and the shard under its
/// name go away and the usage drops by the file's content length. Shards
/// recorded under version ids stay.
pub open spec fn delete_post(pre: StorageModel, post: StorageModel, name: Seq<char>) -> bool {
    &&& post.files == pre.files.remove(name)
    &&& post.chunks == pre.chunks.remove(name)
    &&& post.storage_usage == pre.storage_usage - pre.files[name].content.len()
    &&& post.max_storage_size == pre.max_storage_size
}

/// The stored file after a metadata update: the tag list is replaced when a
/// new one is supplied, and the modification stamp is refreshed either way.
pub open spec fn retagged_model(f: FileModel, new_tags: Option<Seq<Seq<char>>>, now: u64) -> FileModel {
    FileModel {
        metadata: MetaModel {
            last_modified: now,
            tags: match new_tags {
                Option::Some(t) => t,
                Option::None => f.metadata.tags,
            },
            ..f.metadata
        },
        ..f
    }
}

/// State change of a successful metadata update: only the named file's
/// metadata changes; content, shards and usage stay.
pub open spec fn update_metadata_post(
    pre: StorageModel,
    post: StorageModel,
    name: Seq<char>,
    new_tags: Option<Seq<Seq<char>>>,
    now: u64,
) -> bool {
    &&& post.files == pre.files.insert(name, retagged_model(pre.files[name], new_tags, now))
    &&& post.chunks == pre.chunks
    &&& post.storage_usage == pre.storage_usage
    &&& post.max_storage_size == pre.max_storage_size
}

/// The stored file after a version snapshot: the new version id is appended
/// to its history and nothing else changes.
pub open spec fn versioned_model(f: FileModel, vid: Seq<char>) -> FileModel {
    FileModel {
        metadata: MetaModel { version_history: f.metadata.version_history.push(vid), ..f.metadata },
        ..f
    }
}

/// State change of a successful version snapshot: the version id goes into
/// the named file's history, the supplied content's blocks are stored under
/// the version id, and the file's own content, size and the usage stay.
pub open spec fn version_post(
    pre: StorageModel,
    post: StorageModel,
    name: Seq<char>,
    content: Seq<u8>,
    now: u64,
) -> bool {
    &&& post.files == pre.files.insert(
        name,
        versioned_model(pre.files[name], version_id_view(name, now)),
    )
    &&& post.chunks == pre.chunks.insert(version_id_view(name, now), chunking(content))
    &&& post.storage_usage == pre.storage_usage
    &&& post.max_storage_size == pre.max_storage_size
}

/// What a search result is: exactly the stored files carrying every queried
/// tag, each reported once, order unspecified.
pub open spec fn search_post(s: StorageModel, q: Seq<Seq<char>>, r: Seq<FileModel>) -> bool {
    &&& forall|i: int|
        0 <= i < r.len() ==> {
            &&& s.files.contains_key((#[trigger] r[i]).name)
            &&& s.files[r[i].name] == r[i]
            &&& has_all_tags(r[i], q)
        }
    &&& forall|n: Seq<char>|
        #[trigger] s.files.contains_key(n) && has_all_tags(s.files[n], q) ==> exists|i: int|
            0 <= i < r.len() && r[i].name == n
    &&& forall|i: int, j: int| 0 <= i < j < r.len() ==> r[i].name != r[j].name
}

} // verus!
