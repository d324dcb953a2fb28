use vstd::prelude::*;
use vstd::pervasive::VecAdditionalExecFns;

use crate::chunks::blocks_view;
use crate::chunks::chunking;
use crate::chunks::is_chunked;
use crate::chunks::split_into_chunks;
use crate::errors::StorageError;
use crate::ids::version_id;
use crate::lemmas::lemma_chunks_map_contains;
use crate::lemmas::lemma_count_type_bound;
use crate::lemmas::lemma_count_type_pos;
use crate::lemmas::lemma_count_type_step;
use crate::lemmas::lemma_chunks_map_push;
use crate::lemmas::lemma_chunks_map_remove;
use crate::lemmas::lemma_files_map_contains;
use crate::lemmas::lemma_files_map_index;
use crate::lemmas::lemma_files_map_push;
use crate::lemmas::lemma_files_map_remove;
use crate::model::ChunkEntry;
use crate::model::File;
use crate::model::FileMetadata;
use crate::model::FileModel;
use crate::model::MAX_FILE_SIZE;
use crate::model::MAX_STORAGE_SIZE;
use crate::model::StorageModel;
use crate::model::chunks_map;
use crate::model::contains_key;
use crate::model::contains_name;
use crate::model::count_type;
use crate::model::delete_post;
use crate::model::file_views;
use crate::model::files_map;
use crate::model::has_all_tags;
use crate::model::has_all_tags_seq;
use crate::model::search_post;
use crate::model::fresh_file_model;
use crate::model::keys_distinct;
use crate::model::names_distinct;
use crate::model::opt_str_views;
use crate::model::retagged_model;
use crate::model::str_views;
use crate::model::total_size;
use crate::model::update_metadata_post;
use crate::model::upload_accepted;
use crate::model::upload_post;
use crate::model::version_post;
use crate::model::versioned_model;

verus! {

/// The storage engine: all files, their chunk shards, and the usage
/// counters, behind one exclusively owned state value. Callers construct one
/// with [`FileStorage::new`] and pass it by reference into each operation;
/// the operations that read a clock take the current time in seconds as an
/// argument, supplied by the surrounding transport.
///
/// Re-uploading a taken name overwrites the stored file; the usage counter
/// reclaims the overwritten size before charging the new one, so it always
/// equals the sum of the live content lengths.
pub struct FileStorage {
    pub files: Vec<File>,
    pub file_chunks: Vec<ChunkEntry>,
    pub storage_usage: usize,
    pub max_storage_size: usize,
}

impl View for FileStorage {
    type V = StorageModel;

    open spec fn view(&self) -> StorageModel {
        StorageModel {
            files: files_map(self.files@),
            chunks: chunks_map(self.file_chunks@),
            storage_usage: self.storage_usage as nat,
            max_storage_size: self.max_storage_size as nat,
        }
    }
}

impl FileStorage {
    /// Well-formedness of the engine's state: names and shard keys are
    /// unique, each file's metadata agrees with it, each file has a shard
    /// under its name, every shard is a canonical block split, and the usage
    /// counter equals the sum of the live content lengths and stays under
    /// the fixed capacity.
    pub open spec fn wf(self) -> bool {
        &&& names_distinct(self.files@)
        &&& keys_distinct(self.file_chunks@)
        &&& forall|i: int| 0 <= i < self.files@.len() ==> (#[trigger] self.files@[i])@.wf()
        &&& forall|i: int|
            0 <= i < self.files@.len() ==> contains_key(
                self.file_chunks@,
                (#[trigger] self.files@[i]).name@,
            )
        &&& forall|i: int|
            0 <= i < self.file_chunks@.len() ==> is_chunked(
                blocks_view((#[trigger] self.file_chunks@[i]).blocks@),
            )
        &&& self.storage_usage as nat == total_size(self.files@)
        &&& self.storage_usage <= self.max_storage_size
        &&& self.max_storage_size == MAX_STORAGE_SIZE
    }

    /// Creates an empty store with the fixed 1 GiB capacity.
    pub fn new() -> (s: FileStorage)
        ensures
            s.wf(),
            s@.files == Map::<Seq<char>, FileModel>::empty(),
            s@.chunks == Map::<Seq<char>, Seq<Seq<u8>>>::empty(),
            s@.storage_usage == 0,
            s@.max_storage_size == MAX_STORAGE_SIZE as nat,
    {
        FileStorage {
            files: Vec::new(),
            file_chunks: Vec::new(),
            storage_usage: 0,
            max_storage_size: MAX_STORAGE_SIZE,
        }
    }

    /// Stores `content` under `name` with fresh metadata, splits it into a
    /// chunk shard under the same name, and charges the usage counter.
    /// Rejects with `StorageLimit` when the content is over the per-file cap
    /// or would not fit under the capacity ceiling; a rejection leaves the
    /// state untouched. An existing file under `name` is overwritten and its
    /// size reclaimed before the new size is charged.
    pub fn upload_file(
        &mut self,
        name: String,
        content: Vec<u8>,
        file_type: String,
        tags: Vec<String>,
        now: u64,
    ) -> (r: Result<bool, StorageError>)
        requires
            old(self).wf(),
        ensures
            final(self).wf(),
            upload_accepted(old(self)@, content@.len() as nat) ==> r == Result::<
                bool,
                StorageError,
            >::Ok(true) && upload_post(
                old(self)@,
                final(self)@,
                name@,
                content@,
                file_type@,
                str_views(tags@),
                now,
            ),
            !upload_accepted(old(self)@, content@.len() as nat) ==> r == Result::<
                bool,
                StorageError,
            >::Err(StorageError::StorageLimit) && *final(self) == *old(self),
    {
        let ghost pre = *self;
        if content.len() > MAX_FILE_SIZE {
            return Result::Err(StorageError::StorageLimit);
        }
        if self.storage_usage + content.len() > self.max_storage_size {
            return Result::Err(StorageError::StorageLimit);
        }
        let content_len = content.len();
        let blocks = split_into_chunks(&content);
        let metadata = FileMetadata {
            name: name.clone(),
            size: content_len,
            upload_timestamp: now,
            last_modified: now,
            file_type,
            is_encrypted: false,
            version_history: Vec::new(),
            tags,
        };
        let file = File { name: name.clone(), content, metadata };
        let ghost gfile = file;
        let entry = ChunkEntry { key: name.clone(), blocks };
        let ghost gentry = entry;
        proof {
            assert(str_views(Seq::<String>::empty()) =~= Seq::<Seq<char>>::empty());
            assert(gfile@ =~= fresh_file_model(
                name@,
                gfile.content@,
                gfile.metadata.file_type@,
                str_views(gfile.metadata.tags@),
                now,
            ));
            lemma_files_map_contains(self.files@, name@);
        }
        let ghost gfi: Option<int>;
        match find_file(&self.files, &name) {
            Option::Some(i) => {
                proof {
                    gfi = Option::Some(i as int);
                    lemma_files_map_index(pre.files@, i as int);
                    lemma_files_map_remove(pre.files@, i as int);
                }
                let old_file = self.files.remove(i);
                self.storage_usage = self.storage_usage - old_file.content.len();
            },
            Option::None => {
                proof {
                    gfi = Option::None;
                }
            },
        }
        let ghost gci: Option<int>;
        let ghost entries0 = self.file_chunks@;
        match find_chunk(&self.file_chunks, &name) {
            Option::Some(ci) => {
                proof {
                    gci = Option::Some(ci as int);
                    lemma_chunks_map_remove(entries0, ci as int);
                }
                let _ = self.file_chunks.remove(ci);
            },
            Option::None => {
                proof {
                    gci = Option::None;
                    lemma_chunks_map_contains(entries0, name@);
                }
            },
        }
        proof {
            lemma_files_map_push(self.files@, gfile);
            lemma_chunks_map_push(self.file_chunks@, gentry);
        }
        self.files.push(file);
        self.file_chunks.push(entry);
        self.storage_usage = self.storage_usage + content_len;
        proof {
            assert(files_map(self.files@) =~= pre@.files.insert(name@, gfile@));
            assert(chunks_map(self.file_chunks@) =~= pre@.chunks.insert(
                name@,
                chunking(gfile.content@),
            ));
            lemma_wf_replace(pre, *self, gfi, gci, gfile, Option::Some(gentry));
        }
        Result::Ok(true)
    }

    /// Read-only lookup: a full copy of the stored file, or `FileNotFound`.
    pub fn download_file(&self, name: &String) -> (r: Result<File, StorageError>)
        requires
            self.wf(),
        ensures
            r is Ok <==> self@.files.contains_key(name@),
            (r matches Ok(f) ==> f@ == self@.files[name@]),
            (r matches Err(e) ==> e == StorageError::FileNotFound),
    {
        proof {
            lemma_files_map_contains(self.files@, name@);
        }
        match find_file(&self.files, name) {
            Option::Some(i) => {
                proof {
                    lemma_files_map_index(self.files@, i as int);
                }
                Result::Ok(clone_file(&self.files[i]))
            },
            Option::None => Result::Err(StorageError::FileNotFound),
        }
    }

    /// Removes the file and the chunk shard stored under its name and
    /// reclaims its content length from the usage counter. Shards recorded
    /// under version ids stay behind: delete has never cascaded to them.
    pub fn delete_file(&mut self, name: &String) -> (r: Result<bool, StorageError>)
        requires
            old(self).wf(),
        ensures
            final(self).wf(),
            old(self)@.files.contains_key(name@) ==> r == Result::<bool, StorageError>::Ok(true)
                && delete_post(old(self)@, final(self)@, name@),
            !old(self)@.files.contains_key(name@) ==> r == Result::<bool, StorageError>::Err(
                StorageError::FileNotFound,
            ) && *final(self) == *old(self),
    {
        let ghost pre = *self;
        proof {
            lemma_files_map_contains(self.files@, name@);
        }
        let fi = match find_file(&self.files, name) {
            Option::Some(i) => i,
            Option::None => {
                return Result::Err(StorageError::FileNotFound);
            },
        };
        proof {
            lemma_files_map_index(pre.files@, fi as int);
            lemma_files_map_remove(pre.files@, fi as int);
        }
        let file = self.files.remove(fi);
        self.storage_usage = self.storage_usage - file.content.len();
        proof {
            lemma_chunks_map_contains(pre.file_chunks@, name@);
        }
        match find_chunk(&self.file_chunks, name) {
            Option::Some(ci) => {
                proof {
                    lemma_chunks_map_remove(pre.file_chunks@, ci as int);
                }
                let _ = self.file_chunks.remove(ci);
                proof {
                    lemma_wf_after_delete(pre, *self, fi as int, ci as int);
                }
            },
            Option::None => {
                proof {
                    assert(false);
                }
            },
        }
        Result::Ok(true)
    }

    /// Replaces the tag list when a new one is supplied and refreshes the
    /// modification stamp either way; content, size, shards and usage stay.
    pub fn update_file_metadata(
        &mut self,
        name: &String,
        new_tags: Option<Vec<String>>,
        now: u64,
    ) -> (r: Result<bool, StorageError>)
        requires
            old(self).wf(),
        ensures
            final(self).wf(),
            old(self)@.files.contains_key(name@) ==> r == Result::<bool, StorageError>::Ok(true)
                && update_metadata_post(
                old(self)@,
                final(self)@,
                name@,
                opt_str_views(new_tags),
                now,
            ),
            !old(self)@.files.contains_key(name@) ==> r == Result::<bool, StorageError>::Err(
                StorageError::FileNotFound,
            ) && *final(self) == *old(self),
    {
        let ghost pre = *self;
        let ghost gtags = new_tags;
        proof {
            lemma_files_map_contains(self.files@, name@);
        }
        let fi = match find_file(&self.files, name) {
            Option::Some(i) => i,
            Option::None => {
                return Result::Err(StorageError::FileNotFound);
            },
        };
        proof {
            lemma_files_map_index(pre.files@, fi as int);
            lemma_files_map_remove(pre.files@, fi as int);
        }
        let mut file = self.files.remove(fi);
        match new_tags {
            Option::Some(t) => {
                file.metadata.tags = t;
            },
            Option::None => {},
        }
        file.metadata.last_modified = now;
        let ghost gfile = file;
        proof {
            lemma_files_map_push(self.files@, gfile);
        }
        self.files.push(file);
        proof {
            assert(gfile@ =~= retagged_model(pre@.files[name@], opt_str_views(gtags), now));
            assert(files_map(self.files@) =~= pre@.files.insert(name@, gfile@));
            lemma_wf_replace(
                pre,
                *self,
                Option::Some(fi as int),
                Option::None,
                gfile,
                Option::None,
            );
        }
        Result::Ok(true)
    }

    /// Records a version snapshot: appends the id derived from the name and
    /// the clock reading to the file's history and stores the supplied
    /// content's blocks under that id. The file's own content, its size and
    /// the usage counter deliberately stay as they are.
    pub fn create_file_version(&mut self, name: &String, content: Vec<u8>, now: u64) -> (r: Result<
        bool,
        StorageError,
    >)
        requires
            old(self).wf(),
        ensures
            final(self).wf(),
            old(self)@.files.contains_key(name@) ==> r == Result::<bool, StorageError>::Ok(true)
                && version_post(old(self)@, final(self)@, name@, content@, now),
            !old(self)@.files.contains_key(name@) ==> r == Result::<bool, StorageError>::Err(
                StorageError::FileNotFound,
            ) && *final(self) == *old(self),
    {
        let ghost pre = *self;
        proof {
            lemma_files_map_contains(self.files@, name@);
        }
        let fi = match find_file(&self.files, name) {
            Option::Some(i) => i,
            Option::None => {
                return Result::Err(StorageError::FileNotFound);
            },
        };
        let vid = version_id(name, now);
        let blocks = split_into_chunks(&content);
        let entry = ChunkEntry { key: vid.clone(), blocks };
        let ghost gentry = entry;
        proof {
            lemma_files_map_index(pre.files@, fi as int);
            lemma_files_map_remove(pre.files@, fi as int);
        }
        let mut file = self.files.remove(fi);
        file.metadata.version_history.push(vid);
        let ghost gfile = file;
        proof {
            lemma_files_map_push(self.files@, gfile);
        }
        self.files.push(file);
        let ghost gci: Option<int>;
        let ghost entries0 = self.file_chunks@;
        match find_chunk(&self.file_chunks, &entry.key) {
            Option::Some(ci) => {
                proof {
                    gci = Option::Some(ci as int);
                    lemma_chunks_map_remove(entries0, ci as int);
                }
                let _ = self.file_chunks.remove(ci);
            },
            Option::None => {
                proof {
                    gci = Option::None;
                    lemma_chunks_map_contains(entries0, gentry.key@);
                }
            },
        }
        proof {
            lemma_chunks_map_push(self.file_chunks@, gentry);
        }
        self.file_chunks.push(entry);
        proof {
            assert(str_views(gfile.metadata.version_history@) =~= str_views(
                pre.files@[fi as int].metadata.version_history@,
            ).push(gentry.key@));
            assert(gfile@ =~= versioned_model(pre@.files[name@], gentry.key@));
            assert(files_map(self.files@) =~= pre@.files.insert(name@, gfile@));
            assert(chunks_map(self.file_chunks@) =~= pre@.chunks.insert(
                gentry.key@,
                chunking(content@),
            ));
            lemma_wf_replace(
                pre,
                *self,
                Option::Some(fi as int),
                gci,
                gfile,
                Option::Some(gentry),
            );
        }
        Result::Ok(true)
    }

    /// Returns copies of exactly the stored files whose tag list carries
    /// every queried tag; an empty query matches every file. Order is
    /// unspecified.
    #[verifier::rlimit(100)]
    pub fn search_by_tags(&self, tags: &Vec<String>) -> (r: Vec<File>)
        requires
            self.wf(),
        ensures
            search_post(self@, str_views(tags@), r@.map_values(|f: File| f@)),
    {
        let ghost q = str_views(tags@);
        let n = self.files.len();
        let mut out: Vec<File> = Vec::new();
        let mut k: usize = 0;
        while k < n
            invariant
                self.wf(),
                k <= n,
                n == self.files@.len(),
                q == str_views(tags@),
                forall|i: int|
                    0 <= i < out@.len() ==> exists|j: int|
                        0 <= j < k && (#[trigger] out@[i])@ == self.files@[j]@,
                forall|i: int| 0 <= i < out@.len() ==> has_all_tags((#[trigger] out@[i])@, q),
                forall|j: int|
                    0 <= j < k && has_all_tags((#[trigger] self.files@[j])@, q) ==> exists|i: int|
                        0 <= i < out@.len() && out@[i]@ == self.files@[j]@,
                forall|i1: int, i2: int|
                    0 <= i1 < i2 < out@.len() ==> out@[i1]@.name != out@[i2]@.name,
            decreases n - k,
        {
            let ghost out0 = out@;
            let matched = has_all_tags_exec(&self.files[k].metadata.tags, tags);
            proof {
                assert(matched == has_all_tags(self.files@[k as int]@, q));
            }
            if matched {
                let copied = clone_file(&self.files[k]);
                out.push(copied);
                proof {
                    assert(out@[out@.len() - 1]@ == self.files@[k as int]@);
                    assert forall|i: int| 0 <= i < out0.len() implies (#[trigger] out@[i])@.name
                        != out@[out@.len() - 1]@.name by {
                        let j = choose|j: int| 0 <= j < k && out0[i]@ == self.files@[j]@;
                        assert(out@[i]@ == self.files@[j]@);
                        assert(self.files@[j].name@ != self.files@[k as int].name@);
                    };
                }
            }
            proof {
                assert(forall|i: int| 0 <= i < out0.len() ==> out@[i] == out0[i]);
                assert forall|j: int|
                    0 <= j < k + 1 && has_all_tags((#[trigger] self.files@[j])@, q) implies exists|
                    i: int,
                |
                    0 <= i < out@.len() && out@[i]@ == self.files@[j]@ by {
                    if j < k {
                        let i = choose|i: int| 0 <= i < out0.len() && out0[i]@ == self.files@[j]@;
                        assert(out@[i]@ == self.files@[j]@);
                    } else {
                        assert(matched);
                        assert(out@[out@.len() - 1]@ == self.files@[j]@);
                    }
                };
                assert forall|i: int| 0 <= i < out@.len() implies exists|j: int|
                    0 <= j < k + 1 && (#[trigger] out@[i])@ == self.files@[j]@ by {
                    if i < out0.len() {
                        let j = choose|j: int| 0 <= j < k && out0[i]@ == self.files@[j]@;
                        assert(out@[i]@ == self.files@[j]@);
                    } else {
                        assert(out@[i]@ == self.files@[k as int]@);
                    }
                };
            }
            k = k + 1;
        }
        proof {
            let rv = out@.map_values(|f: File| f@);
            assert forall|i: int| 0 <= i < rv.len() implies {
                &&& self@.files.contains_key((#[trigger] rv[i]).name)
                &&& self@.files[rv[i].name] == rv[i]
                &&& has_all_tags(rv[i], q)
            } by {
                let j = choose|j: int| 0 <= j < n && out@[i]@ == self.files@[j]@;
                lemma_files_map_index(self.files@, j);
            };
            assert forall|nm: Seq<char>|
                #[trigger] self@.files.contains_key(nm) && has_all_tags(self@.files[nm], q)
            implies exists|i: int| 0 <= i < rv.len() && rv[i].name == nm by {
                lemma_files_map_contains(self.files@, nm);
                let j = choose|j: int| 0 <= j < self.files@.len() && self.files@[j].name@ == nm;
                lemma_files_map_index(self.files@, j);
                assert(has_all_tags(self.files@[j]@, q));
                let i = choose|i: int| 0 <= i < out@.len() && out@[i]@ == self.files@[j]@;
                assert(rv[i].name == nm);
            };
            assert forall|i: int, j: int| 0 <= i < j < rv.len() implies rv[i].name != rv[j].name by {
                assert(rv[i] == out@[i]@ && rv[j] == out@[j]@);
            };
        }
        out
    }

    /// Read-only counters: current usage, the capacity ceiling, and the
    /// number of live files.
    pub fn get_storage_analytics(&self) -> (r: (usize, usize, usize))
        requires
            self.wf(),
        ensures
            r.0 as nat == self@.storage_usage,
            r.1 as nat == self@.max_storage_size,
            r.2 as nat == self@.files.dom().len(),
    {
        proof {
            crate::lemmas::lemma_files_map_len(self.files@);
        }
        (self.storage_usage, self.max_storage_size, self.files.len())
    }

    /// Groups the live files by their type label and counts each group.
    /// Every label that occurs is reported exactly once, with the number of
    /// live files carrying it; order is unspecified.
    pub fn get_file_type_distribution(&self) -> (r: Vec<(String, usize)>)
        requires
            self.wf(),
        ensures
            forall|i: int, j: int| 0 <= i < j < r@.len() ==> r@[i].0@ != r@[j].0@,
            forall|i: int|
                0 <= i < r@.len() ==> (#[trigger] r@[i]).1 as nat == count_type(
                    file_views(self.files@),
                    r@[i].0@,
                ) && r@[i].1 > 0,
            forall|j: int|
                0 <= j < self.files@.len() ==> exists|i: int|
                    0 <= i < r@.len() && r@[i].0@ == (#[trigger] self.files@[j])@.metadata.file_type,
    {
        let ghost fv = file_views(self.files@);
        let n = self.files.len();
        let mut r: Vec<(String, usize)> = Vec::new();
        let mut k: usize = 0;
        proof {
            assert(fv.take(0) =~= Seq::<FileModel>::empty());
        }
        while k < n
            invariant
                self.wf(),
                k <= n,
                n == self.files@.len(),
                fv == file_views(self.files@),
                forall|i: int, j: int| 0 <= i < j < r@.len() ==> r@[i].0@ != r@[j].0@,
                forall|i: int|
                    0 <= i < r@.len() ==> (#[trigger] r@[i]).1 as nat == count_type(
                        fv.take(k as int),
                        r@[i].0@,
                    ) && r@[i].1 > 0,
                forall|j: int|
                    0 <= j < k ==> exists|i: int|
                        0 <= i < r@.len() && r@[i].0@ == (
                        #[trigger] self.files@[j])@.metadata.file_type,
            decreases n - k,
        {
            let ghost r0 = r@;
            let t = &self.files[k].metadata.file_type;
            proof {
                assert(fv[k as int] == self.files@[k as int]@);
            }
            match find_type(&r, t) {
                Option::Some(i) => {
                    let count = r[i].1;
                    proof {
                        lemma_count_type_bound(fv.take(k as int), t@);
                    }
                    let label = r[i].0.clone();
                    r.set(i, (label, count + 1));
                    proof {
                        assert(forall|i2: int| 0 <= i2 < r@.len() ==> r@[i2].0 == r0[i2].0);
                        assert forall|i2: int| 0 <= i2 < r@.len() implies (#[trigger] r@[i2]).1
                            as nat == count_type(fv.take(k as int + 1), r@[i2].0@) && r@[i2].1 > 0 by {
                            lemma_count_type_step(fv, k as int, r@[i2].0@);
                            if i2 != i {
                                assert(r@[i2] == r0[i2]);
                                assert(r0[i2].0@ != r0[i as int].0@);
                            }
                        };
                        assert(r@[i as int].0@ == t@);
                        assert(exists|i2: int| 0 <= i2 < r@.len() && r@[i2].0@ == t@);
                    }
                },
                Option::None => {
                    proof {
                        if count_type(fv.take(k as int), t@) > 0 {
                            lemma_count_type_pos(fv.take(k as int), t@);
                            let j = choose|j: int|
                                0 <= j < fv.take(k as int).len() && fv.take(
                                    k as int,
                                )[j].metadata.file_type == t@;
                            assert(self.files@[j]@ == fv[j]);
                            assert(exists|i: int| 0 <= i < r0.len() && r0[i].0@ == t@);
                            assert(false);
                        }
                    }
                    r.push((t.clone(), 1));
                    proof {
                        assert(forall|i2: int| 0 <= i2 < r0.len() ==> r@[i2].0 == r0[i2].0);
                        assert forall|i2: int| 0 <= i2 < r@.len() implies (#[trigger] r@[i2]).1
                            as nat == count_type(fv.take(k as int + 1), r@[i2].0@) && r@[i2].1 > 0 by {
                            lemma_count_type_step(fv, k as int, r@[i2].0@);
                            if i2 < r@.len() - 1 {
                                assert(r@[i2] == r0[i2]);
                            } else {
                                assert(r@[i2].0@ == t@);
                            }
                        };
                        assert(r@[r@.len() - 1].0@ == t@);
                        assert(exists|i2: int| 0 <= i2 < r@.len() && r@[i2].0@ == t@);
                    }
                },
            }
            proof {
                assert forall|j: int| 0 <= j < k + 1 implies exists|i: int|
                    0 <= i < r@.len() && r@[i].0@ == (
                    #[trigger] self.files@[j])@.metadata.file_type by {
                    if j < k {
                        let i = choose|i: int|
                            0 <= i < r0.len() && r0[i].0@ == self.files@[j]@.metadata.file_type;
                        assert(r@[i].0@ == r0[i].0@);
                    } else {
                        assert(self.files@[j]@.metadata.file_type == t@);
                    }
                };
            }
            k = k + 1;
        }
        proof {
            assert(fv.take(n as int) =~= fv);
        }
        r
    }
}

/// Index of the file carrying `name`, if any.
fn find_file(files: &Vec<File>, name: &String) -> (r: Option<usize>)
    ensures
        (match r {
            Option::Some(i) => i < files@.len() && files@[i as int].name@ == name@,
            Option::None => !contains_name(files@, name@),
        }),
{
    let n = files.len();
    let mut i: usize = 0;
    while i < n
        invariant
            i <= n,
            n == files@.len(),
            forall|j: int| 0 <= j < i ==> files@[j].name@ != name@,
        decreases n - i,
    {
        if files[i].name == *name {
            return Option::Some(i);
        }
        i = i + 1;
    }
    Option::None
}

/// Index of the shard entry carrying `key`, if any.
fn find_chunk(entries: &Vec<ChunkEntry>, key: &String) -> (r: Option<usize>)
    ensures
        (match r {
            Option::Some(i) => i < entries@.len() && entries@[i as int].key@ == key@,
            Option::None => !contains_key(entries@, key@),
        }),
{
    let n = entries.len();
    let mut i: usize = 0;
    while i < n
        invariant
            i <= n,
            n == entries@.len(),
            forall|j: int| 0 <= j < i ==> entries@[j].key@ != key@,
        decreases n - i,
    {
        if entries[i].key == *key {
            return Option::Some(i);
        }
        i = i + 1;
    }
    Option::None
}

/// Whether some string in `tags` reads `t`.
fn tags_contain(tags: &Vec<String>, t: &String) -> (r: bool)
    ensures
        r == str_views(tags@).contains(t@),
{
    let n = tags.len();
    let mut i: usize = 0;
    while i < n
        invariant
            i <= n,
            n == tags@.len(),
            forall|j: int| 0 <= j < i ==> str_views(tags@)[j] != t@,
        decreases n - i,
    {
        if tags[i] == *t {
            proof {
                assert(str_views(tags@)[i as int] == t@);
            }
            return true;
        }
        i = i + 1;
    }
    false
}

/// Whether every string of `query` appears in `file_tags`.
fn has_all_tags_exec(file_tags: &Vec<String>, query: &Vec<String>) -> (r: bool)
    ensures
        r == has_all_tags_seq(str_views(file_tags@), str_views(query@)),
{
    let n = query.len();
    let mut i: usize = 0;
    while i < n
        invariant
            i <= n,
            n == query@.len(),
            forall|j: int|
                0 <= j < i ==> str_views(file_tags@).contains(#[trigger] str_views(query@)[j]),
        decreases n - i,
    {
        if !tags_contain(file_tags, &query[i]) {
            proof {
                assert(!str_views(file_tags@).contains(str_views(query@)[i as int]));
            }
            return false;
        }
        proof {
            assert(str_views(query@)[i as int] == query@[i as int]@);
        }
        i = i + 1;
    }
    true
}

/// Index of the distribution entry labelled `t`, if any.
fn find_type(dist: &Vec<(String, usize)>, t: &String) -> (r: Option<usize>)
    ensures
        (match r {
            Option::Some(i) => i < dist@.len() && dist@[i as int].0@ == t@,
            Option::None => forall|i: int| 0 <= i < dist@.len() ==> dist@[i].0@ != t@,
        }),
{
    let n = dist.len();
    let mut i: usize = 0;
    while i < n
        invariant
            i <= n,
            n == dist@.len(),
            forall|j: int| 0 <= j < i ==> dist@[j].0@ != t@,
        decreases n - i,
    {
        if dist[i].0 == *t {
            return Option::Some(i);
        }
        i = i + 1;
    }
    Option::None
}

/// A fresh vector holding the same bytes.
fn copy_bytes(v: &Vec<u8>) -> (r: Vec<u8>)
    ensures
        r@ == v@,
{
    let n = v.len();
    let mut r: Vec<u8> = Vec::new();
    let mut i: usize = 0;
    while i < n
        invariant
            i <= n,
            n == v@.len(),
            r@ == v@.take(i as int),
        decreases n - i,
    {
        r.push(v[i]);
        assert(r@ =~= v@.take(i as int + 1));
        i = i + 1;
    }
    assert(v@.take(n as int) =~= v@);
    r
}

/// A fresh vector holding equal strings.
fn copy_strings(v: &Vec<String>) -> (r: Vec<String>)
    ensures
        r@ == v@,
{
    let n = v.len();
    let mut r: Vec<String> = Vec::new();
    let mut i: usize = 0;
    while i < n
        invariant
            i <= n,
            n == v@.len(),
            r@ == v@.take(i as int),
        decreases n - i,
    {
        r.push(v[i].clone());
        assert(r@ =~= v@.take(i as int + 1));
        i = i + 1;
    }
    assert(v@.take(n as int) =~= v@);
    r
}

/// A full copy of a stored file, equal to the original in the model.
fn clone_file(f: &File) -> (r: File)
    ensures
        r@ == f@,
{
    let r = File {
        name: f.name.clone(),
        content: copy_bytes(&f.content),
        metadata: FileMetadata {
            name: f.metadata.name.clone(),
            size: f.metadata.size,
            upload_timestamp: f.metadata.upload_timestamp,
            last_modified: f.metadata.last_modified,
            file_type: f.metadata.file_type.clone(),
            is_encrypted: f.metadata.is_encrypted,
            version_history: copy_strings(&f.metadata.version_history),
            tags: copy_strings(&f.metadata.tags),
        },
    };
    proof {
        assert(r@ =~= f@);
    }
    r
}

/// Deleting file `fi` together with the shard entry `ci` under its name
/// keeps the state well-formed.
proof fn lemma_wf_after_delete(pre: FileStorage, post: FileStorage, fi: int, ci: int)
    requires
        pre.wf(),
        0 <= fi < pre.files@.len(),
        0 <= ci < pre.file_chunks@.len(),
        pre.file_chunks@[ci].key@ == pre.files@[fi].name@,
        post.files@ == pre.files@.remove(fi),
        post.file_chunks@ == pre.file_chunks@.remove(ci),
        post.storage_usage as nat == total_size(post.files@),
        post.storage_usage <= post.max_storage_size,
        post.max_storage_size == pre.max_storage_size,
    ensures
        post.wf(),
{
    let fs = pre.files@;
    let es = pre.file_chunks@;
    assert(forall|k: int|
        0 <= k < post.files@.len() ==> post.files@[k] == (if k < fi {
            fs[k]
        } else {
            fs[k + 1]
        }));
    assert(forall|k: int|
        0 <= k < post.file_chunks@.len() ==> post.file_chunks@[k] == (if k < ci {
            es[k]
        } else {
            es[k + 1]
        }));
    assert forall|a: int| 0 <= a < post.files@.len() implies contains_key(
        post.file_chunks@,
        (post.files@[a]).name@,
    ) by {
        let a0 = if a < fi {
            a
        } else {
            a + 1
        };
        let n = fs[a0].name@;
        assert(contains_key(es, n));
        let w = choose|w: int| 0 <= w < es.len() && es[w].key@ == n;
        assert(a0 != fi);
        assert(n != fs[fi].name@);
        assert(w != ci);
        let w1 = if w < ci {
            w
        } else {
            w - 1
        };
        assert(post.file_chunks@[w1] == es[w]);
    };
}

/// Writing file `f`, in place of the file `fi` when one held its name, and
/// optionally writing the shard entry `e`, in place of the entry `ci` when
/// one held its key, keeps the state well-formed.
proof fn lemma_wf_replace(
    pre: FileStorage,
    post: FileStorage,
    fi: Option<int>,
    ci: Option<int>,
    f: File,
    e: Option<ChunkEntry>,
)
    requires
        pre.wf(),
        f@.wf(),
        (match fi {
            Option::Some(i) => 0 <= i < pre.files@.len() && pre.files@[i].name@ == f.name@,
            Option::None => !contains_name(pre.files@, f.name@),
        }),
        post.files@ == (match fi {
            Option::Some(i) => pre.files@.remove(i),
            Option::None => pre.files@,
        }).push(f),
        (match e {
            Option::Some(en) => {
                &&& is_chunked(blocks_view(en.blocks@))
                &&& (match ci {
                    Option::Some(c) => 0 <= c < pre.file_chunks@.len() && pre.file_chunks@[c].key@
                        == en.key@,
                    Option::None => !contains_key(pre.file_chunks@, en.key@),
                })
                &&& post.file_chunks@ == (match ci {
                    Option::Some(c) => pre.file_chunks@.remove(c),
                    Option::None => pre.file_chunks@,
                }).push(en)
                &&& (en.key@ == f.name@ || contains_key(pre.file_chunks@, f.name@))
            },
            Option::None => {
                &&& post.file_chunks@ == pre.file_chunks@
                &&& contains_key(pre.file_chunks@, f.name@)
                &&& ci is None
            },
        }),
        post.storage_usage as nat == total_size(post.files@),
        post.storage_usage <= post.max_storage_size,
        post.max_storage_size == pre.max_storage_size,
    ensures
        post.wf(),
{
    let fs = pre.files@;
    let es = pre.file_chunks@;
    let files1 = (match fi {
        Option::Some(i) => fs.remove(i),
        Option::None => fs,
    });
    let entries1 = (match ci {
        Option::Some(c) => es.remove(c),
        Option::None => es,
    });
    assert(forall|k: int|
        0 <= k < files1.len() ==> files1[k] == (match fi {
            Option::Some(i) => (if k < i {
                fs[k]
            } else {
                fs[k + 1]
            }),
            Option::None => fs[k],
        }));
    assert(forall|k: int|
        0 <= k < entries1.len() ==> entries1[k] == (match ci {
            Option::Some(c) => (if k < c {
                es[k]
            } else {
                es[k + 1]
            }),
            Option::None => es[k],
        }));
    assert(forall|k: int| 0 <= k < files1.len() ==> files1[k].name@ != f.name@);
    assert(names_distinct(post.files@));
    match e {
        Option::Some(en) => {
            assert(forall|k: int| 0 <= k < entries1.len() ==> entries1[k].key@ != en.key@);
            assert(keys_distinct(post.file_chunks@));
        },
        Option::None => {},
    }
    assert forall|a: int| 0 <= a < post.files@.len() implies contains_key(
        post.file_chunks@,
        (post.files@[a]).name@,
    ) by {
        let n = post.files@[a].name@;
        if a == post.files@.len() - 1 {
            assert(post.files@[a] == f);
            match e {
                Option::Some(en) => {
                    if en.key@ == f.name@ {
                        assert(post.file_chunks@[post.file_chunks@.len() - 1] == en);
                    } else {
                        let w = choose|w: int| 0 <= w < es.len() && es[w].key@ == f.name@;
                        match ci {
                            Option::Some(c) => {
                                assert(w != c);
                                let w1 = if w < c {
                                    w
                                } else {
                                    w - 1
                                };
                                assert(post.file_chunks@[w1] == es[w]);
                            },
                            Option::None => {
                                assert(post.file_chunks@[w] == es[w]);
                            },
                        }
                    }
                },
                Option::None => {
                    let w = choose|w: int| 0 <= w < es.len() && es[w].key@ == f.name@;
                    assert(post.file_chunks@[w] == es[w]);
                },
            }
        } else {
            let a0 = (match fi {
                Option::Some(i) => (if a < i {
                    a
                } else {
                    a + 1
                }),
                Option::None => a,
            });
            assert(post.files@[a] == fs[a0]);
            assert(contains_key(es, n));
            let w = choose|w: int| 0 <= w < es.len() && es[w].key@ == n;
            match e {
                Option::Some(en) => {
                    match ci {
                        Option::Some(c) => {
                            if w == c {
                                assert(n == en.key@);
                                assert(post.file_chunks@[post.file_chunks@.len() - 1] == en);
                            } else {
                                let w1 = if w < c {
                                    w
                                } else {
                                    w - 1
                                };
                                assert(post.file_chunks@[w1] == es[w]);
                            }
                        },
                        Option::None => {
                            assert(post.file_chunks@[w] == es[w]);
                        },
                    }
                },
                Option::None => {
                    assert(post.file_chunks@[w] == es[w]);
                },
            }
        }
    };
}

} // verus!
