use vstd::prelude::*;

use crate::chunks::chunking;
use crate::chunks::lemma_chunking_flattens;
use crate::ids::version_id_view;
use crate::model::FileModel;
use crate::model::StorageModel;
use crate::model::delete_post;
use crate::model::has_all_tags;
use crate::model::search_post;
use crate::model::upload_accepted;
use crate::model::upload_post;
use crate::model::version_post;

verus! {

/// After an accepted upload, the store holds under `name` exactly the
/// uploaded bytes, with a size to match, so a following download returns
/// content byte-identical to what was uploaded. The shard stored under the
/// name reassembles to those bytes as well.
pub proof fn lemma_upload_then_download(
    pre: StorageModel,
    post: StorageModel,
    name: Seq<char>,
    content: Seq<u8>,
    file_type: Seq<char>,
    tags: Seq<Seq<char>>,
    now: u64,
)
    requires
        upload_accepted(pre, content.len()),
        upload_post(pre, post, name, content, file_type, tags, now),
    ensures
        post.files.contains_key(name),
        post.files[name].content == content,
        post.files[name].metadata.size == content.len(),
        post.chunks.contains_key(name),
        post.chunks[name].flatten() == content,
{
    lemma_chunking_flattens(content);
}

/// After a successful delete, the name is gone, so a following download
/// fails, and the usage has dropped by exactly the deleted file's prior
/// content length.
pub proof fn lemma_delete_then_download(pre: StorageModel, post: StorageModel, name: Seq<char>)
    requires
        pre.files.contains_key(name),
        delete_post(pre, post, name),
    ensures
        !post.files.contains_key(name),
        post.storage_usage == pre.storage_usage - pre.files[name].content.len(),
{
}

/// A search with no query tags returns all currently stored files: every
/// stored file appears in the result, and the result holds nothing else.
pub proof fn lemma_search_empty_query(s: StorageModel, r: Seq<FileModel>)
    requires
        search_post(s, Seq::empty(), r),
    ensures
        forall|n: Seq<char>|
            #[trigger] s.files.contains_key(n) ==> exists|i: int|
                0 <= i < r.len() && r[i].name == n && r[i] == s.files[n],
        forall|i: int|
            0 <= i < r.len() ==> s.files.contains_key((#[trigger] r[i]).name) && r[i]
                == s.files[r[i].name],
{
    assert forall|n: Seq<char>| #[trigger] s.files.contains_key(n) implies exists|i: int|
        0 <= i < r.len() && r[i].name == n && r[i] == s.files[n] by {
        assert(has_all_tags(s.files[n], Seq::empty()));
        let i = choose|i: int| 0 <= i < r.len() && r[i].name == n;
        assert(r[i] == s.files[r[i].name]);
    };
}

/// A search for one tag returns exactly the stored files whose tag list
/// carries that tag.
pub proof fn lemma_search_single_tag(s: StorageModel, t: Seq<char>, r: Seq<FileModel>)
    requires
        search_post(s, seq![t], r),
    ensures
        forall|n: Seq<char>|
            #[trigger] s.files.contains_key(n) && s.files[n].metadata.tags.contains(t)
                ==> exists|i: int| 0 <= i < r.len() && r[i].name == n && r[i] == s.files[n],
        forall|i: int|
            0 <= i < r.len() ==> s.files.contains_key((#[trigger] r[i]).name) && r[i]
                == s.files[r[i].name] && r[i].metadata.tags.contains(t),
{
    assert forall|n: Seq<char>|
        #[trigger] s.files.contains_key(n) && s.files[n].metadata.tags.contains(t) implies exists|
        i: int,
    | 0 <= i < r.len() && r[i].name == n && r[i] == s.files[n] by {
        assert(seq![t][0] == t);
        assert(has_all_tags(s.files[n], seq![t]));
        let i = choose|i: int| 0 <= i < r.len() && r[i].name == n;
        assert(r[i] == s.files[r[i].name]);
    };
    assert forall|i: int| 0 <= i < r.len() implies s.files.contains_key((#[trigger] r[i]).name)
        && r[i] == s.files[r[i].name] && r[i].metadata.tags.contains(t) by {
        assert(has_all_tags(r[i], seq![t]));
        assert(seq![t][0] == t);
    };
}

/// Recording a version snapshot never changes what a following download
/// returns for the file's content or size: it only appends the version id
/// to the history and stores a shard under that id. Every other file is
/// untouched, and the usage counter keeps its value.
pub proof fn lemma_version_preserves_download(
    pre: StorageModel,
    post: StorageModel,
    name: Seq<char>,
    content: Seq<u8>,
    now: u64,
)
    requires
        pre.files.contains_key(name),
        version_post(pre, post, name, content, now),
    ensures
        post.files.contains_key(name),
        post.files[name].content == pre.files[name].content,
        post.files[name].metadata.size == pre.files[name].metadata.size,
        post.files[name].metadata.tags == pre.files[name].metadata.tags,
        post.files[name].metadata.version_history == pre.files[name].metadata.version_history.push(
            version_id_view(name, now),
        ),
        post.chunks.contains_key(version_id_view(name, now)),
        post.chunks[version_id_view(name, now)] == chunking(content),
        forall|n: Seq<char>|
            n != name ==> (#[trigger] post.files.contains_key(n) <==> pre.files.contains_key(n)),
        forall|n: Seq<char>|
            n != name && #[trigger] pre.files.contains_key(n) ==> post.files[n] == pre.files[n],
        post.storage_usage == pre.storage_usage,
{
}

} // verus!
