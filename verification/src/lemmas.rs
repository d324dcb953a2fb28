use vstd::prelude::*;

use crate::model::ChunkEntry;
use crate::model::File;
use crate::model::FileModel;
use crate::model::chunks_map;
use crate::model::contains_key;
use crate::model::contains_name;
use crate::model::count_type;
use crate::model::files_map;
use crate::model::keys_distinct;
use crate::model::names_distinct;
use crate::model::total_size;
use crate::chunks::blocks_view;

verus! {

/// A name is in the file map exactly when some file carries it.
pub proof fn lemma_files_map_contains(s: Seq<File>, name: Seq<char>)
    ensures
        files_map(s).contains_key(name) <==> contains_name(s, name),
    decreases s.len(),
{
    if s.len() > 0 {
        let dl = s.drop_last();
        lemma_files_map_contains(dl, name);
        if contains_name(s, name) {
            let i = choose|i: int| 0 <= i < s.len() && s[i].name@ == name;
            if i < s.len() - 1 {
                assert(dl[i] == s[i]);
                assert(contains_name(dl, name));
            }
        }
        if files_map(s).contains_key(name) && name != s.last().name@ {
            let i = choose|i: int| 0 <= i < dl.len() && dl[i].name@ == name;
            assert(s[i] == dl[i]);
        }
    }
}

/// Under distinct names, the map sends each file's name to that file.
pub proof fn lemma_files_map_index(s: Seq<File>, i: int)
    requires
        names_distinct(s),
        0 <= i < s.len(),
    ensures
        files_map(s).contains_key(s[i].name@),
        files_map(s)[s[i].name@] == s[i]@,
    decreases s.len(),
{
    if i < s.len() - 1 {
        let dl = s.drop_last();
        assert(names_distinct(dl)) by {
            assert(forall|a: int, b: int|
                0 <= a < b < dl.len() ==> dl[a] == s[a] && dl[b] == s[b]);
        };
        lemma_files_map_index(dl, i);
        assert(s[i].name@ != s.last().name@);
    }
}

/// Appending a file inserts it into the map under its name.
pub proof fn lemma_files_map_push(s: Seq<File>, f: File)
    ensures
        files_map(s.push(f)) == files_map(s).insert(f.name@, f@),
        total_size(s.push(f)) == total_size(s) + f.content@.len(),
{
    assert(s.push(f).drop_last() =~= s);
    assert(s.push(f).last() == f);
}

/// Under distinct names, removing a file removes its name from the map and
/// its length from the total.
pub proof fn lemma_files_map_remove(s: Seq<File>, i: int)
    requires
        names_distinct(s),
        0 <= i < s.len(),
    ensures
        files_map(s.remove(i)) == files_map(s).remove(s[i].name@),
        total_size(s.remove(i)) == total_size(s) - s[i].content@.len(),
    decreases s.len(),
{
    let dl = s.drop_last();
    if i == s.len() - 1 {
        assert(s.remove(i) =~= dl);
        assert(!contains_name(dl, s[i].name@)) by {
            assert(forall|j: int| 0 <= j < dl.len() ==> dl[j] == s[j]);
        };
        lemma_files_map_contains(dl, s[i].name@);
        assert(files_map(dl).remove(s[i].name@) =~= files_map(dl));
        assert(files_map(s).remove(s[i].name@) =~= files_map(dl));
    } else {
        assert(names_distinct(dl)) by {
            assert(forall|a: int, b: int|
                0 <= a < b < dl.len() ==> dl[a] == s[a] && dl[b] == s[b]);
        };
        lemma_files_map_remove(dl, i);
        assert(s.remove(i) =~= dl.remove(i).push(s.last()));
        lemma_files_map_push(dl.remove(i), s.last());
        assert(dl[i] == s[i]);
        assert(s[i].name@ != s.last().name@);
        assert(files_map(dl).remove(s[i].name@).insert(s.last().name@, s.last()@) =~= files_map(
            dl,
        ).insert(s.last().name@, s.last()@).remove(s[i].name@));
        assert(files_map(s.remove(i)) =~= files_map(s).remove(s[i].name@));
    }
}

/// Under distinct names, a sequence of files and its map have one entry per
/// file.
pub proof fn lemma_files_map_len(s: Seq<File>)
    requires
        names_distinct(s),
    ensures
        files_map(s).dom().finite(),
        files_map(s).dom().len() == s.len(),
    decreases s.len(),
{
    if s.len() == 0 {
        assert(files_map(s).dom() =~= Set::<Seq<char>>::empty());
    } else {
        let dl = s.drop_last();
        assert(names_distinct(dl)) by {
            assert(forall|a: int, b: int|
                0 <= a < b < dl.len() ==> dl[a] == s[a] && dl[b] == s[b]);
        };
        lemma_files_map_len(dl);
        assert(!contains_name(dl, s.last().name@)) by {
            assert(forall|j: int| 0 <= j < dl.len() ==> dl[j] == s[j]);
        };
        lemma_files_map_contains(dl, s.last().name@);
        assert(files_map(s).dom() =~= files_map(dl).dom().insert(s.last().name@));
        vstd::set::axiom_set_insert_len(files_map(dl).dom(), s.last().name@);
    }
}

/// A key is in the shard map exactly when some entry carries it.
pub proof fn lemma_chunks_map_contains(s: Seq<ChunkEntry>, key: Seq<char>)
    ensures
        chunks_map(s).contains_key(key) <==> contains_key(s, key),
    decreases s.len(),
{
    if s.len() > 0 {
        let dl = s.drop_last();
        lemma_chunks_map_contains(dl, key);
        if contains_key(s, key) {
            let i = choose|i: int| 0 <= i < s.len() && s[i].key@ == key;
            if i < s.len() - 1 {
                assert(dl[i] == s[i]);
                assert(contains_key(dl, key));
            }
        }
        if chunks_map(s).contains_key(key) && key != s.last().key@ {
            let i = choose|i: int| 0 <= i < dl.len() && dl[i].key@ == key;
            assert(s[i] == dl[i]);
        }
    }
}

/// Appending a shard entry inserts its blocks under its key.
pub proof fn lemma_chunks_map_push(s: Seq<ChunkEntry>, e: ChunkEntry)
    ensures
        chunks_map(s.push(e)) == chunks_map(s).insert(e.key@, blocks_view(e.blocks@)),
{
    assert(s.push(e).drop_last() =~= s);
    assert(s.push(e).last() == e);
}

/// Under distinct keys, removing a shard entry removes its key from the map.
pub proof fn lemma_chunks_map_remove(s: Seq<ChunkEntry>, i: int)
    requires
        keys_distinct(s),
        0 <= i < s.len(),
    ensures
        chunks_map(s.remove(i)) == chunks_map(s).remove(s[i].key@),
    decreases s.len(),
{
    let dl = s.drop_last();
    if i == s.len() - 1 {
        assert(s.remove(i) =~= dl);
        assert(!contains_key(dl, s[i].key@)) by {
            assert(forall|j: int| 0 <= j < dl.len() ==> dl[j] == s[j]);
        };
        lemma_chunks_map_contains(dl, s[i].key@);
        assert(chunks_map(dl).remove(s[i].key@) =~= chunks_map(dl));
        assert(chunks_map(s).remove(s[i].key@) =~= chunks_map(dl));
    } else {
        assert(keys_distinct(dl)) by {
            assert(forall|a: int, b: int|
                0 <= a < b < dl.len() ==> dl[a] == s[a] && dl[b] == s[b]);
        };
        lemma_chunks_map_remove(dl, i);
        assert(s.remove(i) =~= dl.remove(i).push(s.last()));
        lemma_chunks_map_push(dl.remove(i), s.last());
        assert(dl[i] == s[i]);
        assert(s[i].key@ != s.last().key@);
        assert(chunks_map(dl).remove(s[i].key@).insert(
            s.last().key@,
            blocks_view(s.last().blocks@),
        ) =~= chunks_map(dl).insert(s.last().key@, blocks_view(s.last().blocks@)).remove(
            s[i].key@,
        ));
        assert(chunks_map(s.remove(i)) =~= chunks_map(s).remove(s[i].key@));
    }
}

/// A type's count never exceeds the number of files counted over.
pub proof fn lemma_count_type_bound(files: Seq<FileModel>, t: Seq<char>)
    ensures
        count_type(files, t) <= files.len(),
    decreases files.len(),
{
    if files.len() > 0 {
        lemma_count_type_bound(files.drop_last(), t);
    }
}

/// A positive count names a file of that type.
pub proof fn lemma_count_type_pos(files: Seq<FileModel>, t: Seq<char>)
    requires
        count_type(files, t) > 0,
    ensures
        exists|j: int| 0 <= j < files.len() && files[j].metadata.file_type == t,
    decreases files.len(),
{
    if files.last().metadata.file_type == t {
        assert(files[files.len() - 1].metadata.file_type == t);
    } else {
        lemma_count_type_pos(files.drop_last(), t);
        let j = choose|j: int|
            0 <= j < files.drop_last().len() && files.drop_last()[j].metadata.file_type == t;
        assert(files[j] == files.drop_last()[j]);
    }
}

/// Counting one more file raises exactly the count of its own type.
pub proof fn lemma_count_type_step(files: Seq<FileModel>, k: int, t: Seq<char>)
    requires
        0 <= k < files.len(),
    ensures
        count_type(files.take(k + 1), t) == count_type(files.take(k), t) + (
        if files[k].metadata.file_type == t {
            1nat
        } else {
            0nat
        }),
{
    assert(files.take(k + 1).drop_last() =~= files.take(k));
    assert(files.take(k + 1).last() == files[k]);
}

} // verus!
