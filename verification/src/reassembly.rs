//! What becomes of a file whose chunks arrive one by one.

use vstd::prelude::*;

verus! {

/// The files in a directory, by name.
pub type Directory = Map<Seq<char>, Seq<u8>>;

/// The directory of a transfer after chunks arrived, each given by its number and its
/// bytes: every chunk is written to the file that is named after its number.
pub open spec fn stored(arrivals: Seq<(usize, Seq<u8>)>) -> Directory
    decreases arrivals.len(),
{
    if arrivals.len() == 0 {
        Map::empty()
    } else {
        let (number, data) = arrivals.last();
        stored(arrivals.drop_last()).insert(crate::names::chunk_name(number as nat), data)
    }
}

/// What arrived last as the chunk of a number, if one did.
pub open spec fn latest(arrivals: Seq<(usize, Seq<u8>)>, number: usize) -> Option<Seq<u8>>
    decreases arrivals.len(),
{
    if arrivals.len() == 0 {
        None
    } else if arrivals.last().0 == number {
        Some(arrivals.last().1)
    } else {
        latest(arrivals.drop_last(), number)
    }
}

/// Whether `listing` names each file of a directory, once and in any order.
pub open spec fn lists(listing: Seq<Seq<char>>, directory: Directory) -> bool {
    &&& listing.no_duplicates()
    &&& forall|name: Seq<char>| #[trigger]
        listing.contains(name) <==> directory.dom().contains(name)
}

/// The bytes of the file of `total` chunks into which the chunks in a directory are
/// merged.
pub open spec fn merged(listing: Seq<Seq<char>>, directory: Directory, total: usize) -> Seq<u8> {
    crate::chunks::merge_order(listing, total).map_values(
        |p: crate::chunks::Part| directory[listing[p.entry as int]],
    ).flatten()
}

/// Whether a directory holds the chunks of a file, each in the file that is named
/// after its number, and no other file goes by the number of one of them.
pub open spec fn holds_chunks(directory: Directory, chunks: Seq<Seq<u8>>) -> bool {
    &&& forall|i: usize|
        i < chunks.len() ==> {
            let name = #[trigger] crate::names::chunk_name(i as nat);
            directory.dom().contains(name) && directory[name] == chunks[i as int]
        }
    &&& forall|name: Seq<char>, i: usize|
        directory.dom().contains(name) && i < chunks.len()
            && #[trigger] crate::chunks::chunk_number(name) == Some(i) ==> name
            == #[trigger] crate::names::chunk_name(i as nat)
}

proof fn lemma_stored(arrivals: Seq<(usize, Seq<u8>)>, number: usize)
    ensures
        stored(arrivals).dom().contains(crate::names::chunk_name(number as nat)) <==> latest(
            arrivals,
            number,
        ) is Some,
        latest(arrivals, number) is Some ==> stored(arrivals)[crate::names::chunk_name(
            number as nat,
        )] == latest(arrivals, number)->0,
    decreases arrivals.len(),
{
    if arrivals.len() > 0 {
        lemma_stored(arrivals.drop_last(), number);
        if arrivals.last().0 != number {
            crate::names::law_chunk_names_distinct(arrivals.last().0, number);
        }
    }
}

proof fn lemma_stored_names(arrivals: Seq<(usize, Seq<u8>)>, name: Seq<char>) -> (r: usize)
    requires
        stored(arrivals).dom().contains(name),
    ensures
        name == crate::names::chunk_name(r as nat),
        crate::chunks::chunk_number(name) == Some(r),
        latest(arrivals, r) is Some,
    decreases arrivals.len(),
{
    let last = arrivals.last().0;
    if name == crate::names::chunk_name(last as nat) {
        crate::names::law_chunk_name_reads_back(last);
        last
    } else {
        let before = arrivals.drop_last();
        let r = lemma_stored_names(before, name);
        lemma_stored(arrivals, r);
        lemma_stored(before, r);
        r
    }
}

/// The chunks of a file in the order of their numbers, each with its place in the
/// listing.
spec fn expected_order(listing: Seq<Seq<char>>, total: usize) -> Seq<crate::chunks::Part> {
    Seq::new(
        total as nat,
        |i: int|
            crate::chunks::Part {
                number: i as usize,
                entry: listing.index_of(crate::names::chunk_name(i as nat)) as usize,
            },
    )
}

proof fn lemma_expected_order(
    directory: Directory,
    chunks: Seq<Seq<u8>>,
    listing: Seq<Seq<char>>,
)
    requires
        chunks.len() <= usize::MAX,
        listing.len() <= usize::MAX,
        holds_chunks(directory, chunks),
        lists(listing, directory),
    ensures
        crate::chunks::in_merge_order(expected_order(listing, chunks.len() as usize)),
        crate::chunks::same_parts(
            expected_order(listing, chunks.len() as usize),
            crate::chunks::parts_below(listing, chunks.len() as usize),
        ),
        forall|i: usize|
            i < chunks.len() ==> listing[(#[trigger] expected_order(
                listing,
                chunks.len() as usize,
            )[i as int]).entry as int] == crate::names::chunk_name(i as nat),
{
    let total = chunks.len() as usize;
    let order = expected_order(listing, total);
    let found = crate::chunks::parts_in(listing);
    let below = crate::chunks::parts_below(listing, total);
    crate::chunks::lemma_below(found, total);
    assert forall|i: usize| i < total implies {
        &&& listing[(#[trigger] order[i as int]).entry as int] == crate::names::chunk_name(i as nat)
        &&& order[i as int].entry < listing.len()
        &&& order[i as int].number == i
    } by {
        assert(listing.contains(crate::names::chunk_name(i as nat)));
    }
    assert forall|p: crate::chunks::Part| #[trigger] order.contains(p) <==> below.contains(p) by {
        crate::chunks::lemma_parts_members(listing, p);
        assert(below.contains(p) <==> found.contains(p) && p.number < total);
        if order.contains(p) {
            let k = choose|k: int| 0 <= k < order.len() && order[k] == p;
            assert(order[(k as usize) as int] == p);
            crate::names::law_chunk_name_reads_back(k as usize);
        }
        if below.contains(p) {
            let name = listing[p.entry as int];
            let k = p.number;
            assert(listing.contains(name));
            assert(crate::chunks::chunk_number(name) == Some(k));
            assert(name == crate::names::chunk_name(k as nat));
            assert(listing[order[k as int].entry as int] == name);
            assert(order[k as int] == p);
        }
    }
}

/// Where a directory holds every chunk of a file, the file is found complete and its
/// chunks are merged in the order of their numbers, whatever else lies in the
/// directory.
pub proof fn law_chunks_are_merged(
    directory: Directory,
    chunks: Seq<Seq<u8>>,
    listing: Seq<Seq<char>>,
)
    requires
        chunks.len() <= usize::MAX,
        listing.len() <= usize::MAX,
        holds_chunks(directory, chunks),
        lists(listing, directory),
    ensures
        crate::chunks::all_arrived(listing, chunks.len() as usize),
        merged(listing, directory, chunks.len() as usize) == chunks.flatten(),
{
    let total = chunks.len() as usize;
    let order = expected_order(listing, total);
    let found = crate::chunks::parts_in(listing);
    lemma_expected_order(directory, chunks, listing);
    crate::chunks::lemma_merge_order(listing, total, order);
    crate::chunks::lemma_below(found, total);
    assert forall|k: usize| k < total implies #[trigger] crate::chunks::stored_chunk(listing, k) by {
        let p = order[k as int];
        assert(order.contains(p));
        assert(crate::chunks::parts_below(listing, total).contains(p));
        assert(found.contains(p));
        let i = choose|i: int| 0 <= i < found.len() && found[i] == p;
        assert(found[i].number == k);
    }
    let pieces = order.map_values(
        |p: crate::chunks::Part| directory[listing[p.entry as int]],
    );
    assert forall|i: int| 0 <= i < pieces.len() implies pieces[i] == chunks[i] by {
        let n = i as usize;
        assert(listing[order[n as int].entry as int] == crate::names::chunk_name(n as nat));
    }
    assert(pieces =~= chunks);
}

/// Once every chunk of a file has arrived, in whatever order and however often, the
/// file is found complete, and its chunks are merged into it: they follow each other
/// in the order of their numbers, each as it arrived last. Chunks with other numbers
/// that arrived too have no part in it.
pub proof fn law_file_is_reassembled(
    arrivals: Seq<(usize, Seq<u8>)>,
    chunks: Seq<Seq<u8>>,
    listing: Seq<Seq<char>>,
)
    requires
        chunks.len() <= usize::MAX,
        listing.len() <= usize::MAX,
        forall|i: usize|
            i < chunks.len() ==> #[trigger] latest(arrivals, i) == Some(chunks[i as int]),
        lists(listing, stored(arrivals)),
    ensures
        crate::chunks::all_arrived(listing, chunks.len() as usize),
        merged(listing, stored(arrivals), chunks.len() as usize) == chunks.flatten(),
{
    let directory = stored(arrivals);
    assert forall|i: usize| i < chunks.len() implies {
        let name = #[trigger] crate::names::chunk_name(i as nat);
        directory.dom().contains(name) && directory[name] == chunks[i as int]
    } by {
        lemma_stored(arrivals, i);
        assert(latest(arrivals, i) == Some(chunks[i as int]));
    }
    assert forall|name: Seq<char>, i: usize|
        directory.dom().contains(name) && i < chunks.len()
            && #[trigger] crate::chunks::chunk_number(name) == Some(i) implies name
        == #[trigger] crate::names::chunk_name(i as nat) by {
        let k = lemma_stored_names(arrivals, name);
    }
    law_chunks_are_merged(directory, chunks, listing);
}

/// While a chunk of a file is missing, the file is not found complete, so nothing is
/// merged, however many chunks with other numbers arrived.
pub proof fn law_missing_chunk_is_noticed(
    arrivals: Seq<(usize, Seq<u8>)>,
    total: usize,
    missing: usize,
    listing: Seq<Seq<char>>,
)
    requires
        listing.len() <= usize::MAX,
        missing < total,
        latest(arrivals, missing) is None,
        lists(listing, stored(arrivals)),
    ensures
        !crate::chunks::all_arrived(listing, total),
{
    let found = crate::chunks::parts_in(listing);
    if crate::chunks::stored_chunk(listing, missing) {
        let i = choose|i: int| 0 <= i < found.len() && (#[trigger] found[i]).number == missing;
        assert(found.contains(found[i]));
        crate::chunks::lemma_parts_members(listing, found[i]);
        let name = listing[found[i].entry as int];
        assert(listing.contains(name));
        let k = lemma_stored_names(arrivals, name);
    }
}

/// The number of bytes in all of several chunks.
pub open spec fn size_of_all(sizes: Seq<u64>) -> int
    decreases sizes.len(),
{
    if sizes.len() == 0 {
        0
    } else {
        size_of_all(sizes.drop_last()) + sizes.last()
    }
}

/// Whether `steps` are the first steps of merging chunks, from the creation of the file
/// on, when each step that asks for a chunk is answered with the size that is given.
pub open spec fn merging(
    transfer: crate::chunks::Transfer,
    saved_to: String,
    parts: Vec<crate::chunks::Part>,
    sizes: Seq<u64>,
    steps: Seq<crate::chunks::MergeStep>,
) -> bool {
    &&& steps.len() == sizes.len() + 1
    &&& crate::chunks::merge_step(transfer, saved_to, parts, 0, 0, steps[0])
    &&& forall|k: int|
        0 <= k < sizes.len() ==> {
            let step = #[trigger] steps[k];
            &&& step is Append
            &&& crate::chunks::merge_step(
                step->Append_0.transfer,
                step->Append_0.saved_to,
                step->Append_0.parts,
                step->Append_0.next + 1,
                step->Append_0.size + sizes[k],
                steps[k + 1],
            )
        }
}

/// However many chunks there are, merging asks for each of them once, the first one
/// first, and comes to the flush exactly when all of them were appended; it then
/// carries the file that was created and the number of bytes in all.
pub proof fn law_merging_appends_every_part(
    transfer: crate::chunks::Transfer,
    saved_to: String,
    parts: Vec<crate::chunks::Part>,
    sizes: Seq<u64>,
    steps: Seq<crate::chunks::MergeStep>,
)
    requires
        merging(transfer, saved_to, parts, sizes, steps),
    ensures
        steps.len() <= parts@.len() + 1,
        forall|k: int|
            0 <= k < steps.len() && k < parts@.len() ==> {
                &&& (#[trigger] steps[k]) is Append
                &&& steps[k]->Append_0.parts == parts
                &&& steps[k]->Append_0.next == k
                &&& steps[k]->Append_0.size == size_of_all(sizes.take(k))
                &&& steps[k]->Append_0.transfer == transfer
                &&& steps[k]->Append_0.saved_to == saved_to
            },
        steps.last() is Flush <==> steps.len() == parts@.len() + 1,
        steps.last() is Flush ==> {
            &&& steps.last()->Flush_0.transfer == transfer
            &&& steps.last()->Flush_0.saved_to == saved_to
            &&& steps.last()->Flush_0.size == size_of_all(sizes)
        },
{
    assert forall|k: int| 0 <= k < steps.len() implies {
        &&& k <= parts@.len()
        &&& crate::chunks::merge_step(
            transfer,
            saved_to,
            parts,
            k,
            size_of_all(sizes.take(k)),
            #[trigger] steps[k],
        )
    } by {
        lemma_merging_reaches(transfer, saved_to, parts, sizes, steps, k);
    }
    assert(sizes.take(sizes.len() as int) =~= sizes);
    assert(steps.last() == steps[sizes.len() as int]);
}

proof fn lemma_merging_reaches(
    transfer: crate::chunks::Transfer,
    saved_to: String,
    parts: Vec<crate::chunks::Part>,
    sizes: Seq<u64>,
    steps: Seq<crate::chunks::MergeStep>,
    k: int,
)
    requires
        merging(transfer, saved_to, parts, sizes, steps),
        0 <= k < steps.len(),
    ensures
        k <= parts@.len(),
        crate::chunks::merge_step(
            transfer,
            saved_to,
            parts,
            k,
            size_of_all(sizes.take(k)),
            steps[k],
        ),
    decreases k,
{
    if k > 0 {
        lemma_merging_reaches(transfer, saved_to, parts, sizes, steps, k - 1);
        assert(steps[k - 1] is Append);
        assert(sizes.take(k).drop_last() =~= sizes.take(k - 1));
    }
}

/// The bytes that were appended in the steps before the last, given the listing and the
/// directory of the chunks.
pub open spec fn appended_bytes(
    steps: Seq<crate::chunks::MergeStep>,
    listing: Seq<Seq<char>>,
    directory: Directory,
) -> Seq<u8> {
    Seq::new(
        (steps.len() - 1) as nat,
        |k: int|
            {
                let step = steps[k]->Append_0;
                directory[listing[step.parts@[step.next as int].entry as int]]
            },
    ).flatten()
}

/// Where every chunk of a file is stored and the chunks are merged up to the flush, the
/// saved file holds all chunks in the order of their numbers, and the size that is
/// carried on is the number of its bytes.
pub proof fn law_saved_file_is_whole(
    directory: Directory,
    chunks: Seq<Seq<u8>>,
    listing: Seq<Seq<char>>,
    transfer: crate::chunks::Transfer,
    saved_to: String,
    parts: Vec<crate::chunks::Part>,
    sizes: Seq<u64>,
    steps: Seq<crate::chunks::MergeStep>,
)
    requires
        chunks.len() <= usize::MAX,
        listing.len() <= usize::MAX,
        holds_chunks(directory, chunks),
        lists(listing, directory),
        parts@ == crate::chunks::merge_order(listing, chunks.len() as usize),
        merging(transfer, saved_to, parts, sizes, steps),
        steps.last() is Flush,
        forall|k: int|
            0 <= k < sizes.len() && k < parts@.len() ==> #[trigger] sizes[k] == directory[listing[
                parts@[k].entry as int]].len(),
    ensures
        steps.len() == chunks.len() + 1,
        appended_bytes(steps, listing, directory) == chunks.flatten(),
        steps.last()->Flush_0.size == chunks.flatten().len(),
{
    let total = chunks.len() as usize;
    let order = expected_order(listing, total);
    lemma_expected_order(directory, chunks, listing);
    crate::chunks::lemma_merge_order(listing, total, order);
    law_merging_appends_every_part(transfer, saved_to, parts, sizes, steps);
    let pieces = Seq::new(
        (steps.len() - 1) as nat,
        |k: int|
            {
                let step = steps[k]->Append_0;
                directory[listing[step.parts@[step.next as int].entry as int]]
            },
    );
    assert forall|i: int| 0 <= i < chunks.len() implies pieces[i] == chunks[i] && sizes[i]
        == chunks[i].len() by {
        let n = i as usize;
        assert(steps[i]->Append_0.next == i);
        assert(listing[order[n as int].entry as int] == crate::names::chunk_name(n as nat));
        assert(sizes[i] == directory[listing[parts@[i].entry as int]].len());
    }
    assert(pieces =~= chunks);
    law_size_is_length(chunks, sizes);
}

/// The size that is recorded of a merged file is the number of its bytes.
pub proof fn law_size_is_length(chunks: Seq<Seq<u8>>, sizes: Seq<u64>)
    requires
        sizes.len() == chunks.len(),
        forall|i: int| 0 <= i < chunks.len() ==> #[trigger] sizes[i] == chunks[i].len(),
    ensures
        chunks.flatten().len() == size_of_all(sizes),
    decreases chunks.len(),
{
    if chunks.len() > 0 {
        law_size_is_length(chunks.drop_last(), sizes.drop_last());
        assert(sizes[chunks.len() - 1] == chunks[chunks.len() - 1].len());
        assert(chunks =~= chunks.drop_last().push(chunks.last()));
        chunks.drop_last().lemma_flatten_push(chunks.last());
    }
}

} // verus!
