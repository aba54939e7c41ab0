//! Saving the chunks of an upload and merging them into a file.

use crate::clock::now_ms;
use crate::decimal::parse_usize;
use crate::names::{chunk_file_name, sanitize_filename};
use crate::records::FileRecord;
use crate::state::Shared;
use crate::text::{because, chars_of, string_of};
use vstd::prelude::*;

verus! {

/// One stored chunk: its number, and its place in the listing of the directory that
/// holds the chunks of a file.
#[derive(Debug, Clone, Copy, PartialEq, Eq, Structural)]
pub struct Part {
    pub number: usize,
    pub entry: usize,
}

/// The number of the chunk that a file in the directory holds, told by its name.
pub open spec fn chunk_number(entry: Seq<char>) -> Option<usize> {
    crate::decimal::parsed_usize(crate::names::stem_part(entry))
}

/// The stored chunks in a listing, in the order of the listing. Files whose names
/// are no numbers are passed over.
pub open spec fn parts_in(listing: Seq<Seq<char>>) -> Seq<Part>
    decreases listing.len(),
{
    if listing.len() == 0 {
        Seq::empty()
    } else {
        let before = parts_in(listing.drop_last());
        match chunk_number(listing.last()) {
            Some(number) => before.push(Part { number, entry: (listing.len() - 1) as usize }),
            None => before,
        }
    }
}

/// Whether one chunk is merged before another: by number, and by the place in the
/// listing where two files bear the same number.
pub open spec fn merged_before(a: Part, b: Part) -> bool {
    a.number < b.number || (a.number == b.number && a.entry < b.entry)
}

/// Whether chunks stand in the order in which they are merged.
pub open spec fn in_merge_order(parts: Seq<Part>) -> bool {
    forall|i: int, j: int|
        0 <= i < j < parts.len() ==> merged_before(#[trigger] parts[i], #[trigger] parts[j])
}

/// Whether `a` and `b` hold the same chunks.
pub open spec fn same_parts(a: Seq<Part>, b: Seq<Part>) -> bool {
    forall|p: Part| #[trigger] a.contains(p) <==> b.contains(p)
}

/// Whether the chunk of a number is stored.
pub open spec fn stored_chunk(listing: Seq<Seq<char>>, number: usize) -> bool {
    exists|i: int|
        0 <= i < parts_in(listing).len() && (#[trigger] parts_in(listing)[i]).number == number
}

/// Whether every chunk of a file of `total` chunks is stored.
pub open spec fn all_arrived(listing: Seq<Seq<char>>, total: usize) -> bool {
    forall|k: usize| k < total ==> #[trigger] stored_chunk(listing, k)
}

/// Those of some chunks that a file of `total` chunks has.
pub open spec fn below(parts: Seq<Part>, total: usize) -> Seq<Part> {
    parts.filter(|p: Part| p.number < total)
}

/// The stored chunks in a listing that a file of `total` chunks has, in the order of
/// the listing. What is left of a transfer with more chunks is passed over.
pub open spec fn parts_below(listing: Seq<Seq<char>>, total: usize) -> Seq<Part> {
    below(parts_in(listing), total)
}

/// The stored chunks in a listing that a file of `total` chunks has, in the order in
/// which they are merged.
pub open spec fn merge_order(listing: Seq<Seq<char>>, total: usize) -> Seq<Part> {
    choose|order: Seq<Part>|
        in_merge_order(order) && same_parts(order, parts_below(listing, total))
}

proof fn lemma_order_starts_alike(a: Seq<Part>, b: Seq<Part>)
    requires
        in_merge_order(a),
        in_merge_order(b),
        same_parts(a, b),
        a.len() > 0,
    ensures
        b.len() > 0,
        a[0] == b[0],
        in_merge_order(a.drop_first()),
        in_merge_order(b.drop_first()),
        same_parts(a.drop_first(), b.drop_first()),
{
    assert(a.contains(a[0]));
    assert(b.contains(a[0]));
    let k = choose|k: int| 0 <= k < b.len() && b[k] == a[0];
    assert(b.contains(b[0]));
    assert(a.contains(b[0]));
    let m = choose|m: int| 0 <= m < a.len() && a[m] == b[0];
    if k > 0 {
        assert(merged_before(b[0], b[k]));
        if m > 0 {
            assert(merged_before(a[0], a[m]));
        }
    }
    lemma_order_rest(a);
    lemma_order_rest(b);
    assert forall|p: Part| #[trigger]
        a.drop_first().contains(p) implies b.drop_first().contains(p) by {
        assert(a.contains(p) && p != a[0]);
        assert(b.contains(p));
    }
    assert forall|p: Part| #[trigger]
        b.drop_first().contains(p) implies a.drop_first().contains(p) by {
        assert(b.contains(p) && p != b[0]);
        assert(a.contains(p));
    }
}

proof fn lemma_order_rest(a: Seq<Part>)
    requires
        in_merge_order(a),
        a.len() > 0,
    ensures
        in_merge_order(a.drop_first()),
        forall|p: Part| #[trigger] a.drop_first().contains(p) <==> a.contains(p) && p != a[0],
{
    let rest = a.drop_first();
    assert forall|i: int, j: int| 0 <= i < j < rest.len() implies merged_before(
        #[trigger] rest[i],
        #[trigger] rest[j],
    ) by {
        assert(merged_before(a[i + 1], a[j + 1]));
    }
    assert forall|p: Part| #[trigger] rest.contains(p) <==> a.contains(p) && p != a[0] by {
        if rest.contains(p) {
            let i = choose|i: int| 0 <= i < rest.len() && rest[i] == p;
            assert(a[i + 1] == p);
            assert(merged_before(a[0], a[i + 1]));
        }
        if a.contains(p) && p != a[0] {
            let i = choose|i: int| 0 <= i < a.len() && a[i] == p;
            assert(rest[i - 1] == p);
        }
    }
}

/// There is only one way to merge given chunks in order.
pub proof fn law_merge_order_is_unique(a: Seq<Part>, b: Seq<Part>)
    requires
        in_merge_order(a),
        in_merge_order(b),
        same_parts(a, b),
    ensures
        a == b,
    decreases a.len(),
{
    if a.len() == 0 {
        if b.len() > 0 {
            assert(b.contains(b[0]));
            assert(a.contains(b[0]));
        }
        assert(a =~= b);
    } else {
        lemma_order_starts_alike(a, b);
        law_merge_order_is_unique(a.drop_first(), b.drop_first());
        assert(a =~= seq![a[0]] + a.drop_first());
        assert(b =~= seq![b[0]] + b.drop_first());
    }
}

pub(crate) proof fn lemma_merge_order(
    listing: Seq<Seq<char>>,
    total: usize,
    order: Seq<Part>,
)
    requires
        in_merge_order(order),
        same_parts(order, parts_below(listing, total)),
    ensures
        merge_order(listing, total) == order,
{
    law_merge_order_is_unique(merge_order(listing, total), order);
}

pub(crate) proof fn lemma_below(parts: Seq<Part>, total: usize)
    ensures
        forall|p: Part| #[trigger]
            below(parts, total).contains(p) <==> parts.contains(p) && p.number < total,
        parts.no_duplicates() ==> below(parts, total).no_duplicates(),
    decreases parts.len(),
{
    reveal(Seq::filter);
    let kept = below(parts, total);
    if parts.len() > 0 {
        let rest = parts.drop_last();
        let last = parts.last();
        lemma_below(rest, total);
        let before = below(rest, total);
        assert(parts =~= rest.push(last));
        assert forall|p: Part| #[trigger] kept.contains(p) <==> parts.contains(p) && p.number
            < total by {
            lemma_pushed(rest, last, p);
            lemma_pushed(before, last, p);
            assert(before.contains(p) <==> rest.contains(p) && p.number < total);
        }
        if parts.no_duplicates() {
            assert(!rest.contains(last)) by {
                if rest.contains(last) {
                    let i = choose|i: int| 0 <= i < rest.len() && rest[i] == last;
                    assert(parts[i] == parts[parts.len() - 1]);
                }
            }
            assert(rest.no_duplicates()) by {
                assert forall|i: int, j: int|
                    0 <= i < rest.len() && 0 <= j < rest.len() && i != j implies rest[i]
                    != rest[j] by {
                    assert(parts[i] == rest[i] && parts[j] == rest[j]);
                }
            }
            assert(!before.contains(last));
            assert forall|i: int, j: int|
                0 <= i < kept.len() && 0 <= j < kept.len() && i != j implies kept[i]
                != kept[j] by {
                if i < before.len() {
                    assert(kept[i] == before[i]);
                    assert(before.contains(before[i]));
                }
                if j < before.len() {
                    assert(kept[j] == before[j]);
                    assert(before.contains(before[j]));
                }
            }
        }
    }
}

proof fn lemma_pushed(parts: Seq<Part>, last: Part, p: Part)
    ensures
        parts.push(last).contains(p) <==> parts.contains(p) || p == last,
{
    let all = parts.push(last);
    if parts.contains(p) {
        let i = choose|i: int| 0 <= i < parts.len() && parts[i] == p;
        assert(all[i] == p);
    }
    assert(all[parts.len() as int] == last);
    if all.contains(p) && p != last {
        let i = choose|i: int| 0 <= i < all.len() && all[i] == p;
        assert(parts[i] == p);
    }
}

pub(crate) proof fn lemma_parts_members(listing: Seq<Seq<char>>, p: Part)
    requires
        listing.len() <= usize::MAX,
    ensures
        parts_in(listing).contains(p) <==> p.entry < listing.len() && chunk_number(
            listing[p.entry as int],
        ) == Some(p.number),
    decreases listing.len(),
{
    if listing.len() > 0 {
        let before = parts_in(listing.drop_last());
        let all = parts_in(listing);
        lemma_parts_members(listing.drop_last(), p);
        let last = (listing.len() - 1) as usize;
        match chunk_number(listing.last()) {
            Some(number) => {
                let new = Part { number, entry: last };
                assert(all == before.push(new));
                assert(all[before.len() as int] == new);
                if before.contains(p) {
                    let i = choose|i: int| 0 <= i < before.len() && before[i] == p;
                    assert(all[i] == p);
                }
                if all.contains(p) && p != new {
                    let i = choose|i: int| 0 <= i < all.len() && all[i] == p;
                    assert(before[i] == p);
                }
            },
            None => {},
        }
    }
}

/// The name of a file up to its last dot.
fn stem_of(name: &str) -> (r: String)
    ensures
        r@ == crate::names::stem_part(name@),
{
    let chars = chars_of(name);
    let mut i: usize = chars.len();
    assert(name@.take(i as int) =~= name@);
    while i > 0 && chars[i - 1] != '.'
        invariant
            i <= chars@.len(),
            chars@ == name@,
            crate::names::last_dot(name@.take(i as int)) == crate::names::last_dot(name@),
        decreases i,
    {
        assert(name@.take(i as int).drop_last() =~= name@.take(i - 1));
        i = i - 1;
    }
    assert(crate::names::last_dot(name@) == i - 1);
    let end = if i > 1 {
        i - 1
    } else {
        chars.len()
    };
    let r = string_of(&chars, 0, end);
    assert(r@ =~= crate::names::stem_part(name@));
    r
}

/// The stored chunks in a listing, in the order of the listing.
pub fn collect_parts(listing: &Vec<String>) -> (r: Vec<Part>)
    ensures
        r@ == parts_in(crate::records::views(listing@)),
{
    let ghost names = crate::records::views(listing@);
    let mut r: Vec<Part> = Vec::new();
    for i in 0..listing.len()
        invariant
            names == crate::records::views(listing@),
            r@ == parts_in(names.take(i as int)),
    {
        assert(names.take(i + 1).drop_last() =~= names.take(i as int));
        assert(names.take(i + 1).last() == listing@[i as int]@);
        if let Some(number) = parse_usize(stem_of(listing[i].as_str()).as_str()) {
            r.push(Part { number, entry: i });
        }
    }
    assert(names.take(names.len() as int) =~= names);
    r
}

fn goes_before(a: Part, b: Part) -> (r: bool)
    ensures
        r == merged_before(a, b),
{
    a.number < b.number || (a.number == b.number && a.entry < b.entry)
}

/// The place in ordered chunks before which a chunk belongs.
fn place_for(order: &Vec<Part>, p: Part) -> (at: usize)
    requires
        in_merge_order(order@),
    ensures
        at <= order@.len(),
        forall|i: int| 0 <= i < at ==> !merged_before(p, #[trigger] order@[i]),
        forall|i: int| at <= i < order@.len() ==> merged_before(p, #[trigger] order@[i]),
{
    let mut low: usize = 0;
    let mut high: usize = order.len();
    while low < high
        invariant
            low <= high <= order@.len(),
            in_merge_order(order@),
            forall|i: int| 0 <= i < low ==> !merged_before(p, #[trigger] order@[i]),
            forall|i: int| high <= i < order@.len() ==> merged_before(p, #[trigger] order@[i]),
        decreases high - low,
    {
        let mid: usize = low + (high - low) / 2;
        if goes_before(p, order[mid]) {
            assert forall|i: int| mid <= i < order@.len() implies merged_before(
                p,
                #[trigger] order@[i],
            ) by {
                if i > mid {
                    assert(merged_before(order@[mid as int], order@[i]));
                }
            }
            high = mid;
        } else {
            assert forall|i: int| 0 <= i <= mid implies !merged_before(
                p,
                #[trigger] order@[i],
            ) by {
                if i < mid {
                    assert(merged_before(order@[i], order@[mid as int]));
                }
            }
            low = mid + 1;
        }
    }
    low
}

proof fn lemma_inserted(order: Seq<Part>, at: int, p: Part)
    requires
        in_merge_order(order),
        0 <= at <= order.len(),
        !order.contains(p),
        forall|i: int| 0 <= i < at ==> !merged_before(p, #[trigger] order[i]),
        forall|i: int| at <= i < order.len() ==> merged_before(p, #[trigger] order[i]),
    ensures
        in_merge_order(order.insert(at, p)),
        forall|q: Part| #[trigger] order.insert(at, p).contains(q) <==> order.contains(q) || q == p,
{
    let more = order.insert(at, p);
    assert forall|i: int, j: int| 0 <= i < j < more.len() implies merged_before(
        #[trigger] more[i],
        #[trigger] more[j],
    ) by {
        let k = if i < at {
            i
        } else {
            i - 1
        };
        let m = if j < at {
            j
        } else {
            j - 1
        };
        if i == at {
            assert(more[j] == order[m]);
        } else if j == at {
            assert(more[i] == order[k]);
            assert(order.contains(order[k]));
        } else {
            assert(merged_before(order[k], order[m]));
        }
    }
    assert forall|q: Part| #[trigger] more.contains(q) <==> order.contains(q) || q == p by {
        if more.contains(q) {
            let i = choose|i: int| 0 <= i < more.len() && more[i] == q;
            if i < at {
                assert(order[i] == q);
            } else if i > at {
                assert(order[i - 1] == q);
            }
        }
        if order.contains(q) {
            let i = choose|i: int| 0 <= i < order.len() && order[i] == q;
            if i < at {
                assert(more[i] == q);
            } else {
                assert(more[i + 1] == q);
            }
        }
        assert(more[at] == p);
    }
}

pub(crate) proof fn lemma_parts_listed_in_order(listing: Seq<Seq<char>>)
    requires
        listing.len() <= usize::MAX,
    ensures
        parts_in(listing).len() <= listing.len(),
        forall|i: int| 0 <= i < parts_in(listing).len() ==> #[trigger] parts_in(listing)[i].entry < listing.len(),
        parts_in(listing).no_duplicates(),
    decreases listing.len(),
{
    if listing.len() > 0 {
        lemma_parts_listed_in_order(listing.drop_last());
        let before = parts_in(listing.drop_last());
        let all = parts_in(listing);
        let last = (listing.len() - 1) as usize;
        assert(all == before || (exists|n: usize|
            all == #[trigger] before.push(Part { number: n, entry: last })));
        assert forall|i: int, j: int|
            0 <= i < all.len() && 0 <= j < all.len() && i != j implies all[i] != all[j] by {
            if i < before.len() {
                assert(all[i] == before[i]);
                assert(before[i].entry < last);
            }
            if j < before.len() {
                assert(all[j] == before[j]);
                assert(before[j].entry < last);
            }
        }
    }
}

/// Puts chunks in the order in which they are merged.
fn sort_parts(parts: &Vec<Part>) -> (r: Vec<Part>)
    requires
        parts@.no_duplicates(),
    ensures
        in_merge_order(r@),
        same_parts(r@, parts@),
        r@.len() == parts@.len(),
{
    let mut r: Vec<Part> = Vec::new();
    for i in 0..parts.len()
        invariant
            parts@.no_duplicates(),
            in_merge_order(r@),
            same_parts(r@, parts@.take(i as int)),
            r@.len() == i,
    {
        let p = parts[i];
        let ghost before = r@;
        let ghost done = parts@.take(i as int);
        proof {
            if before.contains(p) {
                assert(done.contains(p));
                let k = choose|k: int| 0 <= k < done.len() && done[k] == p;
                assert(parts@[k] == parts@[i as int]);
            }
        }
        let at = place_for(&r, p);
        proof {
            lemma_inserted(before, at as int, p);
        }
        r.insert(at, p);
        assert forall|q: Part| #[trigger] r@.contains(q) <==> parts@.take(i + 1).contains(q) by {
            assert(parts@.take(i + 1) =~= done.push(p));
            if done.push(p).contains(q) && q != p {
                let k = choose|k: int| 0 <= k < done.push(p).len() && done.push(p)[k] == q;
                assert(done[k] == q);
            }
            if done.contains(q) {
                let k = choose|k: int| 0 <= k < done.len() && done[k] == q;
                assert(done.push(p)[k] == q);
            }
            assert(done.push(p)[i as int] == p);
        }
    }
    assert(parts@.take(parts@.len() as int) =~= parts@);
    r
}

/// The chunks that a file of `total` chunks has.
fn keep_below(parts: &Vec<Part>, total: usize) -> (r: Vec<Part>)
    ensures
        r@ == below(parts@, total),
{
    let mut r: Vec<Part> = Vec::new();
    proof {
        reveal(Seq::filter);
    }
    for i in 0..parts.len()
        invariant
            r@ == below(parts@.take(i as int), total),
    {
        proof {
            reveal(Seq::filter);
            assert(parts@.take(i + 1).drop_last() =~= parts@.take(i as int));
        }
        if parts[i].number < total {
            r.push(parts[i]);
        }
    }
    assert(parts@.take(parts@.len() as int) =~= parts@);
    r
}

/// Whether the chunk of a number is among some chunks.
spec fn has_number(parts: Seq<Part>, number: usize) -> bool {
    exists|i: int| 0 <= i < parts.len() && (#[trigger] parts[i]).number == number
}

/// Whether ordered chunks of a file of `total` chunks leave none out.
fn covers(order: &Vec<Part>, total: usize) -> (r: bool)
    requires
        in_merge_order(order@),
        forall|i: int| 0 <= i < order@.len() ==> (#[trigger] order@[i]).number < total,
    ensures
        r == (forall|k: usize| k < total ==> #[trigger] has_number(order@, k)),
{
    let mut next: usize = 0;
    for i in 0..order.len()
        invariant
            next <= total,
            in_merge_order(order@),
            forall|j: int| 0 <= j < order@.len() ==> (#[trigger] order@[j]).number < total,
            forall|j: int| 0 <= j < i ==> (#[trigger] order@[j]).number < next,
            forall|k: usize| k < next ==> #[trigger] has_number(order@, k),
    {
        let number: usize = order[i].number;
        if number > next {
            proof {
                if has_number(order@, next) {
                    let j = choose|j: int|
                        0 <= j < order@.len() && (#[trigger] order@[j]).number == next;
                    if j > i {
                        assert(merged_before(order@[i as int], order@[j]));
                    }
                }
            }
            return false;
        }
        if number == next {
            assert(has_number(order@, next)) by {
                assert(order@[i as int].number == next);
            }
            next = next + 1;
        }
    }
    if next < total {
        assert(!has_number(order@, next));
        return false;
    }
    true
}

proof fn lemma_numbers_alike(a: Seq<Part>, b: Seq<Part>, number: usize)
    requires
        forall|p: Part| p.number == number ==> (#[trigger] a.contains(p) <==> b.contains(p)),
    ensures
        has_number(a, number) ==> has_number(b, number),
{
    if has_number(a, number) {
        let i = choose|i: int| 0 <= i < a.len() && (#[trigger] a[i]).number == number;
        assert(a.contains(a[i]));
        assert(b.contains(a[i]));
        let j = choose|j: int| 0 <= j < b.len() && b[j] == a[i];
        assert(b[j].number == number);
    }
}

proof fn lemma_enough(parts: Seq<Part>, total: usize)
    requires
        forall|k: usize| k < total ==> #[trigger] has_number(parts, k),
    ensures
        parts.len() >= total,
{
    let numbers = Seq::new(parts.len(), |i: int| parts[i].number as int);
    let wanted = vstd::set_lib::set_int_range(0, total as int);
    vstd::set_lib::lemma_int_range(0, total as int);
    assert(wanted.subset_of(numbers.to_set())) by {
        assert forall|k: int| #[trigger] wanted.contains(k) implies numbers.to_set().contains(k) by {
            assert(has_number(parts, k as usize));
            let i = choose|i: int| 0 <= i < parts.len() && (#[trigger] parts[i]).number == k as usize;
            assert(numbers[i] == k);
        }
    }
    vstd::set_lib::lemma_len_subset(wanted, numbers.to_set());
    numbers.lemma_cardinality_of_set();
}

proof fn lemma_arrived(listing: Seq<Seq<char>>, total: usize, order: Seq<Part>)
    requires
        same_parts(order, parts_below(listing, total)),
    ensures
        all_arrived(listing, total) <==> (forall|k: usize|
            k < total ==> #[trigger] has_number(order, k)),
{
    let found = parts_in(listing);
    lemma_below(found, total);
    assert forall|p: Part| p.number < total implies (#[trigger] order.contains(p)
        <==> found.contains(p)) by {
        assert(order.contains(p) <==> parts_below(listing, total).contains(p));
    }
    assert forall|k: usize| k < total implies (#[trigger] has_number(order, k) <==> stored_chunk(
        listing,
        k,
    )) by {
        lemma_numbers_alike(order, found, k);
        assert forall|p: Part| p.number == k implies (#[trigger] found.contains(p)
            <==> order.contains(p)) by {
            assert(order.contains(p) <==> found.contains(p));
        }
        lemma_numbers_alike(found, order, k);
        assert(has_number(found, k) == stored_chunk(listing, k));
    }
    if forall|k: usize| k < total ==> #[trigger] has_number(order, k) {
        assert forall|k: usize| k < total implies #[trigger] stored_chunk(listing, k) by {
            assert(has_number(order, k));
        }
    }
}

/// A file that is received in chunks: the directory that holds its chunks, and the
/// name under which it is saved.
pub struct Transfer {
    pub folder: String,
    pub name: String,
}

/// Saving a chunk, while the directory for the chunks of its file is being made.
pub struct MakingChunkDir {
    pub transfer: Transfer,
    pub index: usize,
    pub total: usize,
}

/// Saving a chunk, while it is being written to a file in that directory.
pub struct WritingChunk {
    pub transfer: Transfer,
    pub file: String,
    pub total: usize,
}

/// Saving a chunk, while that directory is being listed.
pub struct ListingChunks {
    pub transfer: Transfer,
    pub total: usize,
}

/// Saving a chunk when all are there, while the directory for received files is
/// being made.
pub struct MakingSaveDir {
    pub transfer: Transfer,
    pub save_dir: String,
    pub parts: Vec<Part>,
}

/// Saving a chunk when all are there, while the received file is being created in
/// that directory under an unused name.
pub struct CreatingFile {
    pub transfer: Transfer,
    pub parts: Vec<Part>,
}

/// Saving a chunk when all are there, while one of them is being appended to the
/// received file.
pub struct Merging {
    pub transfer: Transfer,
    pub saved_to: String,
    pub parts: Vec<Part>,
    /// How many chunks were appended already.
    pub next: usize,
    /// How many bytes they held.
    pub size: u64,
}

/// Saving a chunk when all are there, while the received file is being brought to
/// the disk.
pub struct Flushing {
    pub transfer: Transfer,
    pub saved_to: String,
    pub size: u64,
}

/// Saving a chunk when all are there, while the directory of the chunks is being
/// removed.
pub struct CleaningUp {
    pub transfer: Transfer,
    pub saved_to: String,
    pub size: u64,
}

/// What a listing comes to.
pub enum Listed {
    /// Other chunks are still missing; there is nothing more to do.
    Incomplete,
    /// All chunks are there; the directory for received files is made next.
    Complete(MakingSaveDir),
}

/// What is done next with the received file.
pub enum MergeStep {
    /// Append the chunk that `Merging::part` gives.
    Append(Merging),
    /// All chunks were appended; bring the file to the disk.
    Flush(Flushing),
}

/// Begins to save a chunk of a file that was announced under a name. The directory
/// for the chunks of the file is made next; it is named after the transfer.
pub fn save_chunk(filename: &str, file_id: &str, index: usize, total: usize) -> (r: MakingChunkDir)
    ensures
        r.transfer.folder@ == file_id@,
        r.transfer.name@ == crate::names::sanitized(filename@),
        r.index == index,
        r.total == total,
{
    let transfer = Transfer { folder: file_id.to_string(), name: sanitize_filename(filename) };
    MakingChunkDir { transfer, index, total }
}

impl MakingChunkDir {
    /// What follows from making the directory for the chunks: the chunk is written
    /// next, to a file that is named after its number.
    pub fn made(self, outcome: Result<(), String>) -> (r: Result<WritingChunk, String>)
        ensures
            match outcome {
                Ok(_) => {
                    &&& r is Ok
                    &&& r->Ok_0.transfer == self.transfer
                    &&& r->Ok_0.file@ == crate::names::chunk_name(self.index as nat)
                    &&& r->Ok_0.total == self.total
                },
                Err(cause) => r is Err && r->Err_0@ == "创建临时目录失败: "@ + cause@,
            },
    {
        match outcome {
            Ok(_) => Ok(
                WritingChunk {
                    transfer: self.transfer,
                    file: chunk_file_name(self.index),
                    total: self.total,
                },
            ),
            Err(cause) => Err(because("创建临时目录失败: ", cause)),
        }
    }
}

impl WritingChunk {
    /// What follows from writing the chunk: the directory is listed next.
    pub fn written(self, outcome: Result<(), String>) -> (r: Result<ListingChunks, String>)
        ensures
            match outcome {
                Ok(_) => r == Ok::<ListingChunks, String>(
                    ListingChunks { transfer: self.transfer, total: self.total },
                ),
                Err(cause) => r is Err && r->Err_0@ == "写入分片失败: "@ + cause@,
            },
    {
        match outcome {
            Ok(_) => Ok(ListingChunks { transfer: self.transfer, total: self.total }),
            Err(cause) => Err(because("写入分片失败: ", cause)),
        }
    }
}

impl ListingChunks {
    /// What follows from listing the directory: where every chunk of the file is
    /// there, its chunks are merged in the order of their numbers into a file in the
    /// directory for received files.
    pub fn listed(self, outcome: Result<Vec<String>, String>, shared: &Shared) -> (r: Result<
        Listed,
        String,
    >)
        ensures
            match outcome {
                Ok(listing) => {
                    let names = crate::records::views(listing@);
                    &&& r is Ok
                    &&& !all_arrived(names, self.total) ==> r->Ok_0 is Incomplete
                    &&& all_arrived(names, self.total) ==> {
                        let complete = r->Ok_0->Complete_0;
                        &&& r->Ok_0 is Complete
                        &&& complete.transfer == self.transfer
                        &&& complete.save_dir@ == shared@.save_dir
                        &&& in_merge_order(complete.parts@)
                        &&& same_parts(
                            complete.parts@,
                            parts_in(names).filter(|p: Part| p.number < self.total),
                        )
                        &&& complete.parts@ == merge_order(names, self.total)
                        &&& complete.parts@.len() == parts_below(names, self.total).len()
                        &&& forall|i: int|
                            0 <= i < complete.parts@.len() ==> (#[trigger] complete.parts@[i]).entry
                                < listing@.len()
                    }
                },
                Err(cause) => r is Err && r->Err_0@ == cause@,
            },
    {
        let listing = match outcome {
            Ok(l) => l,
            Err(cause) => return Err(cause),
        };
        let ghost names = crate::records::views(listing@);
        let total = self.total;
        let found = collect_parts(&listing);
        let kept = keep_below(&found, total);
        proof {
            assert(listing.len() <= usize::MAX);
            lemma_parts_listed_in_order(names);
            lemma_below(found@, total);
            assert(kept@ == parts_below(names, total));
            lemma_arrived(names, total, kept@);
        }
        if kept.len() < total {
            proof {
                if all_arrived(names, total) {
                    lemma_enough(kept@, total);
                }
            }
            return Ok(Listed::Incomplete);
        }
        let parts = sort_parts(&kept);
        proof {
            lemma_arrived(names, total, parts@);
            lemma_merge_order(names, total, parts@);
            assert forall|i: int| 0 <= i < parts@.len() implies (#[trigger] parts@[i]).entry
                < listing@.len() && parts@[i].number < total by {
                assert(parts@.contains(parts@[i]));
                assert(kept@.contains(parts@[i]));
                assert(found@.contains(parts@[i]));
            }
        }
        if !covers(&parts, total) {
            return Ok(Listed::Incomplete);
        }
        Ok(
            Listed::Complete(
                MakingSaveDir {
                    transfer: self.transfer,
                    save_dir: shared.save_dir.clone(),
                    parts,
                },
            ),
        )
    }
}

impl MakingSaveDir {
    /// What follows from making the directory for received files: the file is created
    /// next.
    pub fn made(self, outcome: Result<(), String>) -> (r: Result<CreatingFile, String>)
        ensures
            match outcome {
                Ok(_) => r == Ok::<CreatingFile, String>(
                    CreatingFile { transfer: self.transfer, parts: self.parts },
                ),
                Err(cause) => r is Err && r->Err_0@ == "创建保存目录失败: "@ + cause@,
            },
    {
        match outcome {
            Ok(_) => Ok(CreatingFile { transfer: self.transfer, parts: self.parts }),
            Err(cause) => Err(because("创建保存目录失败: ", cause)),
        }
    }
}

/// Whether `step` is what is done next once the first `next` of the chunks, of
/// `size` bytes in all, were appended.
pub open spec fn merge_step(
    transfer: Transfer,
    saved_to: String,
    parts: Vec<Part>,
    next: int,
    size: int,
    step: MergeStep,
) -> bool {
    if next < parts@.len() {
        &&& step is Append
        &&& step->Append_0.transfer == transfer
        &&& step->Append_0.saved_to == saved_to
        &&& step->Append_0.parts == parts
        &&& step->Append_0.next == next
        &&& step->Append_0.size == size
    } else {
        &&& step is Flush
        &&& step->Flush_0.transfer == transfer
        &&& step->Flush_0.saved_to == saved_to
        &&& step->Flush_0.size == size
    }
}

fn next_step(transfer: Transfer, saved_to: String, parts: Vec<Part>, next: usize, size: u64) -> (r:
    MergeStep)
    ensures
        merge_step(transfer, saved_to, parts, next as int, size as int, r),
{
    if next < parts.len() {
        MergeStep::Append(Merging { transfer, saved_to, parts, next, size })
    } else {
        MergeStep::Flush(Flushing { transfer, saved_to, size })
    }
}

impl CreatingFile {
    /// What follows from creating the received file, given its path: the chunks are
    /// appended, the first one first.
    pub fn created(self, outcome: Result<String, String>) -> (r: Result<MergeStep, String>)
        ensures
            match outcome {
                Ok(saved_to) => {
                    &&& r is Ok
                    &&& merge_step(self.transfer, saved_to, self.parts, 0, 0, r->Ok_0)
                    &&& r->Ok_0 is Flush <==> self.parts@.len() == 0
                    &&& r->Ok_0 matches MergeStep::Append(m) ==> {
                        &&& m.transfer == self.transfer
                        &&& m.saved_to == saved_to
                        &&& m.parts == self.parts
                        &&& m.next == 0
                        &&& m.size == 0
                    }
                    &&& r->Ok_0 matches MergeStep::Flush(f) ==> {
                        &&& f.transfer == self.transfer
                        &&& f.saved_to == saved_to
                        &&& f.size == 0
                    }
                },
                Err(cause) => r is Err && r->Err_0@ == "创建文件失败: "@ + cause@,
            },
    {
        match outcome {
            Ok(saved_to) => Ok(next_step(self.transfer, saved_to, self.parts, 0, 0)),
            Err(cause) => Err(because("创建文件失败: ", cause)),
        }
    }
}

impl Merging {
    /// The place in the listing of the chunk that is appended next.
    pub fn part(&self) -> (r: usize)
        requires
            self.next < self.parts@.len(),
        ensures
            r == self.parts@[self.next as int].entry,
    {
        self.parts[self.next].entry
    }

    /// What follows from appending a chunk, given how many bytes it holds: the next
    /// one is appended, or the file is brought to the disk.
    pub fn appended(self, outcome: Result<u64, String>) -> (r: Result<MergeStep, String>)
        requires
            self.next < self.parts@.len(),
            outcome matches Ok(len) ==> self.size + len <= u64::MAX,
        ensures
            match outcome {
                Ok(len) => {
                    &&& r is Ok
                    &&& merge_step(
                        self.transfer,
                        self.saved_to,
                        self.parts,
                        self.next + 1,
                        self.size + len,
                        r->Ok_0,
                    )
                    &&& r->Ok_0 is Flush <==> self.next + 1 == self.parts@.len()
                    &&& r->Ok_0 matches MergeStep::Append(m) ==> {
                        &&& m.transfer == self.transfer
                        &&& m.saved_to == self.saved_to
                        &&& m.parts == self.parts
                        &&& m.next == self.next + 1
                        &&& m.size == self.size + len
                    }
                    &&& r->Ok_0 matches MergeStep::Flush(f) ==> {
                        &&& f.transfer == self.transfer
                        &&& f.saved_to == self.saved_to
                        &&& f.size == self.size + len
                    }
                },
                Err(cause) => r is Err && r->Err_0@ == cause@,
            },
    {
        assert(self.next < self.parts.len());
        match outcome {
            Ok(len) => Ok(
                next_step(
                    self.transfer,
                    self.saved_to,
                    self.parts,
                    self.next + 1,
                    self.size + len,
                ),
            ),
            Err(cause) => Err(cause),
        }
    }
}

impl Flushing {
    /// What follows from bringing the file to the disk: the directory of the chunks is
    /// removed next.
    pub fn flushed(self, outcome: Result<(), String>) -> (r: Result<CleaningUp, String>)
        ensures
            match outcome {
                Ok(_) => r == Ok::<CleaningUp, String>(
                    CleaningUp {
                        transfer: self.transfer,
                        saved_to: self.saved_to,
                        size: self.size,
                    },
                ),
                Err(cause) => r is Err && r->Err_0@ == cause@,
            },
    {
        match outcome {
            Ok(_) => Ok(
                CleaningUp {
                    transfer: self.transfer,
                    saved_to: self.saved_to,
                    size: self.size,
                },
            ),
            Err(cause) => Err(cause),
        }
    }
}

/// What is shared once a file was received.
pub open spec fn recorded(
    shared: crate::state::SharedView,
    record: crate::records::FileRecordView,
) -> crate::state::SharedView {
    crate::state::SharedView { history: shared.history.push(record), ..shared }
}

impl CleaningUp {
    /// The record of the file, received at a point in time.
    pub open spec fn record(self, time: u64) -> crate::records::FileRecordView {
        crate::records::FileRecordView {
            name: self.transfer.name@,
            size: self.size,
            saved_to: self.saved_to@,
            time,
        }
    }

    /// What follows from removing the directory of the chunks, or failing to, at a
    /// point in time: the file is recorded.
    pub fn cleaned_at(self, shared: &mut Shared, time: u64) -> (r: FileRecord)
        ensures
            r@ == self.record(time),
            final(shared)@ == recorded(old(shared)@, r@),
            r.name == self.transfer.name,
            r.size == self.size,
            r.saved_to == self.saved_to,
            r.time == time,
            final(shared)@.history == old(shared)@.history.push(r@),
    {
        let record = FileRecord {
            name: self.transfer.name,
            size: self.size,
            saved_to: self.saved_to,
            time,
        };
        shared.history.push(record.clone());
        assert(shared@.history =~= old(shared)@.history.push(record@));
        record
    }

    /// What follows from removing the directory of the chunks, or failing to: the file
    /// is recorded. The desktop is told of the record that is returned.
    pub fn cleaned(self, shared: &mut Shared) -> (r: FileRecord)
        ensures
            exists|time: u64| crate::clock::is_reading(time) && r@ == #[trigger] self.record(time),
            final(shared)@ == recorded(old(shared)@, r@),
            r.name == self.transfer.name,
            r.size == self.size,
            r.saved_to == self.saved_to,
            crate::clock::is_reading(r.time),
            final(shared)@.history == old(shared)@.history.push(r@),
    {
        self.cleaned_at(shared, now_ms())
    }
}

/// The file that a chunk is stored in tells the number of the chunk by its name up to
/// the last dot; any name that is read as a number there does.
pub proof fn law_names_tell_chunk_numbers(digits: Seq<char>, extension: Seq<char>)
    requires
        digits.len() > 0,
        crate::decimal::all_digits(digits),
        forall|i: int| 0 <= i < extension.len() ==> #[trigger] extension[i] != '.',
    ensures
        chunk_number(digits) == crate::decimal::parsed_usize(digits),
        chunk_number(digits.push('.') + extension) == crate::decimal::parsed_usize(digits),
{
    let name = digits.push('.') + extension;
    assert forall|i: int| -1 < i < digits.len() implies #[trigger] digits[i] != '.' by {
        assert(crate::decimal::is_digit(digits[i]));
    }
    crate::names::law_names_split_at_last_dot(digits, -1);
    assert forall|i: int| digits.len() < i < name.len() implies #[trigger] name[i] != '.' by {
        assert(name[i] == extension[i - digits.len() - 1]);
    }
    crate::names::law_names_split_at_last_dot(name, digits.len() as int);
    assert(name.take(digits.len() as int) =~= digits);
}

/// The stored chunks are exactly the files of the listing whose names tell a number,
/// each once, with that number and its place in the listing.
pub proof fn law_parts_are_the_numbered_files(listing: Seq<Seq<char>>, p: Part)
    requires
        listing.len() <= usize::MAX,
    ensures
        parts_in(listing).contains(p) <==> p.entry < listing.len() && chunk_number(
            listing[p.entry as int],
        ) == Some(p.number),
        parts_in(listing).no_duplicates(),
{
    lemma_parts_members(listing, p);
    lemma_parts_listed_in_order(listing);
}

/// Chunks in merge order stand by rising numbers, and those of one number by rising
/// places in the listing.
pub proof fn law_merge_order_rises(parts: Seq<Part>, i: int, j: int)
    requires
        in_merge_order(parts),
        0 <= i < j < parts.len(),
    ensures
        parts[i].number <= parts[j].number,
        parts[i].number == parts[j].number ==> parts[i].entry < parts[j].entry,
{
    assert(merged_before(parts[i], parts[j]));
}

/// Whether some file of a listing tells a number by its name.
pub open spec fn tells_number(listing: Seq<Seq<char>>, number: usize) -> bool {
    exists|i: int| 0 <= i < listing.len() && #[trigger] chunk_number(listing[i]) == Some(number)
}

/// A file counts as complete exactly where for each number below the total some file
/// of the listing tells that number.
pub proof fn law_complete_is_every_number(listing: Seq<Seq<char>>, total: usize)
    requires
        listing.len() <= usize::MAX,
    ensures
        all_arrived(listing, total) <==> (forall|k: usize|
            k < total ==> #[trigger] tells_number(listing, k)),
{
    let found = parts_in(listing);
    assert forall|k: usize| #[trigger] stored_chunk(listing, k) <==> tells_number(listing, k) by {
        if stored_chunk(listing, k) {
            let i = choose|i: int| 0 <= i < found.len() && (#[trigger] found[i]).number == k;
            assert(found.contains(found[i]));
            lemma_parts_members(listing, found[i]);
            assert(chunk_number(listing[found[i].entry as int]) == Some(k));
        }
        if tells_number(listing, k) {
            let i = choose|i: int|
                0 <= i < listing.len() && #[trigger] chunk_number(listing[i]) == Some(k);
            let p = Part { number: k, entry: i as usize };
            lemma_parts_members(listing, p);
            let j = choose|j: int| 0 <= j < found.len() && found[j] == p;
            assert(found[j].number == k);
        }
    }
    if all_arrived(listing, total) {
        assert forall|k: usize| k < total implies #[trigger] tells_number(listing, k) by {
            assert(stored_chunk(listing, k));
        }
    }
}

/// After a chunk was appended the file is flushed exactly where no chunk is left;
/// otherwise the next one is appended, and what was counted is carried on.
pub proof fn law_merging_stops_at_the_end(
    transfer: Transfer,
    saved_to: String,
    parts: Vec<Part>,
    next: int,
    size: int,
    step: MergeStep,
)
    requires
        0 <= next <= parts@.len(),
        merge_step(transfer, saved_to, parts, next, size, step),
    ensures
        step is Flush <==> next == parts@.len(),
        step matches MergeStep::Append(m) ==> {
            &&& m.transfer == transfer
            &&& m.saved_to == saved_to
            &&& m.parts == parts
            &&& m.next == next
            &&& m.size == size
        },
        step matches MergeStep::Flush(f) ==> {
            &&& f.transfer == transfer
            &&& f.saved_to == saved_to
            &&& f.size == size
        },
{
}

/// A received file is recorded behind all others, under the name and the path with
/// which it was saved and with the number of bytes that were merged.
pub proof fn law_received_file_is_recorded(
    cleaning: CleaningUp,
    shared: crate::state::SharedView,
    time: u64,
)
    ensures
        cleaning.record(time).name == cleaning.transfer.name@,
        cleaning.record(time).size == cleaning.size,
        cleaning.record(time).saved_to == cleaning.saved_to@,
        cleaning.record(time).time == time,
        recorded(shared, cleaning.record(time)).history.len() == shared.history.len() + 1,
        recorded(shared, cleaning.record(time)).history.last() == cleaning.record(time),
        recorded(shared, cleaning.record(time)).history.drop_last() == shared.history,
        recorded(shared, cleaning.record(time)).texts == shared.texts,
        recorded(shared, cleaning.record(time)).outbox == shared.outbox,
        recorded(shared, cleaning.record(time)).save_dir == shared.save_dir,
        recorded(shared, cleaning.record(time)).next_id == shared.next_id,
{
    assert(recorded(shared, cleaning.record(time)).history.drop_last() =~= shared.history);
}

} // verus!
