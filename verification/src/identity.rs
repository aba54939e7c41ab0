//! How identifiers keep what is offered to the phones apart.

use vstd::prelude::*;

verus! {

/// Whether an identifier was issued before the running number `next`.
pub open spec fn issued_before(id: Seq<char>, next: u64) -> bool {
    exists|prefix: Seq<char>, ms: u64, count: u64|
        count < next && id == #[trigger] crate::clock::id_text(prefix, ms, count)
}

/// Whether no two items that are offered bear the same identifier, and each was
/// issued by the counter.
pub open spec fn well_issued(shared: crate::state::SharedView) -> bool {
    &&& forall|i: int|
        0 <= i < shared.outbox.len() ==> issued_before(
            (#[trigger] shared.outbox[i]).id,
            shared.next_id,
        )
    &&& forall|i: int, j: int|
        0 <= i < j < shared.outbox.len() ==> (#[trigger] shared.outbox[i]).id != (
        #[trigger] shared.outbox[j]).id
}

/// Whether an identifier was issued and nothing is offered under it yet.
pub open spec fn pending(shared: crate::state::SharedView, id: Seq<char>) -> bool {
    &&& issued_before(id, shared.next_id)
    &&& forall|i: int| 0 <= i < shared.outbox.len() ==> (#[trigger] shared.outbox[i]).id != id
}

proof fn lemma_later_differs(id: Seq<char>, prefix: Seq<char>, ms: u64, count: u64)
    requires
        issued_before(id, count),
    ensures
        id != crate::clock::id_text(prefix, ms, count),
{
    let (p, m, c) = choose|p: Seq<char>, m: u64, c: u64|
        c < count && id == #[trigger] crate::clock::id_text(p, m, c);
    crate::clock::law_ids_distinct(p, m, c, prefix, ms, count);
}

proof fn lemma_issued_stays(id: Seq<char>, next: u64, later: u64)
    requires
        issued_before(id, next),
        next <= later,
    ensures
        issued_before(id, later),
{
    let (p, m, c) = choose|p: Seq<char>, m: u64, c: u64|
        c < next && id == #[trigger] crate::clock::id_text(p, m, c);
    assert(c < later && id == crate::clock::id_text(p, m, c));
}

/// When nothing has happened yet, all identifiers are in order.
pub proof fn law_starts_well_issued()
    ensures
        well_issued(crate::state::nothing_shared()),
{
}

/// A new identifier is unlike every other that is in use or waits to be used, as
/// long as the counter has not run through.
pub proof fn law_new_id_is_unused(
    shared: crate::state::SharedView,
    prefix: Seq<char>,
    ms: u64,
    other: Seq<char>,
)
    requires
        well_issued(shared),
        shared.next_id < u64::MAX,
    ensures
        well_issued(crate::outbox::issued(shared)),
        pending(
            crate::outbox::issued(shared),
            crate::clock::id_text(prefix, ms, shared.next_id),
        ),
        pending(shared, other) ==> {
            &&& pending(crate::outbox::issued(shared), other)
            &&& other != crate::clock::id_text(prefix, ms, shared.next_id)
        },
{
    let next = shared.next_id;
    let after = crate::outbox::issued(shared);
    let id = crate::clock::id_text(prefix, ms, next);
    assert(next < after.next_id);
    assert(issued_before(id, after.next_id));
    assert forall|i: int| 0 <= i < after.outbox.len() implies (#[trigger] after.outbox[i]).id != id
        && issued_before(after.outbox[i].id, after.next_id) by {
        assert(issued_before(shared.outbox[i].id, next));
        lemma_later_differs(shared.outbox[i].id, prefix, ms, next);
        lemma_issued_stays(shared.outbox[i].id, next, after.next_id);
    }
    if pending(shared, other) {
        lemma_later_differs(other, prefix, ms, next);
        lemma_issued_stays(other, next, after.next_id);
    }
}

/// Offering something under an identifier that waits to be used keeps all
/// identifiers apart, and those of other items that wait go on waiting.
pub proof fn law_offering_keeps_ids_apart(
    shared: crate::state::SharedView,
    item: crate::records::OutboxItemView,
    other: Seq<char>,
)
    requires
        well_issued(shared),
        pending(shared, item.id),
    ensures
        well_issued(crate::outbox::offered(shared, item)),
        pending(shared, other) && other != item.id ==> pending(
            crate::outbox::offered(shared, item),
            other,
        ),
{
    let after = crate::outbox::offered(shared, item);
    assert forall|i: int| 0 <= i < after.outbox.len() implies issued_before(
        (#[trigger] after.outbox[i]).id,
        after.next_id,
    ) by {
        if i < shared.outbox.len() {
            assert(after.outbox[i] == shared.outbox[i]);
        }
    }
    assert forall|i: int, j: int| 0 <= i < j < after.outbox.len() implies (
    #[trigger] after.outbox[i]).id != (#[trigger] after.outbox[j]).id by {
        assert(after.outbox[i] == shared.outbox[i]);
        if j < shared.outbox.len() {
            assert(after.outbox[j] == shared.outbox[j]);
        }
    }
    if pending(shared, other) && other != item.id {
        assert forall|i: int| 0 <= i < after.outbox.len() implies (#[trigger] after.outbox[i]).id
            != other by {
            if i < shared.outbox.len() {
                assert(after.outbox[i] == shared.outbox[i]);
            }
        }
    }
}

/// A text that is sent is offered under an identifier of its own.
pub proof fn law_sent_text_is_told_apart(
    shared: crate::state::SharedView,
    text: Seq<char>,
    ms: u64,
    time: u64,
)
    requires
        well_issued(shared),
        shared.next_id < u64::MAX,
    ensures
        well_issued(
            crate::outbox::offered(
                crate::outbox::issued(shared),
                crate::outbox::sent_text(shared, text, ms, time),
            ),
        ),
{
    let item = crate::outbox::sent_text(shared, text, ms, time);
    law_new_id_is_unused(shared, "t"@, ms, item.id);
    law_offering_keeps_ids_apart(crate::outbox::issued(shared), item, item.id);
}

proof fn lemma_only_one(outbox: Seq<crate::records::OutboxItemView>, at: int)
    requires
        0 <= at < outbox.len(),
        outbox[at].kind == "file"@,
        forall|i: int, j: int|
            0 <= i < j < outbox.len() ==> (#[trigger] outbox[i]).id != (#[trigger] outbox[j]).id,
    ensures
        crate::download::first_file(outbox, outbox[at].id) == Some(outbox[at]),
    decreases outbox.len(),
{
    if at > 0 {
        let rest = outbox.drop_first();
        assert(outbox[0].id != outbox[at].id);
        assert(rest[at - 1] == outbox[at]);
        assert forall|i: int, j: int| 0 <= i < j < rest.len() implies (#[trigger] rest[i]).id != (
        #[trigger] rest[j]).id by {
            assert(rest[i] == outbox[i + 1] && rest[j] == outbox[j + 1]);
        }
        lemma_only_one(rest, at - 1);
    }
}

/// Each file that is offered is the one that is found under its identifier.
pub proof fn law_every_file_is_found(shared: crate::state::SharedView, at: int)
    requires
        well_issued(shared),
        0 <= at < shared.outbox.len(),
        shared.outbox[at].kind == "file"@,
    ensures
        crate::download::first_file(shared.outbox, shared.outbox[at].id) == Some(
            shared.outbox[at],
        ),
{
    lemma_only_one(shared.outbox, at);
}

/// What a request for a file is handed, given the copies in the outbox directory by
/// their names: the copy that is named after the identifier of the item.
pub open spec fn handed_out(
    shared: crate::state::SharedView,
    copies: Map<Seq<char>, Seq<u8>>,
    id: Seq<char>,
) -> Option<Seq<u8>> {
    match crate::download::first_file(shared.outbox, id) {
        Some(item) => if copies.dom().contains(item.id) {
            Some(copies[item.id])
        } else {
            None
        },
        None => None,
    }
}

/// A file that is offered under an identifier that waits to be used, once its copy is
/// in the outbox directory, is handed out as it was copied.
pub proof fn law_offered_file_is_handed_out(
    shared: crate::state::SharedView,
    copies: Map<Seq<char>, Seq<u8>>,
    id: Seq<char>,
    name: Seq<char>,
    size: u64,
    time: u64,
    data: Seq<u8>,
)
    requires
        well_issued(shared),
        pending(shared, id),
    ensures
        handed_out(
            crate::outbox::offered(shared, crate::outbox::file_item(id, name, size, time)),
            copies.insert(id, data),
            id,
        ) == Some(data),
{
    let item = crate::outbox::file_item(id, name, size, time);
    let after = crate::outbox::offered(shared, item);
    law_offering_keeps_ids_apart(shared, item, id);
    assert(after.outbox[shared.outbox.len() as int] == item);
    law_every_file_is_found(after, shared.outbox.len() as int);
}

proof fn lemma_found_id(outbox: Seq<crate::records::OutboxItemView>, id: Seq<char>)
    requires
        crate::download::first_file(outbox, id) is Some,
    ensures
        crate::download::first_file(outbox, id)->0.id == id,
        exists|i: int| 0 <= i < outbox.len() && (#[trigger] outbox[i]).id == id,
    decreases outbox.len(),
{
    if outbox[0].id == id && outbox[0].kind == "file"@ {
        assert(outbox[0].id == id);
    } else {
        let rest = outbox.drop_first();
        lemma_found_id(rest, id);
        let i = choose|i: int| 0 <= i < rest.len() && (#[trigger] rest[i]).id == id;
        assert(outbox[i + 1].id == id);
    }
}

/// A file that is handed out goes on being handed out unchanged when something else
/// is offered under an identifier that waits to be used, with or without a copy.
pub proof fn law_handed_out_file_stays(
    shared: crate::state::SharedView,
    copies: Map<Seq<char>, Seq<u8>>,
    id: Seq<char>,
    other: crate::records::OutboxItemView,
    data: Seq<u8>,
)
    requires
        handed_out(shared, copies, id) is Some,
        pending(shared, other.id),
    ensures
        handed_out(crate::outbox::offered(shared, other), copies, id) == handed_out(
            shared,
            copies,
            id,
        ),
        handed_out(crate::outbox::offered(shared, other), copies.insert(other.id, data), id)
            == handed_out(shared, copies, id),
{
    lemma_found_id(shared.outbox, id);
    crate::download::law_found_file_stays(shared.outbox, id, other);
}

} // verus!
