//! The stream of outbox items that a phone listens to.

use crate::outbox::outbox_list;
use crate::records::OutboxItem;
use crate::state::Shared;
use vstd::prelude::*;

verus! {

/// The name of the events that carry outbox items.
pub const EVENT_NAME: &'static str = "outbox";

/// What a listener has still to be sent of the items that were there when it came.
pub struct OutboxStream {
    pub snapshot: Vec<OutboxItem>,
    pub next: usize,
}

/// What reaches a listener after the items that were there when it came.
pub enum Arrival {
    /// A new item.
    Item(OutboxItem),
    /// Word that items were dropped because the listener fell behind.
    Lagged,
    /// Word that nothing more will come.
    Closed,
}

/// What a stream does next.
pub enum StreamStep {
    /// Send an item to the listener.
    Emit(OutboxItem),
    /// Wait for what arrives.
    Wait,
    /// End the stream.
    End,
}

/// The content of an `Arrival`.
pub enum ArrivalView {
    Item(crate::records::OutboxItemView),
    Lagged,
    Closed,
}

/// The content of a `StreamStep`.
pub enum StepView {
    Emit(crate::records::OutboxItemView),
    Wait,
    End,
}

impl View for OutboxStream {
    type V = Seq<crate::records::OutboxItemView>;

    /// The items of the snapshot that are still to be sent.
    open spec fn view(&self) -> Seq<crate::records::OutboxItemView> {
        if self.next <= self.snapshot@.len() {
            crate::records::views(self.snapshot@).skip(self.next as int)
        } else {
            Seq::empty()
        }
    }
}

impl View for Arrival {
    type V = ArrivalView;

    open spec fn view(&self) -> ArrivalView {
        match self {
            Arrival::Item(item) => ArrivalView::Item(item@),
            Arrival::Lagged => ArrivalView::Lagged,
            Arrival::Closed => ArrivalView::Closed,
        }
    }
}

impl View for StreamStep {
    type V = StepView;

    open spec fn view(&self) -> StepView {
        match self {
            StreamStep::Emit(item) => StepView::Emit(item@),
            StreamStep::Wait => StepView::Wait,
            StreamStep::End => StepView::End,
        }
    }
}

/// What a stream does while items of the snapshot may be left.
pub open spec fn step_of(remaining: Seq<crate::records::OutboxItemView>) -> StepView {
    if remaining.len() > 0 {
        StepView::Emit(remaining[0])
    } else {
        StepView::Wait
    }
}

/// The items that are left after that.
pub open spec fn rest_of(remaining: Seq<crate::records::OutboxItemView>) -> Seq<
    crate::records::OutboxItemView,
> {
    if remaining.len() > 0 {
        remaining.drop_first()
    } else {
        remaining
    }
}

/// What a stream does about what arrived.
pub open spec fn step_for(arrival: ArrivalView) -> StepView {
    match arrival {
        ArrivalView::Item(item) => StepView::Emit(item),
        ArrivalView::Lagged => StepView::Wait,
        ArrivalView::Closed => StepView::End,
    }
}

/// The stream for a listener that comes now.
pub fn events_sse(shared: &Shared) -> (r: OutboxStream)
    ensures
        r@ == shared@.outbox,
{
    let r = OutboxStream { snapshot: outbox_list(shared), next: 0 };
    assert(r@ =~= shared@.outbox);
    r
}

impl OutboxStream {
    /// What the stream does next: it sends the items of the snapshot in their order,
    /// then waits.
    pub fn advance(&mut self) -> (r: StreamStep)
        ensures
            r@ == step_of(old(self)@),
            final(self)@ == rest_of(old(self)@),
            final(self).snapshot == old(self).snapshot,
            old(self).next < old(self).snapshot@.len() ==> r is Emit && r->Emit_0
                == old(self).snapshot@[old(self).next as int] && final(self).next == old(self).next
                + 1,
            old(self).next >= old(self).snapshot@.len() ==> r is Wait && final(self).next
                == old(self).next,
    {
        if self.next < self.snapshot.len() {
            let item = self.snapshot[self.next].clone();
            self.next = self.next + 1;
            assert(self@ =~= rest_of(old(self)@));
            StreamStep::Emit(item)
        } else {
            assert(self@ =~= rest_of(old(self)@));
            StreamStep::Wait
        }
    }
}

/// What a stream does about what arrived: it sends an item, waits on where items
/// were dropped, and ends where nothing more will come.
pub fn arrived(arrival: Arrival) -> (r: StreamStep)
    ensures
        r@ == step_for(arrival@),
        arrival matches Arrival::Item(item) ==> r == StreamStep::Emit(item),
        arrival is Lagged ==> r is Wait,
        arrival is Closed ==> r is End,
{
    match arrival {
        Arrival::Item(item) => StreamStep::Emit(item),
        Arrival::Lagged => StreamStep::Wait,
        Arrival::Closed => StreamStep::End,
    }
}

/// What a listener is sent in all: the stream advances until it waits, then deals
/// with each arrival until it ends.
pub open spec fn delivered(
    remaining: Seq<crate::records::OutboxItemView>,
    arrivals: Seq<ArrivalView>,
) -> Seq<crate::records::OutboxItemView>
    decreases remaining.len(), arrivals.len(),
{
    match step_of(remaining) {
        StepView::Emit(item) => seq![item] + delivered(rest_of(remaining), arrivals),
        _ => if arrivals.len() == 0 {
            Seq::empty()
        } else {
            match step_for(arrivals[0]) {
                StepView::Emit(item) => seq![item] + delivered(remaining, arrivals.drop_first()),
                StepView::Wait => delivered(remaining, arrivals.drop_first()),
                StepView::End => Seq::empty(),
            }
        },
    }
}

/// The items among the arrivals, up to the word that nothing more will come.
pub open spec fn live_items(arrivals: Seq<ArrivalView>) -> Seq<crate::records::OutboxItemView>
    decreases arrivals.len(),
{
    if arrivals.len() == 0 {
        Seq::empty()
    } else {
        match arrivals[0] {
            ArrivalView::Item(item) => seq![item] + live_items(arrivals.drop_first()),
            ArrivalView::Lagged => live_items(arrivals.drop_first()),
            ArrivalView::Closed => Seq::empty(),
        }
    }
}

/// A listener is sent what was there when it came, in order, then what arrives, in
/// order; falling behind does not end the stream.
pub proof fn law_stream_delivers_in_order(
    outbox: Seq<crate::records::OutboxItemView>,
    arrivals: Seq<ArrivalView>,
)
    ensures
        delivered(outbox, arrivals) == outbox + live_items(arrivals),
    decreases outbox.len(), arrivals.len(),
{
    if outbox.len() > 0 {
        law_stream_delivers_in_order(outbox.drop_first(), arrivals);
        assert(seq![outbox[0]] + (outbox.drop_first() + live_items(arrivals)) =~= outbox
            + live_items(arrivals));
    } else if arrivals.len() > 0 {
        match arrivals[0] {
            ArrivalView::Item(item) => {
                law_stream_delivers_in_order(outbox, arrivals.drop_first());
                assert(seq![item] + (outbox + live_items(arrivals.drop_first())) =~= outbox
                    + live_items(arrivals));
            },
            ArrivalView::Lagged => {
                law_stream_delivers_in_order(outbox, arrivals.drop_first());
            },
            ArrivalView::Closed => {
                assert(outbox + live_items(arrivals) =~= Seq::empty());
            },
        }
    } else {
        assert(outbox + live_items(arrivals) =~= Seq::empty());
    }
}

/// The arrivals that bring the given items and nothing else.
pub open spec fn arrivals_of(items: Seq<crate::records::OutboxItemView>) -> Seq<ArrivalView> {
    items.map_values(|item: crate::records::OutboxItemView| ArrivalView::Item(item))
}

proof fn lemma_live_items(items: Seq<crate::records::OutboxItemView>)
    ensures
        live_items(arrivals_of(items)) == items,
    decreases items.len(),
{
    if items.len() > 0 {
        assert(arrivals_of(items).drop_first() =~= arrivals_of(items.drop_first()));
        lemma_live_items(items.drop_first());
        assert(seq![items[0]] + items.drop_first() =~= items);
    } else {
        assert(items =~= Seq::empty());
    }
}

/// A listener that starts to listen no later than the snapshot is taken misses
/// nothing: of all the items that are ever offered each is sent at least once.
pub proof fn law_stream_misses_nothing(
    all: Seq<crate::records::OutboxItemView>,
    listening_from: int,
    snapshot_of: int,
    i: int,
)
    requires
        0 <= listening_from <= snapshot_of <= all.len(),
        0 <= i < all.len(),
    ensures
        delivered(all.take(snapshot_of), arrivals_of(all.skip(listening_from))).contains(all[i]),
{
    let sent = all.take(snapshot_of) + all.skip(listening_from);
    law_stream_delivers_in_order(all.take(snapshot_of), arrivals_of(all.skip(listening_from)));
    lemma_live_items(all.skip(listening_from));
    if i < snapshot_of {
        assert(sent[i] == all[i]);
    } else {
        assert(sent[snapshot_of + (i - listening_from)] == all[i]);
    }
}

/// A stream sends the first item that is left and keeps the others, and waits where
/// none is left; a new item that arrives is sent as it is, a listener that fell behind
/// is waited for, and only the end ends the stream.
pub proof fn law_streams_send_each_item(
    item: crate::records::OutboxItemView,
    rest: Seq<crate::records::OutboxItemView>,
)
    ensures
        step_of(seq![item] + rest) == StepView::Emit(item),
        rest_of(seq![item] + rest) == rest,
        step_of(Seq::empty()) == StepView::Wait,
        rest_of(Seq::empty()) == Seq::<crate::records::OutboxItemView>::empty(),
        step_for(ArrivalView::Item(item)) == StepView::Emit(item),
        step_for(ArrivalView::Lagged) == StepView::Wait,
        step_for(ArrivalView::Closed) == StepView::End,
{
    assert((seq![item] + rest).drop_first() =~= rest);
}

/// The contents of arrivals and steps are those of the items that they carry, and what
/// is left of a stream is the rest of its snapshot.
pub proof fn law_streams_show_their_items(arrival: Arrival, step: StreamStep, stream: OutboxStream)
    ensures
        arrival matches Arrival::Item(i) ==> arrival@ == ArrivalView::Item(i@),
        arrival is Lagged ==> arrival@ is Lagged,
        arrival is Closed ==> arrival@ is Closed,
        step matches StreamStep::Emit(i) ==> step@ == StepView::Emit(i@),
        step is Wait ==> step@ is Wait,
        step is End ==> step@ is End,
        stream.next <= stream.snapshot@.len() ==> {
            &&& stream@.len() == stream.snapshot@.len() - stream.next
            &&& forall|i: int|
                stream.next <= i < stream.snapshot@.len() ==> stream@[i - stream.next]
                    == #[trigger] stream.snapshot@[i]@
        },
{
}

} // verus!
