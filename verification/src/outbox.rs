//! What the desktop offers to the phones.

use crate::clock::{new_id, now_ms};
use crate::names::file_name_of;
use crate::records::OutboxItem;
use crate::state::Shared;
use crate::text::{because, check_text, text_preview};
use vstd::prelude::*;

verus! {

/// How much of a text is shown as its name, in characters.
pub const PREVIEW_LENGTH: usize = 20;

/// The message for something other than a file.
pub const NOT_A_FILE: &'static str = "请选择一个文件";

/// The name of a file whose path has no last component.
pub const NAMELESS_FILE: &'static str = "文件";

/// A text as it is offered to the phones.
pub open spec fn text_item(
    id: Seq<char>,
    text: Seq<char>,
    time: u64,
) -> crate::records::OutboxItemView {
    crate::records::OutboxItemView {
        id,
        kind: "text"@,
        name: crate::text::preview(text, PREVIEW_LENGTH as nat),
        size: None,
        text: Some(text),
        time,
    }
}

/// A text that is offered next, with an identifier made at `ms`.
pub open spec fn sent_text(
    shared: crate::state::SharedView,
    text: Seq<char>,
    ms: u64,
    time: u64,
) -> crate::records::OutboxItemView {
    text_item(crate::clock::id_text("t"@, ms, shared.next_id), text, time)
}

/// A file as it is offered to the phones.
pub open spec fn file_item(
    id: Seq<char>,
    name: Seq<char>,
    size: u64,
    time: u64,
) -> crate::records::OutboxItemView {
    crate::records::OutboxItemView {
        id,
        kind: "file"@,
        name,
        size: Some(size),
        text: None,
        time,
    }
}

/// What is shared once `item` was offered.
pub open spec fn offered(
    shared: crate::state::SharedView,
    item: crate::records::OutboxItemView,
) -> crate::state::SharedView {
    crate::state::SharedView { outbox: shared.outbox.push(item), ..shared }
}

/// What is shared once an identifier was issued.
pub open spec fn issued(shared: crate::state::SharedView) -> crate::state::SharedView {
    crate::state::SharedView { next_id: crate::clock::next_count(shared.next_id), ..shared }
}

fn offer(shared: &mut Shared, item: OutboxItem) -> (r: OutboxItem)
    ensures
        r == item,
        final(shared)@ == offered(old(shared)@, item@),
{
    shared.outbox.push(item.clone());
    assert(shared@.outbox =~= old(shared)@.outbox.push(item@));
    item
}

/// Offers a text under an identifier, as of a point in time.
pub fn queue_text(shared: &mut Shared, id: String, text: String, time: u64) -> (r: OutboxItem)
    ensures
        r@ == text_item(id@, text@, time),
        final(shared)@ == offered(old(shared)@, r@),
        r.id == id,
        r.kind@ == "text"@,
        r.text == Some(text),
        r.size is None,
        r.time == time,
        text@.len() <= 20 ==> r.name@ == text@,
        text@.len() > 20 ==> r.name@.len() == 21 && r.name@.take(20) == text@.take(20),
        final(shared)@.outbox == old(shared)@.outbox.push(r@),
{
    proof {
        law_offered_text_shows_itself(id@, text@, time);
    }
    let name = text_preview(text.as_str(), PREVIEW_LENGTH);
    let item = OutboxItem { id, kind: "text".to_string(), name, size: None, text: Some(text), time };
    offer(shared, item)
}

/// Offers a file under an identifier, as of a point in time.
pub fn queue_file(
    shared: &mut Shared,
    id: String,
    name: String,
    size: u64,
    time: u64,
) -> (r: OutboxItem)
    ensures
        r@ == file_item(id@, name@, size, time),
        final(shared)@ == offered(old(shared)@, r@),
        r.id == id,
        r.kind@ == "file"@,
        r.name == name,
        r.size == Some(size),
        r.text is None,
        r.time == time,
        final(shared)@.outbox == old(shared)@.outbox.push(r@),
{
    let item = OutboxItem {
        id,
        kind: "file".to_string(),
        name,
        size: Some(size),
        text: None,
        time,
    };
    offer(shared, item)
}

/// Offers a text to the phones. The item that is returned is to be announced to
/// those that listen.
pub fn send_text(shared: &mut Shared, text: &str) -> (r: Result<OutboxItem, String>)
    ensures
        crate::text::accepted(text@) matches Ok(t) ==> {
            &&& r is Ok
            &&& exists|ms: u64, time: u64|
                {
                    &&& crate::clock::is_reading(ms)
                    &&& crate::clock::is_reading(time)
                    &&& r->Ok_0@ == #[trigger] sent_text(old(shared)@, t, ms, time)
                }
            &&& final(shared)@ == offered(issued(old(shared)@), r->Ok_0@)
            &&& r->Ok_0@.kind == "text"@
            &&& r->Ok_0@.text == Some(crate::text::trimmed(text@))
            &&& r->Ok_0@.size is None
            &&& final(shared)@.outbox == old(shared)@.outbox.push(r->Ok_0@)
        },
        crate::text::accepted(text@) matches Err(m) ==> {
            &&& r is Err
            &&& r->Err_0@ == m
            &&& *final(shared) == *old(shared)
        },
{
    let ghost shared_before = shared@;
    let accepted = match check_text(text) {
        Ok(t) => t,
        Err(e) => return Err(e),
    };
    let id = new_id(&mut shared.next_id, "t");
    let time = now_ms();
    let ghost ms = choose|ms: u64|
        crate::clock::is_reading(ms) && id@ == #[trigger] crate::clock::id_text("t"@, ms, shared_before.next_id);
    let item = queue_text(shared, id, accepted, time);
    assert(item@ == sent_text(shared_before, crate::text::accepted(text@)->Ok_0, ms, time));
    Ok(item)
}

/// A file that is to be offered, before it was looked at.
pub struct FileOffer {
    pub name: String,
}

/// What looking at a path found.
pub enum Inspection {
    Failed(String),
    NotAFile,
    File(u64),
}

/// A file that is offered once its copy is in the outbox directory under its
/// identifier, while that directory is being made.
pub struct MakingDir {
    pub id: String,
    pub name: String,
    pub size: u64,
}

/// A file that is offered once its copy is in the outbox directory under its
/// identifier, while it is being copied.
pub struct Copying {
    pub id: String,
    pub name: String,
    pub size: u64,
}

/// The name of a file, given the last component of its path.
pub open spec fn offer_name(component: Option<Seq<char>>) -> Seq<char> {
    match component {
        Some(n) => n,
        None => NAMELESS_FILE@,
    }
}

/// A file that is to be offered, given the last component of its path.
pub fn offer_named(component: Option<String>) -> (r: FileOffer)
    ensures
        r.name@ == offer_name(crate::names::option_view(component)),
{
    let name = match component {
        Some(n) => n,
        None => NAMELESS_FILE.to_string(),
    };
    FileOffer { name }
}

/// Begins to offer the file at a path, under the last component of the path. The
/// path is looked at next. Which component is the last depends on the system for
/// some paths; for those it is the one that the system tells.
pub fn send_file(path: &str) -> (r: FileOffer)
    ensures
        crate::names::simple_path(path@) ==> r.name@ == crate::names::last_segment(path@),
        crate::names::parent_path(path@) ==> r.name@ == NAMELESS_FILE@,
        exists|c: Option<Seq<char>>| #[trigger]
            crate::names::last_component(path, c) && r.name@ == offer_name(c),
{
    offer_named(file_name_of(path))
}

impl FileOffer {
    /// What follows from looking at the path: a file gets an identifier and the
    /// outbox directory is made next; anything else is refused.
    pub fn inspected(self, shared: &mut Shared, found: Inspection) -> (r: Result<MakingDir, String>)
        ensures
            match found {
                Inspection::Failed(cause) => {
                    &&& r is Err
                    &&& r->Err_0@ == "无法读取文件: "@ + cause@
                    &&& *final(shared) == *old(shared)
                },
                Inspection::NotAFile => {
                    &&& r is Err
                    &&& r->Err_0@ == NOT_A_FILE@
                    &&& *final(shared) == *old(shared)
                },
                Inspection::File(size) => {
                    &&& r is Ok
                    &&& r->Ok_0.name == self.name
                    &&& r->Ok_0.size == size
                    &&& exists|ms: u64|
                        crate::clock::is_reading(ms) && r->Ok_0.id@ == #[trigger] crate::clock::id_text(
                            "f"@,
                            ms,
                            old(shared)@.next_id,
                        )
                    &&& final(shared)@ == issued(old(shared)@)
                },
            },
    {
        match found {
            Inspection::Failed(cause) => Err(because("无法读取文件: ", cause)),
            Inspection::NotAFile => Err(NOT_A_FILE.to_string()),
            Inspection::File(size) => {
                let id = new_id(&mut shared.next_id, "f");
                Ok(MakingDir { id, name: self.name, size })
            },
        }
    }
}

impl MakingDir {
    /// What follows from making the outbox directory: the file is copied next.
    pub fn made(self, outcome: Result<(), String>) -> (r: Result<Copying, String>)
        ensures
            match outcome {
                Ok(_) => r == Ok::<Copying, String>(
                    Copying { id: self.id, name: self.name, size: self.size },
                ),
                Err(cause) => r is Err && r->Err_0@ == "创建发送目录失败: "@ + cause@,
            },
    {
        match outcome {
            Ok(_) => Ok(Copying { id: self.id, name: self.name, size: self.size }),
            Err(cause) => Err(because("创建发送目录失败: ", cause)),
        }
    }
}

impl Copying {
    /// What follows from copying the file, as of a point in time: it is offered.
    pub fn copied_at(self, shared: &mut Shared, outcome: Result<(), String>, time: u64) -> (r: Result<
        OutboxItem,
        String,
    >)
        ensures
            match outcome {
                Ok(_) => {
                    &&& r is Ok
                    &&& r->Ok_0@ == file_item(self.id@, self.name@, self.size, time)
                    &&& final(shared)@ == offered(old(shared)@, r->Ok_0@)
                    &&& r->Ok_0.id == self.id
                    &&& r->Ok_0.kind@ == "file"@
                    &&& r->Ok_0.name == self.name
                    &&& r->Ok_0.size == Some(self.size)
                    &&& r->Ok_0.text is None
                    &&& r->Ok_0.time == time
                    &&& final(shared)@.outbox == old(shared)@.outbox.push(r->Ok_0@)
                },
                Err(cause) => {
                    &&& r is Err
                    &&& r->Err_0@ == "复制文件失败: "@ + cause@
                    &&& *final(shared) == *old(shared)
                },
            },
    {
        match outcome {
            Ok(_) => Ok(queue_file(shared, self.id, self.name, self.size, time)),
            Err(cause) => Err(because("复制文件失败: ", cause)),
        }
    }

    /// What follows from copying the file: it is offered. The item that is returned
    /// is to be announced to those that listen.
    pub fn copied(self, shared: &mut Shared, outcome: Result<(), String>) -> (r: Result<
        OutboxItem,
        String,
    >)
        ensures
            match outcome {
                Ok(_) => {
                    &&& r is Ok
                    &&& exists|time: u64|
                        crate::clock::is_reading(time) && r->Ok_0@ == #[trigger] file_item(self.id@, self.name@, self.size, time)
                    &&& final(shared)@ == offered(old(shared)@, r->Ok_0@)
                    &&& r->Ok_0.id == self.id
                    &&& r->Ok_0.kind@ == "file"@
                    &&& r->Ok_0.name == self.name
                    &&& r->Ok_0.size == Some(self.size)
                    &&& r->Ok_0.text is None
                    &&& crate::clock::is_reading(r->Ok_0.time)
                    &&& final(shared)@.outbox == old(shared)@.outbox.push(r->Ok_0@)
                },
                Err(cause) => {
                    &&& r is Err
                    &&& r->Err_0@ == "复制文件失败: "@ + cause@
                    &&& *final(shared) == *old(shared)
                },
            },
    {
        self.copied_at(shared, outcome, now_ms())
    }
}

/// What is offered to the phones, oldest first.
pub fn outbox_list(shared: &Shared) -> (r: Vec<OutboxItem>)
    ensures
        crate::records::views(r@) == shared@.outbox,
{
    let mut r: Vec<OutboxItem> = Vec::new();
    for i in 0..shared.outbox.len()
        invariant
            r@ == shared.outbox@.take(i as int),
    {
        r.push(shared.outbox[i].clone());
    }
    assert(r@ =~= shared.outbox@);
    r
}

/// A file is offered under its own name, with its size, its identifier and no text.
pub proof fn law_offered_file_shows_itself(id: Seq<char>, name: Seq<char>, size: u64, time: u64)
    ensures
        file_item(id, name, size, time).id == id,
        file_item(id, name, size, time).kind == "file"@,
        file_item(id, name, size, time).name == name,
        file_item(id, name, size, time).size == Some(size),
        file_item(id, name, size, time).text is None,
        file_item(id, name, size, time).time == time,
{
}

/// A text is offered in full, under its identifier and without a size; its name is the
/// text itself up to twenty characters, and its start otherwise.
pub proof fn law_offered_text_shows_itself(id: Seq<char>, text: Seq<char>, time: u64)
    ensures
        text_item(id, text, time).id == id,
        text_item(id, text, time).kind == "text"@,
        text_item(id, text, time).text == Some(text),
        text_item(id, text, time).size is None,
        text_item(id, text, time).time == time,
        text.len() <= 20 ==> text_item(id, text, time).name == text,
        text.len() > 20 ==> {
            &&& text_item(id, text, time).name.len() == 21
            &&& text_item(id, text, time).name.take(20) == text.take(20)
            &&& text_item(id, text, time).name[20] == '…'
        },
{
    if text.len() > 20 {
        assert(text_item(id, text, time).name.take(20) =~= text.take(20));
    }
}

/// A text that is sent is offered in full, under an identifier with the next running
/// number.
pub proof fn law_sent_text_shows_itself(
    shared: crate::state::SharedView,
    text: Seq<char>,
    ms: u64,
    time: u64,
)
    ensures
        sent_text(shared, text, ms, time).text == Some(text),
        sent_text(shared, text, ms, time).kind == "text"@,
        sent_text(shared, text, ms, time).time == time,
        sent_text(shared, text, ms, time).id == crate::clock::id_text("t"@, ms, shared.next_id),
{
}

/// Offering an item puts it behind all that was offered before and changes nothing
/// else; issuing an identifier moves the counter alone.
pub proof fn law_offering_adds_one_item(
    shared: crate::state::SharedView,
    item: crate::records::OutboxItemView,
)
    ensures
        offered(shared, item).outbox.len() == shared.outbox.len() + 1,
        offered(shared, item).outbox.last() == item,
        offered(shared, item).outbox.drop_last() == shared.outbox,
        offered(shared, item).history == shared.history,
        offered(shared, item).texts == shared.texts,
        offered(shared, item).save_dir == shared.save_dir,
        offered(shared, item).next_id == shared.next_id,
        issued(shared).outbox == shared.outbox,
        issued(shared).history == shared.history,
        issued(shared).texts == shared.texts,
        issued(shared).save_dir == shared.save_dir,
        shared.next_id < u64::MAX ==> issued(shared).next_id == shared.next_id + 1,
{
    assert(offered(shared, item).outbox.drop_last() =~= shared.outbox);
}

/// The file at a path is offered under the last component of the path: for a path of
/// a directory, a slash and a plain name, under that name.
pub proof fn law_file_is_offered_under_last_component(
    directory: Seq<char>,
    name: Seq<char>,
    id: Seq<char>,
    size: u64,
    time: u64,
)
    requires
        forall|i: int| 0 <= i < name.len() ==> #[trigger] name[i] != '/' && name[i] != '\\',
    ensures
        file_item(
            id,
            offer_name(Some(crate::names::last_segment(directory.push('/') + name))),
            size,
            time,
        ).name == name,
        offer_name(None) == "文件"@,
{
    let path = directory.push('/') + name;
    let cut = directory.len() as int + 1;
    assert(path[cut - 1] == '/');
    assert forall|i: int| cut <= i < path.len() implies #[trigger] path[i] != '/' && path[i]
        != '\\' by {
        assert(path[i] == name[i - cut]);
    }
    crate::names::law_last_segment_follows_separator(path, cut);
    assert(path.skip(cut) =~= name);
}

/// A file with a last component is offered under that component as it is.
pub proof fn law_component_is_the_name(component: Seq<char>)
    ensures
        offer_name(Some(component)) == component,
{
}

} // verus!
