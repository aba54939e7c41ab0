//! What is kept and shown of the service and of each transfer.

use vstd::prelude::*;

verus! {

/// What is shown of the running service.
#[derive(Debug)]
pub struct ServerInfo {
    pub running: bool,
    pub url: String,
    pub ip: String,
    pub port: u16,
    pub save_dir: String,
}

/// A file that was received from a phone.
#[derive(Debug)]
pub struct FileRecord {
    pub name: String,
    pub size: u64,
    pub saved_to: String,
    /// When it was received, in milliseconds since the start of 1970.
    pub time: u64,
}

/// A text that was received from a phone.
#[derive(Debug)]
pub struct TextRecord {
    pub text: String,
    pub time: u64,
}

/// Something that is offered to the phones, of kind `file` or `text`.
#[derive(Debug)]
pub struct OutboxItem {
    pub id: String,
    pub kind: String,
    pub name: String,
    pub size: Option<u64>,
    pub text: Option<String>,
    pub time: u64,
}

/// The content of a `ServerInfo`.
pub struct ServerInfoView {
    pub running: bool,
    pub url: Seq<char>,
    pub ip: Seq<char>,
    pub port: u16,
    pub save_dir: Seq<char>,
}

/// The content of a `FileRecord`.
pub struct FileRecordView {
    pub name: Seq<char>,
    pub size: u64,
    pub saved_to: Seq<char>,
    pub time: u64,
}

/// The content of a `TextRecord`.
pub struct TextRecordView {
    pub text: Seq<char>,
    pub time: u64,
}

/// The content of an `OutboxItem`.
pub struct OutboxItemView {
    pub id: Seq<char>,
    pub kind: Seq<char>,
    pub name: Seq<char>,
    pub size: Option<u64>,
    pub text: Option<Seq<char>>,
    pub time: u64,
}

impl View for ServerInfo {
    type V = ServerInfoView;

    open spec fn view(&self) -> ServerInfoView {
        ServerInfoView {
            running: self.running,
            url: self.url@,
            ip: self.ip@,
            port: self.port,
            save_dir: self.save_dir@,
        }
    }
}

impl View for FileRecord {
    type V = FileRecordView;

    open spec fn view(&self) -> FileRecordView {
        FileRecordView {
            name: self.name@,
            size: self.size,
            saved_to: self.saved_to@,
            time: self.time,
        }
    }
}

impl View for TextRecord {
    type V = TextRecordView;

    open spec fn view(&self) -> TextRecordView {
        TextRecordView { text: self.text@, time: self.time }
    }
}

impl View for OutboxItem {
    type V = OutboxItemView;

    open spec fn view(&self) -> OutboxItemView {
        OutboxItemView {
            id: self.id@,
            kind: self.kind@,
            name: self.name@,
            size: self.size,
            text: crate::names::option_view(self.text),
            time: self.time,
        }
    }
}

impl Clone for ServerInfo {
    fn clone(&self) -> (r: Self)
        ensures
            r == *self,
    {
        ServerInfo {
            running: self.running,
            url: self.url.clone(),
            ip: self.ip.clone(),
            port: self.port,
            save_dir: self.save_dir.clone(),
        }
    }
}

impl Clone for FileRecord {
    fn clone(&self) -> (r: Self)
        ensures
            r == *self,
    {
        FileRecord {
            name: self.name.clone(),
            size: self.size,
            saved_to: self.saved_to.clone(),
            time: self.time,
        }
    }
}

impl Clone for TextRecord {
    fn clone(&self) -> (r: Self)
        ensures
            r == *self,
    {
        TextRecord { text: self.text.clone(), time: self.time }
    }
}

impl Clone for OutboxItem {
    fn clone(&self) -> (r: Self)
        ensures
            r == *self,
    {
        OutboxItem {
            id: self.id.clone(),
            kind: self.kind.clone(),
            name: self.name.clone(),
            size: self.size,
            text: self.text.clone(),
            time: self.time,
        }
    }
}

/// The contents of a list of records.
pub open spec fn views<T: View>(records: Seq<T>) -> Seq<T::V> {
    records.map_values(|r: T| r@)
}

/// The contents of records are those of their fields.
pub proof fn law_records_show_their_fields(
    info: ServerInfo,
    file: FileRecord,
    text: TextRecord,
    item: OutboxItem,
)
    ensures
        info@.running == info.running && info@.url == info.url@ && info@.ip == info.ip@,
        info@.port == info.port && info@.save_dir == info.save_dir@,
        file@.name == file.name@ && file@.size == file.size,
        file@.saved_to == file.saved_to@ && file@.time == file.time,
        text@.text == text.text@ && text@.time == text.time,
        item@.id == item.id@ && item@.kind == item.kind@ && item@.name == item.name@,
        item@.size == item.size && item@.time == item.time,
        item.text is None ==> item@.text is None,
        item.text matches Some(t) ==> item@.text == Some(t@),
{
}

/// The contents of a list of records are the contents of the records, in order.
pub proof fn law_lists_show_their_records<T: View>(records: Seq<T>, i: int)
    requires
        0 <= i < records.len(),
    ensures
        views(records).len() == records.len(),
        views(records)[i] == records[i]@,
{
}

} // verus!
