//! The form with which a phone uploads one chunk of a file.

use crate::decimal::parse_usize;
use crate::records::FileRecord;
use crate::reply::{
    chunk_response, err_response, saved_response, Reply, BAD_REQUEST, INTERNAL_SERVER_ERROR,
};
use crate::text::because;
use vstd::prelude::*;

verus! {

/// The message for a form that lacks a field.
pub const FIELD_MISSING: &'static str = "缺少必要的上传字段";

/// The message for a chunk that cannot be part of the file.
pub const CHUNK_INVALID: &'static str = "分片参数无效";

/// The fields of the form.
#[derive(Debug, Clone, Copy, PartialEq, Eq, Structural)]
pub enum Field {
    FileName,
    FileId,
    Index,
    Total,
    File,
    Other,
}

/// The field that goes by a name.
pub open spec fn field_named(name: Seq<char>) -> Field {
    if name == "filename"@ {
        Field::FileName
    } else if name == "fileId"@ {
        Field::FileId
    } else if name == "index"@ {
        Field::Index
    } else if name == "total"@ {
        Field::Total
    } else if name == "file"@ {
        Field::File
    } else {
        Field::Other
    }
}

/// The field that goes by a name; a field without a name is none of the form's.
pub fn field_of(name: Option<String>) -> (r: Field)
    ensures
        r == (match name {
            Some(n) => field_named(n@),
            None => Field::Other,
        }),
{
    let name = match name {
        Some(n) => n,
        None => return Field::Other,
    };
    if name == "filename".to_string() {
        Field::FileName
    } else if name == "fileId".to_string() {
        Field::FileId
    } else if name == "index".to_string() {
        Field::Index
    } else if name == "total".to_string() {
        Field::Total
    } else if name == "file".to_string() {
        Field::File
    } else {
        Field::Other
    }
}

/// What was read of a form so far; `D` holds the bytes of a chunk.
pub struct UploadForm<D> {
    pub filename: Option<String>,
    pub file_id: Option<String>,
    pub index: Option<usize>,
    pub total: Option<usize>,
    pub data: Option<D>,
}

/// The content of an `UploadForm`.
pub struct UploadFormView<D> {
    pub filename: Option<Seq<char>>,
    pub file_id: Option<Seq<char>>,
    pub index: Option<usize>,
    pub total: Option<usize>,
    pub data: Option<D>,
}

impl<D> View for UploadForm<D> {
    type V = UploadFormView<D>;

    open spec fn view(&self) -> UploadFormView<D> {
        UploadFormView {
            filename: crate::names::option_view(self.filename),
            file_id: crate::names::option_view(self.file_id),
            index: self.index,
            total: self.total,
            data: self.data,
        }
    }
}

/// One chunk of a file, as a complete form describes it.
pub struct Chunk<D> {
    pub filename: String,
    pub file_id: String,
    pub index: usize,
    pub total: usize,
    pub data: D,
}

/// A form of which nothing was read yet.
pub open spec fn empty_form<D>() -> UploadFormView<D> {
    UploadFormView { filename: None, file_id: None, index: None, total: None, data: None }
}

/// The number in a field, where its text could be read and is a number.
pub open spec fn number_in(text: Option<Seq<char>>) -> Option<usize> {
    match text {
        Some(t) => crate::decimal::parsed_usize(t),
        None => None,
    }
}

/// A form after the text of a field was read, or could not be read. What was read
/// of the same field before is replaced.
pub open spec fn with_text<D>(
    form: UploadFormView<D>,
    field: Field,
    text: Option<Seq<char>>,
) -> UploadFormView<D> {
    match field {
        Field::FileName => UploadFormView { filename: text, ..form },
        Field::FileId => UploadFormView { file_id: text, ..form },
        Field::Index => UploadFormView { index: number_in(text), ..form },
        Field::Total => UploadFormView { total: number_in(text), ..form },
        _ => form,
    }
}

/// A form after the bytes of the chunk were read.
pub open spec fn with_data<D>(form: UploadFormView<D>, data: D) -> UploadFormView<D> {
    UploadFormView { data: Some(data), ..form }
}

/// Whether a form holds every field.
pub open spec fn complete<D>(form: UploadFormView<D>) -> bool {
    &&& form.filename is Some
    &&& form.file_id is Some
    &&& form.index is Some
    &&& form.total is Some
    &&& form.data is Some
}

fn number_of(text: Option<String>) -> (r: Option<usize>)
    ensures
        r == number_in(crate::names::option_view(text)),
{
    match text {
        Some(t) => parse_usize(t.as_str()),
        None => None,
    }
}

impl<D> UploadForm<D> {
    /// A form of which nothing was read yet.
    pub fn new() -> (r: Self)
        ensures
            r@ == empty_form::<D>(),
    {
        UploadForm { filename: None, file_id: None, index: None, total: None, data: None }
    }

    /// Takes the text of a field, or the fact that it could not be read.
    pub fn take_text(&mut self, field: Field, text: Option<String>)
        ensures
            final(self)@ == with_text(old(self)@, field, crate::names::option_view(text)),
    {
        match field {
            Field::FileName => {
                self.filename = text;
            },
            Field::FileId => {
                self.file_id = text;
            },
            Field::Index => {
                self.index = number_of(text);
            },
            Field::Total => {
                self.total = number_of(text);
            },
            Field::File | Field::Other => {},
        }
    }

    /// Takes the bytes of the chunk.
    pub fn take_data(&mut self, data: D)
        ensures
            final(self)@ == with_data(old(self)@, data),
    {
        self.data = Some(data);
    }

    /// The chunk that the form describes, or the answer that it describes none: a
    /// field is missing, or the number of the chunk does not lie below the number of
    /// all chunks.
    pub fn submit(self) -> (r: Result<Chunk<D>, Reply>)
        ensures
            !complete(self@) ==> r is Err && r->Err_0@ == crate::reply::error_reply(
                BAD_REQUEST,
                FIELD_MISSING@,
            ),
            complete(self@) && self@.index->0 >= self@.total->0 ==> r is Err && r->Err_0@
                == crate::reply::error_reply(BAD_REQUEST, CHUNK_INVALID@),
            complete(self@) && self@.index->0 < self@.total->0 ==> {
                &&& r is Ok
                &&& r->Ok_0.filename@ == self@.filename->0
                &&& r->Ok_0.file_id@ == self@.file_id->0
                &&& r->Ok_0.index == self@.index->0
                &&& r->Ok_0.total == self@.total->0
                &&& r->Ok_0.data == self@.data->0
            },
    {
        match (self.filename, self.file_id, self.index, self.total, self.data) {
            (Some(filename), Some(file_id), Some(index), Some(total), Some(data)) => {
                if total == 0 || index >= total {
                    return Err(err_response(BAD_REQUEST, CHUNK_INVALID.to_string()));
                }
                Ok(Chunk { filename, file_id, index, total, data })
            },
            _ => Err(err_response(BAD_REQUEST, FIELD_MISSING.to_string())),
        }
    }
}

/// The answer to a request whose form could not be read.
pub fn form_unreadable(cause: String) -> (r: Reply)
    ensures
        r@ == crate::reply::error_reply(BAD_REQUEST, "解析请求失败: "@ + cause@),
{
    err_response(BAD_REQUEST, because("解析请求失败: ", cause))
}

/// The answer to a request whose chunk could not be read.
pub fn chunk_unreadable(cause: String) -> (r: Reply)
    ensures
        r@ == crate::reply::error_reply(BAD_REQUEST, "读取文件分片失败: "@ + cause@),
{
    err_response(BAD_REQUEST, because("读取文件分片失败: ", cause))
}

/// The answer to a chunk, given what saving it came to.
pub open spec fn upload_answer(
    outcome: Result<Option<crate::records::FileRecordView>, Seq<char>>,
) -> crate::reply::ReplyView {
    match outcome {
        Ok(Some(record)) => crate::reply::saved_reply(record.name, record.saved_to),
        Ok(None) => crate::reply::chunk_reply(),
        Err(message) => crate::reply::error_reply(INTERNAL_SERVER_ERROR, message),
    }
}

/// The content of what saving a chunk came to.
pub open spec fn outcome_view(outcome: Result<Option<FileRecord>, String>) -> Result<
    Option<crate::records::FileRecordView>,
    Seq<char>,
> {
    match outcome {
        Ok(Some(record)) => Ok(Some(record@)),
        Ok(None) => Ok(None),
        Err(message) => Err(message@),
    }
}

/// The answer to a chunk, given what saving it came to.
pub fn upload_reply(outcome: Result<Option<FileRecord>, String>) -> (r: Reply)
    ensures
        r@ == upload_answer(outcome_view(outcome)),
{
    match outcome {
        Ok(Some(record)) => saved_response(record.name, record.saved_to),
        Ok(None) => chunk_response(),
        Err(message) => err_response(INTERNAL_SERVER_ERROR, message),
    }
}

/// What an uploaded chunk comes to: the record of the file that the desktop is told
/// of, if the chunk completed one, and the answer.
pub struct UploadReceipt {
    pub record: Option<FileRecord>,
    pub reply: Reply,
}

/// The record that the desktop is told of and the answer to a chunk, given what
/// saving it came to.
pub fn upload_receipt(outcome: Result<Option<FileRecord>, String>) -> (r: UploadReceipt)
    ensures
        r.record is Some <==> outcome matches Ok(Some(_)),
        outcome matches Ok(Some(saved)) ==> r.record->0@ == saved@,
        r.reply@ == upload_answer(outcome_view(outcome)),
{
    let record = match &outcome {
        Ok(Some(saved)) => Some(saved.clone()),
        _ => None,
    };
    UploadReceipt { record, reply: upload_reply(outcome) }
}

/// The order in which two different fields are read does not matter.
pub proof fn law_fields_in_any_order<D>(
    form: UploadFormView<D>,
    a: Field,
    s: Option<Seq<char>>,
    b: Field,
    t: Option<Seq<char>>,
    data: D,
)
    requires
        a != b,
    ensures
        with_text(with_text(form, a, s), b, t) == with_text(with_text(form, b, t), a, s),
        with_data(with_text(form, a, s), data) == with_text(with_data(form, data), a, s),
{
}

/// A field that is read twice counts as it was read last.
pub proof fn law_last_field_counts<D>(
    form: UploadFormView<D>,
    field: Field,
    s: Option<Seq<char>>,
    t: Option<Seq<char>>,
)
    ensures
        with_text(with_text(form, field, s), field, t) == with_text(form, field, t),
{
}

/// A form that was filled in with the number of a chunk, the number of all chunks,
/// both in decimal notation, and the other fields is complete, and gives these
/// numbers back.
pub proof fn law_filled_form_is_complete<D>(
    filename: Seq<char>,
    file_id: Seq<char>,
    index: usize,
    total: usize,
    data: D,
)
    ensures
        ({
            let named = with_text(empty_form::<D>(), Field::FileName, Some(filename));
            let identified = with_text(named, Field::FileId, Some(file_id));
            let numbered = with_text(
                identified,
                Field::Index,
                Some(crate::decimal::decimal(index as nat)),
            );
            let counted = with_text(
                numbered,
                Field::Total,
                Some(crate::decimal::decimal(total as nat)),
            );
            let form = with_data(counted, data);
            &&& complete(form)
            &&& form.filename == Some(filename)
            &&& form.file_id == Some(file_id)
            &&& form.index == Some(index)
            &&& form.total == Some(total)
            &&& form.data == Some(data)
        }),
{
    crate::decimal::law_parse_reads_back(index, 0);
    crate::decimal::law_parse_reads_back(total, 0);
}

/// The fields of the form go by these names, and by no others.
pub proof fn law_fields_go_by_their_names(name: Seq<char>)
    ensures
        field_named(name) is FileName <==> name == "filename"@,
        field_named(name) is FileId <==> name == "fileId"@,
        field_named(name) is Index <==> name == "index"@,
        field_named(name) is Total <==> name == "total"@,
        field_named(name) is File <==> name == "file"@,
{
    reveal_strlit("filename");
    reveal_strlit("fileId");
    reveal_strlit("index");
    reveal_strlit("total");
    reveal_strlit("file");
    assert("filename"@.len() == 8 && "fileId"@.len() == 6 && "index"@.len() == 5 && "total"@.len()
        == 5 && "file"@.len() == 4);
    assert("index"@[0] != "total"@[0]);
}

/// Reading a field sets that field alone: texts are kept as they are, numbers as they
/// are read, and a field that could not be read is missing again.
pub proof fn law_fields_are_kept<D>(
    form: UploadFormView<D>,
    field: Field,
    text: Option<Seq<char>>,
    data: D,
)
    ensures
        ({
            let filled = with_text(form, field, text);
            &&& filled.filename == (if field is FileName {
                text
            } else {
                form.filename
            })
            &&& filled.file_id == (if field is FileId {
                text
            } else {
                form.file_id
            })
            &&& filled.index == (if field is Index {
                match text {
                    Some(t) => crate::decimal::parsed_usize(t),
                    None => None,
                }
            } else {
                form.index
            })
            &&& filled.total == (if field is Total {
                match text {
                    Some(t) => crate::decimal::parsed_usize(t),
                    None => None,
                }
            } else {
                form.total
            })
            &&& filled.data == form.data
        }),
        with_data(form, data).data == Some(data),
        with_data(form, data).filename == form.filename,
        with_data(form, data).file_id == form.file_id,
        with_data(form, data).index == form.index,
        with_data(form, data).total == form.total,
        empty_form::<D>().filename is None && empty_form::<D>().file_id is None,
        empty_form::<D>().index is None && empty_form::<D>().total is None,
        empty_form::<D>().data is None,
        complete(form) <==> !(form.filename is None || form.file_id is None || form.index is None
            || form.total is None || form.data is None),
{
}

/// A chunk that completed a file is answered with the name and the path in the record
/// of the file, any other that was saved is answered as such, and a failure with its
/// message and status 500.
pub proof fn law_answer_tells_the_outcome(
    record: crate::records::FileRecordView,
    message: Seq<char>,
)
    ensures
        ({
            let saved = upload_answer(Ok(Some(record)));
            let waiting = upload_answer(Ok(None));
            let failed = upload_answer(Err(message));
            &&& saved.status == 200
            &&& saved.body.len() == 4
            &&& saved.body[1] == ("saved"@, crate::reply::ContentView::Flag(true))
            &&& saved.body[2] == ("name"@, crate::reply::ContentView::Text(record.name))
            &&& saved.body[3] == ("path"@, crate::reply::ContentView::Text(record.saved_to))
            &&& waiting.status == 200
            &&& waiting.body.len() == 2
            &&& waiting.body[1] == ("saved"@, crate::reply::ContentView::Flag(false))
            &&& failed.status == 500
            &&& failed.body.len() == 2
            &&& failed.body[0] == ("ok"@, crate::reply::ContentView::Flag(false))
            &&& failed.body[1] == ("error"@, crate::reply::ContentView::Text(message))
        }),
{
}

/// The content of an outcome is that of the record or the message that it carries.
pub proof fn law_outcomes_show_their_content(outcome: Result<Option<FileRecord>, String>)
    ensures
        outcome matches Ok(Some(record)) ==> outcome_view(outcome) == Ok::<_, Seq<char>>(
            Some(record@),
        ),
        outcome matches Ok(None) ==> outcome_view(outcome) == Ok::<
            Option<crate::records::FileRecordView>,
            Seq<char>,
        >(None),
        outcome matches Err(message) ==> outcome_view(outcome) == Err::<
            Option<crate::records::FileRecordView>,
            _,
        >(message@),
{
}

} // verus!
