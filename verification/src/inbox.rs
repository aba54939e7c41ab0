//! Texts that a phone sends.

use crate::clock::now_ms;
use crate::records::TextRecord;
use crate::reply::{err_response, ok_response, Reply, BAD_REQUEST};
use crate::state::Shared;
use crate::text::check_text;
use vstd::prelude::*;

verus! {

/// `serde_json::Value`, any JSON value.
#[verifier::external_type_specification]
#[verifier::external_body]
pub struct ExJson(serde_json::Value);

/// The members of a JSON object that are strings, by their keys; none where the
/// value is no object.
pub uninterp spec fn text_members(json: serde_json::Value) -> Map<Seq<char>, Seq<char>>;

/// `serde_json::Value::get` with a key, and `serde_json::Value::as_str` on what it
/// finds: the member of an object under the key, where it is there and a string.
#[verifier::external_body]
fn text_member<'a>(json: &'a serde_json::Value, key: &str) -> (r: Option<&'a str>)
    ensures
        match r {
            Some(s) => text_members(*json).contains_key(key@) && s@ == text_members(*json)[key@],
            None => !text_members(*json).contains_key(key@),
        },
{
    json.get(key)?.as_str()
}

/// The text that a request brings: its member `text` where that is a string, and
/// nothing otherwise.
pub open spec fn brought_text(json: serde_json::Value) -> Seq<char> {
    if text_members(json).contains_key("text"@) {
        text_members(json)["text"@]
    } else {
        Seq::empty()
    }
}

/// What a text that a phone sent comes to: the record that the desktop is told of,
/// if it was accepted, and the answer.
pub struct Receipt {
    pub record: Option<TextRecord>,
    pub reply: Reply,
}

/// What is shared once a text was received.
pub open spec fn received(
    shared: crate::state::SharedView,
    text: Seq<char>,
    time: u64,
) -> crate::state::SharedView {
    crate::state::SharedView {
        texts: shared.texts.push(crate::records::TextRecordView { text, time }),
        ..shared
    }
}

/// Whether `receipt` and `after` are what a text comes to at a point in time: an
/// accepted text is recorded, any other is refused and changes nothing.
pub open spec fn text_outcome(
    before: crate::state::SharedView,
    raw: Seq<char>,
    time: u64,
    after: crate::state::SharedView,
    receipt: Receipt,
) -> bool {
    match crate::text::accepted(raw) {
        Ok(text) => {
            &&& after == received(before, text, time)
            &&& receipt.record is Some
            &&& receipt.record->0@ == (crate::records::TextRecordView { text, time })
            &&& receipt.reply@ == crate::reply::ok_reply()
        },
        Err(message) => {
            &&& after == before
            &&& receipt.record is None
            &&& receipt.reply@ == crate::reply::error_reply(BAD_REQUEST, message)
        },
    }
}

/// Receives a text at a point in time.
pub fn receive_text_at(shared: &mut Shared, raw: &str, time: u64) -> (r: Receipt)
    ensures
        text_outcome(old(shared)@, raw@, time, final(shared)@, r),
        r.record matches Some(record) ==> {
            &&& record.text@ == crate::text::trimmed(raw@)
            &&& record.time == time
            &&& final(shared)@.texts == old(shared)@.texts.push(record@)
        },
        r.record is Some <==> 0 < crate::text::trimmed(raw@).len() <= 10000,
        r.record is None ==> *final(shared) == *old(shared),
{
    match check_text(raw) {
        Ok(text) => {
            let record = TextRecord { text, time };
            shared.texts.push(record.clone());
            assert(shared@.texts =~= old(shared)@.texts.push(record@));
            Receipt { record: Some(record), reply: ok_response() }
        },
        Err(message) => Receipt { record: None, reply: err_response(BAD_REQUEST, message) },
    }
}

/// Receives the text that a request brings.
pub fn receive_text(shared: &mut Shared, json: &serde_json::Value) -> (r: Receipt)
    ensures
        exists|time: u64|
            crate::clock::is_reading(time) && #[trigger] text_outcome(
                old(shared)@,
                brought_text(*json),
                time,
                final(shared)@,
                r,
            ),
{
    let raw = match text_member(json, "text") {
        Some(s) => s.to_string(),
        None => String::new(),
    };
    assert(raw@ =~= brought_text(*json));
    receive_text_at(shared, raw.as_str(), now_ms())
}

/// The text that a request brings is its member `text`, as it is; nothing where it has
/// no such string.
pub proof fn law_brought_text_is_the_member(json: serde_json::Value)
    ensures
        text_members(json).contains_key("text"@) ==> brought_text(json) == text_members(
            json,
        )["text"@],
        !text_members(json).contains_key("text"@) ==> brought_text(json).len() == 0,
{
}

/// A text of one to ten thousand characters, with any white space around it, is
/// recorded character for character behind all others, the desktop is told of it, and
/// the phone is told that it was received.
pub proof fn law_received_text_is_kept(
    before: crate::state::SharedView,
    lead: Seq<char>,
    text: Seq<char>,
    trail: Seq<char>,
    time: u64,
    after: crate::state::SharedView,
    receipt: Receipt,
)
    requires
        forall|i: int| 0 <= i < lead.len() ==> crate::text::white_space(#[trigger] lead[i]),
        forall|i: int| 0 <= i < trail.len() ==> crate::text::white_space(#[trigger] trail[i]),
        0 < text.len() <= 10000,
        !crate::text::white_space(text[0]),
        !crate::text::white_space(text.last()),
        text_outcome(before, lead + text + trail, time, after, receipt),
    ensures
        after.texts.len() == before.texts.len() + 1,
        after.texts.last().text == text,
        after.texts.last().time == time,
        after.texts.drop_last() == before.texts,
        after.history == before.history,
        after.outbox == before.outbox,
        after.save_dir == before.save_dir,
        after.next_id == before.next_id,
        receipt.record is Some,
        receipt.record->0.text@ == text,
        receipt.record->0.time == time,
        receipt.reply.status == 200,
{
    crate::text::law_text_is_accepted_unchanged(lead, text, trail);
    assert(after.texts.drop_last() =~= before.texts);
}

/// White space alone and texts of more than ten thousand characters are refused: nothing
/// is recorded, the desktop is told of nothing, and the phone is told why.
pub proof fn law_refused_text_changes_nothing(
    before: crate::state::SharedView,
    lead: Seq<char>,
    text: Seq<char>,
    trail: Seq<char>,
    time: u64,
    after: crate::state::SharedView,
    receipt: Receipt,
)
    requires
        forall|i: int| 0 <= i < lead.len() ==> crate::text::white_space(#[trigger] lead[i]),
        forall|i: int| 0 <= i < trail.len() ==> crate::text::white_space(#[trigger] trail[i]),
        text.len() == 0 || (text.len() > 10000 && !crate::text::white_space(text[0])
            && !crate::text::white_space(text.last())),
        text_outcome(before, lead + text + trail, time, after, receipt),
    ensures
        after == before,
        receipt.record is None,
        receipt.reply@.status == 400,
        receipt.reply@.body.len() == 2,
        receipt.reply@.body[1].1 == (if text.len() == 0 {
            crate::reply::ContentView::Text("文本不能为空"@)
        } else {
            crate::reply::ContentView::Text("文本过长"@)
        }),
{
    crate::text::law_text_is_accepted_unchanged(lead, text, trail);
}

} // verus!
