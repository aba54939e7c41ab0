//! Handing an offered file to a phone.

use crate::names::ascii_filename;
use crate::records::OutboxItem;
use crate::reply::{err_response, Reply, NOT_FOUND, OK};
use crate::state::Shared;
use vstd::prelude::*;

verus! {

/// The message for a file that is not offered, or whose copy is gone.
pub const FILE_MISSING: &'static str = "文件不存在";

/// The type of content under which every file is handed out.
pub const CONTENT_TYPE: &'static str = "application/octet-stream";

/// The first file that is offered under an identifier.
pub open spec fn first_file(
    outbox: Seq<crate::records::OutboxItemView>,
    id: Seq<char>,
) -> Option<crate::records::OutboxItemView>
    decreases outbox.len(),
{
    if outbox.len() == 0 {
        None
    } else if outbox[0].id == id && outbox[0].kind == "file"@ {
        Some(outbox[0])
    } else {
        first_file(outbox.drop_first(), id)
    }
}

/// The content of an item, if there is one.
pub open spec fn item_view(item: Option<OutboxItem>) -> Option<crate::records::OutboxItemView> {
    match item {
        Some(i) => Some(i@),
        None => None,
    }
}

/// The first file that is offered under an identifier.
pub fn find_file(outbox: &Vec<OutboxItem>, id: &String) -> (r: Option<OutboxItem>)
    ensures
        item_view(r) == first_file(crate::records::views(outbox@), id@),
        r matches Some(item) ==> item.id@ == id@ && item.kind@ == "file"@ && outbox@.contains(item),
{
    let kind = "file".to_string();
    let ghost all = crate::records::views(outbox@);
    assert(all.skip(0) =~= all);
    for i in 0..outbox.len()
        invariant
            all == crate::records::views(outbox@),
            kind@ == "file"@,
            first_file(all.skip(i as int), id@) == first_file(all, id@),
    {
        assert(all.skip(i as int)[0] == outbox@[i as int]@);
        assert(all.skip(i as int).drop_first() =~= all.skip(i + 1));
        if outbox[i].id == *id && outbox[i].kind == kind {
            return Some(outbox[i].clone());
        }
    }
    None
}

/// What a request for a file comes to: the item whose copy is opened next, or the
/// answer that it is not there.
pub fn download(shared: &Shared, id: &String) -> (r: Result<OutboxItem, Reply>)
    ensures
        match first_file(shared@.outbox, id@) {
            Some(item) => r is Ok && r->Ok_0@ == item,
            None => r is Err && r->Err_0@ == crate::reply::error_reply(NOT_FOUND, FILE_MISSING@),
        },
{
    match find_file(&shared.outbox, id) {
        Some(item) => Ok(item),
        None => Err(err_response(NOT_FOUND, FILE_MISSING.to_string())),
    }
}

/// An upper-case hexadecimal digit.
pub open spec fn hex_digit(d: int) -> char {
    if d < 10 {
        (48 + d) as char
    } else {
        (55 + d) as char
    }
}

/// A byte in percent-encoding: ASCII letters and digits stand for themselves.
pub open spec fn encoded_byte(b: u8) -> Seq<char> {
    if crate::text::ascii_alphanumeric(b as char) {
        seq![b as char]
    } else {
        seq!['%', hex_digit(b as int / 16), hex_digit(b as int % 16)]
    }
}

/// Bytes in percent-encoding.
pub open spec fn percent_encoded(bytes: Seq<u8>) -> Seq<char>
    decreases bytes.len(),
{
    if bytes.len() == 0 {
        Seq::empty()
    } else {
        encoded_byte(bytes[0]) + percent_encoded(bytes.drop_first())
    }
}

/// `percent_encoding::utf8_percent_encode` with the set `NON_ALPHANUMERIC`, written
/// out as a string: each byte of the text in UTF-8 that is no ASCII letter or digit
/// becomes a percent sign and its two upper-case hexadecimal digits.
#[verifier::external_body]
fn percent_encode(s: &str) -> (r: String)
    ensures
        r@ == percent_encoded(vstd::utf8::encode_utf8(s@)),
{
    percent_encoding::utf8_percent_encode(s, percent_encoding::NON_ALPHANUMERIC).to_string()
}

/// The header that names the file that is handed out: an ASCII stand-in, and the
/// name itself in percent-encoding.
pub open spec fn disposition(name: Seq<char>) -> Seq<char> {
    "attachment; filename=\""@ + crate::names::ascii_fallback(name) + "\"; filename*=UTF-8''"@
        + percent_encoded(vstd::utf8::encode_utf8(name))
}

/// The header that names the file that is handed out.
pub fn content_disposition(name: &str) -> (r: String)
    ensures
        r@ == disposition(name@),
{
    let mut r = "attachment; filename=\"".to_string();
    r.append(ascii_filename(name).as_str());
    r.append("\"; filename*=UTF-8''");
    r.append(percent_encode(name).as_str());
    r
}

/// The status and the headers of an answer that hands out a file.
pub struct FileHead {
    pub status: u16,
    pub content_type: String,
    pub content_disposition: String,
}

/// What follows from opening the copy of an offered file: the answer that hands it
/// out, or the answer that it is not there.
pub fn opened(item: &OutboxItem, success: bool) -> (r: Result<FileHead, Reply>)
    ensures
        success ==> {
            &&& r is Ok
            &&& r->Ok_0.status == OK
            &&& r->Ok_0.content_type@ == CONTENT_TYPE@
            &&& r->Ok_0.content_disposition@ == disposition(item@.name)
        },
        !success ==> {
            &&& r is Err
            &&& r->Err_0@ == crate::reply::error_reply(NOT_FOUND, FILE_MISSING@)
        },
{
    if success {
        Ok(
            FileHead {
                status: OK,
                content_type: CONTENT_TYPE.to_string(),
                content_disposition: content_disposition(item.name.as_str()),
            },
        )
    } else {
        Err(err_response(NOT_FOUND, FILE_MISSING.to_string()))
    }
}

/// The value of an upper-case hexadecimal digit.
pub open spec fn hex_value(c: char) -> int {
    if c <= '9' {
        c as int - 48
    } else {
        c as int - 55
    }
}

/// The bytes that a text in percent-encoding stands for.
pub open spec fn percent_decoded(s: Seq<char>) -> Seq<u8>
    decreases s.len(),
{
    if s.len() == 0 {
        Seq::empty()
    } else if s[0] == '%' && s.len() >= 3 {
        seq![(16 * hex_value(s[1]) + hex_value(s[2])) as u8] + percent_decoded(s.skip(3))
    } else {
        seq![s[0] as u8] + percent_decoded(s.skip(1))
    }
}

/// Decoding gives back the bytes that were encoded.
pub proof fn law_percent_round_trip(bytes: Seq<u8>)
    ensures
        percent_decoded(percent_encoded(bytes)) == bytes,
    decreases bytes.len(),
{
    if bytes.len() > 0 {
        let b = bytes[0];
        let s = percent_encoded(bytes);
        let rest = percent_encoded(bytes.drop_first());
        law_percent_round_trip(bytes.drop_first());
        if crate::text::ascii_alphanumeric(b as char) {
            assert(s[0] == b as char);
            assert(s.skip(1) =~= rest);
        } else {
            assert(s[0] == '%');
            assert(s[1] == hex_digit(b as int / 16));
            assert(s[2] == hex_digit(b as int % 16));
            assert(s.skip(3) =~= rest);
        }
        assert(percent_decoded(s) =~= seq![b] + bytes.drop_first());
        assert(seq![b] + bytes.drop_first() =~= bytes);
    }
}

/// A phone that decodes the percent-encoded part of the header gets the name of the
/// file exactly.
pub proof fn law_name_is_recovered(name: Seq<char>)
    ensures
        vstd::utf8::decode_utf8(
            percent_decoded(percent_encoded(vstd::utf8::encode_utf8(name))),
        ) == name,
{
    law_percent_round_trip(vstd::utf8::encode_utf8(name));
    vstd::utf8::encode_utf8_decode_utf8(name);
}

/// A character that can stand in the value of a header.
pub open spec fn header_char(c: char) -> bool {
    ' ' <= c <= '~'
}

proof fn lemma_percent_chars(bytes: Seq<u8>)
    ensures
        forall|i: int|
            0 <= i < percent_encoded(bytes).len() ==> (crate::text::ascii_alphanumeric(
                #[trigger] percent_encoded(bytes)[i],
            ) || percent_encoded(bytes)[i] == '%'),
    decreases bytes.len(),
{
    if bytes.len() > 0 {
        lemma_percent_chars(bytes.drop_first());
        let head = encoded_byte(bytes[0]);
        let tail = percent_encoded(bytes.drop_first());
        assert forall|i: int| 0 <= i < percent_encoded(bytes).len() implies (
        crate::text::ascii_alphanumeric(#[trigger] percent_encoded(bytes)[i]) || percent_encoded(
            bytes,
        )[i] == '%') by {
            if i < head.len() {
                assert(percent_encoded(bytes)[i] == head[i]);
            } else {
                assert(percent_encoded(bytes)[i] == tail[i - head.len()]);
            }
        }
    }
}

/// Whatever a file is called, the header that names it holds visible ASCII
/// characters and spaces alone.
pub proof fn law_disposition_is_a_header(name: Seq<char>)
    ensures
        forall|i: int|
            0 <= i < disposition(name).len() ==> header_char(#[trigger] disposition(name)[i]),
{
    reveal_strlit("attachment; filename=\"");
    reveal_strlit("\"; filename*=UTF-8''");
    let a = "attachment; filename=\""@;
    let b = crate::names::ascii_fallback(name);
    let c = "\"; filename*=UTF-8''"@;
    let d = percent_encoded(vstd::utf8::encode_utf8(name));
    crate::names::law_ascii_fallback_safe(name);
    lemma_percent_chars(vstd::utf8::encode_utf8(name));
    assert forall|i: int| 0 <= i < disposition(name).len() implies header_char(
        #[trigger] disposition(name)[i],
    ) by {
        if i < a.len() {
            assert(disposition(name)[i] == a[i]);
        } else if i < a.len() + b.len() {
            assert(disposition(name)[i] == b[i - a.len()]);
        } else if i < a.len() + b.len() + c.len() {
            assert(disposition(name)[i] == c[i - a.len() - b.len()]);
        } else {
            assert(disposition(name)[i] == d[i - a.len() - b.len() - c.len()]);
        }
    }
}

proof fn lemma_first_file_push(
    outbox: Seq<crate::records::OutboxItemView>,
    item: crate::records::OutboxItemView,
    id: Seq<char>,
)
    ensures
        first_file(outbox.push(item), id) == (match first_file(outbox, id) {
            Some(found) => Some(found),
            None => if item.id == id && item.kind == "file"@ {
                Some(item)
            } else {
                None
            },
        }),
    decreases outbox.len(),
{
    let more = outbox.push(item);
    if outbox.len() == 0 {
        assert(more.drop_first() =~= Seq::<crate::records::OutboxItemView>::empty());
        assert(first_file(more.drop_first(), id) is None);
    } else {
        assert(more.drop_first() =~= outbox.drop_first().push(item));
        lemma_first_file_push(outbox.drop_first(), item, id);
    }
}

/// A file is found under its identifier from the moment it is offered, provided that
/// no other file has that identifier.
pub proof fn law_offered_file_is_found(
    outbox: Seq<crate::records::OutboxItemView>,
    id: Seq<char>,
    name: Seq<char>,
    size: u64,
    time: u64,
)
    requires
        first_file(outbox, id) is None,
    ensures
        first_file(outbox.push(crate::outbox::file_item(id, name, size, time)), id) == Some(
            crate::outbox::file_item(id, name, size, time),
        ),
{
    lemma_first_file_push(outbox, crate::outbox::file_item(id, name, size, time), id);
}

/// What is found under an identifier does not change when more is offered.
pub proof fn law_found_file_stays(
    outbox: Seq<crate::records::OutboxItemView>,
    id: Seq<char>,
    item: crate::records::OutboxItemView,
)
    requires
        first_file(outbox, id) is Some,
    ensures
        first_file(outbox.push(item), id) == first_file(outbox, id),
{
    lemma_first_file_push(outbox, item, id);
}

/// A text is never found as a file.
pub proof fn law_texts_are_not_downloaded(
    outbox: Seq<crate::records::OutboxItemView>,
    id: Seq<char>,
    text_id: Seq<char>,
    text: Seq<char>,
    time: u64,
)
    ensures
        first_file(outbox.push(crate::outbox::text_item(text_id, text, time)), id) == first_file(
            outbox,
            id,
        ),
{
    reveal_strlit("text");
    reveal_strlit("file");
    assert("text"@[0] != "file"@[0]);
    lemma_first_file_push(outbox, crate::outbox::text_item(text_id, text, time), id);
}

/// What is found under an identifier is the first file that is offered under it;
/// nothing is found only where no file is.
pub proof fn law_found_file_is_the_first(
    outbox: Seq<crate::records::OutboxItemView>,
    id: Seq<char>,
    at: int,
)
    requires
        0 <= at <= outbox.len(),
        at < outbox.len() ==> outbox[at].id == id && outbox[at].kind == "file"@,
        forall|i: int|
            0 <= i < at ==> (#[trigger] outbox[i]).id != id || outbox[i].kind != "file"@,
    ensures
        at < outbox.len() ==> first_file(outbox, id) == Some(outbox[at]),
        at == outbox.len() ==> first_file(outbox, id) is None,
    decreases at,
{
    if at > 0 {
        let rest = outbox.drop_first();
        assert(outbox[0].id != id || outbox[0].kind != "file"@);
        assert forall|i: int| 0 <= i < at - 1 implies (#[trigger] rest[i]).id != id || rest[i].kind
            != "file"@ by {
            assert(rest[i] == outbox[i + 1]);
        }
        law_found_file_is_the_first(rest, id, at - 1);
    }
}

/// In percent-encoding a letter or digit of ASCII stands for itself, and every other
/// byte is a percent sign and two digits from `0` to `9` and `A` to `F` that stand for
/// the byte.
pub proof fn law_bytes_are_percent_encoded(b: u8, rest: Seq<u8>)
    ensures
        percent_encoded(Seq::empty()).len() == 0,
        percent_encoded(seq![b] + rest) == encoded_byte(b) + percent_encoded(rest),
        48 <= b <= 57 || 65 <= b <= 90 || 97 <= b <= 122 ==> encoded_byte(b) == seq![b as char],
        !(48 <= b <= 57 || 65 <= b <= 90 || 97 <= b <= 122) ==> {
            let s = encoded_byte(b);
            &&& s.len() == 3
            &&& s[0] == '%'
            &&& '0' <= s[1] <= '9' || 'A' <= s[1] <= 'F'
            &&& '0' <= s[2] <= '9' || 'A' <= s[2] <= 'F'
            &&& b == 16 * hex_value(s[1]) + hex_value(s[2])
        },
        hex_value('0') == 0 && hex_value('9') == 9 && hex_value('A') == 10 && hex_value('F') == 15,
{
    assert((seq![b] + rest).drop_first() =~= rest);
}

/// The header that is handed out names the file: between the quotes stands a text as
/// long as the name, equal to it at each ASCII letter, digit, dot, hyphen and
/// underscore; and what follows `filename*=UTF-8''` stands for the name itself.
pub proof fn law_header_names_the_file(name: Seq<char>)
    ensures
        ({
            let header = disposition(name);
            let open = "attachment; filename=\""@.len() as int;
            let close = open + name.len() as int;
            let encoded = close + "\"; filename*=UTF-8''"@.len() as int;
            &&& encoded <= header.len()
            &&& header.take(open) == "attachment; filename=\""@
            &&& header.subrange(close, encoded) == "\"; filename*=UTF-8''"@
            &&& vstd::utf8::decode_utf8(percent_decoded(header.skip(encoded))) == name
            &&& forall|i: int|
                0 <= i < name.len() ==> header[open + i] == (if 48 <= (#[trigger] name[i]) as int
                    <= 57 || 65 <= name[i] as int <= 90 || 97 <= name[i] as int <= 122 || name[i]
                    == '.' || name[i] == '-' || name[i] == '_' {
                    name[i]
                } else {
                    '_'
                })
        }),
{
    let header = disposition(name);
    let a = "attachment; filename=\""@;
    let b = crate::names::ascii_fallback(name);
    let c = "\"; filename*=UTF-8''"@;
    let d = percent_encoded(vstd::utf8::encode_utf8(name));
    let open = a.len() as int;
    let close = open + name.len() as int;
    let encoded = close + c.len() as int;
    assert(b.len() == name.len());
    assert(header =~= a + b + c + d);
    assert(header.take(open) =~= a);
    assert(header.subrange(close, encoded) =~= c);
    assert(header.skip(encoded) =~= d);
    law_name_is_recovered(name);
    assert forall|i: int| 0 <= i < name.len() implies header[open + i] == (if 48 <= (
    #[trigger] name[i]) as int <= 57 || 65 <= name[i] as int <= 90 || 97 <= name[i] as int <= 122
        || name[i] == '.' || name[i] == '-' || name[i] == '_' {
        name[i]
    } else {
        '_'
    }) by {
        crate::names::law_ascii_fallback_keeps_characters(name, i);
        assert(header[open + i] == b[i]);
    }
}

/// Different names are handed out under different headers.
pub proof fn law_headers_are_told_apart(name: Seq<char>, other: Seq<char>)
    requires
        name != other,
    ensures
        disposition(name) != disposition(other),
{
    law_header_names_the_file(name);
    law_header_names_the_file(other);
    if disposition(name) == disposition(other) {
        if name.len() < other.len() {
            lemma_quote_ends_name(name, other);
        } else if other.len() < name.len() {
            lemma_quote_ends_name(other, name);
        }
    }
}

proof fn lemma_quote_ends_name(short: Seq<char>, long: Seq<char>)
    requires
        short.len() < long.len(),
    ensures
        disposition(short) != disposition(long),
{
    reveal_strlit("\"; filename*=UTF-8''");
    law_header_names_the_file(short);
    law_header_names_the_file(long);
    let open = "attachment; filename=\""@.len() as int;
    let close = open + short.len() as int;
    let mark = "\"; filename*=UTF-8''"@;
    assert(disposition(short)[close] == disposition(short).subrange(
        close,
        close + mark.len() as int,
    )[0]);
    let c = long[short.len() as int];
    assert(disposition(long)[close] != mark[0]);
}

/// The content of what was found is that of the item, and there is none where nothing
/// was found.
pub proof fn law_found_items_show_their_content(item: OutboxItem)
    ensures
        item_view(Some(item)) == Some(item@),
        item_view(None) is None,
{
}

} // verus!
