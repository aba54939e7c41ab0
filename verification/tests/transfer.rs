use iconnect::chunks::{collect_parts, save_chunk, Listed, MergeStep, Part};
use iconnect::reply::{Content, Reply};
use iconnect::records::FileRecord;
use iconnect::state::{get_history, Shared};
use iconnect::upload::{
    chunk_unreadable, field_of, form_unreadable, upload_receipt, upload_reply, Field, UploadForm,
};

fn body(reply: &Reply) -> Vec<String> {
    reply
        .body
        .iter()
        .map(|m| match &m.value {
            Content::Flag(b) => format!("{}={}", m.key, b),
            Content::Text(t) => format!("{}={}", m.key, t),
        })
        .collect()
}

fn cause() -> String {
    "why".to_string()
}

fn error<T>(r: Result<T, String>) -> String {
    match r {
        Ok(_) => panic!("an error was expected"),
        Err(e) => e,
    }
}

fn names(list: &[&str]) -> Vec<String> {
    list.iter().map(|s| s.to_string()).collect()
}

#[test]
fn fields_are_told_by_name() {
    let named = |s: &str| field_of(Some(s.to_string()));
    assert_eq!(named("filename"), Field::FileName);
    assert_eq!(named("fileId"), Field::FileId);
    assert_eq!(named("index"), Field::Index);
    assert_eq!(named("total"), Field::Total);
    assert_eq!(named("file"), Field::File);
    assert_eq!(named("Filename"), Field::Other);
    assert_eq!(named(""), Field::Other);
    assert_eq!(field_of(None), Field::Other);
}

fn form(index: &str, total: &str) -> UploadForm<u8> {
    let mut f: UploadForm<u8> = UploadForm::new();
    f.take_text(Field::FileName, Some("n".to_string()));
    f.take_text(Field::FileId, Some("i".to_string()));
    f.take_text(Field::Index, Some(index.to_string()));
    f.take_text(Field::Total, Some(total.to_string()));
    f.take_data(7);
    f
}

fn refusal(f: UploadForm<u8>) -> String {
    match f.submit() {
        Ok(_) => panic!("a refusal was expected"),
        Err(reply) => {
            assert_eq!(reply.status, 400);
            body(&reply).join(",")
        }
    }
}

#[test]
fn complete_forms_are_taken() {
    let mut f = form("5", "6");
    f.take_text(Field::Other, Some("x".to_string()));
    f.take_text(Field::File, Some("x".to_string()));
    f.take_text(Field::Index, Some("2".to_string()));
    let c = match f.submit() {
        Ok(c) => c,
        Err(reply) => panic!("{}", reply.status),
    };
    assert_eq!((c.filename.as_str(), c.file_id.as_str()), ("n", "i"));
    assert_eq!((c.index, c.total, c.data), (2, 6, 7));
}

#[test]
fn incomplete_forms_are_refused() {
    let missing = "ok=false,error=缺少必要的上传字段";
    assert_eq!(refusal(UploadForm::new()), missing);
    assert_eq!(refusal(form("", "6")), missing);
    assert_eq!(refusal(form("1", "-6")), missing);
    for field in [Field::FileName, Field::FileId, Field::Index, Field::Total] {
        let mut f = form("1", "6");
        f.take_text(field, None);
        assert_eq!(refusal(f), missing);
    }
}

#[test]
fn chunks_outside_the_file_are_refused() {
    let invalid = "ok=false,error=分片参数无效";
    assert_eq!(refusal(form("0", "0")), invalid);
    assert_eq!(refusal(form("6", "6")), invalid);
    assert_eq!(refusal(form("7", "6")), invalid);
}

#[test]
fn unreadable_requests_are_answered() {
    let reply = form_unreadable(cause());
    assert_eq!(reply.status, 400);
    assert_eq!(body(&reply), ["ok=false", "error=解析请求失败: why"]);
    let reply = chunk_unreadable(cause());
    assert_eq!(reply.status, 400);
    assert_eq!(body(&reply), ["ok=false", "error=读取文件分片失败: why"]);
}

#[test]
fn saved_chunks_are_answered() {
    let reply = upload_reply(Ok(None));
    assert_eq!(reply.status, 200);
    assert_eq!(body(&reply), ["ok=true", "saved=false"]);
    let record = FileRecord {
        name: "n".to_string(),
        size: 3,
        saved_to: "d/n".to_string(),
        time: 4,
    };
    let reply = upload_reply(Ok(Some(record)));
    assert_eq!(reply.status, 200);
    assert_eq!(body(&reply), ["ok=true", "saved=true", "name=n", "path=d/n"]);
    let reply = upload_reply(Err(cause()));
    assert_eq!(reply.status, 500);
    assert_eq!(body(&reply), ["ok=false", "error=why"]);
}

#[test]
fn completed_files_are_announced() {
    let record = FileRecord {
        name: "n".to_string(),
        size: 3,
        saved_to: "d/n".to_string(),
        time: 4,
    };
    let receipt = upload_receipt(Ok(Some(record)));
    let told = receipt.record.unwrap();
    assert_eq!((told.name.as_str(), told.size, told.time), ("n", 3, 4));
    assert_eq!(told.saved_to, "d/n");
    assert_eq!(body(&receipt.reply), ["ok=true", "saved=true", "name=n", "path=d/n"]);
    let receipt = upload_receipt(Ok(None));
    assert!(receipt.record.is_none());
    assert_eq!(body(&receipt.reply), ["ok=true", "saved=false"]);
    let receipt = upload_receipt(Err(cause()));
    assert!(receipt.record.is_none());
    assert_eq!(receipt.reply.status, 500);
}

#[test]
fn stored_chunks_are_told_by_their_names() {
    let listing = names(&["00000002.part", "notes.txt", "7", "+3.x.y", ".5", "00000001", "x.9"]);
    let part = |number, entry| Part { number, entry };
    assert_eq!(collect_parts(&listing), [part(2, 0), part(7, 2), part(1, 5)]);
    assert_eq!(collect_parts(&names(&["+4.part"])), [part(4, 0)]);
}

fn listed(total: usize, listing: &[&str]) -> Option<Vec<usize>> {
    let shared = Shared::default();
    let writing = save_chunk("f", "id", 0, total).made(Ok(())).unwrap();
    assert_eq!(writing.file, "00000000.part");
    match writing.written(Ok(())).unwrap().listed(Ok(names(listing)), &shared) {
        Ok(Listed::Incomplete) => None,
        Ok(Listed::Complete(c)) => {
            assert_eq!(c.transfer.folder, "id");
            Some(c.parts.iter().map(|p| p.entry).collect())
        }
        Err(e) => panic!("{e}"),
    }
}

#[test]
fn stored_chunks_are_merged_by_number() {
    let listing = ["00000002.part", "3.part", "x", "00000001.part", "01.part", "00000000.part"];
    assert_eq!(listed(4, &listing), Some(vec![5, 3, 4, 0, 1]));
}

#[test]
fn chunks_beyond_the_file_do_not_count() {
    assert_eq!(listed(2, &["00000000.part", "00000005.part"]), None);
    assert_eq!(listed(2, &["00000005.part", "00000002.part", "00000001.part"]), None);
    let listing = ["00000005.part", "00000001.part", "00000002.part", "00000000.part"];
    assert_eq!(listed(2, &listing), Some(vec![3, 1]));
    assert_eq!(listed(3, &listing), Some(vec![3, 1, 2]));
    assert_eq!(listed(4, &listing), None);
}

#[test]
fn chunks_that_are_stored_twice_do_not_stand_for_others() {
    assert_eq!(listed(2, &["00000000.part", "0.part"]), None);
    assert_eq!(listed(3, &["00000000.part", "0.part", "00000002.part"]), None);
}

#[test]
fn missing_chunks_are_waited_for() {
    let shared = Shared::default();
    let listing = names(&["00000000.part", "stray.part", "00000002.part"]);
    let writing = save_chunk("f", "id", 2, 3).made(Ok(())).unwrap();
    let listed = writing.written(Ok(())).unwrap().listed(Ok(listing), &shared);
    assert!(matches!(listed, Ok(Listed::Incomplete)));
}

#[test]
fn failures_of_a_chunk_are_reported() {
    let shared = Shared::default();
    let begin = || save_chunk("f", "id", 0, 1);
    assert_eq!(error(begin().made(Err(cause()))), "创建临时目录失败: why");
    let write = || begin().made(Ok(())).unwrap();
    assert_eq!(error(write().written(Err(cause()))), "写入分片失败: why");
    let list = || write().written(Ok(())).unwrap();
    assert_eq!(error(list().listed(Err(cause()), &shared)), "why");
    let complete = || match list().listed(Ok(names(&["00000000.part"])), &shared) {
        Ok(Listed::Complete(c)) => c,
        _ => panic!("the chunk is complete"),
    };
    assert_eq!(error(complete().made(Err(cause()))), "创建保存目录失败: why");
    let create = || complete().made(Ok(())).unwrap();
    assert_eq!(error(create().created(Err(cause()))), "创建文件失败: why");
    let append = || match create().created(Ok("d/f".to_string())) {
        Ok(MergeStep::Append(m)) => m,
        _ => panic!("a chunk is left"),
    };
    assert_eq!(append().part(), 0);
    assert_eq!(error(append().appended(Err(cause()))), "why");
    let flush = || match append().appended(Ok(5)) {
        Ok(MergeStep::Flush(f)) => f,
        _ => panic!("no chunk is left"),
    };
    assert_eq!(error(flush().flushed(Err(cause()))), "why");
}

#[test]
fn received_files_are_recorded() {
    let mut shared = Shared::default();
    for (name, size) in [("a", 5), ("b", 6)] {
        let written = save_chunk(name, "id", 0, 1).made(Ok(())).unwrap().written(Ok(())).unwrap();
        let complete = match written.listed(Ok(names(&["00000000.part"])), &shared) {
            Ok(Listed::Complete(c)) => c,
            _ => panic!("the chunk is complete"),
        };
        let merging = match complete.made(Ok(())).unwrap().created(Ok(format!("d/{name}"))) {
            Ok(MergeStep::Append(m)) => m,
            _ => panic!("a chunk is left"),
        };
        let flushing = match merging.appended(Ok(size)) {
            Ok(MergeStep::Flush(f)) => f,
            _ => panic!("no chunk is left"),
        };
        let record = flushing.flushed(Ok(())).unwrap().cleaned_at(&mut shared, 77);
        assert_eq!((record.name.as_str(), record.size, record.time), (name, size, 77));
    }
    let shown: Vec<String> = get_history(&shared).iter().map(|r| r.saved_to.clone()).collect();
    assert_eq!(shown, ["d/b", "d/a"]);
}
