use std::collections::BTreeMap;

use iconnect::chunks::{save_chunk, Listed, MergeStep};
use iconnect::download::{download, opened};
use iconnect::inbox::receive_text;
use iconnect::names::{sanitize_filename, unique_path};
use iconnect::outbox::{outbox_list, send_file, send_text, Inspection};
use iconnect::qr::qr_svg;
use iconnect::records::{FileRecord, ServerInfo};
use iconnect::reply::Reply;
use iconnect::state::{launched, start, stop, AppState, Shared, StartAction};
use iconnect::text::text_preview;
use iconnect::upload::{field_of, upload_reply, UploadForm};

type Directory = BTreeMap<String, Vec<u8>>;

/// The directories of the service, held in memory.
#[derive(Default)]
struct Disk {
    chunks: BTreeMap<String, Directory>,
    saved: Directory,
    outbox: Directory,
}

fn new_state(save_dir: &str) -> AppState<String, u32> {
    let mut shared = Shared::default();
    shared.save_dir = save_dir.to_string();
    AppState {
        server: None,
        shared,
        tmp_dir: "tmp".to_string(),
        outbox_dir: "outbox".to_string(),
    }
}

fn start_service(state: &mut AppState<String, u32>, disk: &mut Disk) -> ServerInfo {
    match start(state) {
        StartAction::Running(info) => info,
        StartAction::Launch(binding) => {
            disk.chunks.clear();
            disk.outbox.clear();
            let bound = binding.bound(Ok(())).expect("bind");
            let info = bound
                .addressed(Ok(8080), Some("192.168.1.100".to_string()))
                .expect("address");
            launched(state, info, 1)
        }
    }
}

fn store(
    shared: &mut Shared,
    disk: &mut Disk,
    filename: &str,
    file_id: &str,
    index: usize,
    total: usize,
    data: &[u8],
) -> Result<Option<FileRecord>, String> {
    let making = save_chunk(filename, file_id, index, total);
    let folder = making.transfer.folder.clone();
    let directory = disk.chunks.entry(folder.clone()).or_default();
    let writing = making.made(Ok(()))?;
    directory.insert(writing.file.clone(), data.to_vec());
    let listing: Vec<String> = directory.keys().rev().cloned().collect();
    let complete = match writing.written(Ok(()))?.listed(Ok(listing.clone()), shared)? {
        Listed::Incomplete => return Ok(None),
        Listed::Complete(c) => c,
    };
    assert_eq!(complete.save_dir, shared.save_dir);
    let creating = complete.made(Ok(()))?;
    let name = unique_path(&creating.transfer.name, |n: &String| disk.saved.contains_key(n))
        .expect("a free name");
    let mut content = Vec::new();
    let mut step = creating.created(Ok(format!("{}/{}", shared.save_dir, name)))?;
    let flushing = loop {
        match step {
            MergeStep::Append(merging) => {
                let bytes = &directory[&listing[merging.part()]];
                content.extend_from_slice(bytes);
                step = merging.appended(Ok(bytes.len() as u64))?;
            }
            MergeStep::Flush(flushing) => break flushing,
        }
    };
    disk.saved.insert(name, content);
    let cleaning = flushing.flushed(Ok(()))?;
    disk.chunks.remove(&folder);
    Ok(Some(cleaning.cleaned(shared)))
}

fn upload(
    shared: &mut Shared,
    disk: &mut Disk,
    fields: &[(&str, String)],
    data: &[u8],
) -> Reply {
    let mut form: UploadForm<Vec<u8>> = UploadForm::new();
    for (name, text) in fields {
        form.take_text(field_of(Some(name.to_string())), Some(text.clone()));
    }
    form.take_data(data.to_vec());
    match form.submit() {
        Ok(c) => upload_reply(store(
            shared, disk, &c.filename, &c.file_id, c.index, c.total, &c.data,
        )),
        Err(reply) => reply,
    }
}

#[test]
fn chunked_upload_roundtrip() {
    let mut disk = Disk::default();
    let mut state = new_state("save");
    let info = start_service(&mut state, &mut disk);
    assert!(info.url.starts_with("http://"), "{}", info.url);

    let chunks: [&[u8]; 3] = [b"hello ", b"world ", b"!"];
    for (i, chunk) in chunks.iter().enumerate() {
        let fields = [
            ("filename", "测试.txt".to_string()),
            ("fileId", "test-file-1".to_string()),
            ("index", i.to_string()),
            ("total", "3".to_string()),
        ];
        let reply = upload(&mut state.shared, &mut disk, &fields, chunk);
        assert_eq!(reply.status, 200, "chunk {i}");
    }

    let content = disk.saved.get("测试.txt").expect("the saved file");
    assert_eq!(content, b"hello world !");

    let history = &state.shared.history;
    assert_eq!(history.len(), 1);
    assert_eq!(history[0].name, "测试.txt");
    assert_eq!(history[0].size, 13);
    assert_eq!(history[0].saved_to, "save/测试.txt");
    assert!(disk.chunks.is_empty());

    assert_eq!(stop(&mut state), Some(1));
}

#[test]
fn chunks_in_any_order_are_merged_in_order() {
    let mut disk = Disk::default();
    let mut shared = Shared::default();
    let chunks: [&[u8]; 12] = [
        b"a", b"bb", b"c", b"", b"e", b"f", b"g", b"h", b"i", b"j", b"k", b"l",
    ];
    for index in [11, 3, 0, 7, 5, 5, 10, 1, 2, 4, 9, 8] {
        let outcome = store(&mut shared, &mut disk, "x.bin", "id", index, 12, chunks[index]);
        assert!(matches!(outcome, Ok(None)));
        assert!(shared.history.is_empty());
    }
    let again = store(&mut shared, &mut disk, "x.bin", "id", 3, 12, b"d");
    assert!(matches!(again, Ok(None)));
    let record = store(&mut shared, &mut disk, "x.bin", "id", 6, 12, chunks[6]).unwrap().unwrap();
    assert_eq!(disk.saved["x.bin"], b"abbcdefghijkl");
    assert_eq!(record.size, 13);
    assert_eq!(shared.history.len(), 1);
}

#[test]
fn a_stale_chunk_of_a_higher_number_completes_nothing() {
    let mut disk = Disk::default();
    let mut shared = Shared::default();
    let stale = store(&mut shared, &mut disk, "a.txt", "f", 5, 6, b"Z");
    assert!(matches!(stale, Ok(None)));
    let first = store(&mut shared, &mut disk, "a.txt", "f", 0, 2, b"A");
    assert!(matches!(first, Ok(None)));
    assert!(disk.saved.is_empty());
    assert!(shared.history.is_empty());
    let record = store(&mut shared, &mut disk, "a.txt", "f", 1, 2, b"B").unwrap().unwrap();
    assert_eq!(disk.saved["a.txt"], b"AB");
    assert_eq!(record.size, 2);
    assert_eq!(shared.history.len(), 1);
}

#[test]
fn a_second_file_of_the_same_name_is_numbered() {
    let mut disk = Disk::default();
    let mut shared = Shared::default();
    for id in ["one", "two", "three"] {
        store(&mut shared, &mut disk, "dir/a.txt", id, 0, 1, id.as_bytes()).unwrap().unwrap();
    }
    assert_eq!(disk.saved["a.txt"], b"one");
    assert_eq!(disk.saved["a (1).txt"], b"two");
    assert_eq!(disk.saved["a (2).txt"], b"three");
    assert_eq!(shared.history[2].name, "a.txt");
    assert_eq!(shared.history[2].saved_to, "/a (2).txt");
}

#[test]
fn outbox_download_roundtrip() {
    let mut disk = Disk::default();
    let mut state = new_state("save");
    let source: &[u8] = b"pc -> phone content";
    start_service(&mut state, &mut disk);

    let text_item = send_text(&mut state.shared, "你好，这是测试文本").expect("send a text");
    assert_eq!(text_item.kind, "text");

    let offer = send_file("save/source.txt");
    let making = offer
        .inspected(&mut state.shared, Inspection::File(source.len() as u64))
        .expect("inspect");
    let copying = making.made(Ok(())).expect("make");
    disk.outbox.insert(copying.id.clone(), source.to_vec());
    let file_item = copying.copied(&mut state.shared, Ok(())).expect("copy");
    assert_eq!(file_item.kind, "file");
    assert_eq!(file_item.name, "source.txt");
    assert_eq!(file_item.size, Some(19));

    let list = outbox_list(&state.shared);
    assert_eq!(list.len(), 2);

    let found = match download(&state.shared, &file_item.id) {
        Ok(item) => item,
        Err(reply) => panic!("{}", reply.status),
    };
    let copy = disk.outbox.get(&found.id);
    let head = match opened(&found, copy.is_some()) {
        Ok(head) => head,
        Err(reply) => panic!("{}", reply.status),
    };
    assert_eq!(head.status, 200);
    assert_eq!(head.content_type, "application/octet-stream");
    assert_eq!(copy.unwrap(), b"pc -> phone content");

    assert!(stop(&mut state).is_some());
}

fn json(text: &str) -> serde_json::Value {
    serde_json::from_str(text).unwrap()
}

#[test]
fn text_receive_roundtrip() {
    let mut disk = Disk::default();
    let mut state = new_state("save");
    start_service(&mut state, &mut disk);

    let refused = receive_text(&mut state.shared, &json("{ \"text\": \"   \" }"));
    assert_eq!(refused.reply.status, 400);
    assert!(refused.record.is_none());

    let taken = receive_text(&mut state.shared, &json("{ \"text\": \"你好，局域网传输\" }"));
    assert_eq!(taken.reply.status, 200);

    let texts = &state.shared.texts;
    assert_eq!(texts.len(), 1);
    assert_eq!(texts[0].text, "你好，局域网传输");
    assert_eq!(taken.record.unwrap().text, "你好，局域网传输");

    assert!(stop(&mut state).is_some());
}

#[test]
fn filename_sanitization() {
    assert_eq!(sanitize_filename("../../etc/passwd"), "passwd");
    assert_eq!(sanitize_filename("a<b>:c|d?.txt"), "a_b__c_d_.txt");
    assert_eq!(sanitize_filename("  正常 文件.txt  "), "正常 文件.txt");
    assert_eq!(sanitize_filename(".."), "unnamed");
    assert_eq!(text_preview("1234567890", 5), "12345…");
    assert_eq!(text_preview("短文本", 20), "短文本");
}

#[test]
fn qr_svg_generation() {
    let svg = qr_svg("http://192.168.1.100:8080").expect("a picture");
    assert!(svg.contains("<svg"), "an SVG document");
    assert!(svg.contains("<path"), "with the modules of the code");
}

#[test]
fn unique_path_naming() {
    let existing = ["a.txt".to_string()];
    let taken = |n: &String| existing.contains(n);
    assert_eq!(unique_path("a.txt", taken).unwrap(), "a (1).txt");
    assert_eq!(unique_path("b.txt", taken).unwrap(), "b.txt");
}
