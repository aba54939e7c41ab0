use iconnect::clock::{make_id, millis_or_zero, new_id, now_ms};
use iconnect::desktop::{open_in_explorer, pick_file, Platform};
use iconnect::download::{content_disposition, download, find_file, opened};
use iconnect::events::{arrived, events_sse, Arrival, StreamStep};
use iconnect::inbox::{receive_text, receive_text_at};
use iconnect::outbox::{offer_named, queue_file, queue_text, send_file, send_text, Inspection};
use iconnect::qr::qr_svg;
use iconnect::records::OutboxItem;
use iconnect::reply::{health, Content, Reply};
use iconnect::state::{
    default_save_dir, get_outbox, get_texts, lan_ip, launched, server_status, set_save_dir, start,
    stop, AppState, Shared, StartAction,
};

fn said(reply: &Reply) -> String {
    let members: Vec<String> = reply
        .body
        .iter()
        .map(|m| match &m.value {
            Content::Flag(b) => format!("{}={}", m.key, b),
            Content::Text(t) => format!("{}={}", m.key, t),
        })
        .collect();
    format!("{} {}", reply.status, members.join(","))
}

fn why() -> String {
    "why".to_string()
}

fn failure<T>(r: Result<T, String>) -> String {
    match r {
        Ok(_) => panic!("an error was expected"),
        Err(e) => e,
    }
}

#[test]
fn stamps_are_milliseconds() {
    assert_eq!(millis_or_zero(None), 0);
    assert_eq!(millis_or_zero(Some(1700000000000)), 1700000000000);
    assert_eq!(millis_or_zero(Some(0x1_0000_0000_0000_0005)), 5);
    assert!(now_ms() > 1700000000000);
}

#[test]
fn identifiers_carry_a_running_number() {
    assert_eq!(make_id("t", 1700000000000, 12), "t-1700000000000-12");
    let mut counter = 41;
    let first = new_id(&mut counter, "f");
    let second = new_id(&mut counter, "f");
    assert_eq!(counter, 43);
    assert!(first.starts_with("f-1") && first.ends_with("-41"), "{first}");
    assert!(second.ends_with("-42"), "{second}");
    assert_ne!(first, second);
    counter = u64::MAX;
    assert!(new_id(&mut counter, "f").ends_with("-18446744073709551615"));
    assert_eq!(counter, 0);
}

#[test]
fn sent_texts_are_offered() {
    let mut shared = Shared::default();
    let item = send_text(&mut shared, "  一二三四五六七八九十一二三四五六七八九十多 ").unwrap();
    assert_eq!(item.kind, "text");
    assert_eq!(item.name, "一二三四五六七八九十一二三四五六七八九十…");
    assert_eq!(item.text.as_deref(), Some("一二三四五六七八九十一二三四五六七八九十多"));
    assert_eq!(item.size, None);
    assert!(item.id.starts_with("t-") && item.id.ends_with("-0"), "{}", item.id);
    assert_eq!(shared.outbox.len(), 1);
    assert_eq!(shared.next_id, 1);
    assert_eq!(failure(send_text(&mut shared, " ")), "文本不能为空");
    assert_eq!(failure(send_text(&mut shared, &"x".repeat(10001))), "文本过长");
    assert_eq!(shared.outbox.len(), 1);
    assert_eq!(shared.next_id, 1);
}

#[test]
fn failures_of_an_offer_are_reported() {
    let mut shared = Shared::default();
    let offer = || send_file("/home/me/a b.txt");
    let refused = offer().inspected(&mut shared, Inspection::Failed(why()));
    assert_eq!(failure(refused), "无法读取文件: why");
    assert_eq!(failure(offer().inspected(&mut shared, Inspection::NotAFile)), "请选择一个文件");
    assert_eq!(shared.next_id, 0);
    let making = offer().inspected(&mut shared, Inspection::File(9)).unwrap();
    assert_eq!(failure(making.made(Err(why()))), "创建发送目录失败: why");
    let making = offer().inspected(&mut shared, Inspection::File(9)).unwrap();
    let copying = making.made(Ok(())).unwrap();
    assert_eq!(failure(copying.copied(&mut shared, Err(why()))), "复制文件失败: why");
    assert!(shared.outbox.is_empty());
    assert_eq!(shared.next_id, 2);
    let making = offer().inspected(&mut shared, Inspection::File(9)).unwrap();
    let item = making.made(Ok(())).unwrap().copied_at(&mut shared, Ok(()), 5).unwrap();
    assert_eq!(item.name, "a b.txt");
    assert_eq!((item.size, item.time, item.text.is_none()), (Some(9), 5, true));
    assert!(item.id.starts_with("f-") && item.id.ends_with("-2"), "{}", item.id);
}

#[test]
fn files_are_offered_under_the_last_component() {
    assert_eq!(send_file("a.txt").name, "a.txt");
    assert_eq!(send_file("/x/y/测试.png").name, "测试.png");
    assert_eq!(send_file("x/y/").name, "y");
    assert_eq!(send_file("x/..").name, "文件");
    assert_eq!(send_file("/").name, "文件");
    assert_eq!(send_file("/x/a: b.txt").name, "a: b.txt");
    assert_eq!(offer_named(None).name, "文件");
    assert_eq!(offer_named(Some("n".to_string())).name, "n");
}

fn offers() -> Shared {
    let mut shared = Shared::default();
    queue_text(&mut shared, "1".to_string(), "hello".to_string(), 10);
    queue_file(&mut shared, "2".to_string(), "b.txt".to_string(), 3, 11);
    queue_file(&mut shared, "3".to_string(), "文.txt".to_string(), 4, 12);
    shared
}

fn ids(items: &[OutboxItem]) -> Vec<String> {
    items.iter().map(|i| i.id.clone()).collect()
}

#[test]
fn offers_are_shown_newest_first() {
    assert_eq!(ids(&get_outbox(&offers())), ["3", "2", "1"]);
}

#[test]
fn only_files_are_downloaded() {
    let shared = offers();
    let missing = "404 ok=false,error=文件不存在";
    for id in ["1", "4", ""] {
        match download(&shared, &id.to_string()) {
            Ok(item) => panic!("{}", item.id),
            Err(reply) => assert_eq!(said(&reply), missing),
        }
    }
    let item = find_file(&shared.outbox, &"3".to_string()).unwrap();
    assert_eq!(item.size, Some(4));
    match opened(&item, false) {
        Ok(head) => panic!("{}", head.status),
        Err(reply) => assert_eq!(said(&reply), missing),
    }
    match opened(&item, true) {
        Ok(head) => assert_eq!(
            head.content_disposition,
            "attachment; filename=\"_.txt\"; filename*=UTF-8''%E6%96%87%2Etxt"
        ),
        Err(reply) => panic!("{}", reply.status),
    }
}

#[test]
fn names_are_encoded_for_the_header() {
    assert_eq!(
        content_disposition("a b-\"é\".TXT"),
        "attachment; filename=\"a_b-___.TXT\"; filename*=UTF-8''a%20b%2D%22%C3%A9%22%2ETXT"
    );
    let name: String = (1u32..0x3000).filter_map(char::from_u32).collect();
    let encoded = percent_encoding::utf8_percent_encode(&name, percent_encoding::NON_ALPHANUMERIC);
    assert!(content_disposition(&name).ends_with(&format!("''{encoded}")));
    let start = "attachment; filename=\"".len();
    for c in content_disposition(&name)[start..].chars() {
        assert!((' '..='~').contains(&c));
    }
}

#[test]
fn listeners_get_the_snapshot_and_then_what_arrives() {
    let shared = offers();
    let mut stream = events_sse(&shared);
    let mut sent = Vec::new();
    while let StreamStep::Emit(item) = stream.advance() {
        sent.push(item.id);
    }
    assert_eq!(sent, ["1", "2", "3"]);
    assert!(matches!(stream.advance(), StreamStep::Wait));
    assert!(matches!(arrived(Arrival::Lagged), StreamStep::Wait));
    let new = shared.outbox[1].clone();
    assert!(matches!(arrived(Arrival::Item(new)), StreamStep::Emit(i) if i.id == "2"));
    assert!(matches!(arrived(Arrival::Closed), StreamStep::End));
}

fn json(text: &str) -> serde_json::Value {
    serde_json::from_str(text).unwrap()
}

#[test]
fn requests_without_a_text_are_refused() {
    let mut shared = Shared::default();
    let bodies = ["{}", "[]", "\"text\"", "{\"text\":5}", "{\"text\":null}", "{\"Text\":\"x\"}"];
    for body in bodies {
        let receipt = receive_text(&mut shared, &json(body));
        assert_eq!(said(&receipt.reply), "400 ok=false,error=文本不能为空");
        assert!(receipt.record.is_none());
    }
    let long = format!("{{\"text\":\"{}\"}}", "x".repeat(10001));
    let receipt = receive_text(&mut shared, &json(&long));
    assert_eq!(said(&receipt.reply), "400 ok=false,error=文本过长");
    assert!(shared.texts.is_empty());
}

#[test]
fn received_texts_are_shown_newest_first() {
    let mut shared = Shared::default();
    let receipt = receive_text(&mut shared, &json("{\"a\":1,\"text\":\" first \"}"));
    assert_eq!(said(&receipt.reply), "200 ok=true");
    let record = receive_text_at(&mut shared, "second", 8).record.unwrap();
    assert_eq!((record.text.as_str(), record.time), ("second", 8));
    let shown: Vec<String> = get_texts(&shared).iter().map(|t| t.text.clone()).collect();
    assert_eq!(shown, ["second", "first"]);
}

fn idle() -> AppState<u8, &'static str> {
    AppState { server: None, shared: Shared::default(), tmp_dir: 1, outbox_dir: 2 }
}

#[test]
fn the_service_starts_once() {
    let mut state = idle();
    assert!(server_status(&state).is_none());
    set_save_dir(&mut state.shared, Some("/save".to_string()));
    let binding = match start(&state) {
        StartAction::Launch(b) => b,
        StartAction::Running(info) => panic!("{}", info.url),
    };
    let bound = binding.bound(Ok(())).unwrap();
    let info = bound.addressed(Ok(4321), Some("10.0.0.7".to_string())).unwrap();
    let info = launched(&mut state, info, "handle");
    assert_eq!(info.url, "http://10.0.0.7:4321");
    assert_eq!((info.running, info.port, info.ip.as_str()), (true, 4321, "10.0.0.7"));
    assert_eq!(info.save_dir, "/save");
    set_save_dir(&mut state.shared, Some("/other".to_string()));
    match start(&state) {
        StartAction::Running(again) => assert_eq!(again.save_dir, "/save"),
        StartAction::Launch(_) => panic!("the service runs"),
    }
    assert_eq!(server_status(&state).unwrap().url, info.url);
    assert_eq!(stop(&mut state), Some("handle"));
    assert_eq!(stop(&mut state), None);
    match start(&state) {
        StartAction::Launch(b) => assert_eq!(b.save_dir, "/other"),
        StartAction::Running(info) => panic!("{}", info.url),
    }
}

#[test]
fn failures_of_a_launch_are_reported() {
    let state = idle();
    let launch = || match start(&state) {
        StartAction::Launch(b) => b,
        StartAction::Running(info) => panic!("{}", info.url),
    };
    assert_eq!(failure(launch().bound(Err(why()))), "端口绑定失败: why");
    let bound = || launch().bound(Ok(())).unwrap();
    assert_eq!(failure(bound().addressed(Err(why()), None)), "why");
    assert_eq!(bound().addressed(Ok(1), None).unwrap().url, "http://127.0.0.1:1");
}

#[test]
fn blank_directories_are_not_chosen() {
    let mut shared = Shared::default();
    set_save_dir(&mut shared, Some(" /a ".to_string()));
    assert_eq!(shared.save_dir, " /a ");
    set_save_dir(&mut shared, Some(" \t".to_string()));
    set_save_dir(&mut shared, None);
    assert_eq!(shared.save_dir, " /a ");
}

#[test]
fn places_are_tried_in_turn() {
    assert_eq!(default_save_dir(Some(1), Some(2), 3), 1);
    assert_eq!(default_save_dir(None, Some(2), 3), 2);
    assert_eq!(default_save_dir(None, None, 3), 3);
    assert_eq!(lan_ip(Some("10.1.2.3".to_string())), "10.1.2.3");
    assert_eq!(lan_ip(None), "127.0.0.1");
}

#[test]
fn the_service_says_that_it_is_well() {
    assert_eq!(said(&health()), "200 status=ok");
}

#[test]
fn pictures_are_documents_of_the_least_size() {
    let svg = qr_svg("HELLO").unwrap();
    // A code of 21 modules with a margin of 4 on each side, 9 pixels to a module.
    let head = "<?xml version=\"1.0\" standalone=\"yes\"?><svg \
                xmlns=\"http://www.w3.org/2000/svg\" version=\"1.1\" width=\"261\" height=\"261\" \
                viewBox=\"0 0 261 261\" shape-rendering=\"crispEdges\"><rect x=\"0\" y=\"0\" \
                width=\"261\" height=\"261\" fill=\"#fff\"/><path fill=\"#000\" d=\"M36 36h9v9H36V36";
    assert!(svg.starts_with(head), "{svg}");
    assert!(svg.ends_with("\"/></svg>"));
    assert_ne!(qr_svg("WORLD").unwrap(), svg);
    assert_eq!(qr_svg("HELLO").unwrap(), svg);
    assert!(qr_svg("").is_ok());
}

#[test]
fn the_longest_addresses_have_pictures() {
    let samples = [
        "x".repeat(180),
        "7".repeat(180),
        "A".repeat(180),
        "a1234".repeat(36),
        "あ".repeat(60),
        "あ12".repeat(36),
        "\u{0}".repeat(180),
    ];
    for url in samples {
        assert_eq!(url.len(), 180);
        let svg = qr_svg(&url).unwrap();
        assert!(svg.contains("<svg") && svg.contains("<path"));
    }
}

#[test]
fn pictures_are_filtered_on_request() {
    assert!(pick_file(None).is_none());
    assert!(pick_file(Some(false)).is_none());
    let filter = pick_file(Some(true)).unwrap();
    assert_eq!(filter.label, "图片");
    assert_eq!(filter.extensions, ["png", "jpg", "jpeg", "gif", "webp", "bmp", "svg", "ico"]);
}

#[test]
fn each_system_has_its_file_manager() {
    let programs = [
        (Platform::Windows, "explorer"),
        (Platform::MacOs, "open"),
        (Platform::Linux, "xdg-open"),
    ];
    for (platform, program) in programs {
        let run = open_in_explorer(platform, "/some where".to_string());
        assert_eq!((run.program.as_str(), run.argument.as_str()), (program, "/some where"));
    }
}
