//! What the service remembers, and its life from start to stop.

use crate::decimal::push_decimal;
use crate::records::{FileRecord, OutboxItem, ServerInfo, TextRecord};
use crate::text::{because, trim};
use vstd::prelude::*;

verus! {

/// The address on which the service listens: every interface, any free port.
pub const BIND_ADDRESS: &'static str = "0.0.0.0:0";

/// How many new outbox items are held for a listener that falls behind.
pub const OUTBOX_CHANNEL_CAPACITY: usize = 256;

/// The directory for unfinished uploads, below that for temporary files.
pub const UPLOAD_FOLDER: &'static str = "iconnect-upload";

/// The directory for what is offered, below that for temporary files.
pub const OUTBOX_FOLDER: &'static str = "iconnect-outbox";

/// What the desktop side and the service share.
pub struct Shared {
    /// Where received files are saved.
    pub save_dir: String,
    /// The received files, oldest first.
    pub history: Vec<FileRecord>,
    /// The received texts, oldest first.
    pub texts: Vec<TextRecord>,
    /// What is offered to the phones, oldest first.
    pub outbox: Vec<OutboxItem>,
    /// The running number of the next identifier.
    pub next_id: u64,
}

/// The content of a `Shared`.
pub struct SharedView {
    pub save_dir: Seq<char>,
    pub history: Seq<crate::records::FileRecordView>,
    pub texts: Seq<crate::records::TextRecordView>,
    pub outbox: Seq<crate::records::OutboxItemView>,
    pub next_id: u64,
}

impl View for Shared {
    type V = SharedView;

    open spec fn view(&self) -> SharedView {
        SharedView {
            save_dir: self.save_dir@,
            history: crate::records::views(self.history@),
            texts: crate::records::views(self.texts@),
            outbox: crate::records::views(self.outbox@),
            next_id: self.next_id,
        }
    }
}

/// What is shared when nothing has happened yet.
pub open spec fn nothing_shared() -> SharedView {
    SharedView {
        save_dir: Seq::empty(),
        history: Seq::empty(),
        texts: Seq::empty(),
        outbox: Seq::empty(),
        next_id: 0,
    }
}

impl Default for Shared {
    fn default() -> (r: Self)
        ensures
            r@ == nothing_shared(),
    {
        let r = Shared {
            save_dir: String::new(),
            history: Vec::new(),
            texts: Vec::new(),
            outbox: Vec::new(),
            next_id: 0,
        };
        assert(r@.history =~= nothing_shared().history);
        assert(r@.texts =~= nothing_shared().texts);
        assert(r@.outbox =~= nothing_shared().outbox);
        r
    }
}

/// The running service, with what is needed to shut it down.
pub struct RunningServer<H> {
    pub info: ServerInfo,
    pub handle: H,
}

/// Everything that the program keeps: the service while it runs, what it shares,
/// and the directories for unfinished uploads and for what is offered.
pub struct AppState<P, H> {
    pub server: Option<RunningServer<H>>,
    pub shared: Shared,
    pub tmp_dir: P,
    pub outbox_dir: P,
}

/// What is shown of the running service, if it runs.
pub open spec fn status<H>(server: Option<RunningServer<H>>) -> Option<
    crate::records::ServerInfoView,
> {
    match server {
        Some(s) => Some(s.info@),
        None => None,
    }
}

/// A launch of the service, while both directories are being cleared and
/// `BIND_ADDRESS` is being bound.
pub struct Binding {
    pub save_dir: String,
}

/// A launch of the service, while the port that was bound is being looked up.
pub struct Bound {
    pub save_dir: String,
}

/// What a start comes to: the service runs already, or it is to be launched.
pub enum StartAction {
    Running(ServerInfo),
    Launch(Binding),
}

/// The content of a `StartAction`.
pub enum StartView {
    Running(crate::records::ServerInfoView),
    Launch { save_dir: Seq<char> },
}

impl View for StartAction {
    type V = StartView;

    open spec fn view(&self) -> StartView {
        match self {
            StartAction::Running(info) => StartView::Running(info@),
            StartAction::Launch(binding) => StartView::Launch { save_dir: binding.save_dir@ },
        }
    }
}

/// What a start comes to: the service that runs, or a launch.
pub open spec fn start_decision(
    running: Option<crate::records::ServerInfoView>,
    save_dir: Seq<char>,
) -> StartView {
    match running {
        Some(info) => StartView::Running(info),
        None => StartView::Launch { save_dir },
    }
}

/// Starts the service, unless it runs already.
pub fn start<P, H>(state: &AppState<P, H>) -> (r: StartAction)
    ensures
        r@ == start_decision(status(state.server), state.shared.save_dir@),
        state.server matches Some(s) ==> r == StartAction::Running(s.info),
        state.server is None ==> r is Launch && r->Launch_0.save_dir@ == state.shared.save_dir@,
{
    match &state.server {
        Some(running) => StartAction::Running(running.info.clone()),
        None => StartAction::Launch(Binding { save_dir: state.shared.save_dir.clone() }),
    }
}

/// The address under which a phone reaches the service.
pub open spec fn url_text(ip: Seq<char>, port: u16) -> Seq<char> {
    "http://"@ + ip + ":"@ + crate::decimal::decimal(port as nat)
}

/// What is shown of a service that listens on a port.
pub open spec fn info_of(
    ip: Seq<char>,
    port: u16,
    save_dir: Seq<char>,
) -> crate::records::ServerInfoView {
    crate::records::ServerInfoView {
        running: true,
        url: url_text(ip, port),
        ip,
        port,
        save_dir,
    }
}

impl Binding {
    /// What follows from binding the address: the port is looked up next.
    pub fn bound(self, outcome: Result<(), String>) -> (r: Result<Bound, String>)
        ensures
            match outcome {
                Ok(_) => r == Ok::<Bound, String>(Bound { save_dir: self.save_dir }),
                Err(cause) => r is Err && r->Err_0@ == "端口绑定失败: "@ + cause@,
            },
    {
        match outcome {
            Ok(_) => Ok(Bound { save_dir: self.save_dir }),
            Err(cause) => Err(because("端口绑定失败: ", cause)),
        }
    }
}

impl Bound {
    /// What follows from looking up the port and the address of this computer in the
    /// local network: what is shown of the service. It begins to serve next.
    pub fn addressed(self, port: Result<u16, String>, ip: Option<String>) -> (r: Result<
        ServerInfo,
        String,
    >)
        ensures
            match port {
                Ok(p) => {
                    &&& r is Ok
                    &&& r->Ok_0@ == info_of(
                        known_ip(crate::names::option_view(ip)),
                        p,
                        self.save_dir@,
                    )
                    &&& r->Ok_0.running
                    &&& r->Ok_0.port == p
                    &&& r->Ok_0.save_dir@ == self.save_dir@
                    &&& ip matches Some(found) ==> r->Ok_0.ip@ == found@
                    &&& ip is None ==> r->Ok_0.ip@ == "127.0.0.1"@
                    &&& r->Ok_0.url@.take(7) == "http://"@
                    &&& r->Ok_0.url@.subrange(7, 7 + r->Ok_0.ip@.len() as int) == r->Ok_0.ip@
                    &&& crate::decimal::parsed_usize(
                        r->Ok_0.url@.skip(8 + r->Ok_0.ip@.len() as int),
                    ) == Some(p as usize)
                },
                Err(cause) => r is Err && r->Err_0@ == cause@,
            },
    {
        let port = match port {
            Ok(p) => p,
            Err(cause) => return Err(cause),
        };
        let ip = lan_ip(ip);
        let mut url = "http://".to_string();
        url.append(ip.as_str());
        url.append(":");
        push_decimal(&mut url, port as u64);
        proof {
            law_url_leads_to_the_service(ip@, port);
        }
        Ok(ServerInfo { running: true, url, ip, port, save_dir: self.save_dir })
    }
}

/// Records that the service was launched, with what is needed to shut it down, and
/// gives what is shown of it.
pub fn launched<P, H>(state: &mut AppState<P, H>, info: ServerInfo, handle: H) -> (r: ServerInfo)
    ensures
        r == info,
        final(state).server == Some(RunningServer { info, handle }),
        final(state).shared == old(state).shared,
        final(state).tmp_dir == old(state).tmp_dir,
        final(state).outbox_dir == old(state).outbox_dir,
{
    state.server = Some(RunningServer { info: info.clone(), handle });
    info
}

/// Forgets the running service and gives what is needed to shut it down.
pub fn stop<P, H>(state: &mut AppState<P, H>) -> (r: Option<H>)
    ensures
        final(state).server is None,
        r == (match old(state).server {
            Some(s) => Some(s.handle),
            None => None,
        }),
        final(state).shared == old(state).shared,
        final(state).tmp_dir == old(state).tmp_dir,
        final(state).outbox_dir == old(state).outbox_dir,
{
    match state.server.take() {
        Some(server) => Some(server.handle),
        None => None,
    }
}

/// What is shown of the running service, if it runs.
pub fn server_status<P, H>(state: &AppState<P, H>) -> (r: Option<ServerInfo>)
    ensures
        (match r {
            Some(info) => Some(info@),
            None => None,
        }) == status(state.server),
        state.server matches Some(s) ==> r == Some(s.info),
        state.server is None ==> r is None,
{
    match &state.server {
        Some(running) => Some(running.info.clone()),
        None => None,
    }
}

/// The directory for received files after a request to use another one: that one,
/// unless it is missing or blank.
pub open spec fn chosen_dir(current: Seq<char>, requested: Option<Seq<char>>) -> Seq<char> {
    match requested {
        Some(dir) => if crate::text::trimmed(dir).len() == 0 {
            current
        } else {
            dir
        },
        None => current,
    }
}

/// Uses another directory for received files, unless the request is missing or
/// blank.
pub fn set_save_dir(shared: &mut Shared, requested: Option<String>)
    ensures
        final(shared)@ == (SharedView {
            save_dir: chosen_dir(old(shared)@.save_dir, crate::names::option_view(requested)),
            ..old(shared)@
        }),
        requested matches Some(dir) ==> crate::text::trimmed(dir@).len() > 0 ==> final(shared).save_dir
            == dir,
        requested is None ==> *final(shared) == *old(shared),
        requested matches Some(dir) ==> crate::text::trimmed(dir@).len() == 0 ==> *final(shared)
            == *old(shared),
{
    if let Some(dir) = requested {
        if !trim(dir.as_str()).as_str().is_empty() {
            shared.save_dir = dir;
        }
    }
}

/// The first of the places that is known: the downloads, the desktop, the
/// directory for temporary files.
pub fn default_save_dir<P>(downloads: Option<P>, desktop: Option<P>, temporary: P) -> (r: P)
    ensures
        r == (match downloads {
            Some(d) => d,
            None => match desktop {
                Some(d) => d,
                None => temporary,
            },
        }),
{
    match downloads {
        Some(d) => d,
        None => match desktop {
            Some(d) => d,
            None => temporary,
        },
    }
}

/// The address of this computer in the local network, or the loopback address
/// where none was found.
pub open spec fn known_ip(found: Option<Seq<char>>) -> Seq<char> {
    match found {
        Some(ip) => ip,
        None => "127.0.0.1"@,
    }
}

/// The address of this computer in the local network, or the loopback address
/// where none was found.
pub fn lan_ip(found: Option<String>) -> (r: String)
    ensures
        r@ == known_ip(crate::names::option_view(found)),
{
    match found {
        Some(ip) => ip,
        None => "127.0.0.1".to_string(),
    }
}

fn newest_first<T: Clone>(items: &Vec<T>) -> (r: Vec<T>)
    ensures
        r@.len() == items@.len(),
        forall|i: int|
            0 <= i < r@.len() ==> cloned(items@[items@.len() - 1 - i], #[trigger] r@[i]),
{
    let mut r: Vec<T> = Vec::new();
    let mut left: usize = items.len();
    while left > 0
        invariant
            left <= items@.len(),
            r@.len() == items@.len() - left,
            forall|i: int|
                0 <= i < r@.len() ==> cloned(items@[items@.len() - 1 - i], #[trigger] r@[i]),
        decreases left,
    {
        left = left - 1;
        r.push(items[left].clone());
    }
    r
}

/// What was offered to the phones, newest first.
pub fn get_outbox(shared: &Shared) -> (r: Vec<OutboxItem>)
    ensures
        crate::records::views(r@) == shared@.outbox.reverse(),
{
    let r = newest_first(&shared.outbox);
    assert(crate::records::views(r@) =~= shared@.outbox.reverse());
    r
}

/// The texts that were received, newest first.
pub fn get_texts(shared: &Shared) -> (r: Vec<TextRecord>)
    ensures
        crate::records::views(r@) == shared@.texts.reverse(),
{
    let r = newest_first(&shared.texts);
    assert(crate::records::views(r@) =~= shared@.texts.reverse());
    r
}

/// The files that were received, newest first.
pub fn get_history(shared: &Shared) -> (r: Vec<FileRecord>)
    ensures
        crate::records::views(r@) == shared@.history.reverse(),
{
    let r = newest_first(&shared.history);
    assert(crate::records::views(r@) =~= shared@.history.reverse());
    r
}

/// Starting a service again that was launched gives what the launch gave, whatever
/// directory is chosen meanwhile.
pub proof fn law_start_is_idempotent<H>(info: ServerInfo, handle: H, save_dir: Seq<char>)
    ensures
        start_decision(status(Some(RunningServer { info, handle })), save_dir)
            == StartView::Running(info@),
{
}

/// A service that was stopped, or never started, is launched by a start, with the
/// directory that was last chosen, unless a blank one was requested.
pub proof fn law_stopped_service_starts_anew<H>(
    server: Option<RunningServer<H>>,
    current: Seq<char>,
    requested: Option<Seq<char>>,
)
    requires
        server is None,
    ensures
        start_decision(status(server), chosen_dir(current, requested)) == (StartView::Launch {
            save_dir: chosen_dir(current, requested),
        }),
        requested is None || crate::text::trimmed(requested->0).len() == 0 ==> chosen_dir(
            current,
            requested,
        ) == current,
        requested is Some && crate::text::trimmed(requested->0).len() > 0 ==> chosen_dir(
            current,
            requested,
        ) == requested->0,
{
}

/// What came last is listed first, and what was there before keeps its order.
pub proof fn law_newest_comes_first<T>(items: Seq<T>, item: T)
    ensures
        items.push(item).reverse() == seq![item] + items.reverse(),
{
    assert(items.push(item).reverse() =~= seq![item] + items.reverse());
}

/// The address of the service leads to it: after `http://` it holds the address of the
/// computer, then a colon and, after the last colon, the port.
pub proof fn law_url_leads_to_the_service(ip: Seq<char>, port: u16)
    ensures
        ({
            let url = url_text(ip, port);
            let colon = 7 + ip.len() as int;
            &&& colon + 1 < url.len()
            &&& url.take(7) == "http://"@
            &&& url.subrange(7, colon) == ip
            &&& url[colon] == ':'
            &&& forall|i: int| colon < i < url.len() ==> #[trigger] url[i] != ':'
            &&& crate::decimal::parsed_usize(url.skip(colon + 1)) == Some(port as usize)
            &&& port > 0 ==> url[colon + 1] != '0'
        }),
{
    reveal_strlit("http://");
    reveal_strlit(":");
    let url = url_text(ip, port);
    let colon = 7 + ip.len() as int;
    let d = crate::decimal::decimal(port as nat);
    crate::decimal::law_decimal_value(port as nat);
    crate::decimal::law_decimal_has_no_leading_zero(port as nat);
    crate::decimal::law_parse_reads_back(port as usize, 0);
    assert(url.take(7) =~= "http://"@);
    assert(url.subrange(7, colon) =~= ip);
    assert(url.skip(colon + 1) =~= d);
    assert(url[colon + 1] == d[0]);
    assert forall|i: int| colon < i < url.len() implies #[trigger] url[i] != ':' by {
        assert(url[i] == d[i - colon - 1]);
        assert(crate::decimal::is_digit(d[i - colon - 1]));
    }
}

/// Services on different ports or computers have different addresses.
pub proof fn law_urls_are_told_apart(ip: Seq<char>, port: u16, other_ip: Seq<char>, other_port: u16)
    requires
        ip != other_ip || port != other_port,
    ensures
        url_text(ip, port) != url_text(other_ip, other_port),
{
    let (u, v) = (url_text(ip, port), url_text(other_ip, other_port));
    if u == v {
        law_url_leads_to_the_service(ip, port);
        law_url_leads_to_the_service(other_ip, other_port);
        let (c, d) = (7 + ip.len() as int, 7 + other_ip.len() as int);
        if c < d {
            assert(u[d] != ':');
        } else if d < c {
            assert(v[c] != ':');
        }
    }
}

/// What is shown of the service is that it runs, its address, the computer, the port
/// and the directory for received files.
pub proof fn law_info_shows_the_service(ip: Seq<char>, port: u16, save_dir: Seq<char>)
    ensures
        info_of(ip, port, save_dir).running,
        info_of(ip, port, save_dir).ip == ip,
        info_of(ip, port, save_dir).port == port,
        info_of(ip, port, save_dir).save_dir == save_dir,
        info_of(ip, port, save_dir).url.take(7) == "http://"@,
        info_of(ip, port, save_dir).url.subrange(7, 7 + ip.len() as int) == ip,
        crate::decimal::parsed_usize(info_of(ip, port, save_dir).url.skip(8 + ip.len() as int))
            == Some(port as usize),
{
    law_url_leads_to_the_service(ip, port);
}

/// An address that was found is used; only where none was, the loopback address is.
pub proof fn law_found_address_is_used(ip: Seq<char>)
    ensures
        known_ip(Some(ip)) == ip,
        known_ip(None) == "127.0.0.1"@,
{
}

/// The content of what is shared is that of its fields, record by record.
pub proof fn law_shared_shows_its_fields(shared: Shared)
    ensures
        shared@.save_dir == shared.save_dir@,
        shared@.next_id == shared.next_id,
        shared@.history.len() == shared.history@.len(),
        shared@.texts.len() == shared.texts@.len(),
        shared@.outbox.len() == shared.outbox@.len(),
        forall|i: int|
            0 <= i < shared.history@.len() ==> #[trigger] shared@.history[i] == shared.history@[i]@,
        forall|i: int|
            0 <= i < shared.texts@.len() ==> #[trigger] shared@.texts[i] == shared.texts@[i]@,
        forall|i: int|
            0 <= i < shared.outbox@.len() ==> #[trigger] shared@.outbox[i] == shared.outbox@[i]@,
{
}

/// At first nothing was received, nothing is offered and no identifier was issued.
pub proof fn law_nothing_is_shared_at_first()
    ensures
        nothing_shared().save_dir.len() == 0,
        nothing_shared().history.len() == 0,
        nothing_shared().texts.len() == 0,
        nothing_shared().outbox.len() == 0,
        nothing_shared().next_id == 0,
{
}

} // verus!
