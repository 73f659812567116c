//! The decisions of the control loop.
//!
//! The control loop is the one thread that may touch the window and the webview. This module
//! decides; the loop acts. For every request [`ControlLoop::plan`] says either what to answer
//! at once or which operation to perform on the window; for the outcome of that operation
//! [`complete`] says what to answer. Every request is answered exactly once, with its own id.

use crate::decode::seen;
use crate::headers::{merge_headers, merged, names_distinct};
use crate::protocol::{
    header_views, optional_header_views, Content, ContentView, Header, HeaderView, Id, IdView, Notification,
    NotificationView, Request, RequestView, Response, ResponseView, ResultType, ResultTypeView,
    Size, SizeView,
};
use crate::text::{decimal, push_decimal};
use vstd::prelude::*;
use vstd::string::*;

verus! {

/// What the control loop needs to know of the window before it decides.
#[derive(Clone, Copy, Debug, PartialEq, Eq, Structural)]
pub struct WindowState {
    pub fullscreen: bool,
    pub maximized: bool,
    pub minimized: bool,
}

/// The HTML that the webview shows under the `load-html` scheme, and the origin it is shown
/// under. The loop writes both; the handler of the scheme reads the HTML.
#[derive(Clone, Debug, PartialEq, Eq)]
pub struct ContentSlots {
    pub html: String,
    pub origin: String,
}

/// What a [`ContentSlots`] stands for in contracts.
pub struct SlotsView {
    pub html: Seq<char>,
    pub origin: Seq<char>,
}

impl View for ContentSlots {
    type V = SlotsView;

    open spec fn view(&self) -> SlotsView {
        SlotsView { html: self.html@, origin: self.origin@ }
    }
}

impl ContentSlots {
    /// No HTML, and the default origin.
    pub fn new() -> (r: Self)
        ensures
            r@.html == Seq::<char>::empty(),
            r@.origin == crate::protocol::default_origin_text(),
    {
        ContentSlots { html: String::new(), origin: crate::protocol::default_origin() }
    }
}

/// An operation on the window or the webview.
#[derive(Clone, Debug, PartialEq, Eq)]
pub enum Command {
    Eval { js: String },
    SetTitle { title: String },
    GetTitle,
    OpenDevTools,
    SetVisibility { visible: bool },
    IsVisible,
    GetSize { include_decorations: bool },
    SetSize { size: Size },
    SetFullscreen { fullscreen: bool },
    SetMaximized { maximized: bool },
    SetMinimized { minimized: bool },
    LoadUrl { url: String, headers: Option<Vec<Header>> },
}

/// What a [`Command`] stands for in contracts.
pub enum CommandView {
    Eval { js: Seq<char> },
    SetTitle { title: Seq<char> },
    GetTitle,
    OpenDevTools,
    SetVisibility { visible: bool },
    IsVisible,
    GetSize { include_decorations: bool },
    SetSize { size: SizeView },
    SetFullscreen { fullscreen: bool },
    SetMaximized { maximized: bool },
    SetMinimized { minimized: bool },
    LoadUrl { url: Seq<char>, headers: Option<Seq<HeaderView>> },
}

impl View for Command {
    type V = CommandView;

    open spec fn view(&self) -> CommandView {
        match self {
            Command::Eval { js } => CommandView::Eval { js: js@ },
            Command::SetTitle { title } => CommandView::SetTitle { title: title@ },
            Command::GetTitle => CommandView::GetTitle,
            Command::OpenDevTools => CommandView::OpenDevTools,
            Command::SetVisibility { visible } => CommandView::SetVisibility { visible: *visible },
            Command::IsVisible => CommandView::IsVisible,
            Command::GetSize { include_decorations } => CommandView::GetSize {
                include_decorations: *include_decorations,
            },
            Command::SetSize { size } => CommandView::SetSize { size: size@ },
            Command::SetFullscreen { fullscreen } => CommandView::SetFullscreen {
                fullscreen: *fullscreen,
            },
            Command::SetMaximized { maximized } => CommandView::SetMaximized {
                maximized: *maximized,
            },
            Command::SetMinimized { minimized } => CommandView::SetMinimized {
                minimized: *minimized,
            },
            Command::LoadUrl { url, headers } => CommandView::LoadUrl {
                url: url@,
                headers: optional_header_views(*headers),
            },
        }
    }
}

/// What the loop does with a request: answer at once, or perform an operation and answer with
/// its outcome.
#[derive(Clone, Debug, PartialEq, Eq)]
pub enum Step {
    Reply(Response),
    Call { id: Id, command: Command },
}

/// What a [`Step`] stands for in contracts.
pub enum StepView {
    Reply(ResponseView),
    Call { id: IdView, command: CommandView },
}

impl View for Step {
    type V = StepView;

    open spec fn view(&self) -> StepView {
        match self {
            Step::Reply(response) => StepView::Reply(response@),
            Step::Call { id, command } => StepView::Call { id: id@, command: command@ },
        }
    }
}

/// How an operation on the window ended.
#[derive(Clone, Debug, PartialEq, Eq)]
pub enum Outcome {
    /// It was done and has nothing to report.
    Done,
    /// It was done and reports a value.
    Value(ResultType),
    /// It failed, with this message.
    Failed(String),
}

/// What an [`Outcome`] stands for in contracts.
pub enum OutcomeView {
    Done,
    Value(ResultTypeView),
    Failed(Seq<char>),
}

impl View for Outcome {
    type V = OutcomeView;

    open spec fn view(&self) -> OutcomeView {
        match self {
            Outcome::Done => OutcomeView::Done,
            Outcome::Value(value) => OutcomeView::Value(value@),
            Outcome::Failed(message) => OutcomeView::Failed(message@),
        }
    }
}

/// The headers that the webview is given: every name once, with the value given last.
pub open spec fn merged_if_any(headers: Option<Seq<HeaderView>>) -> Option<Seq<HeaderView>> {
    match headers {
        Some(list) => Some(merged(list)),
        None => None,
    }
}

/// The state that a switch is set to: the one asked for, or the opposite of the current one
/// where none is asked for.
pub open spec fn toggled(requested: Option<bool>, current: bool) -> bool {
    match requested {
        Some(value) => value,
        None => !current,
    }
}

/// The id as it is written into a URL: an integer in decimal, a string as it is.
pub open spec fn id_text(id: IdView) -> Seq<char> {
    match id {
        IdView::Integer(value) => decimal(value),
        IdView::Text(value) => value,
    }
}

/// The URL under which the webview asks for the HTML of the request `id`.
pub open spec fn html_url(origin: Seq<char>, id: IdView) -> Seq<char> {
    "load-html://"@ + origin + seq!['?'] + id_text(id)
}

/// The URL under which the webview asks for the HTML it is created with.
pub open spec fn initial_html_url(origin: Seq<char>) -> Seq<char> {
    "load-html://"@ + origin
}

/// The message of the answer to `openDevTools` where the devtools are not built in.
pub open spec fn devtools_disabled() -> Seq<char> {
    "DevTools not enabled"@
}

/// The answer to the outcome of an operation: an acknowledgement, the value, or the error,
/// each with the id of the request.
pub open spec fn completed(id: IdView, outcome: OutcomeView) -> ResponseView {
    match outcome {
        OutcomeView::Done => ResponseView::Ack { id },
        OutcomeView::Value(result) => ResponseView::Result { id, result },
        OutcomeView::Failed(message) => ResponseView::Error { id, message },
    }
}

/// The slots after a request: `loadHtml` stores its HTML, and its origin where it names one.
pub open spec fn slots_after(request: RequestView, slots: SlotsView) -> SlotsView {
    match request {
        RequestView::LoadHtml { html, origin, .. } => SlotsView {
            html,
            origin: match origin {
                Some(o) => o,
                None => slots.origin,
            },
        },
        _ => slots,
    }
}

/// What the loop does with a request.
pub open spec fn planned(
    request: RequestView,
    window: WindowState,
    slots: SlotsView,
    version: Seq<char>,
    devtools: bool,
) -> StepView {
    match request {
        RequestView::GetVersion { id } => StepView::Reply(
            ResponseView::Result { id, result: ResultTypeView::String(version) },
        ),
        RequestView::Eval { id, js } => StepView::Call { id, command: CommandView::Eval { js } },
        RequestView::SetTitle { id, title } => StepView::Call {
            id,
            command: CommandView::SetTitle { title },
        },
        RequestView::GetTitle { id } => StepView::Call { id, command: CommandView::GetTitle },
        RequestView::SetVisibility { id, visible } => StepView::Call {
            id,
            command: CommandView::SetVisibility { visible },
        },
        RequestView::IsVisible { id } => StepView::Call { id, command: CommandView::IsVisible },
        RequestView::OpenDevTools { id } => if devtools {
            StepView::Call { id, command: CommandView::OpenDevTools }
        } else {
            StepView::Reply(ResponseView::Error { id, message: devtools_disabled() })
        },
        RequestView::GetSize { id, include_decorations } => StepView::Call {
            id,
            command: CommandView::GetSize {
                include_decorations: match include_decorations {
                    Some(value) => value,
                    None => false,
                },
            },
        },
        RequestView::SetSize { id, size } => StepView::Call {
            id,
            command: CommandView::SetSize { size },
        },
        RequestView::Fullscreen { id, fullscreen } => StepView::Call {
            id,
            command: CommandView::SetFullscreen {
                fullscreen: toggled(fullscreen, window.fullscreen),
            },
        },
        RequestView::Maximize { id, maximized } => StepView::Call {
            id,
            command: CommandView::SetMaximized { maximized: toggled(maximized, window.maximized) },
        },
        RequestView::Minimize { id, minimized } => StepView::Call {
            id,
            command: CommandView::SetMinimized { minimized: toggled(minimized, window.minimized) },
        },
        RequestView::LoadHtml { id, .. } => StepView::Call {
            id,
            command: CommandView::LoadUrl {
                url: html_url(slots_after(request, slots).origin, id),
                headers: None,
            },
        },
        RequestView::LoadUrl { id, url, headers } => StepView::Call {
            id,
            command: CommandView::LoadUrl { url, headers: merged_if_any(headers) },
        },
    }
}

impl StepView {
    /// The id of the request that the step belongs to.
    pub open spec fn id(self) -> IdView {
        match self {
            StepView::Reply(response) => response.id(),
            StepView::Call { id, .. } => id,
        }
    }

    /// The answer that the step ends in, given the outcome of its operation if it has one.
    pub open spec fn answer(self, outcome: OutcomeView) -> ResponseView {
        match self {
            StepView::Reply(response) => response,
            StepView::Call { id, .. } => completed(id, outcome),
        }
    }
}

/// The answers to a queue of requests, one for each, in order: each request is planned with
/// the state of the window at its turn and answered with the outcome of its operation.
pub open spec fn answers(
    requests: Seq<RequestView>,
    windows: Seq<WindowState>,
    slots: Seq<SlotsView>,
    outcomes: Seq<OutcomeView>,
    version: Seq<char>,
    devtools: bool,
) -> Seq<ResponseView> {
    Seq::new(
        requests.len(),
        |i: int|
            planned(requests[i], windows[i], slots[i], version, devtools).answer(outcomes[i]),
    )
}

/// Whatever the state of the window and however its operation ends, a request ends in an
/// answer that bears the id of the request.
pub proof fn lemma_answer_bears_id(
    request: RequestView,
    window: WindowState,
    slots: SlotsView,
    version: Seq<char>,
    devtools: bool,
    outcome: OutcomeView,
)
    ensures
        planned(request, window, slots, version, devtools).id() == request.id(),
        planned(request, window, slots, version, devtools).answer(outcome).id() == request.id(),
{
}

/// A queue of requests is answered by as many responses, the response at each place bearing
/// the id of the request at that place, whatever the window was like and however the
/// operations ended. Where the ids of the requests are distinct, so are those of the
/// responses: no request is answered twice and none goes unanswered.
pub proof fn lemma_requests_and_responses_correlate(
    requests: Seq<RequestView>,
    windows: Seq<WindowState>,
    slots: Seq<SlotsView>,
    outcomes: Seq<OutcomeView>,
    version: Seq<char>,
    devtools: bool,
)
    ensures
        answers(requests, windows, slots, outcomes, version, devtools).len() == requests.len(),
        forall|i: int|
            0 <= i < requests.len() ==> (#[trigger] answers(
                requests,
                windows,
                slots,
                outcomes,
                version,
                devtools,
            )[i]).id() == requests[i].id(),
        (forall|i: int, j: int|
            0 <= i < j < requests.len() ==> (#[trigger] requests[i]).id() != (
            #[trigger] requests[j]).id()) ==> (forall|i: int, j: int|
            0 <= i < j < requests.len() ==> (#[trigger] answers(
                requests,
                windows,
                slots,
                outcomes,
                version,
                devtools,
            )[i]).id() != (#[trigger] answers(
                requests,
                windows,
                slots,
                outcomes,
                version,
                devtools,
            )[j]).id()),
{
    let all = answers(requests, windows, slots, outcomes, version, devtools);
    assert forall|i: int| 0 <= i < requests.len() implies (#[trigger] all[i]).id()
        == requests[i].id() by {
        lemma_answer_bears_id(requests[i], windows[i], slots[i], version, devtools, outcomes[i]);
    }
}

/// The headers that the webview is given: every name once, with the value given last.
pub fn merge_if_any(headers: Option<Vec<Header>>) -> (r: Option<Vec<Header>>)
    ensures
        optional_header_views(r) == merged_if_any(optional_header_views(headers)),
        r matches Some(list) ==> names_distinct(header_views(list@)),
{
    match headers {
        Some(list) => Some(merge_headers(list)),
        None => None,
    }
}

/// The state that a switch is set to.
pub fn resolve_toggle(requested: Option<bool>, current: bool) -> (r: bool)
    ensures
        r == toggled(requested, current),
{
    match requested {
        Some(value) => value,
        None => !current,
    }
}

/// The URL under which the webview asks for the HTML of the request `id`.
pub fn html_url_for(origin: &str, id: &Id) -> (url: String)
    ensures
        url@ == html_url(origin@, id@),
{
    let mut url = "load-html://".to_owned();
    url.append(origin);
    url.push('?');
    match id {
        Id::Integer(value) => {
            push_decimal(&mut url, *value);
        },
        Id::Text(value) => {
            url.append(value.as_str());
        },
    }
    url
}

/// Where the webview goes first: the URL and the headers to load it with.
#[derive(Clone, Debug, PartialEq, Eq)]
pub struct Navigation {
    pub url: String,
    pub headers: Option<Vec<Header>>,
}

/// What a [`Navigation`] stands for in contracts.
pub struct NavigationView {
    pub url: Seq<char>,
    pub headers: Option<Seq<HeaderView>>,
}

impl View for Navigation {
    type V = NavigationView;

    open spec fn view(&self) -> NavigationView {
        NavigationView { url: self.url@, headers: optional_header_views(self.headers) }
    }
}

/// The slots after the webview has been created with `load`.
pub open spec fn slots_at_start(load: Option<ContentView>, slots: SlotsView) -> SlotsView {
    match load {
        Some(ContentView::Html { html, origin }) => SlotsView { html, origin },
        _ => slots,
    }
}

/// Where the webview goes first when it is created with `load`.
pub open spec fn first_navigation(load: Option<ContentView>) -> Option<NavigationView> {
    match load {
        Some(ContentView::Url { url, headers }) => Some(
            NavigationView { url, headers: merged_if_any(headers) },
        ),
        Some(ContentView::Html { html, origin }) => Some(
            NavigationView { url: initial_html_url(origin), headers: None },
        ),
        None => None,
    }
}

/// Decides where the webview goes first. Content given as HTML is stored in the slots, with
/// its origin, and is loaded from the `load-html` scheme under that origin.
pub fn start_content(load: Option<Content>, slots: &mut ContentSlots) -> (r: Option<Navigation>)
    ensures
        final(slots)@ == slots_at_start(seen(load), old(slots)@),
        seen(r) == first_navigation(seen(load)),
{
    match load {
        Some(Content::Url { url, headers }) => Some(
            Navigation { url, headers: merge_if_any(headers) },
        ),
        Some(Content::Html { html, origin }) => {
            let mut url = "load-html://".to_owned();
            url.append(origin.as_str());
            slots.html = html;
            slots.origin = origin;
            Some(Navigation { url, headers: None })
        },
        None => None,
    }
}

/// Whether the loop is at work.
#[derive(Clone, Copy, Debug, PartialEq, Eq, Structural)]
pub enum Phase {
    Running,
    Exiting,
}

/// What the window system reports to the loop.
#[derive(Clone, Copy, Debug, PartialEq, Eq, Structural)]
pub enum LoopEvent {
    /// The loop has started.
    Init,
    /// The user asked to close the window.
    CloseRequested,
    /// Anything else.
    Other,
}

/// The control loop: its phase, the version it reports, and whether the devtools can be
/// opened.
pub struct ControlLoop {
    phase: Phase,
    version: String,
    devtools: bool,
}

/// What a [`ControlLoop`] stands for in contracts.
pub struct LoopView {
    pub phase: Phase,
    pub version: Seq<char>,
    pub devtools: bool,
}

impl View for ControlLoop {
    type V = LoopView;

    closed spec fn view(&self) -> LoopView {
        LoopView { phase: self.phase, version: self.version@, devtools: self.devtools }
    }
}

/// The notification that an event of the window system is reported with, if any.
pub open spec fn notified(phase: Phase, event: LoopEvent, version: Seq<char>) -> Option<
    NotificationView,
> {
    if phase == Phase::Exiting {
        None
    } else {
        match event {
            LoopEvent::Init => Some(NotificationView::Started { version }),
            LoopEvent::CloseRequested => Some(NotificationView::Closed),
            LoopEvent::Other => None,
        }
    }
}

/// The phase after an event: a request to close the window ends the loop.
pub open spec fn phase_after(phase: Phase, event: LoopEvent) -> Phase {
    if event == LoopEvent::CloseRequested {
        Phase::Exiting
    } else {
        phase
    }
}

impl ControlLoop {
    /// A running loop.
    pub fn new(version: String, devtools: bool) -> (r: Self)
        ensures
            r@.phase == Phase::Running,
            r@.version == version@,
            r@.devtools == devtools,
    {
        ControlLoop { phase: Phase::Running, version, devtools }
    }

    /// Whether the loop is at work.
    pub fn phase(&self) -> (p: Phase)
        ensures
            p == self@.phase,
    {
        self.phase
    }

    /// Takes an event of the window system: says what to notify the client of, and ends the
    /// loop when the window is to be closed. The last notification of a loop is `Closed`.
    pub fn on_event(&mut self, event: LoopEvent) -> (notification: Option<Notification>)
        ensures
            seen(notification) == notified(old(self)@.phase, event, old(self)@.version),
            final(self)@.phase == phase_after(old(self)@.phase, event),
            final(self)@.version == old(self)@.version,
            final(self)@.devtools == old(self)@.devtools,
    {
        let running = self.phase == Phase::Running;
        match event {
            LoopEvent::Init => if running {
                Some(Notification::Started { version: self.version.clone() })
            } else {
                None
            },
            LoopEvent::CloseRequested => {
                self.phase = Phase::Exiting;
                if running {
                    Some(Notification::Closed)
                } else {
                    None
                }
            },
            LoopEvent::Other => None,
        }
    }

    /// Decides what to do with a request, given the state of the window: answer at once, or
    /// perform an operation. A `loadHtml` stores its HTML and origin in the slots.
    pub fn plan(&self, request: Request, window: WindowState, slots: &mut ContentSlots) -> (step:
        Step)
        ensures
            step@ == planned(request@, window, old(slots)@, self@.version, self@.devtools),
            final(slots)@ == slots_after(request@, old(slots)@),
    {
        match request {
            Request::GetVersion { id } => Step::Reply(
                Response::Result { id, result: ResultType::String(self.version.clone()) },
            ),
            Request::Eval { id, js } => Step::Call { id, command: Command::Eval { js } },
            Request::SetTitle { id, title } => Step::Call {
                id,
                command: Command::SetTitle { title },
            },
            Request::GetTitle { id } => Step::Call { id, command: Command::GetTitle },
            Request::SetVisibility { id, visible } => Step::Call {
                id,
                command: Command::SetVisibility { visible },
            },
            Request::IsVisible { id } => Step::Call { id, command: Command::IsVisible },
            Request::OpenDevTools { id } => if self.devtools {
                Step::Call { id, command: Command::OpenDevTools }
            } else {
                Step::Reply(Response::Error { id, message: "DevTools not enabled".to_owned() })
            },
            Request::GetSize { id, include_decorations } => Step::Call {
                id,
                command: Command::GetSize {
                    include_decorations: match include_decorations {
                        Some(value) => value,
                        None => false,
                    },
                },
            },
            Request::SetSize { id, size } => Step::Call { id, command: Command::SetSize { size } },
            Request::Fullscreen { id, fullscreen } => Step::Call {
                id,
                command: Command::SetFullscreen {
                    fullscreen: resolve_toggle(fullscreen, window.fullscreen),
                },
            },
            Request::Maximize { id, maximized } => Step::Call {
                id,
                command: Command::SetMaximized {
                    maximized: resolve_toggle(maximized, window.maximized),
                },
            },
            Request::Minimize { id, minimized } => Step::Call {
                id,
                command: Command::SetMinimized {
                    minimized: resolve_toggle(minimized, window.minimized),
                },
            },
            Request::LoadHtml { id, html, origin } => {
                slots.html = html;
                match origin {
                    Some(o) => {
                        slots.origin = o;
                    },
                    None => {},
                }
                let url = html_url_for(slots.origin.as_str(), &id);
                Step::Call { id, command: Command::LoadUrl { url, headers: None } }
            },
            Request::LoadUrl { id, url, headers } => Step::Call {
                id,
                command: Command::LoadUrl { url, headers: merge_if_any(headers) },
            },
        }
    }
}

/// The answer to the outcome of an operation.
pub fn complete(id: Id, outcome: Outcome) -> (response: Response)
    ensures
        response@ == completed(id@, outcome@),
{
    match outcome {
        Outcome::Done => Response::Ack { id },
        Outcome::Value(result) => Response::Result { id, result },
        Outcome::Failed(message) => Response::Error { id, message },
    }
}

} // verus!
