//! The messages of the protocol: requests from the client, responses and notifications to it,
//! and the options a window is created with.

use crate::number::{is_number, Number};
use vstd::prelude::*;
use vstd::std_specs::convert::FromSpecImpl;

verus! {

/// The correlation id of a request, chosen by the client: an integer or a string.
#[derive(Clone, Debug, PartialEq, Eq)]
pub enum Id {
    Integer(i64),
    Text(String),
}

/// What an [`Id`] stands for in contracts.
pub enum IdView {
    Integer(int),
    Text(Seq<char>),
}

impl View for Id {
    type V = IdView;

    open spec fn view(&self) -> IdView {
        match self {
            Id::Integer(value) => IdView::Integer(*value as int),
            Id::Text(value) => IdView::Text(value@),
        }
    }
}

/// The size of a window in logical pixels.
#[derive(Clone, Debug, PartialEq, Eq)]
pub struct Size {
    /// The width of the window in logical pixels.
    pub width: Number,
    /// The height of the window in logical pixels.
    pub height: Number,
}

/// What a [`Size`] stands for in contracts.
pub struct SizeView {
    pub width: Seq<char>,
    pub height: Seq<char>,
}

impl View for Size {
    type V = SizeView;

    open spec fn view(&self) -> SizeView {
        SizeView { width: self.width@, height: self.height@ }
    }
}

impl SizeView {
    /// Both numbers are number literals.
    pub open spec fn wf(self) -> bool {
        is_number(self.width) && is_number(self.height)
    }
}

/// The size of a window with the scale factor of its display.
#[derive(Clone, Debug, PartialEq, Eq)]
pub struct SizeWithScale {
    /// The width of the window in logical pixels.
    pub width: Number,
    /// The height of the window in logical pixels.
    pub height: Number,
    /// The ratio between physical and logical sizes.
    pub scale_factor: Number,
}

/// What a [`SizeWithScale`] stands for in contracts.
pub struct SizeWithScaleView {
    pub width: Seq<char>,
    pub height: Seq<char>,
    pub scale_factor: Seq<char>,
}

impl View for SizeWithScale {
    type V = SizeWithScaleView;

    open spec fn view(&self) -> SizeWithScaleView {
        SizeWithScaleView {
            width: self.width@,
            height: self.height@,
            scale_factor: self.scale_factor@,
        }
    }
}

impl SizeWithScaleView {
    /// All three numbers are number literals.
    pub open spec fn wf(self) -> bool {
        is_number(self.width) && is_number(self.height) && is_number(self.scale_factor)
    }
}

/// The states a window can be created in instead of with a size.
#[derive(Clone, Copy, Debug, PartialEq, Eq, Structural)]
pub enum WindowSizeStates {
    Maximized,
    Fullscreen,
}

/// How large a window is created.
#[derive(Clone, Debug, PartialEq, Eq)]
pub enum WindowSize {
    States(WindowSizeStates),
    Size(Size),
}

/// What a [`WindowSize`] stands for in contracts.
pub enum WindowSizeView {
    States(WindowSizeStates),
    Size(SizeView),
}

impl View for WindowSize {
    type V = WindowSizeView;

    open spec fn view(&self) -> WindowSizeView {
        match self {
            WindowSize::States(state) => WindowSizeView::States(*state),
            WindowSize::Size(size) => WindowSizeView::Size(size@),
        }
    }
}

/// One header of an HTTP request.
#[derive(Clone, Debug, PartialEq, Eq)]
pub struct Header {
    pub name: String,
    pub value: String,
}

/// What a [`Header`] stands for in contracts.
pub struct HeaderView {
    pub name: Seq<char>,
    pub value: Seq<char>,
}

impl View for Header {
    type V = HeaderView;

    open spec fn view(&self) -> HeaderView {
        HeaderView { name: self.name@, value: self.value@ }
    }
}

/// The views of a list of headers, in order.
pub open spec fn header_views(headers: Seq<Header>) -> Seq<HeaderView> {
    headers.map_values(|h: Header| h@)
}

/// The views of an optional list of headers.
pub open spec fn optional_header_views(headers: Option<Vec<Header>>) -> Option<Seq<HeaderView>> {
    match headers {
        Some(list) => Some(header_views(list@)),
        None => None,
    }
}

/// The view of an optional string.
pub open spec fn optional_text(text: Option<String>) -> Option<Seq<char>> {
    match text {
        Some(value) => Some(value@),
        None => None,
    }
}

/// The content to load into the webview.
#[derive(Clone, Debug, PartialEq, Eq)]
pub enum Content {
    Url {
        /// Url to load in the webview.
        url: String,
        /// Optional headers to send with the request.
        headers: Option<Vec<Header>>,
    },
    Html {
        /// Html to load in the webview.
        html: String,
        /// What to set as the origin of the webview when loading html.
        origin: String,
    },
}

/// What a [`Content`] stands for in contracts.
pub enum ContentView {
    Url { url: Seq<char>, headers: Option<Seq<HeaderView>> },
    Html { html: Seq<char>, origin: Seq<char> },
}

impl View for Content {
    type V = ContentView;

    open spec fn view(&self) -> ContentView {
        match self {
            Content::Url { url, headers } => ContentView::Url {
                url: url@,
                headers: optional_header_views(*headers),
            },
            Content::Html { html, origin } => ContentView::Html { html: html@, origin: origin@ },
        }
    }
}

/// Options for creating a webview.
#[derive(Clone, Debug, PartialEq, Eq)]
pub struct Options {
    /// Sets the title of the window.
    pub title: String,
    /// The content to load into the webview.
    pub load: Option<Content>,
    /// The size of the window.
    pub size: Option<WindowSize>,
    /// When true, the window will have a border, a title bar, etc. Default is true.
    pub decorations: bool,
    /// Sets whether the window should be transparent.
    pub transparent: bool,
    /// When true, all media can be played without user interaction. Default is false.
    pub autoplay: bool,
    /// Enable or disable webview devtools.
    pub devtools: bool,
    /// Run the WebView with incognito mode.
    pub incognito: bool,
    /// Enables clipboard access for the page rendered on Linux and Windows.
    pub clipboard: bool,
    /// Sets whether the webview should be focused when created. Default is false.
    pub focused: bool,
    /// Sets whether clicking an inactive window also clicks through to the webview.
    pub accept_first_mouse: bool,
    /// Sets whether host should be able to receive messages from the webview.
    pub ipc: bool,
    /// Run JavaScript code when loading new pages.
    pub initialization_script: Option<String>,
    /// Sets the user agent to use when loading pages.
    pub user_agent: Option<String>,
}

/// The default of the options that are switched on unless the client says otherwise.
pub fn default_true() -> (r: bool)
    ensures
        r,
{
    true
}

/// The text of the default origin, `init`.
pub open spec fn default_origin_text() -> Seq<char> {
    seq!['i', 'n', 'i', 't']
}

/// The default origin to use when loading html.
pub fn default_origin() -> (r: String)
    ensures
        r@ == default_origin_text(),
{
    proof {
        reveal_strlit("init");
    }
    let origin = "init".to_owned();
    assert(origin@ == default_origin_text());
    origin
}

/// Explicit requests from the client to the webview.
#[derive(Clone, Debug, PartialEq, Eq)]
pub enum Request {
    GetVersion {
        /// The id of the request.
        id: Id,
    },
    Eval {
        /// The id of the request.
        id: Id,
        /// The javascript to evaluate.
        js: String,
    },
    SetTitle {
        /// The id of the request.
        id: Id,
        /// The title to set.
        title: String,
    },
    GetTitle {
        /// The id of the request.
        id: Id,
    },
    SetVisibility {
        /// The id of the request.
        id: Id,
        /// Whether the window should be visible or hidden.
        visible: bool,
    },
    IsVisible {
        /// The id of the request.
        id: Id,
    },
    OpenDevTools {
        /// The id of the request.
        id: Id,
    },
    GetSize {
        /// The id of the request.
        id: Id,
        /// Whether to include the title bar and borders in the size measurement.
        include_decorations: Option<bool>,
    },
    SetSize {
        /// The id of the request.
        id: Id,
        /// The size to set.
        size: Size,
    },
    Fullscreen {
        /// The id of the request.
        id: Id,
        /// Whether to enter fullscreen mode; left out, the mode is toggled.
        fullscreen: Option<bool>,
    },
    Maximize {
        /// The id of the request.
        id: Id,
        /// Whether to maximize the window; left out, the state is toggled.
        maximized: Option<bool>,
    },
    Minimize {
        /// The id of the request.
        id: Id,
        /// Whether to minimize the window; left out, the state is toggled.
        minimized: Option<bool>,
    },
    LoadHtml {
        /// The id of the request.
        id: Id,
        /// HTML to set as the content of the webview.
        html: String,
        /// What to set as the origin of the webview when loading html; left out, the origin
        /// last set is used.
        origin: Option<String>,
    },
    LoadUrl {
        /// The id of the request.
        id: Id,
        /// URL to load in the webview.
        url: String,
        /// Optional headers to send with the request.
        headers: Option<Vec<Header>>,
    },
}

/// What a [`Request`] stands for in contracts.
pub enum RequestView {
    GetVersion { id: IdView },
    Eval { id: IdView, js: Seq<char> },
    SetTitle { id: IdView, title: Seq<char> },
    GetTitle { id: IdView },
    SetVisibility { id: IdView, visible: bool },
    IsVisible { id: IdView },
    OpenDevTools { id: IdView },
    GetSize { id: IdView, include_decorations: Option<bool> },
    SetSize { id: IdView, size: SizeView },
    Fullscreen { id: IdView, fullscreen: Option<bool> },
    Maximize { id: IdView, maximized: Option<bool> },
    Minimize { id: IdView, minimized: Option<bool> },
    LoadHtml { id: IdView, html: Seq<char>, origin: Option<Seq<char>> },
    LoadUrl { id: IdView, url: Seq<char>, headers: Option<Seq<HeaderView>> },
}

impl View for Request {
    type V = RequestView;

    open spec fn view(&self) -> RequestView {
        match self {
            Request::GetVersion { id } => RequestView::GetVersion { id: id@ },
            Request::Eval { id, js } => RequestView::Eval { id: id@, js: js@ },
            Request::SetTitle { id, title } => RequestView::SetTitle { id: id@, title: title@ },
            Request::GetTitle { id } => RequestView::GetTitle { id: id@ },
            Request::SetVisibility { id, visible } => RequestView::SetVisibility {
                id: id@,
                visible: *visible,
            },
            Request::IsVisible { id } => RequestView::IsVisible { id: id@ },
            Request::OpenDevTools { id } => RequestView::OpenDevTools { id: id@ },
            Request::GetSize { id, include_decorations } => RequestView::GetSize {
                id: id@,
                include_decorations: *include_decorations,
            },
            Request::SetSize { id, size } => RequestView::SetSize { id: id@, size: size@ },
            Request::Fullscreen { id, fullscreen } => RequestView::Fullscreen {
                id: id@,
                fullscreen: *fullscreen,
            },
            Request::Maximize { id, maximized } => RequestView::Maximize {
                id: id@,
                maximized: *maximized,
            },
            Request::Minimize { id, minimized } => RequestView::Minimize {
                id: id@,
                minimized: *minimized,
            },
            Request::LoadHtml { id, html, origin } => RequestView::LoadHtml {
                id: id@,
                html: html@,
                origin: optional_text(*origin),
            },
            Request::LoadUrl { id, url, headers } => RequestView::LoadUrl {
                id: id@,
                url: url@,
                headers: optional_header_views(*headers),
            },
        }
    }
}

impl RequestView {
    /// The correlation id of the request.
    pub open spec fn id(self) -> IdView {
        match self {
            RequestView::GetVersion { id } => id,
            RequestView::Eval { id, .. } => id,
            RequestView::SetTitle { id, .. } => id,
            RequestView::GetTitle { id } => id,
            RequestView::SetVisibility { id, .. } => id,
            RequestView::IsVisible { id } => id,
            RequestView::OpenDevTools { id } => id,
            RequestView::GetSize { id, .. } => id,
            RequestView::SetSize { id, .. } => id,
            RequestView::Fullscreen { id, .. } => id,
            RequestView::Maximize { id, .. } => id,
            RequestView::Minimize { id, .. } => id,
            RequestView::LoadHtml { id, .. } => id,
            RequestView::LoadUrl { id, .. } => id,
        }
    }

    /// Every number that the request holds is a number literal.
    pub open spec fn wf(self) -> bool {
        self matches RequestView::SetSize { size, .. } ==> size.wf()
    }
}

impl Request {
    /// The correlation id of the request.
    pub fn id(&self) -> (r: &Id)
        ensures
            r@ == self@.id(),
    {
        match self {
            Request::GetVersion { id } => id,
            Request::Eval { id, .. } => id,
            Request::SetTitle { id, .. } => id,
            Request::GetTitle { id } => id,
            Request::SetVisibility { id, .. } => id,
            Request::IsVisible { id } => id,
            Request::OpenDevTools { id } => id,
            Request::GetSize { id, .. } => id,
            Request::SetSize { id, .. } => id,
            Request::Fullscreen { id, .. } => id,
            Request::Maximize { id, .. } => id,
            Request::Minimize { id, .. } => id,
            Request::LoadHtml { id, .. } => id,
            Request::LoadUrl { id, .. } => id,
        }
    }
}

/// Types that can be returned from webview results.
#[derive(Clone, Debug, PartialEq, Eq)]
pub enum ResultType {
    String(String),
    Boolean(bool),
    Float(Number),
    Size(SizeWithScale),
}

/// What a [`ResultType`] stands for in contracts.
pub enum ResultTypeView {
    String(Seq<char>),
    Boolean(bool),
    Float(Seq<char>),
    Size(SizeWithScaleView),
}

impl View for ResultType {
    type V = ResultTypeView;

    open spec fn view(&self) -> ResultTypeView {
        match self {
            ResultType::String(value) => ResultTypeView::String(value@),
            ResultType::Boolean(value) => ResultTypeView::Boolean(*value),
            ResultType::Float(value) => ResultTypeView::Float(value@),
            ResultType::Size(size) => ResultTypeView::Size(size@),
        }
    }
}

impl ResultTypeView {
    /// Every number that the result holds is a number literal.
    pub open spec fn wf(self) -> bool {
        match self {
            ResultTypeView::Float(value) => is_number(value),
            ResultTypeView::Size(size) => size.wf(),
            _ => true,
        }
    }
}

impl From<String> for ResultType {
    fn from(value: String) -> (r: ResultType) {
        ResultType::String(value)
    }
}

impl FromSpecImpl<String> for ResultType {
    open spec fn obeys_from_spec() -> bool {
        true
    }

    open spec fn from_spec(value: String) -> ResultType {
        ResultType::String(value)
    }
}

impl From<bool> for ResultType {
    fn from(value: bool) -> (r: ResultType) {
        ResultType::Boolean(value)
    }
}

impl FromSpecImpl<bool> for ResultType {
    open spec fn obeys_from_spec() -> bool {
        true
    }

    open spec fn from_spec(value: bool) -> ResultType {
        ResultType::Boolean(value)
    }
}

/// Responses from the webview to the client.
#[derive(Clone, Debug, PartialEq, Eq)]
pub enum Response {
    Ack { id: Id },
    Result { id: Id, result: ResultType },
    /// The request failed; on the wire this is the response `err`.
    Error { id: Id, message: String },
}

/// What a [`Response`] stands for in contracts.
pub enum ResponseView {
    Ack { id: IdView },
    Result { id: IdView, result: ResultTypeView },
    Error { id: IdView, message: Seq<char> },
}

impl View for Response {
    type V = ResponseView;

    open spec fn view(&self) -> ResponseView {
        match self {
            Response::Ack { id } => ResponseView::Ack { id: id@ },
            Response::Result { id, result } => ResponseView::Result { id: id@, result: result@ },
            Response::Error { id, message } => ResponseView::Error {
                id: id@,
                message: message@,
            },
        }
    }
}

impl ResponseView {
    /// The id of the request that the response answers.
    pub open spec fn id(self) -> IdView {
        match self {
            ResponseView::Ack { id } => id,
            ResponseView::Result { id, .. } => id,
            ResponseView::Error { id, .. } => id,
        }
    }

    /// Every number that the response holds is a number literal.
    pub open spec fn wf(self) -> bool {
        self matches ResponseView::Result { result, .. } ==> result.wf()
    }
}

impl Response {
    /// The id of the request that the response answers.
    pub fn id(&self) -> (r: &Id)
        ensures
            r@ == self@.id(),
    {
        match self {
            Response::Ack { id } => id,
            Response::Result { id, .. } => id,
            Response::Error { id, .. } => id,
        }
    }
}

/// Messages that are sent unbidden from the webview to the client.
#[derive(Clone, Debug, PartialEq, Eq)]
pub enum Notification {
    Started {
        /// The version of the webview binary.
        version: String,
    },
    Ipc {
        /// The message sent from the webview UI to the client.
        message: String,
    },
    Closed,
}

/// What a [`Notification`] stands for in contracts.
pub enum NotificationView {
    Started { version: Seq<char> },
    Ipc { message: Seq<char> },
    Closed,
}

impl View for Notification {
    type V = NotificationView;

    open spec fn view(&self) -> NotificationView {
        match self {
            Notification::Started { version } => NotificationView::Started { version: version@ },
            Notification::Ipc { message } => NotificationView::Ipc { message: message@ },
            Notification::Closed => NotificationView::Closed,
        }
    }
}

/// Complete definition of all outbound messages from the webview to the client.
#[derive(Clone, Debug, PartialEq, Eq)]
pub enum Message {
    Notification(Notification),
    Response(Response),
}

/// What a [`Message`] stands for in contracts.
pub enum MessageView {
    Notification(NotificationView),
    Response(ResponseView),
}

impl View for Message {
    type V = MessageView;

    open spec fn view(&self) -> MessageView {
        match self {
            Message::Notification(notification) => MessageView::Notification(notification@),
            Message::Response(response) => MessageView::Response(response@),
        }
    }
}

impl MessageView {
    /// Every number that the message holds is a number literal.
    pub open spec fn wf(self) -> bool {
        self matches MessageView::Response(response) ==> response.wf()
    }
}

} // verus!
