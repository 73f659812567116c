//! The names that the protocol writes on the wire: member names and the tags of the variants.

use crate::wire::same_text;
use vstd::prelude::*;

verus! {

/// The member names of the protocol's objects.
#[derive(Clone, Copy, Debug, PartialEq, Eq, Structural)]
pub enum Key {
    Type,
    Data,
    Id,
    Js,
    Title,
    Visible,
    IncludeDecorations,
    Size,
    Width,
    Height,
    ScaleFactor,
    Fullscreen,
    Maximized,
    Minimized,
    Html,
    Origin,
    Url,
    Headers,
    Result,
    Value,
    Message,
    Version,
}

impl Key {
    /// The name as it is written.
    pub open spec fn text(self) -> Seq<char> {
        match self {
            Key::Type => "$type"@,
            Key::Data => "data"@,
            Key::Id => "id"@,
            Key::Js => "js"@,
            Key::Title => "title"@,
            Key::Visible => "visible"@,
            Key::IncludeDecorations => "includeDecorations"@,
            Key::Size => "size"@,
            Key::Width => "width"@,
            Key::Height => "height"@,
            Key::ScaleFactor => "scaleFactor"@,
            Key::Fullscreen => "fullscreen"@,
            Key::Maximized => "maximized"@,
            Key::Minimized => "minimized"@,
            Key::Html => "html"@,
            Key::Origin => "origin"@,
            Key::Url => "url"@,
            Key::Headers => "headers"@,
            Key::Result => "result"@,
            Key::Value => "value"@,
            Key::Message => "message"@,
            Key::Version => "version"@,
        }
    }

    /// The name as it is written.
    pub fn as_str(self) -> (r: &'static str)
        ensures
            r@ == self.text(),
    {
        match self {
            Key::Type => "$type",
            Key::Data => "data",
            Key::Id => "id",
            Key::Js => "js",
            Key::Title => "title",
            Key::Visible => "visible",
            Key::IncludeDecorations => "includeDecorations",
            Key::Size => "size",
            Key::Width => "width",
            Key::Height => "height",
            Key::ScaleFactor => "scaleFactor",
            Key::Fullscreen => "fullscreen",
            Key::Maximized => "maximized",
            Key::Minimized => "minimized",
            Key::Html => "html",
            Key::Origin => "origin",
            Key::Url => "url",
            Key::Headers => "headers",
            Key::Result => "result",
            Key::Value => "value",
            Key::Message => "message",
            Key::Version => "version",
        }
    }
}

/// Two different keys are written differently.
pub proof fn lemma_keys_differ(a: Key, b: Key)
    requires
        a != b,
    ensures
        a.text() != b.text(),
{
    reveal_strlit("$type");
    reveal_strlit("data");
    reveal_strlit("id");
    reveal_strlit("js");
    reveal_strlit("title");
    reveal_strlit("visible");
    reveal_strlit("includeDecorations");
    reveal_strlit("size");
    reveal_strlit("width");
    reveal_strlit("height");
    reveal_strlit("scaleFactor");
    reveal_strlit("fullscreen");
    reveal_strlit("maximized");
    reveal_strlit("minimized");
    reveal_strlit("html");
    reveal_strlit("origin");
    reveal_strlit("url");
    reveal_strlit("headers");
    reveal_strlit("result");
    reveal_strlit("value");
    reveal_strlit("message");
    reveal_strlit("version");
    let s = a.text();
    let t = b.text();
    if s.len() == t.len() {
        assert(s[0] != t[0] || s[1] != t[1] || s[2] != t[2]);
    }
}

/// The operations that a client can ask for.
#[derive(Clone, Copy, Debug, PartialEq, Eq, Structural)]
pub enum Operation {
    GetVersion,
    Eval,
    SetTitle,
    GetTitle,
    SetVisibility,
    IsVisible,
    OpenDevTools,
    GetSize,
    SetSize,
    Fullscreen,
    Maximize,
    Minimize,
    LoadHtml,
    LoadUrl,
}

impl Operation {
    /// The tag of the operation as it is written.
    pub open spec fn tag(self) -> Seq<char> {
        match self {
            Operation::GetVersion => "getVersion"@,
            Operation::Eval => "eval"@,
            Operation::SetTitle => "setTitle"@,
            Operation::GetTitle => "getTitle"@,
            Operation::SetVisibility => "setVisibility"@,
            Operation::IsVisible => "isVisible"@,
            Operation::OpenDevTools => "openDevTools"@,
            Operation::GetSize => "getSize"@,
            Operation::SetSize => "setSize"@,
            Operation::Fullscreen => "fullscreen"@,
            Operation::Maximize => "maximize"@,
            Operation::Minimize => "minimize"@,
            Operation::LoadHtml => "loadHtml"@,
            Operation::LoadUrl => "loadUrl"@,
        }
    }

    /// The tag of the operation as it is written.
    pub fn as_str(self) -> (r: &'static str)
        ensures
            r@ == self.tag(),
    {
        match self {
            Operation::GetVersion => "getVersion",
            Operation::Eval => "eval",
            Operation::SetTitle => "setTitle",
            Operation::GetTitle => "getTitle",
            Operation::SetVisibility => "setVisibility",
            Operation::IsVisible => "isVisible",
            Operation::OpenDevTools => "openDevTools",
            Operation::GetSize => "getSize",
            Operation::SetSize => "setSize",
            Operation::Fullscreen => "fullscreen",
            Operation::Maximize => "maximize",
            Operation::Minimize => "minimize",
            Operation::LoadHtml => "loadHtml",
            Operation::LoadUrl => "loadUrl",
        }
    }

    /// The operation with the tag `text`, if there is one.
    pub fn parse(text: &str) -> (r: Option<Operation>)
        ensures
            r == operation_of(text@),
    {
        if same_text(text, "getVersion") {
            Some(Operation::GetVersion)
        } else if same_text(text, "eval") {
            Some(Operation::Eval)
        } else if same_text(text, "setTitle") {
            Some(Operation::SetTitle)
        } else if same_text(text, "getTitle") {
            Some(Operation::GetTitle)
        } else if same_text(text, "setVisibility") {
            Some(Operation::SetVisibility)
        } else if same_text(text, "isVisible") {
            Some(Operation::IsVisible)
        } else if same_text(text, "openDevTools") {
            Some(Operation::OpenDevTools)
        } else if same_text(text, "getSize") {
            Some(Operation::GetSize)
        } else if same_text(text, "setSize") {
            Some(Operation::SetSize)
        } else if same_text(text, "fullscreen") {
            Some(Operation::Fullscreen)
        } else if same_text(text, "maximize") {
            Some(Operation::Maximize)
        } else if same_text(text, "minimize") {
            Some(Operation::Minimize)
        } else if same_text(text, "loadHtml") {
            Some(Operation::LoadHtml)
        } else if same_text(text, "loadUrl") {
            Some(Operation::LoadUrl)
        } else {
            None
        }
    }
}

/// The operation with the tag `text`: the one operation that is written so, if there is one.
pub open spec fn operation_of(text: Seq<char>) -> Option<Operation> {
    if text == Operation::GetVersion.tag() {
        Some(Operation::GetVersion)
    } else if text == Operation::Eval.tag() {
        Some(Operation::Eval)
    } else if text == Operation::SetTitle.tag() {
        Some(Operation::SetTitle)
    } else if text == Operation::GetTitle.tag() {
        Some(Operation::GetTitle)
    } else if text == Operation::SetVisibility.tag() {
        Some(Operation::SetVisibility)
    } else if text == Operation::IsVisible.tag() {
        Some(Operation::IsVisible)
    } else if text == Operation::OpenDevTools.tag() {
        Some(Operation::OpenDevTools)
    } else if text == Operation::GetSize.tag() {
        Some(Operation::GetSize)
    } else if text == Operation::SetSize.tag() {
        Some(Operation::SetSize)
    } else if text == Operation::Fullscreen.tag() {
        Some(Operation::Fullscreen)
    } else if text == Operation::Maximize.tag() {
        Some(Operation::Maximize)
    } else if text == Operation::Minimize.tag() {
        Some(Operation::Minimize)
    } else if text == Operation::LoadHtml.tag() {
        Some(Operation::LoadHtml)
    } else if text == Operation::LoadUrl.tag() {
        Some(Operation::LoadUrl)
    } else {
        None
    }
}

/// Two different operations have different tags.
pub proof fn lemma_tags_differ(a: Operation, b: Operation)
    requires
        a != b,
    ensures
        a.tag() != b.tag(),
{
    reveal_strlit("getVersion");
    reveal_strlit("eval");
    reveal_strlit("setTitle");
    reveal_strlit("getTitle");
    reveal_strlit("setVisibility");
    reveal_strlit("isVisible");
    reveal_strlit("openDevTools");
    reveal_strlit("getSize");
    reveal_strlit("setSize");
    reveal_strlit("fullscreen");
    reveal_strlit("maximize");
    reveal_strlit("minimize");
    reveal_strlit("loadHtml");
    reveal_strlit("loadUrl");
    let s = a.tag();
    let t = b.tag();
    if s.len() == t.len() {
        assert(s[0] != t[0] || s[1] != t[1]);
    }
}

/// Every operation is the one that its tag names.
pub proof fn lemma_tag_names_operation(operation: Operation)
    ensures
        operation_of(operation.tag()) == Some(operation),
{
    assert forall|other: Operation| other != operation implies other.tag() != operation.tag() by {
        lemma_tags_differ(other, operation);
    }
}

} // verus!
