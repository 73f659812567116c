//! The events of a JSON text, one per structural character, member name or scalar value.

use vstd::prelude::*;

verus! {

/// One event of a JSON text, holding the value it carries.
#[derive(Clone, Debug, PartialEq, Eq)]
pub enum Token {
    StartObject,
    EndObject,
    StartArray,
    EndArray,
    /// The name of an object member, unescaped.
    FieldName(String),
    /// A string value, unescaped.
    Text(String),
    /// A number written without fraction or exponent.
    Integer(i64),
    /// Any other number, by its decimal text.
    Float(String),
    True,
    False,
    Null,
}

/// What a [`Token`] stands for in contracts.
pub enum TokenView {
    StartObject,
    EndObject,
    StartArray,
    EndArray,
    FieldName(Seq<char>),
    Text(Seq<char>),
    Integer(int),
    Float(Seq<char>),
    True,
    False,
    Null,
}

impl View for Token {
    type V = TokenView;

    open spec fn view(&self) -> TokenView {
        match self {
            Token::StartObject => TokenView::StartObject,
            Token::EndObject => TokenView::EndObject,
            Token::StartArray => TokenView::StartArray,
            Token::EndArray => TokenView::EndArray,
            Token::FieldName(name) => TokenView::FieldName(name@),
            Token::Text(value) => TokenView::Text(value@),
            Token::Integer(value) => TokenView::Integer(*value as int),
            Token::Float(text) => TokenView::Float(text@),
            Token::True => TokenView::True,
            Token::False => TokenView::False,
            Token::Null => TokenView::Null,
        }
    }
}

/// The views of a sequence of tokens, in order.
pub open spec fn views(tokens: Seq<Token>) -> Seq<TokenView> {
    tokens.map_values(|t: Token| t@)
}

impl TokenView {
    /// True of the two tokens that open a container.
    pub open spec fn opens(self) -> bool {
        self is StartObject || self is StartArray
    }

    /// True of the two tokens that close a container.
    pub open spec fn closes(self) -> bool {
        self is EndObject || self is EndArray
    }

    /// True of the tokens that carry a scalar value.
    pub open spec fn is_scalar(self) -> bool {
        self is Text || self is Integer || self is Float || self is True || self is False
            || self is Null
    }
}

} // verus!
