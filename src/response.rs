use vstd::prelude::*;

verus! {

/// The kind of answer the conversational service gave.
#[derive(Clone, Copy, Debug, PartialEq, Eq, Structural)]
pub enum ResponseType {
    ActionDone,
    QueryAnswer,
    Error,
}

#[derive(Debug)]
pub struct PlainSpeech {
    pub speech: String,
}

#[derive(Debug)]
pub struct Speech {
    pub plain: PlainSpeech,
}

/// One answer of the service: its kind and the text to show.
#[derive(Debug)]
pub struct Response {
    pub response_type: ResponseType,
    pub speech: Speech,
}

/// The envelope the service wraps an answer in.
#[derive(Debug)]
pub struct ConversationResponse {
    pub response: Response,
}

/// What a cached answer amounts to: its kind and its displayable text.
pub struct ResponseView {
    pub kind: ResponseType,
    pub text: Seq<char>,
}

impl View for Response {
    type V = ResponseView;

    open spec fn view(&self) -> ResponseView {
        ResponseView { kind: self.response_type, text: self.speech.plain.speech@ }
    }
}

pub open spec fn opt_view(r: Option<Response>) -> Option<ResponseView> {
    match r {
        Some(x) => Some(x@),
        None => None,
    }
}

/// Icon name shown next to a candidate that carries an answer of kind `k`.
pub open spec fn icon_name(k: ResponseType) -> Seq<char> {
    match k {
        ResponseType::Error => "emblem-error"@,
        _ => "emblem-success"@,
    }
}

/// An answer worth remembering in the history store.
pub open spec fn is_success(k: ResponseType) -> bool {
    k != ResponseType::Error
}

impl ResponseType {
    pub fn is_success(&self) -> (r: bool)
        ensures
            r == is_success(*self),
    {
        match self {
            ResponseType::Error => false,
            _ => true,
        }
    }

    pub fn icon(&self) -> (r: String)
        ensures
            r@ == icon_name(*self),
    {
        match self {
            ResponseType::Error => String::from_str("emblem-error"),
            _ => String::from_str("emblem-success"),
        }
    }
}

impl Response {
    pub fn new(response_type: ResponseType, speech: String) -> (r: Response)
        ensures
            r@ == (ResponseView { kind: response_type, text: speech@ }),
    {
        Response { response_type, speech: Speech { plain: PlainSpeech { speech } } }
    }
}

} // verus!
