//! What a language server does with each message: the texts it keeps, and what it answers.

use vstd::prelude::*;

use crate::editor::{byte_of, offset_of, request_in, request_of, word, word_of, Request};
use crate::map::{
    lemma_put_is_found, lemma_put_keeps_order, lemma_removed_is_gone, put, sorted, value_of,
    without, TextMap,
};
use crate::text::own;

verus! {

/// A message from an editor. What a message of its kind does not carry is not there.
#[derive(Debug, Clone, PartialEq, Eq)]
pub struct Message {
    pub method: String,
    /// Whether an answer is waited for.
    pub has_id: bool,
    /// The document it is about.
    pub uri: Option<String>,
    /// The text of a document that is opened.
    pub opened: Option<String>,
    /// The text of a document that was changed.
    pub changed: Option<String>,
    /// The text of a document that was saved.
    pub saved: Option<String>,
    /// The place in the document that is asked about.
    pub line: u64,
    pub column: u64,
}

/// What a message says.
pub struct MessageModel {
    pub method: Seq<char>,
    pub has_id: bool,
    pub uri: Option<Seq<char>>,
    pub opened: Option<Seq<char>>,
    pub changed: Option<Seq<char>>,
    pub saved: Option<Seq<char>>,
    pub line: nat,
    pub column: nat,
}

pub open spec fn text_of(text: Option<String>) -> Option<Seq<char>> {
    match text {
        Some(text) => Some(text@),
        None => None,
    }
}

impl Message {
    pub open spec fn view(&self) -> MessageModel {
        MessageModel {
            method: self.method@,
            has_id: self.has_id,
            uri: text_of(self.uri),
            opened: text_of(self.opened),
            changed: text_of(self.changed),
            saved: text_of(self.saved),
            line: self.line as nat,
            column: self.column as nat,
        }
    }
}

/// A place in a document, and the word around it.
#[derive(Debug, Clone, PartialEq, Eq)]
pub struct Spot {
    pub uri: String,
    pub text: String,
    pub at: usize,
    pub start: usize,
    pub end: usize,
}

/// What a place in a document is.
pub struct SpotModel {
    pub uri: Seq<char>,
    pub text: Seq<char>,
    pub at: nat,
    pub start: nat,
    pub end: nat,
}

impl Spot {
    pub open spec fn view(&self) -> SpotModel {
        SpotModel {
            uri: self.uri@,
            text: self.text@,
            at: self.at as nat,
            start: self.start as nat,
            end: self.end as nat,
        }
    }
}

/// What is to be done about a message.
#[derive(Debug, Clone, PartialEq, Eq)]
pub enum Action {
    /// Say what the server can do.
    Greet,
    /// Compile the text and publish what is wrong with it.
    Publish { uri: String, text: String },
    /// Offer names at a place. Where there is none, offer nothing.
    Complete(Option<Spot>),
    /// Explain the word at a place. Where there is none, there is nothing to explain.
    Hover(Option<Spot>),
    /// Agree to stop.
    Agree,
    Stop,
    /// Say that this is not understood.
    Refuse,
    Nothing,
}

/// What an action is.
pub enum ActionModel {
    Greet,
    Publish(Seq<char>, Seq<char>),
    Complete(Option<SpotModel>),
    Hover(Option<SpotModel>),
    Agree,
    Stop,
    Refuse,
    Nothing,
}

pub open spec fn spot_view(spot: Option<Spot>) -> Option<SpotModel> {
    match spot {
        Some(spot) => Some(spot@),
        None => None,
    }
}

impl Action {
    pub open spec fn view(&self) -> ActionModel {
        match self {
            Action::Greet => ActionModel::Greet,
            Action::Publish { uri, text } => ActionModel::Publish(uri@, text@),
            Action::Complete(spot) => ActionModel::Complete(spot_view(*spot)),
            Action::Hover(spot) => ActionModel::Hover(spot_view(*spot)),
            Action::Agree => ActionModel::Agree,
            Action::Stop => ActionModel::Stop,
            Action::Refuse => ActionModel::Refuse,
            Action::Nothing => ActionModel::Nothing,
        }
    }
}

/// The text of every open document, by its uri.
pub type Documents = Seq<(Seq<char>, Seq<char>)>;

/// The text that a message gives a document, and the document.
pub open spec fn given(m: MessageModel) -> Option<(Seq<char>, Seq<char>)> {
    let text = match request_in(m.method, m.has_id) {
        Request::Open => m.opened,
        Request::Change => m.changed,
        Request::Save => m.saved,
        _ => None,
    };
    match (m.uri, text) {
        (Some(uri), Some(text)) => Some((uri, text)),
        _ => None,
    }
}

/// The place a message asks about: in a document that is open.
pub open spec fn asked(documents: Documents, m: MessageModel) -> Option<SpotModel> {
    match m.uri {
        Some(uri) => match value_of(documents, uri) {
            Some(text) => {
                let at = byte_of(text, m.line, m.column);
                let (start, end) = word_of(text, at);
                Some(SpotModel { uri, text, at, start, end })
            },
            None => None,
        },
        None => None,
    }
}

/// The documents after a message, and what is to be done about it.
pub open spec fn stepped(documents: Documents, m: MessageModel) -> (Documents, ActionModel) {
    match request_in(m.method, m.has_id) {
        Request::Initialize => (documents, ActionModel::Greet),
        Request::Close => match m.uri {
            Some(uri) => (without(documents, uri), ActionModel::Nothing),
            None => (documents, ActionModel::Nothing),
        },
        Request::Complete => (documents, ActionModel::Complete(asked(documents, m))),
        Request::Hover => (
            documents,
            ActionModel::Hover(
                match asked(documents, m) {
                    Some(spot) => if spot.start < spot.end {
                        Some(spot)
                    } else {
                        None
                    },
                    None => None,
                },
            ),
        ),
        Request::Shutdown => (documents, ActionModel::Agree),
        Request::Exit => (documents, ActionModel::Stop),
        Request::Unknown => (documents, ActionModel::Refuse),
        Request::Ignored => (documents, ActionModel::Nothing),
        _ => match given(m) {
            Some((uri, text)) => (put(documents, uri, text), ActionModel::Publish(uri, text)),
            None => (documents, ActionModel::Nothing),
        },
    }
}

/// Whether a message closes a document.
pub open spec fn closes(m: MessageModel, uri: Seq<char>) -> bool {
    request_in(m.method, m.has_id) == Request::Close && m.uri == Some(uri)
}

/// A document has the text that it was given last, until it is closed. No message about
/// another document changes that.
pub proof fn lemma_a_document_has_its_last_text(
    documents: Documents,
    m: MessageModel,
    uri: Seq<char>,
)
    requires
        sorted(documents),
    ensures
        sorted(stepped(documents, m).0),
        value_of(stepped(documents, m).0, uri) == if closes(m, uri) {
            None
        } else {
            match given(m) {
                Some((about, text)) => if about == uri {
                    Some(text)
                } else {
                    value_of(documents, uri)
                },
                None => value_of(documents, uri),
            }
        },
{
    match given(m) {
        Some((about, text)) => {
            lemma_put_keeps_order(documents, about, text);
            lemma_put_is_found(documents, about, text, uri);
        },
        None => {},
    }
    match m.uri {
        Some(about) => lemma_removed_is_gone(documents, about, uri),
        None => {},
    }
}

/// Whether a method is one that the server knows nothing of.
pub open spec fn is_unknown(method: Seq<char>) -> bool {
    request_in(method, false) == Request::Ignored
}

/// What is not understood is refused where an answer is waited for, and left alone where
/// none is. Nothing else is refused.
pub proof fn lemma_what_is_not_understood_is_refused(documents: Documents, m: MessageModel)
    ensures
        is_unknown(m.method) && m.has_id ==> stepped(documents, m) == (
            documents,
            ActionModel::Refuse,
        ),
        is_unknown(m.method) && !m.has_id ==> stepped(documents, m) == (
            documents,
            ActionModel::Nothing,
        ),
        stepped(documents, m).1 is Refuse ==> is_unknown(m.method) && m.has_id,
{
}

/// A language server between two messages.
#[derive(Debug, PartialEq, Eq)]
pub struct Session {
    documents: TextMap,
}

impl Session {
    pub closed spec fn view(&self) -> Documents {
        self.documents@
    }

    /// A server that has seen no message.
    pub fn new() -> (r: Session)
        ensures
            r@ == Seq::<(Seq<char>, Seq<char>)>::empty(),
            sorted(r@),
    {
        Session { documents: TextMap::new() }
    }

    /// Takes in a message, and says what is to be done about it.
    pub fn step(&mut self, message: Message) -> (r: Action)
        ensures
            (final(self)@, r@) == stepped(old(self)@, message@),
            sorted(old(self)@) ==> sorted(final(self)@),
    {
        proof {
            if sorted(self@) {
                lemma_a_document_has_its_last_text(self@, message@, seq![]);
            }
        }
        match request_of(message.method.as_str(), message.has_id) {
            Request::Initialize => Action::Greet,
            Request::Open => self.take(message.uri, message.opened),
            Request::Change => self.take(message.uri, message.changed),
            Request::Save => self.take(message.uri, message.saved),
            Request::Close => {
                if let Some(uri) = message.uri {
                    self.documents.remove(uri.as_str());
                }
                Action::Nothing
            },
            Request::Complete => Action::Complete(
                self.spot(message.uri, message.line, message.column),
            ),
            Request::Hover => {
                match self.spot(message.uri, message.line, message.column) {
                    Some(spot) => if spot.start < spot.end {
                        Action::Hover(Some(spot))
                    } else {
                        Action::Hover(None)
                    },
                    None => Action::Hover(None),
                }
            },
            Request::Shutdown => Action::Agree,
            Request::Exit => Action::Stop,
            Request::Unknown => Action::Refuse,
            Request::Ignored => Action::Nothing,
        }
    }

    /// Keeps the text of a document, where there is both.
    fn take(&mut self, uri: Option<String>, text: Option<String>) -> (r: Action)
        ensures
            match (uri, text) {
                (Some(uri), Some(text)) => final(self)@ == put(old(self)@, uri@, text@) && r@
                    == ActionModel::Publish(uri@, text@),
                _ => final(self)@ == old(self)@ && r@ == ActionModel::Nothing,
            },
    {
        match (uri, text) {
            (Some(uri), Some(text)) => {
                self.documents.insert(uri.as_str(), own(text.as_str()));
                Action::Publish { uri, text }
            },
            _ => Action::Nothing,
        }
    }

    /// The place in a document that is open.
    fn spot(&self, uri: Option<String>, line: u64, column: u64) -> (r: Option<Spot>)
        ensures
            spot_view(r) == match uri {
                Some(uri) => match value_of(self@, uri@) {
                    Some(text) => {
                        let at = byte_of(text, line as nat, column as nat);
                        let (start, end) = word_of(text, at);
                        Some(SpotModel { uri: uri@, text, at, start, end })
                    },
                    None => None,
                },
                None => None,
            },
    {
        let uri = uri?;
        match self.documents.get(uri.as_str()) {
            Some(text) => {
                let at: usize = offset_of(text, line, column);
                let (start, end): (usize, usize) = word(text, at);
                Some(Spot { text: own(text), uri, at, start, end })
            },
            None => None,
        }
    }
}

impl Default for Session {
    fn default() -> (r: Session)
        ensures
            r@ == Seq::<(Seq<char>, Seq<char>)>::empty(),
            sorted(r@),
    {
        Session::new()
    }
}

} // verus!
