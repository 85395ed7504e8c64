//! A language server's conversation: what it answers, and when it ends.
use vstd::prelude::*;
use crate::document_store::{changed, closed, defined, opened, DocumentStore, TextChange};
use crate::documents::{Location, Published, SemanticToken};
use crate::faults::hex_digit;
use crate::text::{chars_of, same_text};
use crate::text_index::Position;
use vstd::string::*;

verus! {

#[derive(Debug, Clone, Copy, PartialEq, Eq, Structural)]
pub enum ServerOutcome {
    CleanExit,
    ExitWithoutShutdown,
    ChannelClosed,
    OutputClosed,
}

#[derive(Debug, Clone, PartialEq, Eq)]
pub enum ServerError {
    InvalidInitializeParams(String),
    UnsupportedPositionEncoding,
    Protocol(String),
}

impl ServerError {
    pub open spec fn text(self) -> Seq<char> {
        match self {
            ServerError::InvalidInitializeParams(message) => "invalid initialize parameters: "@
                + message@,
            ServerError::UnsupportedPositionEncoding => {
                "the client does not advertise UTF-16 position support"@
            },
            ServerError::Protocol(message) => message@,
        }
    }

    /// What is shown of the error.
    pub fn message(&self) -> (text: String)
        ensures
            text@ == self.text(),
    {
        match self {
            ServerError::InvalidInitializeParams(message) => {
                let mut text = "invalid initialize parameters: ".to_owned();
                text.append(message.as_str());
                text
            },
            ServerError::UnsupportedPositionEncoding => {
                "the client does not advertise UTF-16 position support".to_owned()
            },
            ServerError::Protocol(message) => message.clone(),
        }
    }
}

/// A number in hexadecimal digits.
pub open spec fn hex(n: nat) -> Seq<char>
    decreases n,
{
    if n < 16 {
        seq![hex_digit(n as int)]
    } else {
        hex(n / 16).push(hex_digit((n % 16) as int))
    }
}

/// A scalar as it is shown in messages: control characters and what is not
/// ASCII by their number.
pub open spec fn escaped_char(c: char) -> Seq<char> {
    if c == '\t' {
        seq!['\\', 't']
    } else if c == '\r' {
        seq!['\\', 'r']
    } else if c == '\n' {
        seq!['\\', 'n']
    } else if c == '\'' || c == '"' || c == '\\' {
        seq!['\\', c]
    } else if ' ' <= c && c <= '~' {
        seq![c]
    } else {
        seq!['\\', 'u', '{'] + hex((c as u32) as nat) + seq!['}']
    }
}

pub open spec fn escaped(text: Seq<char>, n: int) -> Seq<char>
    decreases n,
{
    if n <= 0 {
        Seq::empty()
    } else {
        escaped(text, n - 1) + escaped_char(text[n - 1])
    }
}

fn hex_char(n: u32) -> (c: char)
    requires
        n < 16,
    ensures
        c == hex_digit(n as int),
{
    match n {
        0 => '0',
        1 => '1',
        2 => '2',
        3 => '3',
        4 => '4',
        5 => '5',
        6 => '6',
        7 => '7',
        8 => '8',
        9 => '9',
        10 => 'a',
        11 => 'b',
        12 => 'c',
        13 => 'd',
        14 => 'e',
        _ => 'f',
    }
}

fn hex_text(n: u32) -> (text: String)
    ensures
        text@ == hex(n as nat),
    decreases n,
{
    let mut text = if n < 16 {
        String::new()
    } else {
        hex_text(n / 16)
    };
    text.push(hex_char(n % 16));
    assert(text@ =~= hex(n as nat));
    text
}

fn escape(text: &str) -> (result: String)
    ensures
        result@ == escaped(text@, text@.len() as int),
{
    let scalars = chars_of(text);
    let mut result = String::new();
    let mut i: usize = 0;
    assert(result@ =~= escaped(text@, 0));
    while i < scalars.len()
        invariant
            i <= scalars@.len(),
            scalars@ == text@,
            result@ == escaped(text@, i as int),
        decreases scalars@.len() - i,
    {
        let c = scalars[i];
        let ghost before = result@;
        if c == '\t' {
            result.push('\\');
            result.push('t');
        } else if c == '\r' {
            result.push('\\');
            result.push('r');
        } else if c == '\n' {
            result.push('\\');
            result.push('n');
        } else if c == '\'' || c == '"' || c == '\\' {
            result.push('\\');
            result.push(c);
        } else if ' ' <= c && c <= '~' {
            result.push(c);
        } else {
            result.push('\\');
            result.push('u');
            result.push('{');
            result.append(hex_text(c as u32).as_str());
            result.push('}');
        }
        assert(result@ =~= before + escaped_char(c));
        i += 1;
    }
    result
}

/// What can be learned of a client before the conversation begins.
#[derive(Debug, Clone, PartialEq, Eq)]
pub struct ClientCapabilities {
    pub position_encodings: Option<Vec<String>>,
    pub diagnostic_data_support: Option<bool>,
}

/// The client counts columns in UTF-16 code units, which is taken for
/// granted where it does not say how it counts.
pub open spec fn supports_utf16(client: ClientCapabilities) -> bool {
    match client.position_encodings {
        None => true,
        Some(encodings) => exists|i: int|
            0 <= i < encodings@.len() && (#[trigger] encodings@[i])@ == "utf-16"@,
    }
}

fn names_utf16(encodings: &Vec<String>) -> (yes: bool)
    ensures
        yes == exists|i: int|
            0 <= i < encodings@.len() && (#[trigger] encodings@[i])@ == "utf-16"@,
{
    let mut i: usize = 0;
    while i < encodings.len()
        invariant
            i <= encodings@.len(),
            forall|j: int| 0 <= j < i ==> (#[trigger] encodings@[j])@ != "utf-16"@,
        decreases encodings@.len() - i,
    {
        if same_text(encodings[i].as_str(), "utf-16") {
            assert(encodings@[i as int]@ == "utf-16"@);
            return true;
        }
        i += 1;
    }
    false
}

fn has_utf16(client: &ClientCapabilities) -> (yes: bool)
    ensures
        yes == supports_utf16(*client),
{
    match &client.position_encodings {
        None => true,
        Some(encodings) => names_utf16(encodings),
    }
}

/// How a request to begin is answered.
#[derive(Debug, PartialEq, Eq)]
pub enum Welcome {
    /// With the server's capabilities; then the server waits for the client.
    Accept { diagnostic_data_support: bool },
    /// With an error; then the conversation is over.
    Refuse { message: String, error: ServerError },
}

pub open spec fn welcomes(
    welcome: Welcome,
    client: Result<ClientCapabilities, String>,
) -> bool {
    match (welcome, client) {
        (Welcome::Accept { diagnostic_data_support }, Ok(client)) => supports_utf16(client)
            && diagnostic_data_support == (client.diagnostic_data_support == Some(true)),
        (Welcome::Refuse { message, error }, Ok(client)) => !supports_utf16(client) && message@
            == "rlox-lsp requires UTF-16 position support"@ && error
            is UnsupportedPositionEncoding,
        (Welcome::Refuse { message, error }, Err(reason)) => message@ == reason@ && (
        error matches ServerError::InvalidInitializeParams(text) && text@ == reason@),
        _ => false,
    }
}

/// Answers a request to begin. The client's capabilities may have been
/// unreadable.
pub fn welcome(client: Result<ClientCapabilities, String>) -> (result: Welcome)
    ensures
        welcomes(result, client),
{
    match client {
        Err(reason) => Welcome::Refuse {
            message: reason.clone(),
            error: ServerError::InvalidInitializeParams(reason),
        },
        Ok(client) => if has_utf16(&client) {
            Welcome::Accept {
                diagnostic_data_support: match client.diagnostic_data_support {
                    Some(supported) => supported,
                    None => false,
                },
            }
        } else {
            Welcome::Refuse {
                message: "rlox-lsp requires UTF-16 position support".to_owned(),
                error: ServerError::UnsupportedPositionEncoding,
            }
        },
    }
}

/// How the first message of a client that breaks the protocol begins, where
/// it is the notification to exit.
pub open spec fn exit_prefix() -> Seq<char> {
    "expected initialize request, got Notification(Notification { method: \"exit\", params: "@
}

pub open spec fn handshake_outcome(
    disconnected: bool,
    message: Seq<char>,
    outcome: Result<ServerOutcome, ServerError>,
) -> bool {
    if disconnected {
        outcome == Ok::<ServerOutcome, ServerError>(ServerOutcome::ChannelClosed)
    } else if exit_prefix().is_prefix_of(message) {
        outcome == Ok::<ServerOutcome, ServerError>(ServerOutcome::ExitWithoutShutdown)
    } else {
        outcome matches Err(ServerError::Protocol(text)) && text@ == message
    }
}

fn starts_with(text: &str, prefix: &str) -> (yes: bool)
    ensures
        yes == prefix@.is_prefix_of(text@),
{
    let whole = chars_of(text);
    let part = chars_of(prefix);
    if part.len() > whole.len() {
        return false;
    }
    let mut i: usize = 0;
    while i < part.len()
        invariant
            i <= part@.len() <= whole@.len(),
            part@ == prefix@,
            whole@ == text@,
            forall|j: int| 0 <= j < i ==> part@[j] == whole@[j],
        decreases part@.len() - i,
    {
        if part[i] != whole[i] {
            assert(prefix@[i as int] != text@[i as int]);
            return false;
        }
        i += 1;
    }
    assert(prefix@ =~= text@.subrange(0, prefix@.len() as int));
    true
}

/// How a conversation ends that could not begin.
pub fn classify_handshake_error(disconnected: bool, message: &str) -> (outcome: Result<
    ServerOutcome,
    ServerError,
>)
    ensures
        handshake_outcome(disconnected, message@, outcome),
{
    if disconnected {
        Ok(ServerOutcome::ChannelClosed)
    } else if starts_with(
        message,
        "expected initialize request, got Notification(Notification { method: \"exit\", params: ",
    ) {
        Ok(ServerOutcome::ExitWithoutShutdown)
    } else {
        Err(ServerError::Protocol(message.to_owned()))
    }
}

/// What the client sends once the server has answered its request to begin.
#[derive(Debug)]
pub enum FirstMessage {
    Notification { method: String },
    Request { method: String },
    Response,
    Closed,
}

#[derive(Debug, PartialEq, Eq)]
pub enum InitializeFinish {
    Initialized,
    Stop(ServerOutcome),
    Error(ServerError),
}

pub open spec fn protocol_error(finish: InitializeFinish, message: Seq<char>) -> bool {
    finish matches InitializeFinish::Error(ServerError::Protocol(text)) && text@ == message
}

pub open spec fn finishes(finish: InitializeFinish, message: FirstMessage) -> bool {
    match message {
        FirstMessage::Notification { method } => if method@ == "initialized"@ {
            finish is Initialized
        } else if method@ == "exit"@ {
            finish == InitializeFinish::Stop(ServerOutcome::ExitWithoutShutdown)
        } else {
            protocol_error(
                finish,
                "expected initialized notification, got notification method: "@ + escaped(
                    method@,
                    method@.len() as int,
                ),
            )
        },
        FirstMessage::Request { method } => protocol_error(
            finish,
            "expected initialized notification, got request method: "@ + escaped(
                method@,
                method@.len() as int,
            ),
        ),
        FirstMessage::Response => protocol_error(
            finish,
            "expected initialized notification, got response"@,
        ),
        FirstMessage::Closed => finish == InitializeFinish::Stop(ServerOutcome::ChannelClosed),
    }
}

/// Waits for the client to say that it is initialized; anything else ends
/// the conversation.
pub fn receive_initialized(message: &FirstMessage) -> (finish: InitializeFinish)
    ensures
        finishes(finish, *message),
{
    match message {
        FirstMessage::Notification { method } => if same_text(method.as_str(), "initialized") {
            InitializeFinish::Initialized
        } else if same_text(method.as_str(), "exit") {
            InitializeFinish::Stop(ServerOutcome::ExitWithoutShutdown)
        } else {
            let mut text =
                "expected initialized notification, got notification method: ".to_owned();
            text.append(escape(method.as_str()).as_str());
            InitializeFinish::Error(ServerError::Protocol(text))
        },
        FirstMessage::Request { method } => {
            let mut text = "expected initialized notification, got request method: ".to_owned();
            text.append(escape(method.as_str()).as_str());
            InitializeFinish::Error(ServerError::Protocol(text))
        },
        FirstMessage::Response => InitializeFinish::Error(
            ServerError::Protocol("expected initialized notification, got response".to_owned()),
        ),
        FirstMessage::Closed => InitializeFinish::Stop(ServerOutcome::ChannelClosed),
    }
}

/// What a request or a notification is about, by its method.
#[derive(Debug, Clone, Copy, PartialEq, Eq, Structural)]
pub enum Method {
    Exit,
    Shutdown,
    Open,
    Change,
    Close,
    Definition,
    Tokens,
    Other,
}

pub open spec fn request_method(method: Seq<char>) -> Method {
    if method == "shutdown"@ {
        Method::Shutdown
    } else if method == "textDocument/definition"@ {
        Method::Definition
    } else if method == "textDocument/semanticTokens/full"@ {
        Method::Tokens
    } else {
        Method::Other
    }
}

pub open spec fn notification_method(method: Seq<char>) -> Method {
    if method == "exit"@ {
        Method::Exit
    } else if method == "textDocument/didOpen"@ {
        Method::Open
    } else if method == "textDocument/didChange"@ {
        Method::Change
    } else if method == "textDocument/didClose"@ {
        Method::Close
    } else {
        Method::Other
    }
}

/// What a request is about.
pub fn classify_request(method: &str) -> (result: Method)
    ensures
        result == request_method(method@),
{
    if same_text(method, "shutdown") {
        Method::Shutdown
    } else if same_text(method, "textDocument/definition") {
        Method::Definition
    } else if same_text(method, "textDocument/semanticTokens/full") {
        Method::Tokens
    } else {
        Method::Other
    }
}

/// What a notification is about.
pub fn classify_notification(method: &str) -> (result: Method)
    ensures
        result == notification_method(method@),
{
    if same_text(method, "exit") {
        Method::Exit
    } else if same_text(method, "textDocument/didOpen") {
        Method::Open
    } else if same_text(method, "textDocument/didChange") {
        Method::Change
    } else if same_text(method, "textDocument/didClose") {
        Method::Close
    } else {
        Method::Other
    }
}

/// The parameters of a message, as far as its method has some. The numbers
/// are those that the number tokens of the text spell.
#[derive(Debug)]
pub enum Params {
    Nothing,
    Malformed { reason: String },
    Open { uri: String, version: i32, text: String, numbers: Vec<u64> },
    Change { uri: String, version: i32, changes: Vec<TextChange>, numbers: Vec<u64> },
    Close { uri: String },
    Definition { uri: String, position: Position },
    Tokens { uri: String },
}

#[derive(Debug)]
pub enum ServerMessage {
    Request { method: String, params: Params },
    Notification { method: String, params: Params },
    Response,
}

/// What a request is answered.
#[derive(Debug, PartialEq, Eq)]
pub enum Reply {
    Null,
    Locations(Vec<Location>),
    Tokens(Vec<SemanticToken>),
    Error { code: i32, message: String },
}

#[derive(Debug, PartialEq, Eq)]
pub enum Action {
    Nothing,
    Respond(Reply),
    Publish(Published),
    Stop(ServerOutcome),
}

pub const INVALID_REQUEST: i32 = -32600;

pub const METHOD_NOT_FOUND: i32 = -32601;

pub const INVALID_PARAMS: i32 = -32602;

pub struct Server {
    pub shutdown_received: bool,
    pub documents: DocumentStore,
}

pub open spec fn answers_error(action: Action, code: i32, message: Seq<char>) -> bool {
    action matches Action::Respond(Reply::Error { code: c, message: m }) && c == code && m@
        == message
}

/// What is published, if anything is.
pub open spec fn tells(action: Action, published: Option<Published>) -> bool {
    match published {
        Some(p) => action == Action::Publish(p),
        None => action is Nothing,
    }
}

impl Server {
    pub open spec fn wf(self) -> bool {
        self.documents.wf()
    }

    /// A request is answered, one way or another. The documents stay as they are.
    pub open spec fn requested(
        self,
        after: Server,
        method: Seq<char>,
        params: Params,
        action: Action,
    ) -> bool {
        &&& after.documents == self.documents
        &&& if self.shutdown_received {
            after.shutdown_received && answers_error(
                action,
                INVALID_REQUEST,
                "the server has already received shutdown"@,
            )
        } else {
            match (request_method(method), params) {
                (Method::Other, _) => !after.shutdown_received && answers_error(
                    action,
                    METHOD_NOT_FOUND,
                    "unknown request method: "@ + method,
                ),
                (_, Params::Malformed { reason }) => !after.shutdown_received && answers_error(
                    action,
                    INVALID_PARAMS,
                    reason@,
                ),
                (Method::Shutdown, Params::Nothing) => after.shutdown_received && action
                    == Action::Respond(Reply::Null),
                (Method::Definition, Params::Definition { uri, position }) => {
                    &&& !after.shutdown_received
                    &&& action matches Action::Respond(Reply::Locations(locations)) && defined(
                        self.documents,
                        uri@,
                        position,
                        locations@,
                    )
                },
                (Method::Tokens, Params::Tokens { uri }) => {
                    &&& !after.shutdown_received
                    &&& action matches Action::Respond(Reply::Tokens(tokens)) && tokens@
                        == self.documents.tokens(uri@)
                },
                _ => !after.shutdown_received && answers_error(
                    action,
                    INVALID_PARAMS,
                    "the parameters do not fit the method"@,
                ),
            }
        }
    }

    /// A notification changes the documents, until shutdown, or ends the
    /// conversation.
    pub open spec fn notified(
        self,
        after: Server,
        method: Seq<char>,
        params: Params,
        action: Action,
    ) -> bool {
        &&& after.shutdown_received == self.shutdown_received
        &&& match notification_method(method) {
            Method::Exit => after.documents == self.documents && action == Action::Stop(
                if self.shutdown_received {
                    ServerOutcome::CleanExit
                } else {
                    ServerOutcome::ExitWithoutShutdown
                },
            ),
            kind => if self.shutdown_received {
                after.documents == self.documents && action is Nothing
            } else {
                match (kind, params) {
                    (Method::Open, Params::Open { uri, version, text, numbers }) => exists|
                        published: Option<Published>,
                    | #[trigger]
                        tells(action, published) && opened(
                            self.documents,
                            after.documents,
                            uri@,
                            version,
                            text@,
                            numbers@,
                            published,
                        ),
                    (Method::Change, Params::Change { uri, version, changes, numbers }) => exists|
                        published: Option<Published>,
                    | #[trigger]
                        tells(action, published) && changed(
                            self.documents,
                            after.documents,
                            uri@,
                            version,
                            changes@,
                            numbers@,
                            published,
                        ),
                    (Method::Close, Params::Close { uri }) => exists|
                        published: Option<Published>,
                    | #[trigger]
                        tells(action, published) && closed(
                            self.documents,
                            after.documents,
                            uri@,
                            published,
                        ),
                    _ => after.documents == self.documents && action is Nothing,
                }
            },
        }
    }

    /// What a message does.
    pub open spec fn receives(self, after: Server, message: ServerMessage, action: Action) -> bool {
        match message {
            ServerMessage::Request { method, params } => self.requested(
                after,
                method@,
                params,
                action,
            ),
            ServerMessage::Notification { method, params } => self.notified(
                after,
                method@,
                params,
                action,
            ),
            ServerMessage::Response => after == self && action is Nothing,
        }
    }

    pub fn new(diagnostic_data_support: bool) -> (server: Self)
        ensures
            server.wf(),
            !server.shutdown_received,
            server.documents.documents@.len() == 0,
            server.documents.next_source_id == 1,
            server.documents.next_revision == 1,
            server.documents.diagnostic_data_support == diagnostic_data_support,
    {
        Server {
            shutdown_received: false,
            documents: DocumentStore::new(diagnostic_data_support),
        }
    }

    fn request(&mut self, method: &str, params: &Params) -> (action: Action)
        requires
            old(self).wf(),
        ensures
            final(self).wf(),
            old(self).requested(*final(self), method@, *params, action),
    {
        if self.shutdown_received {
            return error_reply(INVALID_REQUEST, "the server has already received shutdown");
        }
        let kind = classify_request(method);
        if kind == Method::Other {
            let mut message = "unknown request method: ".to_owned();
            message.append(method);
            return error_reply(METHOD_NOT_FOUND, message.as_str());
        }
        match (kind, params) {
            (_, Params::Malformed { reason }) => error_reply(INVALID_PARAMS, reason.as_str()),
            (Method::Shutdown, Params::Nothing) => {
                self.shutdown_received = true;
                Action::Respond(Reply::Null)
            },
            (Method::Definition, Params::Definition { uri, position }) => Action::Respond(
                Reply::Locations(self.documents.definition(uri.as_str(), *position)),
            ),
            (Method::Tokens, Params::Tokens { uri }) => Action::Respond(
                Reply::Tokens(self.documents.semantic_tokens(uri.as_str())),
            ),
            _ => error_reply(INVALID_PARAMS, "the parameters do not fit the method"),
        }
    }

    fn notification(&mut self, method: &str, params: &Params) -> (action: Action)
        requires
            old(self).wf(),
        ensures
            final(self).wf(),
            old(self).notified(*final(self), method@, *params, action),
    {
        let kind = classify_notification(method);
        if kind == Method::Exit {
            return Action::Stop(
                if self.shutdown_received {
                    ServerOutcome::CleanExit
                } else {
                    ServerOutcome::ExitWithoutShutdown
                },
            );
        }
        if self.shutdown_received {
            return Action::Nothing;
        }
        let published = match (kind, params) {
            (Method::Open, Params::Open { uri, version, text, numbers }) => self.documents.open(
                uri.as_str(),
                *version,
                text.as_str(),
                numbers,
            ),
            (Method::Change, Params::Change { uri, version, changes, numbers }) => {
                self.documents.change(uri.as_str(), *version, changes, numbers)
            },
            (Method::Close, Params::Close { uri }) => self.documents.close(uri.as_str()),
            _ => None,
        };
        let ghost told = published;
        let action = match published {
            Some(published) => Action::Publish(published),
            None => Action::Nothing,
        };
        assert(tells(action, told));
        action
    }

    /// Takes a message, and tells what is to be done about it.
    pub fn receive(&mut self, message: &ServerMessage) -> (action: Action)
        requires
            old(self).wf(),
        ensures
            final(self).wf(),
            old(self).receives(*final(self), *message, action),
    {
        match message {
            ServerMessage::Request { method, params } => self.request(method.as_str(), params),
            ServerMessage::Notification { method, params } => self.notification(
                method.as_str(),
                params,
            ),
            ServerMessage::Response => Action::Nothing,
        }
    }
}

fn error_reply(code: i32, message: &str) -> (action: Action)
    ensures
        answers_error(action, code, message@),
{
    Action::Respond(Reply::Error { code, message: message.to_owned() })
}

/// After shutdown the documents stay as they are, every request is refused,
/// and only the notification to exit ends the conversation, cleanly.
pub proof fn law_shutdown_is_final(
    before: Server,
    after: Server,
    message: ServerMessage,
    action: Action,
)
    requires
        before.shutdown_received,
        before.receives(after, message, action),
    ensures
        after.shutdown_received,
        after.documents == before.documents,
        message is Request ==> (action matches Action::Respond(Reply::Error { code, message: _ })
            && code == INVALID_REQUEST),
        action is Stop ==> action == Action::Stop(ServerOutcome::CleanExit) && message
            is Notification,
        !(action is Publish),
{
}

/// Every request is answered, and nothing else is.
pub proof fn law_requests_are_answered(
    before: Server,
    after: Server,
    message: ServerMessage,
    action: Action,
)
    requires
        before.receives(after, message, action),
    ensures
        message is Request <==> action is Respond,
{
}

} // verus!
