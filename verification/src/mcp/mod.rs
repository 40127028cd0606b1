//! The Model Context Protocol: servers and how they are reached.

use vstd::prelude::*;

use crate::mcp::protocol::McpProtocolMode;
use crate::text::{cat2, text_pairs, texts};

pub mod answers;
pub mod client;
pub mod exchanges;
pub mod http;
pub mod logins;
pub mod oauth;
pub mod protocol;
pub mod redaction;
pub mod stdio;

verus! {

/// How a server is reached.
#[derive(Debug)]
pub enum McpTransport {
    /// A child process spoken to over its standard streams.
    Stdio { command: String, args: Vec<String>, env: Vec<(String, String)> },
    /// A remote server over HTTP.
    Http { url: String, headers: Vec<(String, String)> },
}

/// The content of an [`McpTransport`].
#[verifier::ext_equal]
pub ghost enum TransportView {
    Stdio { command: Seq<char>, args: Seq<Seq<char>>, env: Seq<(Seq<char>, Seq<char>)> },
    Http { url: Seq<char>, headers: Seq<(Seq<char>, Seq<char>)> },
}

impl View for McpTransport {
    type V = TransportView;

    open spec fn view(&self) -> TransportView {
        match *self {
            McpTransport::Stdio { command, args, env } => TransportView::Stdio {
                command: command@,
                args: texts(args@),
                env: text_pairs(env@),
            },
            McpTransport::Http { url, headers } => TransportView::Http {
                url: url@,
                headers: text_pairs(headers@),
            },
        }
    }
}

/// One server.
#[derive(Debug)]
pub struct McpServer {
    /// Names the server in the id of its capability and in errors.
    pub name: String,
    pub transport: McpTransport,
    pub protocol_mode: McpProtocolMode,
}

/// The content of an [`McpServer`].
#[verifier::ext_equal]
pub ghost struct ServerView {
    pub name: Seq<char>,
    pub transport: TransportView,
    pub protocol_mode: McpProtocolMode,
}

impl View for McpServer {
    type V = ServerView;

    open spec fn view(&self) -> ServerView {
        ServerView {
            name: self.name@,
            transport: self.transport@,
            protocol_mode: self.protocol_mode,
        }
    }
}

/// A server with arguments added; one over HTTP takes none.
pub open spec fn with_args(server: ServerView, added: Seq<Seq<char>>) -> ServerView {
    match server.transport {
        TransportView::Stdio { command, args, env } => ServerView {
            transport: TransportView::Stdio { command, args: args + added, env },
            ..server
        },
        TransportView::Http { .. } => server,
    }
}

/// Arguments are added behind those that a process has, and change nothing
/// else; a remote server has none.
pub proof fn arguments_are_added_behind(server: ServerView, added: Seq<Seq<char>>)
    ensures
        with_args(server, added).name == server.name,
        with_args(server, added).protocol_mode == server.protocol_mode,
        server.transport is Http ==> with_args(server, added).transport == server.transport,
        server.transport is Stdio ==> {
            let after = with_args(server, added).transport;
            let n = server.transport->args.len() as int;
            &&& after is Stdio
            &&& after->command == server.transport->command
            &&& after->env == server.transport->env
            &&& after->args.len() == n + added.len()
            &&& after->args.take(n) == server.transport->args
            &&& after->args.skip(n) == added
        },
{
    if server.transport is Stdio {
        let args = server.transport->args;
        assert((args + added).take(args.len() as int) =~= args);
        assert((args + added).skip(args.len() as int) =~= added);
    }
}

impl McpServer {
    /// A server run as a child process.
    pub fn stdio(name: &str, command: &str) -> (r: Self)
        ensures
            r@ == (ServerView {
                name: name@,
                transport: TransportView::Stdio {
                    command: command@,
                    args: Seq::empty(),
                    env: Seq::empty(),
                },
                protocol_mode: McpProtocolMode::Auto,
            }),
    {
        let r = McpServer {
            name: name.to_owned(),
            transport: McpTransport::Stdio {
                command: command.to_owned(),
                args: Vec::new(),
                env: Vec::new(),
            },
            protocol_mode: McpProtocolMode::Auto,
        };
        assert(r@.transport->args =~= Seq::<Seq<char>>::empty());
        assert(r@.transport->env =~= Seq::<(Seq<char>, Seq<char>)>::empty());
        r
    }

    /// A remote server.
    pub fn http(name: &str, url: &str) -> (r: Self)
        ensures
            r@ == (ServerView {
                name: name@,
                transport: TransportView::Http { url: url@, headers: Seq::empty() },
                protocol_mode: McpProtocolMode::Auto,
            }),
    {
        let r = McpServer {
            name: name.to_owned(),
            transport: McpTransport::Http { url: url.to_owned(), headers: Vec::new() },
            protocol_mode: McpProtocolMode::Auto,
        };
        assert(r@.transport->headers =~= Seq::<(Seq<char>, Seq<char>)>::empty());
        r
    }

    /// Append one argument. Ignored for an HTTP server.
    pub fn arg(self, arg: &str) -> (r: Self)
        ensures
            r@ == with_args(self@, seq![arg@]),
    {
        let new_args = vec![arg.to_owned()];
        assert(texts(new_args@) =~= seq![arg@]);
        self.args(new_args)
    }

    /// Append several arguments. Ignored for an HTTP server.
    pub fn args(self, new_args: Vec<String>) -> (r: Self)
        ensures
            r@ == with_args(self@, texts(new_args@)),
    {
        let McpServer { name, transport, protocol_mode } = self;
        let transport = match transport {
            McpTransport::Stdio { command, args, env } => {
                let mut all = args;
                let mut more = new_args;
                let ghost before = all@;
                all.append(&mut more);
                assert(texts(all@) =~= texts(before) + texts(new_args@));
                McpTransport::Stdio { command, args: all, env }
            },
            other => other,
        };
        McpServer { name, transport, protocol_mode }
    }

    /// Set an environment variable of the server process. Ignored for an HTTP
    /// server.
    pub fn env(self, key: &str, value: &str) -> (r: Self)
        ensures
            r@ == (match self@.transport {
                TransportView::Stdio { command, args, env } => ServerView {
                    transport: TransportView::Stdio {
                        command,
                        args,
                        env: env.push((key@, value@)),
                    },
                    ..self@
                },
                TransportView::Http { .. } => self@,
            }),
    {
        let McpServer { name, transport, protocol_mode } = self;
        let transport = match transport {
            McpTransport::Stdio { command, args, env } => {
                let mut all = env;
                let ghost before = all@;
                all.push((key.to_owned(), value.to_owned()));
                assert(text_pairs(all@) =~= text_pairs(before).push((key@, value@)));
                McpTransport::Stdio { command, args, env: all }
            },
            other => other,
        };
        McpServer { name, transport, protocol_mode }
    }

    /// Add a header to every request. Ignored for a server over its standard
    /// streams.
    pub fn header(self, key: &str, value: &str) -> (r: Self)
        ensures
            r@ == (match self@.transport {
                TransportView::Http { url, headers } => ServerView {
                    transport: TransportView::Http { url, headers: headers.push((key@, value@)) },
                    ..self@
                },
                TransportView::Stdio { .. } => self@,
            }),
    {
        let McpServer { name, transport, protocol_mode } = self;
        let transport = match transport {
            McpTransport::Http { url, headers } => {
                let mut all = headers;
                let ghost before = all@;
                all.push((key.to_owned(), value.to_owned()));
                assert(text_pairs(all@) =~= text_pairs(before).push((key@, value@)));
                McpTransport::Http { url, headers: all }
            },
            other => other,
        };
        McpServer { name, transport, protocol_mode }
    }

    /// Choose the protocol era.
    pub fn protocol_mode(self, mode: McpProtocolMode) -> (r: Self)
        ensures
            r@ == (ServerView { protocol_mode: mode, ..self@ }),
    {
        let mut r = self;
        r.protocol_mode = mode;
        r
    }

    /// The id of the capability that exposes the server.
    pub fn capability_id(&self) -> (r: String)
        ensures
            r@ == "mcp:"@ + self.name@,
    {
        cat2("mcp:", self.name.as_str())
    }
}

/// A bearer token that stays the same.
pub struct StaticBearer {
    token: String,
}

impl View for StaticBearer {
    type V = Seq<char>;

    closed spec fn view(&self) -> Seq<char> {
        self.token@
    }
}

impl StaticBearer {
    /// Authenticate with this token.
    pub fn new(token: &str) -> (r: Self)
        ensures
            r@ == token@,
    {
        StaticBearer { token: token.to_owned() }
    }

    /// The value of the `Authorization` header, whichever server asks.
    pub fn authorization(&self, _server: &str) -> (r: Option<String>)
        ensures
            r matches Some(value) && value@ == "Bearer "@ + self@,
    {
        Some(cat2("Bearer ", self.token.as_str()))
    }
}

} // verus!
