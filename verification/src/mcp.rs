//! The GraphQL layer's own logic: paging, loader keys, index filters and the
//! schema's types; and which HTTP surfaces a server mounts.
use vstd::prelude::*;

pub mod graphql;

verus! {

/// Where the HTTP server listens when no address is given.
pub const DEFAULT_HTTP_ADDR: &'static str = "127.0.0.1:8080";

/// Which surfaces an HTTP server mounts. Each is independent: MCP's
/// streamable-HTTP transport and a browsable GraphQL endpoint are different
/// things that happen to share a port.
#[derive(Clone, Copy)]
pub struct HttpSurfaces {
    /// MCP streamable-HTTP at `/mcp`.
    pub mcp: bool,
    /// Plain GraphQL-over-HTTP at `/graphql`.
    pub graphql: bool,
    /// The GraphiQL IDE at `/`. Implies `graphql`: it is the IDE's endpoint.
    pub graphiql: bool,
    /// Open the IDE in the default browser once listening.
    pub browser: bool,
}

pub open spec fn opt_str(o: Option<String>) -> Option<Seq<char>> {
    match o {
        Some(s) => Some(s@),
        None => None,
    }
}

/// Which surfaces the command-line flags ask for, and where to bind them;
/// no address means MCP over stdio. Asking for a surface is asking for what
/// it needs: the browser needs the IDE, the IDE needs `/graphql`, and a
/// route needs a listener. Only `--http` puts MCP on the listener.
pub fn resolve_surfaces(http: Option<String>, graphql: bool, graphiql: bool, browser: bool) -> (r: (
    Option<String>,
    HttpSurfaces,
))
    ensures
        r.1.graphiql == (graphiql || browser),
        r.1.graphql == (graphql || graphiql || browser),
        r.1.mcp == (http is Some),
        r.1.browser == browser,
        opt_str(r.0) == match http {
            Some(a) => Some(a@),
            None => if graphql || graphiql || browser {
                Some(DEFAULT_HTTP_ADDR@)
            } else {
                None
            },
        },
{
    let graphiql = graphiql || browser;
    let graphql = graphql || graphiql;
    let mcp = http.is_some();
    let addr = match http {
        Some(a) => Some(a),
        None => if graphql {
            Some(String::from_str(DEFAULT_HTTP_ADDR))
        } else {
            None
        },
    };
    (addr, HttpSurfaces { mcp, graphql, graphiql, browser })
}

} // verus!
