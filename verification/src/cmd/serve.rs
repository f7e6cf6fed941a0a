//! `url-md serve --mcp`: the MCP server's request and its decisions.
use vstd::prelude::*;
use crate::adapters::{BuiltinAdapter, register_all};
use crate::generic::GenericAdapter;
use crate::pipeline::FetchOptions;
use crate::router::Registry;
use crate::weixin::WeixinAdapter;

verus! {

/// Arguments of the `serve` subcommand. `timeout` is the default fetch
/// timeout in seconds.
#[derive(Debug)]
pub struct Args {
    pub mcp: bool,
    pub timeout: u64,
}

/// The input of the `md` tool: a URL and an optional timeout in seconds.
#[derive(Debug, Clone)]
pub struct MdRequest {
    pub url: String,
    pub timeout_seconds: Option<u64>,
}

/// The timeout for a request: its own, else the server's default.
pub fn request_timeout(req: &MdRequest, default_timeout: u64) -> (t: u64)
    ensures
        t == match req.timeout_seconds {
            Some(s) => s,
            None => default_timeout,
        },
{
    match req.timeout_seconds {
        Some(s) => s,
        None => default_timeout,
    }
}

/// The MCP server's state: the shipped adapters, registered once and shared
/// by every call, and the default fetch timeout in seconds.
pub struct UrlMdServer {
    registry: Registry<BuiltinAdapter>,
    default_timeout: u64,
}

impl UrlMdServer {
    /// The adapters that every server routes with, in routing order.
    pub open spec fn builtin_adapters() -> Seq<BuiltinAdapter> {
        seq![BuiltinAdapter::Weixin(WeixinAdapter), BuiltinAdapter::Generic(GenericAdapter)]
    }

    /// The adapter sequence this server routes with.
    pub closed spec fn spec_registry(&self) -> Seq<BuiltinAdapter> {
        self.registry@
    }

    /// The default timeout of this server, in seconds.
    pub closed spec fn spec_default_timeout(&self) -> u64 {
        self.default_timeout
    }

    /// A server with the shipped adapters and the given default timeout.
    pub fn new(default_timeout: u64) -> (s: Self)
        ensures
            s.spec_registry() == Self::builtin_adapters(),
            s.spec_default_timeout() == default_timeout,
    {
        let mut registry = Registry::new();
        register_all(&mut registry);
        assert(registry@ =~= Self::builtin_adapters());
        UrlMdServer { registry, default_timeout }
    }

    /// The default fetch timeout in seconds.
    pub fn default_timeout(&self) -> (t: u64)
        ensures
            t == self.spec_default_timeout(),
    {
        self.default_timeout
    }

    /// The registry that requests are routed with.
    pub fn registry(&self) -> (r: &Registry<BuiltinAdapter>)
        ensures
            r@ == self.spec_registry(),
    {
        &self.registry
    }

    /// The options of the conversion that the `md` tool runs for `req`: the
    /// request's timeout or the server's default, the adapter's own strategy,
    /// the default user agent.
    pub fn fetch_options(&self, req: &MdRequest) -> (o: FetchOptions)
        ensures
            o.timeout == match req.timeout_seconds {
                Some(s) => s,
                None => self.spec_default_timeout(),
            },
            o.force_strategy is None,
            o.user_agent is None,
    {
        FetchOptions {
            timeout: request_timeout(req, self.default_timeout),
            force_strategy: None,
            user_agent: None,
        }
    }
}

/// Only the MCP transport over stdio is supported: without `--mcp` the
/// command fails with exit code 20.
pub fn check_transport(args: &Args) -> (r: Result<(), u8>)
    ensures
        r is Ok <==> args.mcp,
        r matches Err(code) ==> code == 20,
{
    if !args.mcp {
        Err(20)
    } else {
        Ok(())
    }
}

} // verus!
