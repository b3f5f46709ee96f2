//! The runtime environment of a resolution and the built-in modules of
//! node.
use vstd::prelude::*;
use crate::text::str_eq;

verus! {

/// The runtime environment a resolution targets, which decides the
/// package.json fields that are read.
#[derive(Debug, Copy, Clone, PartialEq, Eq, Structural, Default)]
pub enum TargetEnv {
    #[default]
    Browser,
    Node,
}

/// The built-in module names of node (node@16 LTS), in order.
pub open spec fn node_builtin_names() -> Seq<Seq<char>> {
    seq![
        "_http_agent"@,
        "_http_client"@,
        "_http_common"@,
        "_http_incoming"@,
        "_http_outgoing"@,
        "_http_server"@,
        "_stream_duplex"@,
        "_stream_passthrough"@,
        "_stream_readable"@,
        "_stream_transform"@,
        "_stream_wrap"@,
        "_stream_writable"@,
        "_tls_common"@,
        "_tls_wrap"@,
        "assert"@,
        "assert/strict"@,
        "async_hooks"@,
        "buffer"@,
        "child_process"@,
        "cluster"@,
        "console"@,
        "constants"@,
        "crypto"@,
        "dgram"@,
        "diagnostics_channel"@,
        "dns"@,
        "dns/promises"@,
        "domain"@,
        "events"@,
        "fs"@,
        "fs/promises"@,
        "http"@,
        "http2"@,
        "https"@,
        "inspector"@,
        "module"@,
        "net"@,
        "os"@,
        "path"@,
        "path/posix"@,
        "path/win32"@,
        "perf_hooks"@,
        "process"@,
        "punycode"@,
        "querystring"@,
        "readline"@,
        "readline/promises"@,
        "repl"@,
        "stream"@,
        "stream/consumers"@,
        "stream/promises"@,
        "stream/web"@,
        "string_decoder"@,
        "sys"@,
        "timers"@,
        "timers/promises"@,
        "tls"@,
        "trace_events"@,
        "tty"@,
        "url"@,
        "util"@,
        "util/types"@,
        "v8"@,
        "vm"@,
        "worker_threads"@,
        "zlib"@
    ]
}

/// The built-in module names of node.
pub fn node_builtins() -> (v: Vec<&'static str>)
    ensures
        v@.map_values(|s: &'static str| s@) == node_builtin_names(),
{
    let mut v: Vec<&'static str> = Vec::new();
    v.push("_http_agent");
    v.push("_http_client");
    v.push("_http_common");
    v.push("_http_incoming");
    v.push("_http_outgoing");
    v.push("_http_server");
    v.push("_stream_duplex");
    v.push("_stream_passthrough");
    v.push("_stream_readable");
    v.push("_stream_transform");
    v.push("_stream_wrap");
    v.push("_stream_writable");
    v.push("_tls_common");
    v.push("_tls_wrap");
    v.push("assert");
    v.push("assert/strict");
    v.push("async_hooks");
    v.push("buffer");
    v.push("child_process");
    v.push("cluster");
    v.push("console");
    v.push("constants");
    v.push("crypto");
    v.push("dgram");
    v.push("diagnostics_channel");
    v.push("dns");
    v.push("dns/promises");
    v.push("domain");
    v.push("events");
    v.push("fs");
    v.push("fs/promises");
    v.push("http");
    v.push("http2");
    v.push("https");
    v.push("inspector");
    v.push("module");
    v.push("net");
    v.push("os");
    v.push("path");
    v.push("path/posix");
    v.push("path/win32");
    v.push("perf_hooks");
    v.push("process");
    v.push("punycode");
    v.push("querystring");
    v.push("readline");
    v.push("readline/promises");
    v.push("repl");
    v.push("stream");
    v.push("stream/consumers");
    v.push("stream/promises");
    v.push("stream/web");
    v.push("string_decoder");
    v.push("sys");
    v.push("timers");
    v.push("timers/promises");
    v.push("tls");
    v.push("trace_events");
    v.push("tty");
    v.push("url");
    v.push("util");
    v.push("util/types");
    v.push("v8");
    v.push("vm");
    v.push("worker_threads");
    v.push("zlib");
    assert(v@.map_values(|s: &'static str| s@) =~= node_builtin_names());
    v
}

/// Whether `s` names a built-in module of node.
pub fn is_core_module(s: &str) -> (r: bool)
    ensures
        r == node_builtin_names().contains(s@),
{
    let names = node_builtins();
    let ghost views = names@.map_values(|x: &'static str| x@);
    let mut i: usize = 0;
    while i < names.len()
        invariant
            views == names@.map_values(|x: &'static str| x@),
            views == node_builtin_names(),
            0 <= i <= names@.len(),
            forall|j: int| 0 <= j < i ==> views[j] != s@,
        decreases names@.len() - i,
    {
        if str_eq(names[i], s) {
            assert(views[i as int] == s@);
            return true;
        }
        i = i + 1;
    }
    false
}

} // verus!
