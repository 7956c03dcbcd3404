//! The client side of the object daemon's protocol: JSON-RPC 2.0, one
//! request and one response per connection, each on one line. Page data
//! travels in files whose paths the messages carry.

use vstd::prelude::*;
use vstd::string::StrSliceExecFns;
use crate::cid::Cid;
use crate::cid::PageStoreError;
use crate::text::joined;
use crate::text::owned;

verus! {

/// The socket that the daemon listens on unless told otherwise.
pub open spec fn default_socket_path() -> Seq<char> {
    "/tmp/craftobj.sock"@
}

/// The time that one call may take unless told otherwise, in
/// milliseconds: 30 seconds.
pub const DEFAULT_TIMEOUT_MS: u64 = 30_000;

/// What a request asks the daemon to work on.
#[derive(Debug, Clone, PartialEq, Eq)]
pub enum RpcParams {
    /// Publish the file at `path`.
    Publish { path: String },
    /// Fetch the object `cid` into the file `output`.
    Fetch { cid: String, output: String },
}

/// A request of the protocol.
#[derive(Debug, Clone, PartialEq, Eq)]
pub struct RpcRequest {
    /// The protocol version, "2.0".
    pub jsonrpc: String,
    /// "publish" or "fetch".
    pub method: String,
    pub params: Option<RpcParams>,
    /// The request's number.
    pub id: u64,
}

/// The error that a response carries.
#[derive(Debug, Clone, PartialEq, Eq)]
pub struct RpcError {
    pub code: i32,
    pub message: String,
}

/// What the client reads of a response's result: the strings under "cid"
/// and "path", where the result has them.
#[derive(Debug, Clone, PartialEq, Eq)]
pub struct RpcResult {
    pub cid: Option<String>,
    pub path: Option<String>,
}

/// A response of the protocol.
#[derive(Debug, Clone, PartialEq, Eq)]
pub struct RpcResponse {
    pub result: Option<RpcResult>,
    pub error: Option<RpcError>,
}

/// Client of the object daemon: where it listens, the number of the next
/// request, and how long a call may take.
#[derive(Debug)]
pub struct DaemonBackend {
    pub socket_path: String,
    pub next_id: u64,
    /// The time that one call may take, in milliseconds.
    pub timeout_ms: u64,
}

impl DaemonBackend {
    /// A client of the daemon at `socket_path`, whose first request has the
    /// number 1 and whose calls may take 30 seconds.
    pub fn new(socket_path: &str) -> (backend: DaemonBackend)
        ensures
            backend.socket_path@ == socket_path@,
            backend.next_id == 1,
            backend.timeout_ms == DEFAULT_TIMEOUT_MS,
    {
        DaemonBackend {
            socket_path: owned(socket_path),
            next_id: 1,
            timeout_ms: DEFAULT_TIMEOUT_MS,
        }
    }

    /// A client of the daemon at the default socket, `/tmp/craftobj.sock`.
    pub fn default_socket() -> (backend: DaemonBackend)
        ensures
            backend.socket_path@ == default_socket_path(),
            backend.next_id == 1,
            backend.timeout_ms == DEFAULT_TIMEOUT_MS,
    {
        Self::new("/tmp/craftobj.sock")
    }

    /// The same client with another limit on the time of a call, in
    /// milliseconds.
    pub fn with_timeout(self, timeout_ms: u64) -> (backend: DaemonBackend)
        ensures
            backend.socket_path == self.socket_path,
            backend.next_id == self.next_id,
            backend.timeout_ms == timeout_ms,
    {
        DaemonBackend { socket_path: self.socket_path, next_id: self.next_id, timeout_ms }
    }

    /// The next request: it takes the next number, and the number after it
    /// is one more, starting over at zero after the largest.
    pub fn next_request(&mut self, method: &str, params: Option<RpcParams>) -> (request: RpcRequest)
        ensures
            request.jsonrpc@ == "2.0"@,
            request.method@ == method@,
            request.params == params,
            request.id == old(self).next_id,
            final(self).next_id == if old(self).next_id == u64::MAX {
                0
            } else {
                old(self).next_id + 1
            },
            final(self).socket_path == old(self).socket_path,
            final(self).timeout_ms == old(self).timeout_ms,
    {
        let id = self.next_id;
        self.next_id = self.next_id.wrapping_add(1);
        RpcRequest { jsonrpc: owned("2.0"), method: owned(method), params, id }
    }

    /// The request to publish the file at `path`.
    pub fn publish_request(&mut self, path: &str) -> (request: RpcRequest)
        ensures
            request.jsonrpc@ == "2.0"@,
            request.method@ == "publish"@,
            request.params matches Some(RpcParams::Publish { path: p }) && p@ == path@,
            request.id == old(self).next_id,
            final(self).next_id == if old(self).next_id == u64::MAX {
                0
            } else {
                old(self).next_id + 1
            },
    {
        self.next_request("publish", Some(RpcParams::Publish { path: owned(path) }))
    }

    /// The request to fetch the object `cid` into the file `output`.
    pub fn fetch_request(&mut self, cid: &Cid, output: &str) -> (request: RpcRequest)
        ensures
            request.jsonrpc@ == "2.0"@,
            request.method@ == "fetch"@,
            request.params matches Some(RpcParams::Fetch { cid: c, output: o }) && c@
                == crate::cid::hex_text(cid@) && o@ == output@,
            request.id == old(self).next_id,
            final(self).next_id == if old(self).next_id == u64::MAX {
                0
            } else {
                old(self).next_id + 1
            },
    {
        self.next_request(
            "fetch",
            Some(RpcParams::Fetch { cid: cid.to_hex(), output: owned(output) }),
        )
    }

    /// A message as it goes over the socket: its text and one line feed.
    pub fn line(json: &str) -> (line: String)
        ensures
            line@ == json@.push('\n'),
    {
        let line = joined(json, "\n");
        proof {
            reveal_strlit("\n");
            assert("\n"@ =~= seq!['\n']);
            assert(json@ + seq!['\n'] =~= json@.push('\n'));
        }
        line
    }

    /// The error for a daemon that cannot be reached.
    pub fn not_running(&self, reason: &str) -> (err: PageStoreError)
        ensures
            err matches PageStoreError::Storage(msg) && msg@ == "daemon not running at "@
                + self.socket_path@ + ": "@ + reason@,
    {
        let at = joined("daemon not running at ", self.socket_path.as_str());
        let with_colon = joined(at.as_str(), ": ");
        PageStoreError::Storage(joined(with_colon.as_str(), reason))
    }

    /// What a response means: its result, or a storage error where it
    /// carries an error or has no result.
    pub fn check_response(response: RpcResponse) -> (res: Result<RpcResult, PageStoreError>)
        ensures
            match response.error {
                Some(error) => res matches Err(PageStoreError::Storage(msg)) && exists|
                    code: String,
                |
                    #![trigger vstd::string::to_string_from_display_ensures::<i32>(&error.code, code)]
                    vstd::string::to_string_from_display_ensures::<i32>(&error.code, code) && msg@
                        == "daemon error "@ + code@ + ": "@ + error.message@,
                None => match response.result {
                    Some(result) => res == Ok::<RpcResult, PageStoreError>(result),
                    None => res matches Err(PageStoreError::Storage(msg)) && msg@
                        == "empty daemon response"@,
                },
            },
    {
        if let Some(error) = response.error {
            let number = error.code.to_string();
            let code = joined("daemon error ", number.as_str());
            let with_colon = joined(code.as_str(), ": ");
            let text = joined(with_colon.as_str(), error.message.as_str());
            return Err(PageStoreError::Storage(text));
        }
        match response.result {
            Some(result) => Ok(result),
            None => Err(PageStoreError::Storage(owned("empty daemon response"))),
        }
    }

    /// The identifier of published data: that of its bytes, once the
    /// daemon's result names an identifier.
    pub fn published(data: &[u8], result: &RpcResult) -> (res: Result<Cid, PageStoreError>)
        ensures
            match result.cid {
                Some(_) => res == Ok::<Cid, PageStoreError>(Cid::of(data@)),
                None => res matches Err(PageStoreError::Storage(msg)) && msg@
                    == "missing cid in publish response"@,
            },
    {
        match &result.cid {
            Some(_) => Ok(Cid::from_bytes(data)),
            None => Err(PageStoreError::Storage(owned("missing cid in publish response"))),
        }
    }

    /// The name of the file that a fetch writes to: `craftsql-fetch-` and
    /// the first 16 hexadecimal digits of the identifier.
    pub fn fetch_file_name(cid: &Cid) -> (name: String)
        ensures
            name@ == "craftsql-fetch-"@ + crate::cid::hex_text(cid@).subrange(0, 16),
    {
        joined("craftsql-fetch-", cid.to_string().as_str())
    }

    /// The file that holds fetched data: the one that the result names,
    /// else the one that was asked for.
    pub fn fetched_path(result: RpcResult, output: String) -> (path: String)
        ensures
            path == match result.path {
                Some(p) => p,
                None => output,
            },
    {
        match result.path {
            Some(p) => p,
            None => output,
        }
    }

    /// Fetched data, if its digest is the identifier asked for; a storage
    /// error if it is not.
    pub fn check_fetched(cid: &Cid, data: Vec<u8>) -> (res: Result<Vec<u8>, PageStoreError>)
        ensures
            res is Ok <==> *cid == Cid::of(data@),
            res matches Ok(bytes) ==> bytes == data,
            res matches Err(e) ==> e matches PageStoreError::Storage(msg) && msg@ == (
            "CID mismatch after fetch: expected "@ + crate::cid::hex_text(cid@).subrange(0, 16)) + (", got "@
                + crate::cid::hex_text(crate::cid::sha256(data@)).subrange(0, 16)),
    {
        let actual = Cid::from_bytes(data.as_slice());
        if actual != *cid {
            let expected = joined("CID mismatch after fetch: expected ", cid.to_string().as_str());
            let got = joined(", got ", actual.to_string().as_str());
            return Err(PageStoreError::Storage(joined(expected.as_str(), got.as_str())));
        }
        Ok(data)
    }

    /// The root on the network: none, since the daemon keeps no roots.
    pub fn get_root(&self) -> (res: Result<Option<Cid>, PageStoreError>)
        ensures
            res == Ok::<Option<Cid>, PageStoreError>(None),
    {
        Ok(None)
    }

    /// Setting the root on the network does nothing.
    pub fn set_root(&self, cid: Cid) -> (res: Result<(), PageStoreError>)
        ensures
            res is Ok,
    {
        Ok(())
    }

    /// A named root on the network: none.
    pub fn get_named_root(&self, name: &str) -> (res: Result<Option<Cid>, PageStoreError>)
        ensures
            res == Ok::<Option<Cid>, PageStoreError>(None),
    {
        Ok(None)
    }

    /// Setting a named root on the network does nothing.
    pub fn set_named_root(&self, name: &str, cid: Cid) -> (res: Result<(), PageStoreError>)
        ensures
            res is Ok,
    {
        Ok(())
    }

    /// Removing a named root from the network finds none.
    pub fn remove_named_root(&self, name: &str) -> (res: Result<bool, PageStoreError>)
        ensures
            res == Ok::<bool, PageStoreError>(false),
    {
        Ok(false)
    }

    /// The named roots on the network: none.
    pub fn list_named_roots(&self) -> (res: Result<Vec<(String, Cid)>, PageStoreError>)
        ensures
            res matches Ok(roots) && roots@.len() == 0,
    {
        Ok(Vec::new())
    }
}

} // verus!
