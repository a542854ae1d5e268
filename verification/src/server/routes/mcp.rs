//! The decisions of the agent endpoint: which JSON-RPC method and tool a call
//! names, which arguments it must carry, which source a download uses, and
//! whether the bearer token is the configured one.

use vstd::prelude::*;

use crate::catalog::SourceOption;
use crate::json::{field, text_of, unsigned_of, JsonValue};
use crate::text::{byte_len, opt_text, owned, trim};

verus! {

/// Protocol revision this endpoint implements.
pub const PROTOCOL_VERSION: &'static str = "2025-06-18";

pub const SERVER_NAME: &'static str = "moviebox";

/// The JSON-RPC methods the endpoint answers.
#[derive(Debug, Clone, Copy, PartialEq, Eq, Structural)]
pub enum RpcMethod {
    Initialize,
    Ping,
    ToolsList,
    ToolsCall,
    /// Answered with error -32601.
    NotFound,
}

pub fn rpc_method(method: &str) -> (r: RpcMethod)
    ensures
        r == if method@ == "initialize"@ {
            RpcMethod::Initialize
        } else if method@ == "ping"@ {
            RpcMethod::Ping
        } else if method@ == "tools/list"@ {
            RpcMethod::ToolsList
        } else if method@ == "tools/call"@ {
            RpcMethod::ToolsCall
        } else {
            RpcMethod::NotFound
        },
{
    if crate::text::str_eq(method, "initialize") {
        RpcMethod::Initialize
    } else if crate::text::str_eq(method, "ping") {
        RpcMethod::Ping
    } else if crate::text::str_eq(method, "tools/list") {
        RpcMethod::ToolsList
    } else if crate::text::str_eq(method, "tools/call") {
        RpcMethod::ToolsCall
    } else {
        RpcMethod::NotFound
    }
}

/// The tools an agent may call.
#[derive(Debug, Clone, Copy, PartialEq, Eq, Structural)]
pub enum Tool {
    SearchCatalog,
    ListSources,
    StartDownload,
    ListDownloads,
    GetDownload,
}

/// The tool a name stands for.
pub open spec fn tool_of(name: Seq<char>) -> Option<Tool> {
    if name == "search_catalog"@ {
        Some(Tool::SearchCatalog)
    } else if name == "list_sources"@ {
        Some(Tool::ListSources)
    } else if name == "start_download"@ {
        Some(Tool::StartDownload)
    } else if name == "list_downloads"@ {
        Some(Tool::ListDownloads)
    } else if name == "get_download"@ {
        Some(Tool::GetDownload)
    } else {
        None
    }
}

/// The tool a call names, or the message for an unknown one.
pub fn tool_named(name: &str) -> (r: Result<Tool, String>)
    ensures
        match tool_of(name@) {
            Some(t) => r == Ok::<Tool, String>(t),
            None => r matches Err(m) && m@ == "unknown tool: "@ + name@,
        },
{
    if crate::text::str_eq(name, "search_catalog") {
        Ok(Tool::SearchCatalog)
    } else if crate::text::str_eq(name, "list_sources") {
        Ok(Tool::ListSources)
    } else if crate::text::str_eq(name, "start_download") {
        Ok(Tool::StartDownload)
    } else if crate::text::str_eq(name, "list_downloads") {
        Ok(Tool::ListDownloads)
    } else if crate::text::str_eq(name, "get_download") {
        Ok(Tool::GetDownload)
    } else {
        Err(crate::text::joined("unknown tool: ", name))
    }
}

/// A text argument the tool requires.
pub fn string_argument(arguments: &JsonValue, key: &str) -> (r: Result<String, String>)
    ensures
        match crate::json::text_field(*arguments, key@) {
            Some(t) => r matches Ok(s) && s@ == t,
            None => r matches Err(m) && m@ == "missing required argument: "@ + key@,
        },
{
    match crate::json::get_text(arguments, key) {
        Some(t) => Ok(owned(t)),
        None => Err(crate::text::joined("missing required argument: ", key)),
    }
}

/// A season or episode argument: a whole number that fits `u16`.
pub fn optional_u16(arguments: &JsonValue, key: &str) -> (r: Option<u16>)
    ensures
        r == match field(*arguments, key@) {
            Some(x) => match unsigned_of(x) {
                Some(n) => if n <= 65535 {
                    Some(n as u16)
                } else {
                    None
                },
                None => None,
            },
            None => None,
        },
{
    match crate::json::get(arguments, key) {
        Some(x) => match crate::json::as_unsigned(x) {
            Some(n) => {
                if n <= 65535 {
                    Some(n as u16)
                } else {
                    None
                }
            },
            None => None,
        },
        None => None,
    }
}

/// A whole-number argument, the default when it is missing, kept within `1..=50`.
pub open spec fn bounded_argument(arguments: JsonValue, key: Seq<char>, default: u64) -> u32 {
    let n: u64 = match field(arguments, key) {
        Some(x) => match unsigned_of(x) {
            Some(n) => n,
            None => default,
        },
        None => default,
    };
    if n < 1 {
        1
    } else if n > 50 {
        50
    } else {
        n as u32
    }
}

fn bounded(arguments: &JsonValue, key: &str, default: u64) -> (r: u32)
    ensures
        r == bounded_argument(*arguments, key@, default),
{
    let n: u64 = match crate::json::get(arguments, key) {
        Some(x) => match crate::json::as_unsigned(x) {
            Some(n) => n,
            None => default,
        },
        None => default,
    };
    if n < 1 {
        1
    } else if n > 50 {
        50
    } else {
        n as u32
    }
}

/// The page a search asks for: one when missing.
pub fn page_argument(arguments: &JsonValue) -> (r: u32)
    ensures
        r == bounded_argument(*arguments, "page"@, 1),
{
    bounded(arguments, "page", 1)
}

/// How many downloads a listing shows: twenty when missing.
pub fn limit_argument(arguments: &JsonValue) -> (r: u32)
    ensures
        r == bounded_argument(*arguments, "limit"@, 20),
{
    bounded(arguments, "limit", 20)
}

/// The query of a search: trimmed, and between 2 and 100 bytes long.
pub fn search_query(arguments: &JsonValue) -> (r: Result<String, String>)
    ensures
        match crate::json::text_field(*arguments, "query"@) {
            None => r matches Err(m) && m@ == "missing required argument: query"@,
            Some(q) => if 2 <= byte_len(trim(q)) && byte_len(trim(q)) <= 100 {
                r matches Ok(s) && s@ == trim(q)
            } else {
                r matches Err(m) && m@ == "query must be between 2 and 100 characters"@
            },
        },
{
    let query = match string_argument(arguments, "query") {
        Ok(q) => q,
        Err(m) => {
            proof {
                reveal_strlit("missing required argument: ");
                reveal_strlit("query");
                reveal_strlit("missing required argument: query");
                assert("missing required argument: "@ + "query"@ =~= "missing required argument: query"@);
            }
            return Err(m);
        },
    };
    let trimmed = crate::text::trim_chars(crate::text::chars_of(query.as_str()).as_slice());
    let n = crate::text::byte_len_of(trimmed.as_slice());
    if !(2 <= n && n <= 100) {
        return Err(owned("query must be between 2 and 100 characters"));
    }
    Ok(crate::text::string_of(trimmed.as_slice()))
}

/// The source a download uses: the named one, else the best within the
/// ceiling; either must be within the ceiling.
pub fn download_source(sources: &Vec<SourceOption>, requested: Option<&str>, ceiling: u16) -> (r: Result<usize, String>)
    ensures
        match requested {
            Some(id) => match r {
                Ok(i) => i < sources@.len() && sources@[i as int].id.0@ == id@ && (forall|j: int|
                    0 <= j < i ==> (#[trigger] sources@[j]).id.0@ != id@) && sources@[i as int].height <= ceiling,
                Err(_) => (forall|j: int| 0 <= j < sources@.len() ==> (#[trigger] sources@[j]).id.0@ != id@)
                    || exists|i: int| 0 <= i < sources@.len() && (#[trigger] sources@[i]).id.0@ == id@ && (forall|j: int|
                        0 <= j < i ==> (#[trigger] sources@[j]).id.0@ != id@) && sources@[i].height > ceiling,
            },
            None => match r {
                Ok(i) => crate::catalog::quality::picked(sources@, ceiling, i as int),
                Err(_) => forall|j: int| 0 <= j < sources@.len() ==> (#[trigger] sources@[j]).height > ceiling,
            },
        },
{
    let index = match requested {
        Some(id) => {
            let mut i: usize = 0;
            let mut found: Option<usize> = None;
            while i < sources.len() && found.is_none()
                invariant
                    i <= sources@.len(),
                    found is None ==> forall|j: int| 0 <= j < i ==> (#[trigger] sources@[j]).id.0@ != id@,
                    found matches Some(k) ==> k < sources@.len() && sources@[k as int].id.0@ == id@ && forall|j: int|
                        0 <= j < k ==> (#[trigger] sources@[j]).id.0@ != id@,
                decreases sources@.len() - i + if found is None { 1int } else { 0int },
            {
                if crate::text::str_eq(sources[i].id.0.as_str(), id) {
                    found = Some(i);
                } else {
                    i = i + 1;
                }
            }
            match found {
                Some(k) => k,
                None => return Err(owned("that source id is not available for this item")),
            }
        },
        None => match crate::catalog::quality::best_within_index(sources.as_slice(), ceiling) {
            Some(k) => k,
            None => return Err(owned("no source is available at or below the limit")),
        },
    };
    if sources[index].height > ceiling {
        return Err(owned("that source exceeds the limit"));
    }
    Ok(index)
}

/// The token after `Bearer ` in an `Authorization` header, trimmed.
pub open spec fn bearer_token(authorization: Option<Seq<char>>) -> Option<Seq<char>> {
    match authorization {
        Some(h) => if crate::text::starts_with(h, "Bearer "@) {
            Some(trim(h.skip(7)))
        } else {
            None
        },
        None => None,
    }
}

/// Whether the presented bearer token is the configured one; both are hashed
/// first, so the comparison runs over fixed-length digests.
pub fn presented_token_matches(authorization: Option<&str>, expected: &str) -> (r: bool)
    ensures
        r == match bearer_token(crate::server::notify::opt_str(authorization)) {
            Some(t) => crate::server::config::sha256_digest(vstd::utf8::encode_utf8(t))
                == crate::server::config::sha256_digest(vstd::utf8::encode_utf8(expected@)),
            None => false,
        },
{
    let header = match authorization {
        Some(h) => crate::text::chars_of(h),
        None => return false,
    };
    let prefix = crate::text::chars_of("Bearer ");
    proof {
        reveal_strlit("Bearer ");
    }
    if !crate::text::starts_with_chars(header.as_slice(), prefix.as_slice()) {
        return false;
    }
    let rest = crate::text::slice_chars(header.as_slice(), 7, header.len());
    assert(rest@ =~= header@.skip(7));
    let presented = crate::text::string_of(crate::text::trim_chars(rest.as_slice()).as_slice());
    let a = crate::server::config::sha256(presented.as_str().as_bytes_vec().as_slice());
    let b = crate::server::config::sha256(expected.as_bytes_vec().as_slice());
    let mut same = true;
    let mut i: usize = 0;
    assert(a@.take(0) =~= b@.take(0));
    while i < 32
        invariant
            a@.len() == 32,
            b@.len() == 32,
            i <= 32,
            same == (a@.take(i as int) == b@.take(i as int)),
        decreases 32 - i,
    {
        if a[i] != b[i] {
            same = false;
        }
        proof {
            assert(a@.take(i + 1) == a@.take(i as int).push(a@[i as int]));
            assert(b@.take(i + 1) == b@.take(i as int).push(b@[i as int]));
            if a@.take(i + 1) == b@.take(i + 1) {
                assert(a@.take(i + 1)[i as int] == b@.take(i + 1)[i as int]);
                assert(a@.take(i as int) =~= a@.take(i + 1).drop_last());
                assert(b@.take(i as int) =~= b@.take(i + 1).drop_last());
            }
        }
        i = i + 1;
    }
    assert(a@.take(32) =~= a@);
    assert(b@.take(32) =~= b@);
    same
}

} // verus!
