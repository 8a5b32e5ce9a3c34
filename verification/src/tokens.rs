//! The tokens gateways exchange over UDP broadcast, and the answers a
//! gateway gives to the requests among them.

use base64::Engine;
use vstd::prelude::*;

use crate::directory::{search_all, MountTable};
use crate::runtime::{new_uuid, now_nanos};
use crate::security::string_views;

verus! {

/// A UDP broadcast token. Identifiers are the 128 bits of UUIDs; times are
/// nanoseconds since the Unix epoch.
#[derive(Debug)]
pub enum UdpToken {
    /// A directory search.
    DirectorySearch { searcher_id: u128, keywords: Vec<String>, search_id: u128 },
    /// The answer to a directory search.
    DirectorySearchResponse { responder_id: u128, search_id: u128, matches: Vec<String> },
    /// A request for a file.
    FileRequest { requester_id: u128, file_path: String, request_id: u128 },
    /// The answer to a file request: the file in Base64, or an error.
    FileResponse {
        responder_id: u128,
        request_id: u128,
        file_data: Option<String>,
        error: Option<String>,
    },
    /// A free-form message.
    InfoMessage { sender_id: u128, content: String, message_id: u128 },
    /// A performance probe.
    PerformanceTest { tester_id: u128, test_type: String, data_size: usize, start_time: i128 },
}

/// The character of the standard Base64 alphabet for `v < 64`:
/// `A`–`Z`, `a`–`z`, `0`–`9`, `+`, `/`.
pub open spec fn base64_char(v: int) -> char {
    if v < 26 {
        (65 + v) as char
    } else if v < 52 {
        (97 + v - 26) as char
    } else if v < 62 {
        (48 + v - 52) as char
    } else if v == 62 {
        '+'
    } else {
        '/'
    }
}

/// The standard Base64 encoding of `data` (RFC 4648, padded with `=`):
/// each group of three bytes becomes four characters of six bits each; a
/// last group of one or two bytes is padded to four characters.
pub open spec fn base64_standard(data: Seq<u8>) -> Seq<char>
    decreases data.len(),
{
    if data.len() == 0 {
        Seq::empty()
    } else {
        let b0 = data[0] as int;
        let b1 = if data.len() > 1 { data[1] as int } else { 0 };
        let b2 = if data.len() > 2 { data[2] as int } else { 0 };
        let c0 = base64_char(b0 / 4);
        let c1 = base64_char(b0 % 4 * 16 + b1 / 16);
        let c2 = base64_char(b1 % 16 * 4 + b2 / 64);
        let c3 = base64_char(b2 % 64);
        if data.len() == 1 {
            seq![c0, c1, '=', '=']
        } else if data.len() == 2 {
            seq![c0, c1, c2, '=']
        } else {
            seq![c0, c1, c2, c3] + base64_standard(data.subrange(3, data.len() as int))
        }
    }
}

/// Encodes bytes with `base64::engine::general_purpose::STANDARD.encode`:
/// the standard alphabet with padding, which `base64_standard` writes out;
/// its length is four characters per started group of three bytes, as
/// `base64::encoded_len` computes for padded output. The call panics when
/// that length does not fit in a `usize`, which the precondition rules out.
#[verifier::external_body]
fn encode_base64(data: &[u8]) -> (r: String)
    requires
        (data@.len() + 2) / 3 * 4 <= usize::MAX,
    ensures
        r@ == base64_standard(data@),
        r@.len() == (data@.len() + 2) / 3 * 4,
{
    base64::engine::general_purpose::STANDARD.encode(data)
}

/// The contents of a file as a file response carries them: Base64.
pub fn encode_file_data(data: &[u8]) -> (r: String)
    requires
        (data@.len() + 2) / 3 * 4 <= usize::MAX,
    ensures
        r@ == base64_standard(data@),
{
    encode_base64(data)
}

/// An information message with a fresh random identifier.
pub fn info_message(sender_id: u128, content: String) -> (r: UdpToken)
    ensures
        r matches UdpToken::InfoMessage { sender_id: s, content: c, .. } && s == sender_id && c == content,
{
    UdpToken::InfoMessage { sender_id, content, message_id: new_uuid() }
}

/// A directory search with a fresh random search identifier.
pub fn directory_search(searcher_id: u128, keywords: Vec<String>) -> (r: UdpToken)
    ensures
        r matches UdpToken::DirectorySearch { searcher_id: s, keywords: k, .. } && s == searcher_id && k
            == keywords,
{
    UdpToken::DirectorySearch { searcher_id, keywords, search_id: new_uuid() }
}

/// A file request with a fresh random request identifier.
pub fn file_request(requester_id: u128, file_path: String) -> (r: UdpToken)
    ensures
        r matches UdpToken::FileRequest { requester_id: q, file_path: p, .. } && q == requester_id && p
            == file_path,
{
    UdpToken::FileRequest { requester_id, file_path, request_id: new_uuid() }
}

/// A performance probe started now.
pub fn performance_probe(tester_id: u128, test_type: String, data_size: usize) -> (r: UdpToken)
    ensures
        r matches UdpToken::PerformanceTest { tester_id: t, test_type: ty, data_size: d, .. } && t
            == tester_id && ty == test_type && d == data_size,
{
    UdpToken::PerformanceTest { tester_id, test_type, data_size, start_time: now_nanos() }
}

/// The answer to a directory search: the matches among the mounted
/// directories, under the same search identifier.
pub fn answer_directory_search(
    responder_id: u128,
    mounts: &MountTable,
    search_id: u128,
    keywords: &[String],
) -> (r: UdpToken)
    ensures
        r matches UdpToken::DirectorySearchResponse { responder_id: p, search_id: s, matches } && p
            == responder_id && s == search_id && string_views(matches@) == search_all(
            mounts.mounted_indexes(),
            string_views(keywords@),
        ),
{
    let matches = mounts.search_files(keywords);
    UdpToken::DirectorySearchResponse { responder_id, search_id, matches }
}

/// The answer to a file request, given what reading the file gave: its
/// contents in Base64, or the error text.
pub fn answer_file_request(
    responder_id: u128,
    request_id: u128,
    read: Result<Vec<u8>, String>,
) -> (r: UdpToken)
    requires
        read matches Ok(data) ==> (data@.len() + 2) / 3 * 4 <= usize::MAX,
    ensures
        match read {
            Ok(data) => r matches UdpToken::FileResponse { responder_id: p, request_id: q, file_data, error }
                && p == responder_id && q == request_id && error is None && (file_data matches Some(d)
                && d@ == base64_standard(data@)),
            Err(message) => r matches UdpToken::FileResponse {
                responder_id: p,
                request_id: q,
                file_data,
                error,
            } && p == responder_id && q == request_id && file_data is None && error == Some(message),
        },
{
    match read {
        Ok(data) => {
            let encoded = encode_file_data(data.as_slice());
            UdpToken::FileResponse { responder_id, request_id, file_data: Some(encoded), error: None }
        },
        Err(message) => UdpToken::FileResponse {
            responder_id,
            request_id,
            file_data: None,
            error: Some(message),
        },
    }
}

/// What a gateway does with a token that arrived.
#[derive(Debug)]
pub enum TokenAction {
    /// Send this answer back to the sender.
    Reply(UdpToken),
    /// Read the file at `file_path` and answer request `request_id` with
    /// what the read gave (see `answer_file_request`).
    ReadFile { request_id: u128, file_path: String },
    /// Nothing to answer: the token is only recorded.
    Record,
}

/// The decision on a token that arrived at the gateway `local_id`: a
/// directory search is answered from the mounted directories, a file
/// request asks for the file to be read, and every other token is only
/// recorded.
pub fn handle_udp_token(local_id: u128, mounts: &MountTable, token: UdpToken) -> (r: TokenAction)
    ensures
        match token {
            UdpToken::DirectorySearch { search_id, keywords, .. } => r matches TokenAction::Reply(
                UdpToken::DirectorySearchResponse { responder_id: p, search_id: s, matches },
            ) && p == local_id && s == search_id && string_views(matches@) == search_all(
                mounts.mounted_indexes(),
                string_views(keywords@),
            ),
            UdpToken::FileRequest { request_id, file_path, .. } => r == (TokenAction::ReadFile {
                request_id,
                file_path,
            }),
            _ => r is Record,
        },
{
    match token {
        UdpToken::DirectorySearch { search_id, keywords, .. } => TokenAction::Reply(
            answer_directory_search(local_id, mounts, search_id, keywords.as_slice()),
        ),
        UdpToken::FileRequest { request_id, file_path, .. } => TokenAction::ReadFile {
            request_id,
            file_path,
        },
        _ => TokenAction::Record,
    }
}

} // verus!
