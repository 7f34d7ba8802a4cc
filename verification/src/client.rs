//! What the dashboard in the browser asks the server, and how it reads the
//! answers.
//!
//! A machine is always named by its id; the server knows where it is.

use vstd::prelude::*;
use vstd::utf8::*;

use crate::json::{member, member_of, opt_json, Json, JsonView};
use crate::numbers::{decimal, to_decimal};
use crate::text::{concat2, concat3};
use crate::urls::{encode_path, encoded};

verus! {

/// Whether a machine is online.
#[derive(Debug, Clone)]
pub struct DeviceStatus {
    pub id: String,
    pub online: bool,
}

/// An entry of a directory.
#[derive(Debug, Clone)]
pub struct Entry {
    pub name: String,
    pub path: String,
    pub is_dir: bool,
    pub size: u64,
    pub mode: String,
}

/// A directory.
#[derive(Debug, Clone)]
pub struct Listing {
    pub path: String,
    pub root: String,
    pub parent: Option<String>,
    pub at_root: bool,
    pub entries: Vec<Entry>,
}

/// A container.
#[derive(Debug, Clone)]
pub struct Container {
    pub device: String,
    pub name: String,
    pub status: String,
    pub running: bool,
}

/// What is said of an answer that is no success: that the session has expired,
/// or what the server says, or at least the status.
pub open spec fn complaint(status: u16, body: Option<JsonView>) -> Option<Seq<char>> {
    if status == 401 {
        Some("Session expired — reload to sign in again"@)
    } else if 200 <= status < 300 {
        None
    } else {
        Some(
            match member(body, "error"@) {
                Some(JsonView::Str(e)) => e,
                _ => "HTTP "@ + decimal(status as nat),
            },
        )
    }
}

/// What is wrong with an answer, given its body where that is JSON; nothing for a
/// success.
pub fn decode(status: u16, body: Option<&Json>) -> (r: Option<String>)
    ensures
        match (r, complaint(status, opt_json(body))) {
            (Some(e), Some(v)) => e@ == v,
            (None, None) => true,
            _ => false,
        },
{
    if status == 401 {
        return Some(String::from_str("Session expired — reload to sign in again"));
    }
    if 200 <= status && status < 300 {
        return None;
    }
    match member_of(body, "error") {
        Some(Json::Str(e)) => Some(e.clone()),
        _ => Some(concat2("HTTP ", to_decimal(status as u128).as_str())),
    }
}

/// Where the data of a widget are.
pub fn widget_data_url(id: &str) -> (r: String)
    ensures
        r@ == "/api/widget/"@ + id@,
{
    concat2("/api/widget/", id)
}

/// Where a widget is changed and removed.
pub fn widget_url(id: &str) -> (r: String)
    ensures
        r@ == "/api/widgets/"@ + id@,
{
    concat2("/api/widgets/", id)
}

/// What is asked of a machine.
#[derive(Debug, Clone, Copy, PartialEq, Eq, Structural)]
pub enum Ask {
    Stats,
    Power,
    Wake,
}

/// Where that is asked of a machine.
pub fn device_url(id: &str, ask: Ask) -> (r: String)
    ensures
        r@ == "/api/devices/"@ + id@ + match ask {
            Ask::Stats => "/stats"@,
            Ask::Power => "/power"@,
            Ask::Wake => "/wake"@,
        },
{
    concat3(
        "/api/devices/",
        id,
        match ask {
            Ask::Stats => "/stats",
            Ask::Power => "/power",
            Ask::Wake => "/wake",
        },
    )
}

/// Where a directory of a machine is listed.
pub fn files_url(id: &str, path: &str) -> (r: String)
    ensures
        r@ == "/api/devices/"@ + id@ + "/files?path="@ + encoded(encode_utf8(path@), true),
{
    let head = concat3("/api/devices/", id, "/files?path=");
    concat2(head.as_str(), encode_path(path).as_str())
}

/// Where a file of a machine is read.
pub fn file_url(id: &str, path: &str) -> (r: String)
    ensures
        r@ == "/api/devices/"@ + id@ + "/file?path="@ + encoded(encode_utf8(path@), true),
{
    let head = concat3("/api/devices/", id, "/file?path=");
    concat2(head.as_str(), encode_path(path).as_str())
}

/// A success is no complaint. An expired session is told as one, whatever the
/// server says; any other failure is told in the server's words, or by its status
/// where there are none.
pub proof fn a_failure_is_told_in_the_servers_words(
    status: u16,
    body: Option<JsonView>,
    words: Seq<char>,
)
    ensures
        complaint(401, body) == Some("Session expired — reload to sign in again"@),
        complaint(status, body) is None <==> 200 <= status <= 299,
        member(body, "error"@) == Some(JsonView::Str(words)) && status != 401 && (status < 200
            || status > 299) ==> complaint(status, body) == Some(words),
        member(body, "error"@) is None && status != 401 && (status < 200 || status > 299)
            ==> complaint(status, body) == Some("HTTP "@ + decimal(status as nat)),
{
}

} // verus!
