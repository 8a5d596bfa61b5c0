use vstd::prelude::*;
use crate::text::{decimal_chars, decimal_string, percent_encode, percent_encoded};

verus! {

/// Events sent to the tracker
#[derive(Debug, Clone, Copy, PartialEq, Eq, Structural)]
pub enum TrackerEvent {
    Started,
    Stopped,
    Completed,
}

impl TrackerEvent {
    /// The name of the event in a request.
    pub open spec fn name(&self) -> Seq<char> {
        match self {
            TrackerEvent::Started => "started"@,
            TrackerEvent::Stopped => "stopped"@,
            TrackerEvent::Completed => "completed"@,
        }
    }

    pub fn as_str(&self) -> (name: &'static str)
        ensures
            name@ == self.name(),
    {
        match self {
            TrackerEvent::Started => "started",
            TrackerEvent::Stopped => "stopped",
            TrackerEvent::Completed => "completed",
        }
    }
}

/// Request parameters for tracker communication
#[derive(Debug, Clone)]
pub struct TrackerRequest {
    /// SHA-1 hash of the info dictionary
    pub info_hash: [u8; 20],
    /// Unique peer ID
    pub peer_id: [u8; 20],
    /// Port this peer is listening on
    pub port: u16,
    /// Total amount uploaded
    pub uploaded: u64,
    /// Total amount downloaded
    pub downloaded: u64,
    /// Number of bytes left to download
    pub left: u64,
    /// Event (optional)
    pub event: Option<TrackerEvent>,
    /// Request compact peer list format
    pub compact: bool,
}

/// The meaning of a list of query parameters.
pub open spec fn params_view(params: Seq<(String, String)>) -> Seq<(Seq<char>, Seq<char>)> {
    Seq::new(params.len(), |i: int| (params[i].0@, params[i].1@))
}

impl TrackerRequest {
    /// The request that opens a download: nothing moved yet, `left` bytes
    /// to go, the event `started`, the compact peer list asked for.
    pub fn new(info_hash: [u8; 20], peer_id: [u8; 20], port: u16, left: u64) -> (request:
        TrackerRequest)
        ensures
            request.info_hash == info_hash,
            request.peer_id == peer_id,
            request.port == port,
            request.uploaded == 0,
            request.downloaded == 0,
            request.left == left,
            request.event == Some(TrackerEvent::Started),
            request.compact,
    {
        TrackerRequest {
            info_hash,
            peer_id,
            port,
            uploaded: 0,
            downloaded: 0,
            left,
            event: Some(TrackerEvent::Started),
            compact: true,
        }
    }

    /// The query parameters of the request, in the order in which they are
    /// sent: the hashes percent-encoded byte by byte, the numbers in
    /// decimal, `compact` as `1` or `0`, and the event, if there is one, by
    /// name.
    pub open spec fn spec_query_params(&self) -> Seq<(Seq<char>, Seq<char>)> {
        let fixed = seq![
            ("info_hash"@, percent_encoded(self.info_hash@)),
            ("peer_id"@, percent_encoded(self.peer_id@)),
            ("port"@, decimal_chars(self.port as nat)),
            ("uploaded"@, decimal_chars(self.uploaded as nat)),
            ("downloaded"@, decimal_chars(self.downloaded as nat)),
            ("left"@, decimal_chars(self.left as nat)),
            ("compact"@, if self.compact { "1"@ } else { "0"@ }),
        ];
        match self.event {
            Some(event) => fixed.push(("event"@, event.name())),
            None => fixed,
        }
    }

    /// Build query parameters for HTTP request
    pub fn to_query_params(&self) -> (params: Vec<(String, String)>)
        ensures
            params_view(params@) == self.spec_query_params(),
    {
        let mut params: Vec<(String, String)> = Vec::new();
        params.push(("info_hash".to_owned(), urlencoded_hash(&self.info_hash)));
        params.push(("peer_id".to_owned(), urlencoded_hash(&self.peer_id)));
        params.push(("port".to_owned(), decimal_string(self.port as u64)));
        params.push(("uploaded".to_owned(), decimal_string(self.uploaded)));
        params.push(("downloaded".to_owned(), decimal_string(self.downloaded)));
        params.push(("left".to_owned(), decimal_string(self.left)));
        let compact: &str = if self.compact {
            "1"
        } else {
            "0"
        };
        params.push(("compact".to_owned(), compact.to_owned()));
        match &self.event {
            Some(event) => {
                params.push(("event".to_owned(), event.as_str().to_owned()));
            },
            None => {},
        }
        assert(params_view(params@) =~= self.spec_query_params());
        params
    }
}

/// URL-encode a hash for tracker requests
pub fn urlencoded_hash(hash: &[u8; 20]) -> (text: String)
    ensures
        text@ == percent_encoded(hash@),
{
    percent_encode(hash.as_slice())
}

} // verus!
