use vstd::prelude::*;
use vstd::slice::slice_to_vec;
use vstd::string::StringSliceAdditionalSpecFns;
use vstd::utf8::{decode_utf8, valid_utf8};
use crate::bencode::model::{Bencode, dict_lookup};
use crate::bencode::value::{BencodeValue, items_view};
use crate::error::{BittorrentError, tracker_error};
use crate::torrent::metainfo::{bytes_of, integer_of, text_of};
use crate::tracker::peer::{
    HostModel, Peer, PeerHost, PeerModel, compact_peers, peers_view,
};

verus! {

/// Response from a tracker
#[derive(Debug, Clone)]
pub struct TrackerResponse {
    /// Interval in seconds to wait before next request
    pub interval: u64,
    /// Minimum announce interval (optional)
    pub min_interval: Option<u64>,
    /// Tracker ID (optional)
    pub tracker_id: Option<String>,
    /// Number of seeders (optional)
    pub complete: Option<u64>,
    /// Number of leechers (optional)
    pub incomplete: Option<u64>,
    /// List of peers
    pub peers: Vec<Peer>,
}

/// The meaning of a `TrackerResponse`.
pub struct ResponseModel {
    pub interval: u64,
    pub min_interval: Option<u64>,
    pub tracker_id: Option<Seq<char>>,
    pub complete: Option<u64>,
    pub incomplete: Option<u64>,
    pub peers: Seq<PeerModel>,
}

impl View for TrackerResponse {
    type V = ResponseModel;

    open spec fn view(&self) -> ResponseModel {
        ResponseModel {
            interval: self.interval,
            min_interval: self.min_interval,
            tracker_id: match self.tracker_id {
                Some(id) => Some(id@),
                None => None,
            },
            complete: self.complete,
            incomplete: self.incomplete,
            peers: peers_view(self.peers@),
        }
    }
}

/// A count that may be there: an integer, cut to 64 bits unsigned.
pub open spec fn count_of(v: Option<Bencode>) -> Option<u64> {
    match v {
        Some(Bencode::Integer(i)) => Some(i as u64),
        _ => None,
    }
}

/// The peer that a dictionary describes: a text `ip`, an integer `port` cut
/// to 16 bits, and `peer id` bytes that may be there.
pub open spec fn spec_peer(v: Bencode) -> Option<PeerModel> {
    match v {
        Bencode::Dict(e) => match (
            text_of(dict_lookup(e, "ip".spec_bytes())),
            integer_of(dict_lookup(e, "port".spec_bytes())),
        ) {
            (Some(ip), Some(port)) => Some(
                PeerModel {
                    host: HostModel::Text(ip),
                    port: port as u16,
                    peer_id: bytes_of(dict_lookup(e, "peer id".spec_bytes())),
                },
            ),
            _ => None,
        },
        _ => None,
    }
}

/// The peers of a response: a byte string is a compact list, a list holds
/// one dictionary for each peer.
pub open spec fn spec_peers(v: Option<Bencode>) -> Option<Seq<PeerModel>> {
    match v {
        Some(Bencode::Bytes(b)) => Some(compact_peers(b)),
        Some(Bencode::List(l)) => if forall|i: int| 0 <= i < l.len() ==> spec_peer(#[trigger] l[i]) is Some {
            Some(Seq::new(l.len(), |i: int| spec_peer(l[i])->Some_0))
        } else {
            None
        },
        _ => None,
    }
}

/// What a decoded response says, if it is a dictionary without
/// `failure reason`, with an integer `interval` and with `peers`.
pub open spec fn spec_response(v: Bencode) -> Option<ResponseModel> {
    match v {
        Bencode::Dict(e) => match (
            dict_lookup(e, "failure reason".spec_bytes()),
            integer_of(dict_lookup(e, "interval".spec_bytes())),
            spec_peers(dict_lookup(e, "peers".spec_bytes())),
        ) {
            (None, Some(interval), Some(peers)) => Some(
                ResponseModel {
                    interval: interval as u64,
                    min_interval: count_of(dict_lookup(e, "min interval".spec_bytes())),
                    tracker_id: text_of(dict_lookup(e, "tracker id".spec_bytes())),
                    complete: count_of(dict_lookup(e, "complete".spec_bytes())),
                    incomplete: count_of(dict_lookup(e, "incomplete".spec_bytes())),
                    peers,
                },
            ),
            _ => None,
        },
        _ => None,
    }
}

/// The reason that a response gives for a failure: the text of its
/// `failure reason`.
pub open spec fn spec_failure_reason(v: Bencode) -> Option<Seq<char>> {
    match v {
        Bencode::Dict(e) => text_of(dict_lookup(e, "failure reason".spec_bytes())),
        _ => None,
    }
}

/// A count that may be bound to `key`.
fn optional_count(value: &BencodeValue, key: &[u8]) -> (r: Option<u64>)
    requires
        value@ is Dict,
    ensures
        r == count_of(dict_lookup(value@->Dict_0, key@)),
{
    match value.dict_get_int(key) {
        Some(i) => Some(
            #[verifier::truncate]
            (i as u64),
        ),
        None => None,
    }
}

/// The peers that a list of dictionaries describes.
#[verifier::loop_isolation(false)]
pub fn parse_peer_list(list: &[BencodeValue]) -> (r: Result<Vec<Peer>, BittorrentError>)
    ensures
        match r {
            Ok(peers) => spec_peers(Some(Bencode::List(items_view(list@)))) == Some(
                peers_view(peers@),
            ),
            Err(e) => spec_peers(Some(Bencode::List(items_view(list@)))) is None
                && e is TrackerError,
        },
{
    broadcast use vstd::utf8::encode_utf8_decode_utf8;

    let ghost items = items_view(list@);
    let mut peers: Vec<Peer> = Vec::new();
    let mut i: usize = 0;
    while i < list.len()
        invariant
            i <= list.len(),
            peers@.len() == i,
            forall|j: int| 0 <= j < i ==> spec_peer(#[trigger] items[j]) == Some(peers@[j]@),
        decreases list.len() - i,
    {
        let peer_value: &BencodeValue = &list[i];
        assert(items[i as int] == peer_value@);
        if peer_value.as_dict().is_none() {
            return Err(tracker_error("Peer must be a dict"));
        }
        let ip: String = match peer_value.dict_get_str("ip".as_bytes()) {
            Some(t) => t.to_owned(),
            None => {
                return Err(tracker_error("Missing peer 'ip'"));
            },
        };
        let port: u16 = match peer_value.dict_get_int("port".as_bytes()) {
            Some(n) => #[verifier::truncate]
            (n as u16),
            None => {
                return Err(tracker_error("Missing peer 'port'"));
            },
        };
        let peer_id: Option<Vec<u8>> = match peer_value.dict_get("peer id".as_bytes()) {
            Some(v) => match v.as_bytes() {
                Some(b) => Some(slice_to_vec(b)),
                None => None,
            },
            None => None,
        };
        let peer = match peer_id {
            Some(id) => Peer::with_peer_id(PeerHost::Text(ip), port, id),
            None => Peer::new(PeerHost::Text(ip), port),
        };
        peers.push(peer);
        i += 1;
    }
    assert(peers_view(peers@) =~= Seq::new(items.len(), |i: int| spec_peer(items[i])->Some_0));
    Ok(peers)
}

impl TrackerResponse {
    /// Reads a decoded tracker response.
    pub fn from_bencode(value: BencodeValue) -> (r: Result<TrackerResponse, BittorrentError>)
        ensures
            match r {
                Ok(response) => spec_response(value@) == Some(response@),
                Err(e) => {
                    &&& spec_response(value@) is None
                    &&& e is TrackerError
                    &&& spec_failure_reason(value@) matches Some(reason) ==> e.spec_message()@
                        == reason
                },
            },
    {
        broadcast use vstd::utf8::encode_utf8_decode_utf8;

        if value.as_dict().is_none() {
            return Err(tracker_error("Response must be a dict"));
        }
        match value.dict_get("failure reason".as_bytes()) {
            Some(failure) => {
                return match failure.as_str() {
                    Some(reason) => Err(tracker_error(reason)),
                    None => Err(tracker_error("Unknown failure")),
                };
            },
            None => {},
        }
        let interval: u64 = match value.dict_get_int("interval".as_bytes()) {
            Some(i) => #[verifier::truncate]
            (i as u64),
            None => {
                return Err(tracker_error("Missing 'interval' field"));
            },
        };
        let min_interval = optional_count(&value, "min interval".as_bytes());
        let tracker_id: Option<String> = match value.dict_get_str("tracker id".as_bytes()) {
            Some(t) => Some(t.to_owned()),
            None => None,
        };
        let complete = optional_count(&value, "complete".as_bytes());
        let incomplete = optional_count(&value, "incomplete".as_bytes());
        let peers: Vec<Peer> = match value.dict_get("peers".as_bytes()) {
            Some(peers_value) => match peers_value.as_bytes() {
                Some(compact) => Peer::from_compact_list(compact),
                None => match peers_value.as_list() {
                    Some(list) => match parse_peer_list(list) {
                        Ok(peers) => peers,
                        Err(e) => {
                            return Err(e);
                        },
                    },
                    None => {
                        return Err(tracker_error("Invalid 'peers' format"));
                    },
                },
            },
            None => {
                return Err(tracker_error("Missing 'peers' field"));
            },
        };
        Ok(TrackerResponse { interval, min_interval, tracker_id, complete, incomplete, peers })
    }
}

} // verus!
