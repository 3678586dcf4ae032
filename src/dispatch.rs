//! The stream dispatcher: decides how a playback request is served.

use vstd::prelude::*;
use crate::catalog::{Catalog, MediaRow, has_id};
use crate::clock::now_seconds;
use crate::errors::DispatchError;
use crate::ids::{format_id, id_text};
use crate::models::{P2PPeer, StreamRequest, StreamResponse, StreamType};
use crate::peers::{
    DEFAULT_FRESHNESS_SECS, Peer, PeerRegistry, PeerView, fresh, peer_views, top_candidates,
};
use crate::range::{RangePlan, open_range_plan, resolve_from};
use crate::text::string_of;

verus! {

/// How many peers a response offers at most.
pub const DEFAULT_PEER_LIMIT: usize = 8;

/// The address at which a media item is served over HTTP:
/// `/media/<id>/stream`.
pub open spec fn playback_url(id: u128) -> Seq<char> {
    seq!['/', 'm', 'e', 'd', 'i', 'a', '/'] + id_text(id) + seq![
        '/',
        's',
        't',
        'r',
        'e',
        'a',
        'm',
    ]
}

/// Some peer of the registry is fresh at `now`.
pub open spec fn any_fresh(peers: Seq<PeerView>, now: i64, window: u64) -> bool {
    exists|k: int| 0 <= k < peers.len() && fresh(#[trigger] peers[k], now, window)
}

/// `offered` lists the peers `chosen`, in order, by identity and address.
pub open spec fn offers(offered: Seq<P2PPeer>, chosen: Seq<PeerView>) -> bool {
    &&& offered.len() == chosen.len()
    &&& forall|i: int|
        0 <= i < offered.len() ==> {
            &&& (#[trigger] offered[i]).peer_id@ == chosen[i].peer_id
            &&& offered[i].ip_address@ == chosen[i].ip_address
            &&& offered[i].port == chosen[i].port
            &&& !offered[i].has_full_file
        }
}

/// The byte range that a seek position asks for.
pub open spec fn seek_range(seek_position: Option<u64>, file_size: u64) -> Option<RangePlan> {
    match seek_position {
        Some(p) => Some(open_range_plan(file_size, p)),
        None => None,
    }
}

fn offer_peers(peers: &Vec<Peer>) -> (r: Vec<P2PPeer>)
    ensures
        offers(r@, peer_views(peers@)),
{
    let mut r: Vec<P2PPeer> = Vec::new();
    let mut i: usize = 0;
    while i < peers.len()
        invariant
            i <= peers@.len(),
            r@.len() == i,
            forall|k: int|
                0 <= k < i ==> {
                    &&& (#[trigger] r@[k]).peer_id@ == peers@[k].peer_id@
                    &&& r@[k].ip_address@ == peers@[k].ip_address@
                    &&& r@[k].port == peers@[k].port
                    &&& !r@[k].has_full_file
                },
        decreases peers@.len() - i,
    {
        let p = &peers[i];
        r.push(
            P2PPeer {
                peer_id: p.peer_id.clone(),
                ip_address: p.ip_address.clone(),
                port: p.port,
                has_full_file: false,
            },
        );
        i = i + 1;
    }
    r
}

/// The address at which a media item is served over HTTP.
pub fn playback_address(id: u128) -> (r: String)
    ensures
        r@ == playback_url(id),
{
    let mut cs: Vec<char> = Vec::new();
    cs.push('/');
    cs.push('m');
    cs.push('e');
    cs.push('d');
    cs.push('i');
    cs.push('a');
    cs.push('/');
    let text = format_id(id);
    let mut url = string_of(cs.as_slice());
    url.append(text.as_str());
    url.append(string_of(&['/', 's', 't', 'r', 'e', 'a', 'm']).as_str());
    assert(url@ =~= playback_url(id));
    url
}

/// The outcome of a dispatch at time `now`, peers fresh within `window`
/// seconds, at most `limit` of them offered: unknown media is `NotFound`;
/// known media with `prefer_p2p`, `limit > 0` and a fresh peer is served by
/// the candidate peers; other known media is served over HTTP at its
/// playback address with the seek range, or is `IOError` when its file is
/// missing. HLS is never chosen.
pub open spec fn dispatch_outcome(
    rows: Seq<MediaRow>,
    peers: Seq<PeerView>,
    request: StreamRequest,
    file_size: Option<u64>,
    limit: usize,
    now: i64,
    window: u64,
    r: Result<StreamResponse, DispatchError>,
) -> bool {
    &&& (!has_id(rows, request.media_id) ==> r == Err::<StreamResponse, DispatchError>(
        DispatchError::NotFound,
    ))
    &&& (has_id(rows, request.media_id) && request.prefer_p2p && limit > 0 && any_fresh(
            peers,
            now,
            window,
        ) ==> match r {
            Ok(resp) => resp.stream_type == StreamType::P2P && resp.url@.len() == 0
                && resp.range is None && exists|c: Seq<PeerView>|
                #![trigger top_candidates(peers, c, limit as nat, now, window)]
                top_candidates(peers, c, limit as nat, now, window) && c.len() > 0
                    && offers(resp.p2p_peers@, c),
            Err(_) => false,
        })
    &&& (has_id(rows, request.media_id) && !(request.prefer_p2p && limit > 0 && any_fresh(
            peers,
            now,
            window,
        )) ==> match file_size {
            None => r == Err::<StreamResponse, DispatchError>(DispatchError::IOError),
            Some(size) => match r {
                Ok(resp) => resp.stream_type == StreamType::HTTP && resp.url@ == playback_url(
                    request.media_id,
                ) && resp.p2p_peers@.len() == 0 && resp.range == seek_range(
                    request.seek_position,
                    size,
                ),
                Err(_) => false,
            },
        })
    &&& (match r {
            Ok(resp) => resp.stream_type != StreamType::HLS,
            Err(_) => true,
        })
}

pub struct StreamDispatcher;

impl StreamDispatcher {
    /// Decides how to serve `request` at time `now`, the file of the media
    /// being `file_size` bytes long, or missing from disk (`None`).
    ///
    /// Unknown media is `NotFound`. With `prefer_p2p` and some peer fresh
    /// within `window` seconds, the answer is P2P with the candidate peers
    /// (at most `limit`, see `PeerRegistry::candidates_at`) and no URL; a
    /// `limit` of 0 offers no peers, so it always leads to HTTP.
    /// Otherwise it is HTTP at the media's playback address, with the range
    /// from the seek position on, if one is given; a missing file is then
    /// `IOError`. HLS is never chosen. Nothing is changed.
    pub fn dispatch_at(
        catalog: &Catalog,
        registry: &PeerRegistry,
        request: &StreamRequest,
        file_size: Option<u64>,
        limit: usize,
        now: i64,
        window: u64,
    ) -> (r: Result<StreamResponse, DispatchError>)
        requires
            registry.wf(),
        ensures
            dispatch_outcome(catalog@, registry@, *request, file_size, limit, now, window, r),
    {
        if catalog.find_media(request.media_id).is_none() {
            return Err(DispatchError::NotFound);
        }
        if request.prefer_p2p {
            let chosen = registry.candidates_at(request.media_id, limit, now, window);
            if chosen.len() > 0 {
                proof {
                    let c = peer_views(chosen@);
                    assert(registry@.contains(c[0]) && fresh(c[0], now, window));
                    let k = choose|k: int| 0 <= k < registry@.len() && registry@[k] == c[0];
                    assert(fresh(registry@[k], now, window));
                }
                let p2p_peers = offer_peers(&chosen);
                return Ok(
                    StreamResponse {
                        stream_type: StreamType::P2P,
                        url: String::new(),
                        p2p_peers,
                        range: None,
                    },
                );
            }
            proof {
                let c = peer_views(chosen@);
                assert(c.len() == 0);
                if any_fresh(registry@, now, window) {
                    let k = choose|k: int| 0 <= k < registry@.len() && fresh(#[trigger] registry@[k], now, window);
                    assert(!c.contains(registry@[k]));
                }
            }
        }
        let size = match file_size {
            None => {
                return Err(DispatchError::IOError);
            },
            Some(size) => size,
        };
        let range = match request.seek_position {
            None => None,
            Some(p) => Some(resolve_from(size, p)),
        };
        Ok(
            StreamResponse {
                stream_type: StreamType::HTTP,
                url: playback_address(request.media_id),
                p2p_peers: Vec::new(),
                range,
            },
        )
    }

    /// As `dispatch_at`, now, offering at most `DEFAULT_PEER_LIMIT` peers
    /// fresh within the default five-minute window.
    pub fn dispatch(
        catalog: &Catalog,
        registry: &PeerRegistry,
        request: &StreamRequest,
        file_size: Option<u64>,
    ) -> (r: Result<StreamResponse, DispatchError>)
        requires
            registry.wf(),
        ensures
            exists|now: i64|
                #[trigger] dispatch_outcome(
                    catalog@,
                    registry@,
                    *request,
                    file_size,
                    DEFAULT_PEER_LIMIT,
                    now,
                    DEFAULT_FRESHNESS_SECS,
                    r,
                ),
    {
        let now = now_seconds();
        Self::dispatch_at(
            catalog,
            registry,
            request,
            file_size,
            DEFAULT_PEER_LIMIT,
            now,
            DEFAULT_FRESHNESS_SECS,
        )
    }
}

} // verus!
