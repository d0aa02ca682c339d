//! Who sends a request: the API key and the address of the client.

use vstd::prelude::*;
use vstd::string::*;
use vstd::utf8::encode_utf8_decode_utf8;

use crate::address::{any_covers, ip_of_text, IpAddr, IpNetwork};
use crate::config::{first_blank_key, is_blank, ApiKeyConfig, LoadedConfig};
use crate::error::{ApiError, ApiErrorView};
use crate::text::{law_split_concat, lemma_split_single, split, split_on, trim, trimmed, views};

verus! {

/// The header that carries the API key.
pub const API_KEY_HEADER: &'static str = "x-api-key";

/// The view of an optional text.
pub open spec fn opt_view(text: Option<&str>) -> Option<Seq<char>> {
    match text {
        Some(t) => Some(t@),
        None => None,
    }
}

/// Whether two byte strings are equal. Strings of different lengths are told apart at
/// once; those of one length are read to the end wherever they differ.
pub fn constant_time_eq(a: &[u8], b: &[u8]) -> (equal: bool)
    ensures
        equal == (a@ == b@),
{
    if a.len() != b.len() {
        return false;
    }
    let mut diff: u8 = 0;
    let mut i: usize = 0;
    assert(a@.take(0) =~= b@.take(0));
    while i < a.len()
        invariant
            i <= a.len(),
            a.len() == b.len(),
            diff == 0 <==> a@.take(i as int) == b@.take(i as int),
        decreases a.len() - i,
    {
        let x: u8 = a[i];
        let y: u8 = b[i];
        assert((diff | (x ^ y)) == 0 <==> (diff == 0 && x == y)) by (bit_vector);
        assert(a@.take(i + 1) =~= a@.take(i as int).push(x));
        assert(b@.take(i + 1) =~= b@.take(i as int).push(y));
        proof {
            if a@.take(i + 1) == b@.take(i + 1) {
                assert(a@.take(i as int) =~= a@.take(i + 1).drop_last());
                assert(b@.take(i as int) =~= b@.take(i + 1).drop_last());
                assert(x == a@.take(i + 1).last());
                assert(y == b@.take(i + 1).last());
            }
        }
        diff = diff | (x ^ y);
        i = i + 1;
    }
    assert(a@.take(i as int) =~= a@);
    assert(b@.take(i as int) =~= b@);
    diff == 0
}

/// Whether two texts are equal, compared as [`constant_time_eq`] does.
fn constant_time_text_eq(a: &str, b: &str) -> (equal: bool)
    ensures
        equal == (a@ == b@),
{
    proof {
        encode_utf8_decode_utf8(a@);
        encode_utf8_decode_utf8(b@);
    }
    constant_time_eq(a.as_bytes(), b.as_bytes())
}

/// The name of the last key that equals `presented`.
pub open spec fn matching_key(keys: Seq<ApiKeyConfig>, presented: Seq<char>) -> Option<Seq<char>>
    decreases keys.len(),
{
    if keys.len() == 0 {
        None
    } else if keys.last().key@ == presented {
        Some(keys.last().name@)
    } else {
        matching_key(keys.drop_last(), presented)
    }
}

/// The name of the key that a request presented, once it was found to be a known one.
pub struct AuthenticatedKey(pub String);

impl AuthenticatedKey {
    /// The key that a request presents in [`API_KEY_HEADER`]. All configured keys are
    /// compared, so the time of the answer does not tell which one matched.
    pub fn from_request_parts(presented: Option<&str>, config: &LoadedConfig) -> (res: Result<
        Self,
        ApiError,
    >)
        ensures
            match res {
                Ok(key) => presented is Some && matching_key(
                    config.config.auth.keys@,
                    presented->0@,
                ) == Some(key.0@),
                Err(err) => err@ == ApiErrorView::Unauthorized && (presented is None
                    || matching_key(config.config.auth.keys@, presented->0@) is None),
            },
            res is Ok <==> presented is Some && exists|i: int|
                0 <= i < config.config.auth.keys@.len() && (
                #[trigger] config.config.auth.keys@[i]).key@ == presented->0@,
            res matches Ok(key) ==> exists|i: int|
                0 <= i < config.config.auth.keys@.len() && (
                #[trigger] config.config.auth.keys@[i]).key@ == presented->0@
                    && config.config.auth.keys@[i].name@ == key.0@,
            res matches Err(err) ==> err is Unauthorized,
    {
        let presented = match presented {
            Some(text) => text,
            None => {
                return Err(ApiError::Unauthorized);
            },
        };
        let keys = &config.config.auth.keys;
        let mut matched: Option<usize> = None;
        let mut i: usize = 0;
        while i < keys.len()
            invariant
                i <= keys.len(),
                match matched {
                    Some(k) => k < keys.len() && matching_key(keys@.take(i as int), presented@)
                        == Some(keys@[k as int].name@),
                    None => matching_key(keys@.take(i as int), presented@) is None,
                },
            decreases keys.len() - i,
        {
            assert(keys@.take(i + 1).drop_last() =~= keys@.take(i as int));
            assert(keys@.take(i + 1).last() == keys@[i as int]);
            if constant_time_text_eq(presented, keys[i].key.as_str()) {
                matched = Some(i);
            }
            i = i + 1;
        }
        assert(keys@.take(i as int) =~= keys@);
        proof {
            law_only_configured_keys_match(keys@, presented@);
        }
        match matched {
            Some(k) => Ok(Self(keys[k].name.clone())),
            None => Err(ApiError::Unauthorized),
        }
    }
}

/// A key is accepted exactly where one of the configured keys equals it, and the name is
/// that of such a key.
pub proof fn law_only_configured_keys_match(keys: Seq<ApiKeyConfig>, presented: Seq<char>)
    ensures
        matching_key(keys, presented) is Some <==> exists|i: int|
            0 <= i < keys.len() && (#[trigger] keys[i]).key@ == presented,
        matching_key(keys, presented) matches Some(name) ==> exists|i: int|
            0 <= i < keys.len() && (#[trigger] keys[i]).key@ == presented && keys[i].name@ == name,
    decreases keys.len(),
{
    if keys.len() > 0 {
        let rest = keys.drop_last();
        law_only_configured_keys_match(rest, presented);
        if keys.last().key@ == presented {
            assert(keys[keys.len() - 1].key@ == presented);
        } else {
            if matching_key(keys, presented) is Some {
                let i = choose|i: int|
                    0 <= i < rest.len() && (#[trigger] rest[i]).key@ == presented && rest[i].name@
                        == matching_key(keys, presented)->0;
                assert(keys[i] == rest[i]);
            }
            if exists|i: int| 0 <= i < keys.len() && (#[trigger] keys[i]).key@ == presented {
                let i = choose|i: int|
                    0 <= i < keys.len() && (#[trigger] keys[i]).key@ == presented;
                assert(rest[i] == keys[i]);
            }
        }
    }
}

/// The key is looked for in the header `x-api-key`.
pub proof fn law_key_header()
    ensures
        API_KEY_HEADER@ == "x-api-key"@,
{
}

/// Where several keys equal the one presented, the name is that of the last of them.
pub proof fn law_name_is_that_of_the_last_match(
    keys: Seq<ApiKeyConfig>,
    presented: Seq<char>,
    at: int,
)
    requires
        0 <= at < keys.len(),
        keys[at].key@ == presented,
        forall|i: int| at < i < keys.len() ==> (#[trigger] keys[i]).key@ != presented,
    ensures
        matching_key(keys, presented) == Some(keys[at].name@),
    decreases keys.len(),
{
    if at < keys.len() - 1 {
        let rest = keys.drop_last();
        assert(keys[keys.len() - 1] == keys.last());
        assert forall|i: int| at < i < rest.len() implies (#[trigger] rest[i]).key@
            != presented by {
            assert(rest[i] == keys[i]);
        }
        law_name_is_that_of_the_last_match(rest, presented, at);
    }
}

/// An optional text is there exactly where its view is, and is that text.
pub proof fn law_optional_text_is_itself(text: Option<&str>)
    ensures
        opt_view(text) is Some <==> text is Some,
        text matches Some(t) ==> opt_view(text) == Some(t@),
{
}

/// A list without a blank key matches no blank key.
proof fn lemma_no_blank_match(keys: Seq<ApiKeyConfig>, presented: Seq<char>)
    requires
        first_blank_key(keys) is None,
        is_blank(presented),
    ensures
        forall|i: int| 0 <= i < keys.len() ==> (#[trigger] keys[i]).key@ != presented,
    decreases keys.len(),
{
    if keys.len() > 0 {
        lemma_no_blank_match(keys.drop_first(), presented);
        assert forall|i: int| 0 <= i < keys.len() implies (#[trigger] keys[i]).key@ != presented by {
            if i > 0 {
                assert(keys.drop_first()[i - 1] == keys[i]);
            }
        }
    }
}

/// A configuration that passed its checks accepts no blank key.
pub proof fn law_blank_key_is_never_accepted(config: crate::config::Config, presented: Seq<char>)
    requires
        config.error() is None,
        is_blank(presented),
    ensures
        matching_key(config.auth.keys@, presented) is None,
{
    lemma_no_blank_match(config.auth.keys@, presented);
    law_only_configured_keys_match(config.auth.keys@, presented);
}

/// The addresses among the pieces of a header, white space around them aside.
pub open spec fn spelled_addresses(pieces: Seq<Seq<char>>) -> Seq<IpAddr>
    decreases pieces.len(),
{
    if pieces.len() == 0 {
        Seq::<IpAddr>::empty()
    } else {
        let before = spelled_addresses(pieces.drop_last());
        match ip_of_text(trimmed(pieces.last())) {
            Some(ip) => before.push(ip),
            None => before,
        }
    }
}

/// The addresses of an `X-Forwarded-For` header, from the client to the last proxy.
pub open spec fn hops(header: Seq<char>) -> Seq<IpAddr> {
    spelled_addresses(split_on(header, ','))
}

/// The last address that is no trusted proxy.
pub open spec fn last_untrusted(ips: Seq<IpAddr>, proxies: Seq<IpNetwork>) -> Option<IpAddr>
    decreases ips.len(),
{
    if ips.len() == 0 {
        None
    } else if !any_covers(proxies, ips.last()) {
        Some(ips.last())
    } else {
        last_untrusted(ips.drop_last(), proxies)
    }
}

/// The address that the headers of a trusted proxy give: the last hop that is no trusted
/// proxy, the first hop where all are, and `X-Real-IP` where there is no hop.
pub open spec fn forwarded(
    forwarded_for: Option<Seq<char>>,
    real_ip: Option<Seq<char>>,
    proxies: Seq<IpNetwork>,
) -> Option<IpAddr> {
    if forwarded_for is Some && hops(forwarded_for->0).len() > 0 {
        let ips = hops(forwarded_for->0);
        if last_untrusted(ips, proxies) is Some {
            last_untrusted(ips, proxies)
        } else {
            Some(ips[0])
        }
    } else {
        match real_ip {
            Some(text) => ip_of_text(trimmed(text)),
            None => None,
        }
    }
}

/// The address of the client: the peer of the connection, unless that is a trusted proxy
/// whose headers give another.
pub open spec fn client_ip(
    peer: IpAddr,
    forwarded_for: Option<Seq<char>>,
    real_ip: Option<Seq<char>>,
    proxies: Seq<IpNetwork>,
) -> IpAddr {
    if any_covers(proxies, peer) && forwarded(forwarded_for, real_ip, proxies) is Some {
        forwarded(forwarded_for, real_ip, proxies)->0
    } else {
        peer
    }
}

/// The addresses of an `X-Forwarded-For` header.
fn parse_hops(header: &str) -> (ips: Vec<IpAddr>)
    ensures
        ips@ == hops(header@),
{
    let pieces = split(header, ',');
    let mut ips: Vec<IpAddr> = Vec::new();
    let mut i: usize = 0;
    while i < pieces.len()
        invariant
            i <= pieces.len(),
            ips@ == spelled_addresses(views(pieces@).take(i as int)),
        decreases pieces.len() - i,
    {
        let ghost next = views(pieces@).take(i + 1);
        assert(next.drop_last() =~= views(pieces@).take(i as int));
        assert(next.last() == pieces@[i as int]@);
        match IpAddr::parse(trim(pieces[i].as_str())) {
            Some(ip) => {
                ips.push(ip);
            },
            None => {},
        }
        i = i + 1;
    }
    assert(views(pieces@).take(i as int) =~= views(pieces@));
    ips
}

/// The address that the headers of a trusted proxy give.
pub fn forwarded_for(
    forwarded_header: Option<&str>,
    real_ip_header: Option<&str>,
    config: &LoadedConfig,
) -> (ip: Option<IpAddr>)
    requires
        config.wf(),
    ensures
        ip == forwarded(
            opt_view(forwarded_header),
            opt_view(real_ip_header),
            config.trusted_proxies@,
        ),
{
    match forwarded_header {
        Some(header) => {
            let ips = parse_hops(header);
            let mut end: usize = ips.len();
            assert(ips@.take(end as int) =~= ips@);
            while end > 0
                invariant
                    end <= ips.len(),
                    config.wf(),
                    ips@ == hops(header@),
                    opt_view(forwarded_header) == Some(header@),
                    last_untrusted(ips@, config.trusted_proxies@) == last_untrusted(
                        ips@.take(end as int),
                        config.trusted_proxies@,
                    ),
                decreases end,
            {
                let ip = ips[end - 1];
                assert(ips@.take(end as int).last() == ip);
                assert(ips@.take(end as int).drop_last() =~= ips@.take(end - 1));
                if !config.is_trusted_proxy(ip) {
                    return Some(ip);
                }
                end = end - 1;
            }
            if ips.len() > 0 {
                return Some(ips[0]);
            }
        },
        None => {},
    }
    match real_ip_header {
        Some(text) => IpAddr::parse(trim(text)),
        None => None,
    }
}

/// The address of the client of a request.
#[derive(Clone, Copy, Debug)]
pub struct ClientIp(pub IpAddr);

impl ClientIp {
    /// The address of the client, from the peer of the connection and the headers
    /// `X-Forwarded-For` and `X-Real-IP`. Anybody can write these headers, so they count
    /// only where the peer is a trusted proxy. Where the peer is unknown the request is
    /// refused.
    pub fn from_request_parts(
        peer: Option<IpAddr>,
        forwarded_header: Option<&str>,
        real_ip_header: Option<&str>,
        config: &LoadedConfig,
    ) -> (res: Result<Self, ApiError>)
        requires
            config.wf(),
        ensures
            match res {
                Ok(client) => peer is Some && client.0 == client_ip(
                    peer->0,
                    opt_view(forwarded_header),
                    opt_view(real_ip_header),
                    config.trusted_proxies@,
                ),
                Err(err) => peer is None && err@ == ApiErrorView::Forbidden(
                    "the server cannot determine the source IP of the request"@,
                ),
            },
            (peer matches Some(ip) && forall|i: int|
                0 <= i < config.trusted_proxies@.len() ==> !(
                #[trigger] config.trusted_proxies@[i]).covers(ip)) ==> (res matches Ok(client)
                && client.0 == peer->0),
    {
        let peer = match peer {
            Some(ip) => ip,
            None => {
                return Err(
                    ApiError::forbidden(
                        "the server cannot determine the source IP of the request".to_owned(),
                    ),
                );
            },
        };
        if !config.is_trusted_proxy(peer) {
            return Ok(Self(peer));
        }
        match forwarded_for(forwarded_header, real_ip_header, config) {
            Some(ip) => Ok(Self(ip)),
            None => Ok(Self(peer)),
        }
    }
}

/// The hops of a header are those of its parts: what stands between commas is a hop where it
/// spells an address, white space around it aside, and is skipped where it spells none.
pub proof fn law_hops_are_the_addresses_between_commas(a: Seq<char>, b: Seq<char>)
    ensures
        hops(a.push(',') + b) == hops(a) + hops(b),
        !a.contains(',') ==> match ip_of_text(trimmed(a)) {
            Some(ip) => hops(a) == seq![ip],
            None => hops(a).len() == 0,
        },
{
    law_split_concat(a, b, ',');
    lemma_spelled_addresses_concat(split_on(a, ','), split_on(b, ','));
    if !a.contains(',') {
        lemma_split_single(a, ',');
        let pieces = seq![a];
        assert(pieces.drop_last() =~= Seq::<Seq<char>>::empty());
        assert(pieces.last() == a);
        assert(spelled_addresses(pieces.drop_last()) =~= Seq::<IpAddr>::empty());
        if ip_of_text(trimmed(a)) is Some {
            assert(spelled_addresses(pieces) =~= seq![ip_of_text(trimmed(a))->0]);
        }
    }
}

/// Behind a trusted proxy the client is the hop furthest to the right that is no trusted proxy.
pub proof fn law_client_is_the_last_untrusted_hop(
    peer: IpAddr,
    header: Seq<char>,
    real_ip: Option<Seq<char>>,
    proxies: Seq<IpNetwork>,
    k: int,
)
    requires
        any_covers(proxies, peer),
        0 <= k < hops(header).len(),
        !any_covers(proxies, hops(header)[k]),
        forall|j: int|
            k < j < hops(header).len() ==> any_covers(proxies, #[trigger] hops(header)[j]),
    ensures
        client_ip(peer, Some(header), real_ip, proxies) == hops(header)[k],
        forwarded(Some(header), real_ip, proxies) == Some(hops(header)[k]),
{
    lemma_last_untrusted_is_last(hops(header), proxies, k);
}

/// Where all hops are trusted proxies the client is the first of them.
pub proof fn law_client_is_the_first_of_trusted_hops(
    peer: IpAddr,
    header: Seq<char>,
    real_ip: Option<Seq<char>>,
    proxies: Seq<IpNetwork>,
)
    requires
        any_covers(proxies, peer),
        hops(header).len() > 0,
        forall|j: int|
            0 <= j < hops(header).len() ==> any_covers(proxies, #[trigger] hops(header)[j]),
    ensures
        client_ip(peer, Some(header), real_ip, proxies) == hops(header)[0],
        forwarded(Some(header), real_ip, proxies) == Some(hops(header)[0]),
{
    law_client_is_no_proxy_unless_all_are(hops(header), proxies);
}

/// Without a hop the client behind a trusted proxy is the address of `X-Real-IP`, and the peer
/// only where that gives none.
pub proof fn law_real_ip_counts_where_there_is_no_hop(
    peer: IpAddr,
    forwarded_for: Option<Seq<char>>,
    real_ip: Option<Seq<char>>,
    proxies: Seq<IpNetwork>,
)
    requires
        any_covers(proxies, peer),
        forwarded_for matches Some(header) ==> hops(header).len() == 0,
    ensures
        real_ip matches Some(text) ==> (ip_of_text(trimmed(text)) matches Some(ip) ==> client_ip(
            peer,
            forwarded_for,
            real_ip,
            proxies,
        ) == ip),
        real_ip is None || ip_of_text(trimmed(real_ip->0)) is None ==> client_ip(
            peer,
            forwarded_for,
            real_ip,
            proxies,
        ) == peer,
        real_ip matches Some(text) ==> forwarded(forwarded_for, real_ip, proxies) == ip_of_text(
            trimmed(text),
        ),
        real_ip is None ==> forwarded(forwarded_for, real_ip, proxies) is None,
{
}

/// The last untrusted address is the one with only trusted proxies behind it.
proof fn lemma_last_untrusted_is_last(ips: Seq<IpAddr>, proxies: Seq<IpNetwork>, k: int)
    requires
        0 <= k < ips.len(),
        !any_covers(proxies, ips[k]),
        forall|j: int| k < j < ips.len() ==> any_covers(proxies, #[trigger] ips[j]),
    ensures
        last_untrusted(ips, proxies) == Some(ips[k]),
    decreases ips.len(),
{
    if k < ips.len() - 1 {
        let rest = ips.drop_last();
        assert(any_covers(proxies, ips[ips.len() - 1]));
        assert forall|j: int| k < j < rest.len() implies any_covers(
            proxies,
            #[trigger] rest[j],
        ) by {
            assert(rest[j] == ips[j]);
        }
        lemma_last_untrusted_is_last(rest, proxies, k);
    }
}

/// The headers of a peer that is no trusted proxy have no effect.
pub proof fn law_headers_of_strangers_are_ignored(
    peer: IpAddr,
    forwarded_for: Option<Seq<char>>,
    real_ip: Option<Seq<char>>,
    proxies: Seq<IpNetwork>,
)
    requires
        !any_covers(proxies, peer),
    ensures
        client_ip(peer, forwarded_for, real_ip, proxies) == peer,
{
}

/// With no trusted proxy the address of the client is always the peer of the connection.
pub proof fn law_no_proxies_means_peer(
    peer: IpAddr,
    forwarded_for: Option<Seq<char>>,
    real_ip: Option<Seq<char>>,
)
    ensures
        client_ip(peer, forwarded_for, real_ip, Seq::<IpNetwork>::empty()) == peer,
{
}

/// The addresses among the pieces of two lists are those of the one followed by those of
/// the other.
proof fn lemma_spelled_addresses_concat(a: Seq<Seq<char>>, b: Seq<Seq<char>>)
    ensures
        spelled_addresses(a + b) == spelled_addresses(a) + spelled_addresses(b),
    decreases b.len(),
{
    if b.len() == 0 {
        assert(a + b =~= a);
        assert(spelled_addresses(a) + spelled_addresses(b) =~= spelled_addresses(a));
    } else {
        lemma_spelled_addresses_concat(a, b.drop_last());
        assert((a + b).drop_last() =~= a + b.drop_last());
        assert(spelled_addresses(a + b) =~= spelled_addresses(a) + spelled_addresses(b));
    }
}

/// What stands before the last untrusted address has no effect on which it is.
proof fn lemma_last_untrusted_of_suffix(
    a: Seq<IpAddr>,
    b: Seq<IpAddr>,
    proxies: Seq<IpNetwork>,
)
    requires
        last_untrusted(b, proxies) is Some,
    ensures
        last_untrusted(a + b, proxies) == last_untrusted(b, proxies),
    decreases b.len(),
{
    assert((a + b).last() == b.last());
    if any_covers(proxies, b.last()) {
        lemma_last_untrusted_of_suffix(a, b.drop_last(), proxies);
        assert((a + b).drop_last() =~= a + b.drop_last());
    }
}

/// A client cannot forge its address: whatever it writes at the left of
/// `X-Forwarded-For`, the address found is the same, as long as the part that the trusted
/// proxies wrote names an address that is not one of them.
pub proof fn law_forged_hops_have_no_effect(
    peer: IpAddr,
    forged: Seq<char>,
    genuine: Seq<char>,
    real_ip: Option<Seq<char>>,
    proxies: Seq<IpNetwork>,
)
    requires
        last_untrusted(hops(genuine), proxies) is Some,
    ensures
        client_ip(peer, Some(forged.push(',') + genuine), real_ip, proxies) == client_ip(
            peer,
            Some(genuine),
            real_ip,
            proxies,
        ),
{
    law_split_concat(forged, genuine, ',');
    lemma_spelled_addresses_concat(split_on(forged, ','), split_on(genuine, ','));
    lemma_last_untrusted_of_suffix(hops(forged), hops(genuine), proxies);
}

/// The address found in a chain of hops is a trusted proxy only where all hops are.
pub proof fn law_client_is_no_proxy_unless_all_are(ips: Seq<IpAddr>, proxies: Seq<IpNetwork>)
    ensures
        last_untrusted(ips, proxies) matches Some(ip) ==> !any_covers(proxies, ip)
            && ips.contains(ip),
        last_untrusted(ips, proxies) is None <==> forall|i: int|
            0 <= i < ips.len() ==> any_covers(proxies, #[trigger] ips[i]),
    decreases ips.len(),
{
    if ips.len() > 0 {
        let rest = ips.drop_last();
        law_client_is_no_proxy_unless_all_are(rest, proxies);
        if any_covers(proxies, ips.last()) {
            assert forall|i: int| 0 <= i < rest.len() implies rest[i] == #[trigger] ips[i] by {}
            if last_untrusted(rest, proxies) is Some {
                let k = choose|k: int|
                    0 <= k < rest.len() && rest[k] == last_untrusted(rest, proxies)->0;
                assert(ips[k] == rest[k]);
            }
        } else {
            assert(ips[ips.len() - 1] == ips.last());
        }
    }
}

} // verus!
