//! The client's side of discovery: what it makes of the responses it receives.
use vstd::prelude::*;
use crate::config::DiscoverConfig;
use crate::config::Ipv4Addr;
use crate::config::is_default_config;
use crate::error::DiscoverError;
use crate::protocol::MSG_TYPE_RESPONSE;
use crate::protocol::decode_message;
use crate::protocol::message_of;
use crate::protocol::decode_error_text;

verus! {

/// A device that answered a discovery request.
#[derive(Clone, Debug)]
pub struct DiscoveredDevice {
    /// The address the response came from.
    pub ip: Ipv4Addr,
    /// The JSON text of the server's custom data, if it sent any.
    pub data: Option<Vec<u8>>,
}

/// Whether `data` is what a response with payload `payload` carries: nothing
/// for an empty payload, else the payload's bytes.
pub open spec fn data_of_payload(data: Option<Vec<u8>>, payload: Seq<u8>) -> bool {
    match data {
        None => payload.len() == 0,
        Some(v) => payload.len() > 0 && v@ == payload,
    }
}

/// Whether `buf` is a well-formed discovery response.
pub open spec fn is_response(buf: Seq<u8>) -> bool {
    message_of(buf) matches Some((t, _)) && t == MSG_TYPE_RESPONSE
}

/// What the client makes of a datagram from `src`: an error when it is not a
/// well-formed message, nothing when it is a message of another type, and the
/// device with the response's data when it is a response.
pub fn device_from_datagram(src: Ipv4Addr, datagram: &[u8]) -> (res: Result<
    Option<DiscoveredDevice>,
    DiscoverError,
>)
    ensures
        res is Err <==> message_of(datagram@) is None,
        res matches Ok(Some(_)) <==> is_response(datagram@),
        res matches Ok(Some(d)) ==> d.ip == src && match message_of(datagram@) {
            Some((_, p)) => data_of_payload(d.data, p),
            None => false,
        },
        res matches Err(e) ==> (e matches DiscoverError::Protocol(m) && m@ == decode_error_text(datagram@)),
        message_of(datagram@) matches Some((t, p)) ==> (t == MSG_TYPE_RESPONSE ==> (res matches Ok(
            Some(d)) && d.ip == src && data_of_payload(d.data, p))) && (t != MSG_TYPE_RESPONSE
            ==> res matches Ok(None)),
{
    let frame = decode_message(datagram)?;
    if frame.msg_type == MSG_TYPE_RESPONSE {
        let data = if frame.payload.len() == 0 {
            None
        } else {
            Some(frame.payload)
        };
        Ok(Some(DiscoveredDevice { ip: src, data }))
    } else {
        Ok(None)
    }
}

/// Whether the `i`-th device of `s` is the first one from its address.
pub open spec fn first_of_its_ip(s: Seq<DiscoveredDevice>, i: int) -> bool {
    &&& 0 <= i < s.len()
    &&& forall|k: int| 0 <= k < i ==> #[trigger] s[k].ip@ != s[i].ip@
}

/// Whether the devices of `r` are in increasing order of address, with no
/// address twice.
pub open spec fn sorted_by_ip(r: Seq<DiscoveredDevice>) -> bool {
    forall|a: int, b: int| 0 <= a < b < r.len() ==> #[trigger] r[a].ip@ < #[trigger] r[b].ip@
}

/// Whether `d` is, in `s`, the first device from its address.
pub open spec fn is_first_in(s: Seq<DiscoveredDevice>, d: DiscoveredDevice) -> bool {
    exists|i: int| #[trigger] first_of_its_ip(s, i) && s[i] == d
}

/// Whether some device of `r` has the address numbered `x`.
pub open spec fn has_ip(r: Seq<DiscoveredDevice>, x: u32) -> bool {
    exists|j: int| 0 <= j < r.len() && #[trigger] r[j].ip@ == x
}

/// Whether each device of `r` is, in `s`, the first from its address.
pub open spec fn firsts_of_their_ips(s: Seq<DiscoveredDevice>, r: Seq<DiscoveredDevice>) -> bool {
    forall|j: int| 0 <= j < r.len() ==> #[trigger] is_first_in(s, r[j])
}

/// Whether each address of `s` is the address of a device of `r`.
pub open spec fn covers_ips(s: Seq<DiscoveredDevice>, r: Seq<DiscoveredDevice>) -> bool {
    forall|i: int| 0 <= i < s.len() ==> #[trigger] has_ip(r, s[i].ip@)
}

/// Whether `r` is `s` reduced to one device per address, the first that
/// answered from it, in increasing order of address.
pub open spec fn deduplicated(s: Seq<DiscoveredDevice>, r: Seq<DiscoveredDevice>) -> bool {
    &&& sorted_by_ip(r)
    &&& firsts_of_their_ips(s, r)
    &&& covers_ips(s, r)
}

/// Whether some device of `o` has address `x`.
#[verifier::opaque]
spec fn ip_present(o: Seq<DiscoveredDevice>, x: u32) -> bool {
    exists|j: int| 0 <= j < o.len() && #[trigger] o[j].ip@ == x
}

/// Whether `d` is, among the first `k` devices of `s`, the first from its address.
#[verifier::opaque]
spec fn first_among(s: Seq<DiscoveredDevice>, k: int, d: DiscoveredDevice) -> bool {
    exists|i: int| 0 <= i < k && #[trigger] first_of_its_ip(s, i) && d == s[i]
}

/// The state of `dedup_devices` after the first `k` devices of `s`: `o` holds
/// one device per address seen so far, the first from it, in order.
spec fn collected(s: Seq<DiscoveredDevice>, k: int, o: Seq<DiscoveredDevice>) -> bool {
    &&& 0 <= k <= s.len()
    &&& sorted_by_ip(o)
    &&& forall|j: int| 0 <= j < o.len() ==> #[trigger] first_among(s, k, o[j])
    &&& forall|i: int| 0 <= i < k ==> #[trigger] ip_present(o, s[i].ip@)
}

proof fn lemma_collected_skip(s: Seq<DiscoveredDevice>, k: int, o: Seq<DiscoveredDevice>, p: int)
    requires
        collected(s, k, o),
        k < s.len(),
        0 <= p < o.len(),
        o[p].ip@ == s[k].ip@,
    ensures
        collected(s, k + 1, o),
{
    assert forall|j: int| 0 <= j < o.len() implies #[trigger] first_among(s, k + 1, o[j]) by {
        assert(first_among(s, k, o[j]));
        reveal(first_among);
        let i = choose|i: int| 0 <= i < k && #[trigger] first_of_its_ip(s, i) && o[j] == s[i];
    }
    assert forall|i: int| 0 <= i < k + 1 implies #[trigger] ip_present(o, s[i].ip@) by {
        if i == k {
            reveal(ip_present);
            assert(o[p].ip@ == s[i].ip@);
        }
    }
}

proof fn lemma_collected_insert(s: Seq<DiscoveredDevice>, k: int, o: Seq<DiscoveredDevice>, p: int)
    requires
        collected(s, k, o),
        k < s.len(),
        0 <= p <= o.len(),
        forall|j: int| 0 <= j < p ==> #[trigger] o[j].ip@ < s[k].ip@,
        p < o.len() ==> o[p].ip@ > s[k].ip@,
    ensures
        collected(s, k + 1, o.insert(p, s[k])),
{
    let key = s[k].ip@;
    let o2 = o.insert(p, s[k]);
    assert forall|j: int| 0 <= j < o.len() implies #[trigger] o[j].ip@ != key by {
        if j > p {
            assert(o[p].ip@ < o[j].ip@);
        }
    }
    assert forall|m: int| 0 <= m < k implies #[trigger] s[m].ip@ != s[k].ip@ by {
        assert(ip_present(o, s[m].ip@));
        reveal(ip_present);
        let j = choose|j: int| 0 <= j < o.len() && #[trigger] o[j].ip@ == s[m].ip@;
        assert(o[j].ip@ != key);
    }
    assert(first_of_its_ip(s, k));
    assert forall|a: int, b: int| 0 <= a < b < o2.len() implies #[trigger] o2[a].ip@
        < #[trigger] o2[b].ip@ by {
        if b > p {
            assert(o2[b] == o[b - 1]);
            if b - 1 > p {
                assert(o[p].ip@ < o[b - 1].ip@);
            }
            if a > p {
                assert(o2[a] == o[a - 1]);
            }
        }
    }
    assert forall|j: int| 0 <= j < o2.len() implies #[trigger] first_among(s, k + 1, o2[j]) by {
        reveal(first_among);
        if j < p {
            assert(o2[j] == o[j]);
            assert(first_among(s, k, o[j]));
            let i = choose|i: int| 0 <= i < k && #[trigger] first_of_its_ip(s, i) && o[j] == s[i];
        } else if j == p {
            assert(first_of_its_ip(s, k) && o2[j] == s[k]);
        } else {
            assert(o2[j] == o[j - 1]);
            assert(first_among(s, k, o[j - 1]));
            let i = choose|i: int| 0 <= i < k && #[trigger] first_of_its_ip(s, i) && o[j - 1] == s[i];
        }
    }
    assert forall|i: int| 0 <= i < k + 1 implies #[trigger] ip_present(o2, s[i].ip@) by {
        reveal(ip_present);
        if i == k {
            assert(o2[p].ip@ == s[i].ip@);
        } else {
            assert(ip_present(o, s[i].ip@));
            let j = choose|j: int| 0 <= j < o.len() && #[trigger] o[j].ip@ == s[i].ip@;
            if j < p {
                assert(o2[j] == o[j]);
            } else {
                assert(o2[j + 1] == o[j]);
            }
        }
    }
}

proof fn lemma_collected_all(s: Seq<DiscoveredDevice>, o: Seq<DiscoveredDevice>)
    requires
        collected(s, s.len() as int, o),
    ensures
        deduplicated(s, o),
{
    assert forall|j: int| 0 <= j < o.len() implies #[trigger] is_first_in(s, o[j]) by {
        assert(first_among(s, s.len() as int, o[j]));
        reveal(first_among);
        let i = choose|i: int|
            0 <= i < s.len() && #[trigger] first_of_its_ip(s, i) && o[j] == s[i];
        assert(first_of_its_ip(s, i) && s[i] == o[j]);
    }
    assert forall|i: int| 0 <= i < s.len() implies #[trigger] has_ip(o, s[i].ip@) by {
        assert(ip_present(o, s[i].ip@));
        reveal(ip_present);
    }
}

/// Keeps one device per address, the first that answered from it, and orders
/// the devices by address.
pub fn dedup_devices(devices: Vec<DiscoveredDevice>) -> (res: Vec<DiscoveredDevice>)
    ensures
        deduplicated(devices@, res@),
{
    let ghost s = devices@;
    let n = devices.len();
    let mut rest = devices;
    let mut out: Vec<DiscoveredDevice> = Vec::new();
    let mut k: usize = 0;
    while k < n
        invariant
            n == s.len(),
            k <= n,
            rest@ == s.subrange(k as int, n as int),
            collected(s, k as int, out@),
        decreases n - k,
    {
        let d = rest.remove(0);
        assert(d == s[k as int]);
        let key = d.ip.to_bits();
        let mut p: usize = 0;
        while p < out.len() && out[p].ip.to_bits() < key
            invariant
                p <= out@.len(),
                key == d.ip@,
                forall|j: int| 0 <= j < p ==> #[trigger] out@[j].ip@ < key,
            decreases out@.len() - p,
        {
            p = p + 1;
        }
        if p < out.len() && out[p].ip.to_bits() == key {
            proof {
                lemma_collected_skip(s, k as int, out@, p as int);
            }
        } else {
            proof {
                lemma_collected_insert(s, k as int, out@, p as int);
            }
            out.insert(p, d);
        }
        k = k + 1;
        assert(rest@ =~= s.subrange(k as int, n as int));
    }
    proof {
        lemma_collected_all(s, out@);
    }
    out
}

pub proof fn lemma_sorted_same_ips(r1: Seq<DiscoveredDevice>, r2: Seq<DiscoveredDevice>)
    requires
        sorted_by_ip(r1),
        sorted_by_ip(r2),
        forall|x: u32| #![trigger has_ip(r1, x)] #![trigger has_ip(r2, x)] has_ip(r1, x) <==> has_ip(r2, x),
    ensures
        r1.len() == r2.len(),
        forall|j: int| 0 <= j < r1.len() ==> #[trigger] r1[j].ip@ == r2[j].ip@,
    decreases r1.len(),
{
    if r1.len() == 0 {
        if r2.len() > 0 {
            assert(has_ip(r2, r2[0].ip@));
        }
    } else {
        assert(has_ip(r1, r1[0].ip@));
        assert(has_ip(r2, r1[0].ip@));
        let k = choose|k: int| 0 <= k < r2.len() && #[trigger] r2[k].ip@ == r1[0].ip@;
        assert(has_ip(r2, r2[0].ip@));
        assert(has_ip(r1, r2[0].ip@));
        let m = choose|m: int| 0 <= m < r1.len() && #[trigger] r1[m].ip@ == r2[0].ip@;
        if k > 0 {
            assert(r2[0].ip@ < r2[k].ip@);
            if m > 0 {
                assert(r1[0].ip@ < r1[m].ip@);
            }
        }
        assert(r1[0].ip@ == r2[0].ip@);
        let t1 = r1.drop_first();
        let t2 = r2.drop_first();
        assert forall|x: u32| #![trigger has_ip(t1, x)] #![trigger has_ip(t2, x)] has_ip(t1, x) <==> has_ip(t2, x) by {
            if has_ip(t1, x) {
                let j = choose|j: int| 0 <= j < t1.len() && #[trigger] t1[j].ip@ == x;
                assert(r1[j + 1].ip@ == x);
                assert(has_ip(r1, x));
                let j2 = choose|j2: int| 0 <= j2 < r2.len() && #[trigger] r2[j2].ip@ == x;
                assert(r1[0].ip@ < r1[j + 1].ip@);
                assert(j2 != 0);
                assert(t2[j2 - 1].ip@ == x);
            }
            if has_ip(t2, x) {
                let j = choose|j: int| 0 <= j < t2.len() && #[trigger] t2[j].ip@ == x;
                assert(r2[j + 1].ip@ == x);
                assert(has_ip(r2, x));
                let j1 = choose|j1: int| 0 <= j1 < r1.len() && #[trigger] r1[j1].ip@ == x;
                assert(r2[0].ip@ < r2[j + 1].ip@);
                assert(j1 != 0);
                assert(t1[j1 - 1].ip@ == x);
            }
        }
        lemma_sorted_same_ips(t1, t2);
        assert forall|j: int| 0 <= j < r1.len() implies #[trigger] r1[j].ip@ == r2[j].ip@ by {
            if j > 0 {
                assert(t1[j - 1].ip@ == t2[j - 1].ip@);
            }
        }
    }
}

/// Law: the contract of `dedup_devices` admits one result only: two
/// deduplications of the same devices are equal.
pub proof fn lemma_deduplicated_unique(
    s: Seq<DiscoveredDevice>,
    r1: Seq<DiscoveredDevice>,
    r2: Seq<DiscoveredDevice>,
)
    requires
        deduplicated(s, r1),
        deduplicated(s, r2),
    ensures
        r1 == r2,
{
    assert forall|x: u32| #[trigger] has_ip(r1, x) implies has_ip(r2, x) by {
        let j = choose|j: int| 0 <= j < r1.len() && #[trigger] r1[j].ip@ == x;
        assert(is_first_in(s, r1[j]));
        let i = choose|i: int| #[trigger] first_of_its_ip(s, i) && s[i] == r1[j];
        assert(has_ip(r2, s[i].ip@));
    }
    assert forall|x: u32| #[trigger] has_ip(r2, x) implies has_ip(r1, x) by {
        let j = choose|j: int| 0 <= j < r2.len() && #[trigger] r2[j].ip@ == x;
        assert(is_first_in(s, r2[j]));
        let i = choose|i: int| #[trigger] first_of_its_ip(s, i) && s[i] == r2[j];
        assert(has_ip(r1, s[i].ip@));
    }
    lemma_sorted_same_ips(r1, r2);
    assert forall|j: int| 0 <= j < r1.len() implies r1[j] == r2[j] by {
        assert(is_first_in(s, r1[j]));
        assert(is_first_in(s, r2[j]));
        let i1 = choose|i: int| #[trigger] first_of_its_ip(s, i) && s[i] == r1[j];
        let i2 = choose|i: int| #[trigger] first_of_its_ip(s, i) && s[i] == r2[j];
        assert(r1[j].ip@ == r2[j].ip@);
        if i1 < i2 {
            assert(s[i1].ip@ != s[i2].ip@);
        } else if i2 < i1 {
            assert(s[i2].ip@ != s[i1].ip@);
        }
    }
    assert(r1 =~= r2);
}

/// Law: after deduplication, an address that answered has exactly one entry,
/// and it is the first device that answered from that address.
pub proof fn lemma_one_entry_per_ip(s: Seq<DiscoveredDevice>, r: Seq<DiscoveredDevice>, i: int)
    requires
        deduplicated(s, r),
        first_of_its_ip(s, i),
    ensures
        exists|j: int| 0 <= j < r.len() && #[trigger] r[j] == s[i],
        forall|j1: int, j2: int|
            0 <= j1 < r.len() && 0 <= j2 < r.len() && #[trigger] r[j1].ip@ == s[i].ip@
                && #[trigger] r[j2].ip@ == s[i].ip@ ==> j1 == j2,
{
    assert(has_ip(r, s[i].ip@));
    let j = choose|j: int| 0 <= j < r.len() && #[trigger] r[j].ip@ == s[i].ip@;
    assert(is_first_in(s, r[j]));
    let k = choose|k: int| #[trigger] first_of_its_ip(s, k) && s[k] == r[j];
    if k < i {
        assert(s[k].ip@ != s[i].ip@);
    } else if i < k {
        assert(s[i].ip@ != s[k].ip@);
    }
    assert(r[j] == s[i]);
    assert forall|j1: int, j2: int|
        0 <= j1 < r.len() && 0 <= j2 < r.len() && #[trigger] r[j1].ip@ == s[i].ip@
            && #[trigger] r[j2].ip@ == s[i].ip@ implies j1 == j2 by {
        if j1 < j2 {
            assert(r[j1].ip@ < r[j2].ip@);
        } else if j2 < j1 {
            assert(r[j2].ip@ < r[j1].ip@);
        }
    }
}

/// The discovery client: holds the configuration it discovers with.
pub struct DiscoverClient {
    config: DiscoverConfig,
}

impl DiscoverClient {
    /// A client with the default configuration.
    pub fn new() -> (c: Self)
        ensures
            is_default_config(c.configuration()),
    {
        Self::with_config(DiscoverConfig::default())
    }

    /// A client with the given configuration.
    pub fn with_config(config: DiscoverConfig) -> (c: Self)
        ensures
            c.configuration() == config,
    {
        DiscoverClient { config }
    }

    /// The configuration of the client.
    pub closed spec fn configuration(&self) -> DiscoverConfig {
        self.config
    }

    /// The configuration of the client.
    pub fn config(&self) -> (c: &DiscoverConfig)
        ensures
            *c == self.configuration(),
    {
        &self.config
    }
}

impl Default for DiscoverClient {
    fn default() -> (c: Self)
        ensures
            is_default_config(c.configuration()),
    {
        Self::new()
    }
}

} // verus!
