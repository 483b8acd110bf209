//! A client's discovery round: the datagrams it receives, the devices it
//! takes from them, and what it reports at the end.
use vstd::prelude::*;
use crate::client::DiscoveredDevice;
use crate::client::dedup_devices;
use crate::client::deduplicated;
use crate::client::device_from_datagram;
use crate::client::first_of_its_ip;
use crate::client::is_response;
use crate::client::lemma_one_entry_per_ip;
use crate::client::has_ip;
use crate::client::is_first_in;
use crate::config::Ipv4Addr;
use crate::error::DiscoverError;
use crate::laws::lemma_response_is_understood;
use crate::protocol::MSG_TYPE_RESPONSE;
use crate::protocol::decode_error_text;
use crate::protocol::json_document;
use crate::protocol::message_of;
use crate::protocol::response_bytes;
use crate::protocol::holds_whole_message;
use crate::protocol::lemma_trailing_bytes_ignored;

verus! {

/// A device as a value: its address and the JSON text of its data, if any.
pub open spec fn device_view(d: DiscoveredDevice) -> (u32, Option<Seq<u8>>) {
    (
        d.ip@,
        match d.data {
            Some(v) => Some(v@),
            None => None,
        },
    )
}

/// The device the client takes from a datagram from address `src`: the
/// sender and the response's payload (none when it is empty), when the
/// datagram is a response; nothing otherwise.
pub open spec fn response_device(src: u32, buf: Seq<u8>) -> Option<(u32, Option<Seq<u8>>)> {
    match message_of(buf) {
        Some((t, p)) => if t == MSG_TYPE_RESPONSE {
            Some(
                (
                    src,
                    if p.len() == 0 {
                        None
                    } else {
                        Some(p)
                    },
                ),
            )
        } else {
            None
        },
        None => None,
    }
}

/// The devices the client takes, in the order of arrival, from the
/// datagrams `received` (sender's address, bytes).
pub open spec fn devices_from(received: Seq<(u32, Seq<u8>)>) -> Seq<(u32, Option<Seq<u8>>)>
    decreases received.len(),
{
    if received.len() == 0 {
        Seq::empty()
    } else {
        let before = devices_from(received.drop_last());
        match response_device(received.last().0, received.last().1) {
            Some(d) => before.push(d),
            None => before,
        }
    }
}

/// The devices of `s` as values.
pub open spec fn device_views(s: Seq<DiscoveredDevice>) -> Seq<(u32, Option<Seq<u8>>)> {
    s.map_values(|d: DiscoveredDevice| device_view(d))
}

/// What a client gathers during a discovery round.
pub struct DeviceCollector {
    devices: Vec<DiscoveredDevice>,
    received: Ghost<Seq<(u32, Seq<u8>)>>,
}

impl DeviceCollector {
    #[verifier::type_invariant]
    spec fn devices_match_datagrams(self) -> bool {
        device_views(self.devices@) == devices_from(self.received@)
    }

    /// The datagrams received so far: sender's address and bytes.
    pub closed spec fn received(&self) -> Seq<(u32, Seq<u8>)> {
        self.received@
    }

    /// The devices taken so far, in the order of arrival.
    pub closed spec fn found(&self) -> Seq<DiscoveredDevice> {
        self.devices@
    }

    /// A collector that has received nothing.
    pub fn new() -> (c: Self)
        ensures
            c.received() == Seq::<(u32, Seq<u8>)>::empty(),
            c.found() == Seq::<DiscoveredDevice>::empty(),
    {
        let devices: Vec<DiscoveredDevice> = Vec::new();
        let ghost received = Seq::<(u32, Seq<u8>)>::empty();
        assert(devices_from(received) == Seq::<(u32, Option<Seq<u8>>)>::empty());
        assert(device_views(devices@) =~= devices_from(received));
        DeviceCollector { devices, received: Ghost(received) }
    }

    /// Takes in a datagram from `src`. A response adds its device; any other
    /// datagram leaves the devices as they were, and one that is not a
    /// well-formed message is reported as an error.
    pub fn record(&mut self, src: Ipv4Addr, datagram: &[u8]) -> (res: Result<bool, DiscoverError>)
        ensures
            final(self).received() == old(self).received().push((src@, datagram@)),
            res is Err <==> message_of(datagram@) is None,
            res matches Err(e) ==> (e matches DiscoverError::Protocol(m) && m@ == decode_error_text(
                datagram@,
            )),
            res matches Ok(b) ==> b == is_response(datagram@),
            is_response(datagram@) ==> final(self).found().len() == old(self).found().len() + 1
                && final(self).found().drop_last() == old(self).found() && response_device(
                src@,
                datagram@,
            ) == Some(device_view(final(self).found().last())),
            !is_response(datagram@) ==> final(self).found() == old(self).found(),
            message_of(datagram@) matches Some((t, p)) ==> (t == MSG_TYPE_RESPONSE ==> (res
                == Ok::<bool, DiscoverError>(true) && final(self).found().len() == old(self).found().len() + 1
                && final(self).found().drop_last() == old(self).found() && device_view(
                final(self).found().last(),
            ) == (
                src@,
                if p.len() == 0 {
                    None
                } else {
                    Some(p)
                },
            ))) && (t != MSG_TYPE_RESPONSE ==> (res == Ok::<bool, DiscoverError>(false)
                && final(self).found() == old(self).found())),
    {
        let mut current = DeviceCollector::new();
        std::mem::swap(&mut current, self);
        proof {
            use_type_invariant(&current);
        }
        let DeviceCollector { devices: mut devices, received: Ghost(received) } = current;
        let ghost old_devices = devices@;
        let ghost new_received = received.push((src@, datagram@));
        assert(new_received.drop_last() =~= received);
        let res = match device_from_datagram(src, datagram) {
            Ok(Some(d)) => {
                devices.push(d);
                assert(device_views(devices@) =~= device_views(old_devices).push(
                    device_view(devices@.last()),
                ));
                assert(devices@.drop_last() =~= old_devices);
                Ok(true)
            },
            Ok(None) => Ok(false),
            Err(e) => Err(e),
        };
        *self = DeviceCollector { devices, received: Ghost(new_received) };
        res
    }

    /// Ends the round: one device per address, the first that answered from
    /// it, in increasing order of address.
    pub fn finish(self) -> (res: Vec<DiscoveredDevice>)
        ensures
            deduplicated(self.found(), res@),
            device_views(self.found()) == devices_from(self.received()),
    {
        proof {
            use_type_invariant(&self);
        }
        let DeviceCollector { devices, received: _ } = self;
        dedup_devices(devices)
    }
}

proof fn lemma_devices_from_step(received: Seq<(u32, Seq<u8>)>, n: int)
    requires
        0 <= n < received.len(),
    ensures
        devices_from(received.take(n + 1)) == match response_device(received[n].0, received[n].1) {
            Some(d) => devices_from(received.take(n)).push(d),
            None => devices_from(received.take(n)),
        },
{
    let t = received.take(n + 1);
    assert(t.drop_last() =~= received.take(n));
    assert(t.last() == received[n]);
}

proof fn lemma_devices_from_prefix(received: Seq<(u32, Seq<u8>)>, n: int)
    requires
        0 <= n <= received.len(),
    ensures
        devices_from(received.take(n)).len() <= devices_from(received).len(),
        forall|i: int|
            0 <= i < devices_from(received.take(n)).len() ==> #[trigger] devices_from(
                received.take(n),
            )[i] == devices_from(received)[i],
    decreases received.len() - n,
{
    if n < received.len() {
        lemma_devices_from_prefix(received, n + 1);
        lemma_devices_from_step(received, n);
        let short = devices_from(received.take(n));
        let long = devices_from(received.take(n + 1));
        assert forall|i: int| 0 <= i < short.len() implies #[trigger] short[i] == devices_from(
            received,
        )[i] by {
            assert(short[i] == long[i]);
        }
    } else {
        assert(received.take(n) =~= received);
    }
}

proof fn lemma_devices_from_senders(received: Seq<(u32, Seq<u8>)>, a: u32)
    requires
        forall|m: int|
            0 <= m < received.len() && #[trigger] received[m].0 == a ==> response_device(
                a,
                received[m].1,
            ) is None,
    ensures
        forall|i: int| 0 <= i < devices_from(received).len() ==> #[trigger] devices_from(received)[i].0 != a,
    decreases received.len(),
{
    if received.len() > 0 {
        let before = received.drop_last();
        assert forall|m: int|
            0 <= m < before.len() && #[trigger] before[m].0 == a implies response_device(
            a,
            before[m].1,
        ) is None by {
            assert(before[m] == received[m]);
        }
        lemma_devices_from_senders(before, a);
        let last = received.last();
        assert(last == received[received.len() - 1]);
        if let Some(d) = response_device(last.0, last.1) {
            assert(d.0 == last.0);
            assert(last.0 != a);
            let all = devices_from(received);
            assert(all == devices_from(before).push(d));
            assert forall|i: int| 0 <= i < all.len() implies #[trigger] all[i].0 != a by {
                if i < all.len() - 1 {
                    assert(all[i] == devices_from(before)[i]);
                }
            }
        }
    }
}

/// Where the first response from `a` stands among the devices a round takes.
proof fn lemma_first_response_position(
    received: Seq<(u32, Seq<u8>)>,
    a: u32,
    k: int,
    custom: Option<Seq<u8>>,
) -> (i: int)
    requires
        0 <= k < received.len(),
        received[k] == (a, response_bytes(custom)),
        forall|m: int|
            0 <= m < k && #[trigger] received[m].0 == a ==> !is_response(received[m].1),
        custom matches Some(d) ==> 0 < d.len() <= u32::MAX && json_document(d),
    ensures
        0 <= i < devices_from(received).len(),
        devices_from(received)[i] == (a, custom),
        forall|n: int| 0 <= n < i ==> #[trigger] devices_from(received)[n].0 != a,
{
    lemma_response_is_understood(custom);
    let upto = received.take(k);
    assert forall|m: int| 0 <= m < upto.len() && #[trigger] upto[m].0 == a implies response_device(
        a,
        upto[m].1,
    ) is None by {
        assert(upto[m] == received[m]);
    }
    lemma_devices_from_senders(upto, a);
    assert(response_device(a, response_bytes(custom)) == Some((a, custom)));
    lemma_devices_from_step(received, k);
    lemma_devices_from_prefix(received, k + 1);
    let before = devices_from(upto);
    let with_k = devices_from(received.take(k + 1));
    assert(with_k == before.push((a, custom)));
    let i = before.len() as int;
    assert(with_k[i] == (a, custom));
    assert forall|n: int| 0 <= n < i implies #[trigger] devices_from(received)[n].0 != a by {
        assert(with_k[n] == before[n]);
        assert(with_k[n] == devices_from(received)[n]);
    }
    i
}

/// Law: a datagram that is not a response, wherever it arrives in a round,
/// leaves the devices the round takes as they were.
pub proof fn lemma_ignored_datagram(
    before: Seq<(u32, Seq<u8>)>,
    src: u32,
    datagram: Seq<u8>,
    after: Seq<(u32, Seq<u8>)>,
)
    requires
        !is_response(datagram),
    ensures
        devices_from(before + seq![(src, datagram)] + after) == devices_from(before + after),
    decreases after.len(),
{
    if after.len() == 0 {
        assert(before + seq![(src, datagram)] + after =~= before.push((src, datagram)));
        assert(before + after =~= before);
        assert(before.push((src, datagram)).drop_last() =~= before);
    } else {
        let shorter = after.drop_last();
        lemma_ignored_datagram(before, src, datagram, shorter);
        assert((before + seq![(src, datagram)] + after).drop_last() =~= before + seq![(src, datagram)]
            + shorter);
        assert((before + after).drop_last() =~= before + shorter);
        assert((before + seq![(src, datagram)] + after).last() == after.last());
        assert((before + after).last() == after.last());
    }
}

/// Law: what a round reports depends only on the devices it took, as
/// values: rounds that took the same devices report the same devices.
pub proof fn lemma_report_depends_on_devices(
    s1: Seq<DiscoveredDevice>,
    r1: Seq<DiscoveredDevice>,
    s2: Seq<DiscoveredDevice>,
    r2: Seq<DiscoveredDevice>,
)
    requires
        deduplicated(s1, r1),
        deduplicated(s2, r2),
        device_views(s1) == device_views(s2),
    ensures
        device_views(r1) == device_views(r2),
{
    assert(s1.len() == device_views(s1).len());
    assert(s2.len() == device_views(s2).len());
    assert forall|i: int| 0 <= i < s1.len() implies #[trigger] device_view(s1[i]) == device_view(
        s2[i],
    ) by {
        assert(device_views(s1)[i] == device_views(s2)[i]);
    }
    assert forall|x: u32| #[trigger] has_ip(r1, x) implies has_ip(r2, x) by {
        let j = choose|j: int| 0 <= j < r1.len() && #[trigger] r1[j].ip@ == x;
        assert(is_first_in(s1, r1[j]));
        let i = choose|i: int| #[trigger] first_of_its_ip(s1, i) && s1[i] == r1[j];
        assert(device_view(s1[i]) == device_view(s2[i]));
        assert(has_ip(r2, s2[i].ip@));
    }
    assert forall|x: u32| #[trigger] has_ip(r2, x) implies has_ip(r1, x) by {
        let j = choose|j: int| 0 <= j < r2.len() && #[trigger] r2[j].ip@ == x;
        assert(is_first_in(s2, r2[j]));
        let i = choose|i: int| #[trigger] first_of_its_ip(s2, i) && s2[i] == r2[j];
        assert(device_view(s1[i]) == device_view(s2[i]));
        assert(has_ip(r1, s1[i].ip@));
    }
    crate::client::lemma_sorted_same_ips(r1, r2);
    assert forall|j: int| 0 <= j < r1.len() implies #[trigger] device_view(r1[j]) == device_view(
        r2[j],
    ) by {
        assert(is_first_in(s1, r1[j]));
        assert(is_first_in(s2, r2[j]));
        let i1 = choose|i: int| #[trigger] first_of_its_ip(s1, i) && s1[i] == r1[j];
        let i2 = choose|i: int| #[trigger] first_of_its_ip(s2, i) && s2[i] == r2[j];
        assert(device_view(s1[i1]) == device_view(s2[i1]));
        assert(device_view(s1[i2]) == device_view(s2[i2]));
        if i1 < i2 {
            assert(first_of_its_ip(s2, i2));
            assert(s2[i1].ip@ != s2[i2].ip@);
        } else if i2 < i1 {
            assert(first_of_its_ip(s1, i1));
            assert(s1[i2].ip@ != s1[i1].ip@);
        }
    }
    assert(device_views(r1) =~= device_views(r2));
}

/// Law: when the first response that a round receives from address `a` is
/// the response of a server with custom data `custom` (a JSON document, or
/// none), the round reports exactly one device at `a`, carrying `custom`.
pub proof fn lemma_round_reports_server(
    received: Seq<(u32, Seq<u8>)>,
    found: Seq<DiscoveredDevice>,
    report: Seq<DiscoveredDevice>,
    a: u32,
    k: int,
    custom: Option<Seq<u8>>,
)
    requires
        device_views(found) == devices_from(received),
        deduplicated(found, report),
        0 <= k < received.len(),
        received[k] == (a, response_bytes(custom)),
        forall|m: int|
            0 <= m < k && #[trigger] received[m].0 == a ==> !is_response(received[m].1),
        custom matches Some(d) ==> 0 < d.len() <= u32::MAX && json_document(d),
    ensures
        exists|j: int|
            0 <= j < report.len() && #[trigger] device_view(report[j]) == (a, custom),
        forall|j1: int, j2: int|
            0 <= j1 < report.len() && 0 <= j2 < report.len() && #[trigger] report[j1].ip@ == a
                && #[trigger] report[j2].ip@ == a ==> j1 == j2,
{
    let i = lemma_first_response_position(received, a, k, custom);
    assert(found.len() == device_views(found).len());
    assert forall|n: int| 0 <= n < found.len() implies #[trigger] device_view(found[n]) == devices_from(
        received,
    )[n] by {
        assert(device_views(found)[n] == device_view(found[n]));
    }
    assert(device_view(found[i]) == (a, custom));
    assert forall|n: int| 0 <= n < i implies #[trigger] found[n].ip@ != found[i].ip@ by {
        assert(device_view(found[n]) == devices_from(received)[n]);
        assert(devices_from(received)[n].0 != a);
    }
    assert(first_of_its_ip(found, i));
    lemma_one_entry_per_ip(found, report, i);
    let j = choose|j: int| 0 <= j < report.len() && #[trigger] report[j] == found[i];
    assert(device_view(report[j]) == (a, custom));
}

/// Law: a round that also received a datagram that is not a response (a
/// malformed one, a request, ...) reports the same devices as the round
/// without it.
pub proof fn lemma_foreign_datagram_changes_no_report(
    before: Seq<(u32, Seq<u8>)>,
    src: u32,
    datagram: Seq<u8>,
    after: Seq<(u32, Seq<u8>)>,
    found_with: Seq<DiscoveredDevice>,
    report_with: Seq<DiscoveredDevice>,
    found_without: Seq<DiscoveredDevice>,
    report_without: Seq<DiscoveredDevice>,
)
    requires
        !is_response(datagram),
        device_views(found_with) == devices_from(before + seq![(src, datagram)] + after),
        deduplicated(found_with, report_with),
        device_views(found_without) == devices_from(before + after),
        deduplicated(found_without, report_without),
    ensures
        device_views(report_with) == device_views(report_without),
{
    lemma_ignored_datagram(before, src, datagram, after);
    lemma_report_depends_on_devices(found_with, report_with, found_without, report_without);
}

/// Law: from every decoded response, whatever bytes follow it, the client
/// takes the device at the sender's address carrying the response's payload
/// (none when it is empty); from any other datagram it takes nothing.
pub proof fn lemma_device_of_response(src: u32, buf: Seq<u8>)
    ensures
        message_of(buf) matches Some((t, p)) ==> (t == MSG_TYPE_RESPONSE ==> response_device(src, buf)
            == Some(
            (
                src,
                if p.len() == 0 {
                    None
                } else {
                    Some(p)
                },
            ),
        )),
        message_of(buf) matches Some((t, _)) ==> (t != MSG_TYPE_RESPONSE ==> response_device(src, buf)
            is None),
        message_of(buf) is None ==> response_device(src, buf) is None,
{
}

/// Law: bytes after the message a buffer announces do not change the device
/// the client takes from it.
pub proof fn lemma_trailing_bytes_keep_device(src: u32, buf: Seq<u8>, extra: Seq<u8>)
    requires
        holds_whole_message(buf),
    ensures
        response_device(src, buf + extra) == response_device(src, buf),
{
    lemma_trailing_bytes_ignored(buf, extra);
}

} // verus!
