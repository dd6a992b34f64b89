//! The in-memory metric aggregator: bootstrap attempts, request
//! tallies, bridge byte counters and auxiliary entries, with the dirty
//! flag that decides whether a collection yields a payload, and the
//! lifecycle hooks the runner calls when the record identity moves.

use vstd::prelude::*;
use crate::auxiliary::{aux_after_set, aux_set_modifies, Auxiliary};
use crate::bootstrap::{finish_post, keep_started, BootstrapId, BootstrapState, IpVersion};
use crate::bootstrap::Bootstraps;
use crate::payload::{build_payload, payload_bytes};
use crate::period::{WholeHour, WholeWeek};
use crate::request::{sat_add_u64, Requests};

verus! {

/// Byte counters of the two bridge directions.
#[derive(Clone, Copy, PartialEq, Eq, Structural, Debug)]
pub struct Bridge {
    pub transfer_injector_to_client: u64,
    pub transfer_client_to_injector: u64,
}

impl Bridge {
    pub fn new() -> (r: Bridge)
        ensures
            r.transfer_injector_to_client == 0,
            r.transfer_client_to_injector == 0,
    {
        Bridge { transfer_injector_to_client: 0, transfer_client_to_injector: 0 }
    }

    pub fn on_device_id_changed(&mut self)
        ensures
            *final(self) == (Bridge { transfer_injector_to_client: 0, transfer_client_to_injector: 0 }),
    {
        self.clear();
    }

    pub fn on_record_sequence_number_changed(&mut self)
        ensures
            *final(self) == (Bridge { transfer_injector_to_client: 0, transfer_client_to_injector: 0 }),
    {
        self.clear();
    }

    pub fn clear(&mut self)
        ensures
            *final(self) == (Bridge { transfer_injector_to_client: 0, transfer_client_to_injector: 0 }),
    {
        self.transfer_injector_to_client = 0;
        self.transfer_client_to_injector = 0;
    }
}

/// The aggregator shared between the host-facing handles and the
/// runner.
pub struct Collector {
    os: String,
    bootstraps: Bootstraps,
    bridge: Bridge,
    pub requests: Requests,
    aux: Auxiliary,
    has_new_data: bool,
}

impl Collector {
    pub closed spec fn os_spec(self) -> Seq<char> {
        self.os@
    }

    pub closed spec fn bootstraps_spec(self) -> Bootstraps {
        self.bootstraps
    }

    pub closed spec fn bridge_spec(self) -> Bridge {
        self.bridge
    }

    pub closed spec fn requests_spec(self) -> Requests {
        self.requests
    }

    pub closed spec fn aux_spec(self) -> Auxiliary {
        self.aux
    }

    pub closed spec fn dirty_spec(self) -> bool {
        self.has_new_data
    }

    pub open spec fn wf(self) -> bool {
        self.bootstraps_spec().wf() && self.requests_spec().wf()
    }

    /// Is there anything unpersisted since the last collection or
    /// lifecycle hook?
    pub open spec fn has_new_data_spec(self) -> bool {
        self.dirty_spec() || self.requests_spec().has_new_data_spec() || self.aux_spec().has_new_data_spec()
    }

    /// A fresh aggregator for a host naming its platform `os`.
    pub fn new(os: String) -> (r: Collector)
        ensures
            r.wf(),
            !r.has_new_data_spec(),
            r.os_spec() == os@,
            r.bootstraps_spec().v4_spec().len() == 0,
            r.bootstraps_spec().v6_spec().len() == 0,
            r.aux_spec().entries_spec().len() == 0,
            r.bridge_spec().transfer_injector_to_client == 0,
            r.bridge_spec().transfer_client_to_injector == 0,
    {
        Collector {
            os,
            bootstraps: Bootstraps::new(),
            bridge: Bridge::new(),
            requests: Requests::new(),
            aux: Auxiliary::new(),
            has_new_data: false,
        }
    }

    /// Store a host-provided entry; a value the entry already has is a
    /// quiet no-op.
    pub fn set_aux_key_value(&mut self, key: String, value: String) -> (modified: bool)
        requires
            old(self).wf(),
        ensures
            final(self).wf(),
            modified == aux_set_modifies(old(self).aux_spec().entries_spec(), key, value),
            final(self).aux_spec().entries_spec() == (if modified {
                aux_after_set(old(self).aux_spec().entries_spec(), key, value)
            } else {
                old(self).aux_spec().entries_spec()
            }),
            modified ==> final(self).has_new_data_spec(),
            final(self).dirty_spec() == (old(self).dirty_spec() || modified),
            final(self).bootstraps_spec() == old(self).bootstraps_spec(),
            final(self).bridge_spec() == old(self).bridge_spec(),
            final(self).requests_spec() == old(self).requests_spec(),
    {
        let modified = self.aux.set(key, value);
        if modified {
            self.has_new_data = true;
        }
        modified
    }

    /// Record the start of a bootstrap attempt.
    pub fn bootstrap_start(&mut self, ipv: IpVersion, now_ms: u64) -> (r: BootstrapId)
        requires
            old(self).wf(),
            old(self).bootstraps_spec().next_id_v4_spec() < usize::MAX,
            old(self).bootstraps_spec().next_id_v6_spec() < usize::MAX,
        ensures
            final(self).wf(),
            r.ipv == ipv,
            final(self).bootstraps_spec().table_spec(ipv) == old(self).bootstraps_spec().table_spec(
                ipv,
            ).push((r.id, BootstrapState::Started { at_ms: now_ms })),
            final(self).has_new_data_spec(),
            final(self).dirty_spec(),
    {
        let id = self.bootstraps.start(ipv, now_ms);
        self.has_new_data = true;
        id
    }

    /// Record the end of a bootstrap attempt.  An attempt whose entry a
    /// rotation cleared is quietly ignored: it belonged to a prior
    /// identity.
    pub fn bootstrap_finish(&mut self, id: BootstrapId, success: bool, now_ms: u64)
        requires
            old(self).wf(),
        ensures
            final(self).wf(),
            finish_post(
                old(self).bootstraps_spec().table_spec(id.ipv),
                final(self).bootstraps_spec().table_spec(id.ipv),
                id.id,
                success,
                now_ms,
            ),
            final(self).dirty_spec(),
    {
        self.bootstraps.finish(id, success, now_ms);
        self.has_new_data = true;
    }

    /// Count bytes carried from the injector side to the client side.
    pub fn bridge_transfer_i2c(&mut self, byte_count: usize)
        requires
            old(self).wf(),
        ensures
            final(self).wf(),
            final(self).bridge_spec().transfer_injector_to_client == sat_add_u64(
                old(self).bridge_spec().transfer_injector_to_client,
                byte_count as u64,
            ),
            final(self).bridge_spec().transfer_client_to_injector == old(
                self,
            ).bridge_spec().transfer_client_to_injector,
            final(self).dirty_spec(),
    {
        let added = byte_count as u64;
        self.bridge.transfer_injector_to_client = if self.bridge.transfer_injector_to_client
            <= u64::MAX - added {
            self.bridge.transfer_injector_to_client + added
        } else {
            u64::MAX
        };
        self.has_new_data = true;
    }

    /// Count bytes carried from the client side to the injector side.
    pub fn bridge_transfer_c2i(&mut self, byte_count: usize)
        requires
            old(self).wf(),
        ensures
            final(self).wf(),
            final(self).bridge_spec().transfer_client_to_injector == sat_add_u64(
                old(self).bridge_spec().transfer_client_to_injector,
                byte_count as u64,
            ),
            final(self).bridge_spec().transfer_injector_to_client == old(
                self,
            ).bridge_spec().transfer_injector_to_client,
            final(self).dirty_spec(),
    {
        let added = byte_count as u64;
        self.bridge.transfer_client_to_injector = if self.bridge.transfer_client_to_injector
            <= u64::MAX - added {
            self.bridge.transfer_client_to_injector + added
        } else {
            u64::MAX
        };
        self.has_new_data = true;
    }

    pub fn has_new_data(&self) -> (r: bool)
        ensures
            r == self.has_new_data_spec(),
    {
        self.has_new_data || self.requests.has_new_data() || self.aux.has_new_data()
    }

    /// Raise the dirty flag without touching any family.
    pub fn modify(&mut self)
        ensures
            final(self).wf() == old(self).wf(),
            final(self).dirty_spec(),
            final(self).has_new_data_spec(),
            final(self).bootstraps_spec() == old(self).bootstraps_spec(),
            final(self).bridge_spec() == old(self).bridge_spec(),
            final(self).requests_spec() == old(self).requests_spec(),
            final(self).aux_spec() == old(self).aux_spec(),
            final(self).os_spec() == old(self).os_spec(),
    {
        self.has_new_data = true;
    }

    /// Produce the payload when anything changed since the last
    /// collection or hook, and lower the change flags; produce nothing,
    /// and change nothing, otherwise.
    pub fn collect(&mut self, week: &WholeWeek, hour: &WholeHour) -> (r: Option<Vec<u8>>)
        requires
            old(self).wf(),
            old(self).bootstraps_spec().v4_spec().len() <= u32::MAX,
            old(self).bootstraps_spec().v6_spec().len() <= u32::MAX,
        ensures
            final(self).wf(),
            r is Some <==> old(self).has_new_data_spec(),
            !final(self).has_new_data_spec(),
            final(self).bootstraps_spec() == old(self).bootstraps_spec(),
            final(self).bridge_spec() == old(self).bridge_spec(),
            final(self).requests_spec().active_spec() == old(self).requests_spec().active_spec(),
            final(self).requests_spec().summary_spec() == old(self).requests_spec().summary_spec(),
            final(self).aux_spec().entries_spec() == old(self).aux_spec().entries_spec(),
            final(self).os_spec() == old(self).os_spec(),
            match r {
                Some(p) => p@ == payload_bytes(
                    old(self).os_spec(),
                    week.iso_year,
                    week.iso_week,
                    hour.weekday1,
                    hour.hour,
                    old(self).bridge_spec().transfer_injector_to_client,
                    old(self).bridge_spec().transfer_client_to_injector,
                    old(self).bootstraps_spec().v4_spec(),
                    old(self).bootstraps_spec().v6_spec(),
                    old(self).requests_spec().summary_spec(),
                    old(self).aux_spec().entries_spec(),
                ),
                None => *final(self) == *old(self),
            },
    {
        if !(self.has_new_data || self.requests.has_new_data() || self.aux.has_new_data()) {
            return None;
        }
        let payload = build_payload(
            &self.os,
            week,
            hour,
            self.bridge.transfer_injector_to_client,
            self.bridge.transfer_client_to_injector,
            self.bootstraps.table(IpVersion::V4),
            self.bootstraps.table(IpVersion::V6),
            self.requests.summaries(),
            self.aux.entries(),
        );
        self.has_new_data = false;
        self.requests.mark_collected();
        self.aux.mark_collected();
        Some(payload)
    }

    /// The device identity rotated: everything gathered so far belongs
    /// to the old identity and is dropped, and nothing is left to
    /// persist.
    pub fn on_device_id_changed(&mut self)
        ensures
            final(self).wf(),
            !final(self).has_new_data_spec(),
            final(self).bootstraps_spec().v4_spec().len() == 0,
            final(self).bootstraps_spec().v6_spec().len() == 0,
            final(self).requests_spec().active_spec().len() == 0,
            forall|i: int| 0 <= i < 5 ==> (#[trigger] final(self).requests_spec().summary_spec()[i]) is None,
            final(self).aux_spec().entries_spec().len() == 0,
            final(self).bridge_spec() == (Bridge {
                transfer_injector_to_client: 0,
                transfer_client_to_injector: 0,
            }),
            final(self).os_spec() == old(self).os_spec(),
    {
        self.bootstraps.clear();
        self.requests.clear();
        self.bridge.on_device_id_changed();
        self.aux.on_device_id_changed();
        self.has_new_data = false;
    }

    /// The sequence number advanced: finished tallies are dropped, but
    /// attempts and requests still running stay, to be counted in a
    /// later record.
    pub fn on_record_sequence_number_changed(&mut self)
        requires
            old(self).wf(),
        ensures
            final(self).wf(),
            !final(self).has_new_data_spec(),
            final(self).bootstraps_spec().v4_spec() == keep_started(
                old(self).bootstraps_spec().v4_spec(),
            ),
            final(self).bootstraps_spec().v6_spec() == keep_started(
                old(self).bootstraps_spec().v6_spec(),
            ),
            final(self).requests_spec().active_spec() == old(self).requests_spec().active_spec(),
            forall|i: int| 0 <= i < 5 ==> (#[trigger] final(self).requests_spec().summary_spec()[i]) is None,
            final(self).aux_spec().entries_spec().len() == 0,
            final(self).bridge_spec() == (Bridge {
                transfer_injector_to_client: 0,
                transfer_client_to_injector: 0,
            }),
            final(self).os_spec() == old(self).os_spec(),
    {
        self.bootstraps.clear_finished();
        self.requests.clear_finished();
        self.bridge.on_record_sequence_number_changed();
        self.aux.on_record_sequence_number_changed();
        self.has_new_data = false;
    }
}

/// A collector left clean — by a collection, or by one of the two
/// lifecycle hooks — yields nothing at the next collection: none of
/// the three change flags is set, so `collect` answers `None` until a
/// mutation arrives.
pub proof fn lemma_clean_collector_yields_nothing(c: Collector)
    requires
        !c.has_new_data_spec(),
    ensures
        !c.dirty_spec(),
        !c.requests_spec().has_new_data_spec(),
        !c.aux_spec().has_new_data_spec(),
{
}

} // verus!
