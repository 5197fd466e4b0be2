//! Server-side state of NFSv4: clients and their leases, open files and locks.

use vstd::prelude::*;
use std::collections::HashMap;
use std::time::{Duration, Instant};
use crate::nfs::error::{NfsError, NfsResult};

verus! {

broadcast use vstd::std_specs::hash::group_hash_axioms;

#[verifier::external_type_specification]
#[verifier::external_body]
pub struct ExInstant(Instant);

/// Reads the clock (`Instant::now`). Nothing is claimed of the result: it is the time.
#[verifier::external_body]
fn now_instant() -> Instant {
    Instant::now()
}

/// The time that has passed since the instant (`Instant::elapsed`). Nothing is claimed of the
/// result: it depends on the clock.
#[verifier::external_body]
fn elapsed_since(instant: &Instant) -> Duration {
    instant.elapsed()
}

/// The length of a duration in nanoseconds (`Duration::as_nanos`). It is applied here only to
/// the time read from the clock, and `Duration` is opaque to the proofs, so nothing is claimed
/// of the result.
#[verifier::external_body]
fn duration_nanos(duration: &Duration) -> u128 {
    duration.as_nanos()
}

/// The nanoseconds that have passed since the instant, as the clock tells them.
fn elapsed_nanos(instant: &Instant) -> u128 {
    let d = elapsed_since(instant);
    duration_nanos(&d)
}

/// A client and the time it last renewed its lease.
#[derive(Debug)]
pub struct ClientInfo {
    /// Last time the client renewed its lease
    pub last_renewal: Instant,
    /// Client's machine name
    pub machinename: String,
}

/// The state of an open file.
#[derive(Debug)]
pub struct OpenState {
    /// File handle
    pub filehandle: Vec<u8>,
    /// Owner ID
    pub owner: u32,
    /// Access mode (read/write)
    pub access: u32,
    /// Share mode
    pub share: u32,
}

/// The state of a lock.
#[derive(Debug)]
pub struct LockState {
    /// File handle
    pub filehandle: Vec<u8>,
    /// Lock owner
    pub owner: u32,
    /// Lock type (read/write)
    pub lock_type: u32,
    /// Lock range start
    pub offset: u64,
    /// Lock range length
    pub length: u64,
}

/// The state of an NFS server: registered clients, open files and locks, each by id, and
/// the lease that clients must renew within.
#[derive(Debug)]
pub struct StateManager {
    clients: HashMap<u32, ClientInfo>,
    open_states: HashMap<u32, OpenState>,
    lock_states: HashMap<u32, LockState>,
    lease_nanos: u128,
}

/// The ids of the clients that some reading (client id and nanoseconds since its renewal)
/// finds past the lease.
pub open spec fn expired_ids(readings: Seq<(u32, u128)>, lease: u128) -> Set<u32> {
    Set::new(|id: u32| exists|j: int| 0 <= j < readings.len() && (#[trigger] readings[j]).0 == id && readings[j].1 > lease)
}

/// Whether the readings name each id of `ids` exactly once, and no other id.
pub open spec fn one_reading_each(readings: Seq<(u32, u128)>, ids: Set<u32>) -> bool {
    &&& forall|j: int, k: int| 0 <= j < k < readings.len() ==> (#[trigger] readings[j]).0 != (#[trigger] readings[k]).0
    &&& forall|j: int| 0 <= j < readings.len() ==> ids.contains((#[trigger] readings[j]).0)
    &&& forall|id: u32| #[trigger] ids.contains(id) ==> exists|j: int| 0 <= j < readings.len() && (#[trigger] readings[j]).0 == id
}

/// Whether `e` is the state error with the message `msg`.
pub open spec fn is_state_error(e: NfsError, msg: Seq<char>) -> bool {
    e matches NfsError::State(s) && s@ == msg
}

impl StateManager {
    /// The machine names of the registered clients, by client id.
    pub closed spec fn client_names(&self) -> Map<u32, Seq<char>> {
        self.clients@.map_values(|c: ClientInfo| c.machinename@)
    }

    /// The registered clients, by client id.
    pub closed spec fn spec_clients(&self) -> Map<u32, ClientInfo> {
        self.clients@
    }

    /// The open states, by state id.
    pub closed spec fn spec_opens(&self) -> Map<u32, OpenState> {
        self.open_states@
    }

    /// The lock states, by state id.
    pub closed spec fn spec_locks(&self) -> Map<u32, LockState> {
        self.lock_states@
    }

    /// The lease, in nanoseconds.
    pub closed spec fn spec_lease_nanos(&self) -> u128 {
        self.lease_nanos
    }

    /// Creates a state manager with no clients, open files or locks, and a lease of
    /// `lease_nanos` nanoseconds.
    pub fn new(lease_nanos: u128) -> (s: Self)
        ensures
            s.spec_clients() == Map::<u32, ClientInfo>::empty(),
            s.spec_opens() == Map::<u32, OpenState>::empty(),
            s.spec_locks() == Map::<u32, LockState>::empty(),
            s.spec_lease_nanos() == lease_nanos,
    {
        StateManager {
            clients: HashMap::new(),
            open_states: HashMap::new(),
            lock_states: HashMap::new(),
            lease_nanos,
        }
    }

    /// Registers a client with its machine name, renewing its lease from now; a client
    /// registered already is replaced.
    pub fn register_client(&mut self, client_id: u32, machinename: String) -> (r: NfsResult<()>)
        ensures
            r is Ok,
            final(self).client_names() == old(self).client_names().insert(client_id, machinename@),
            final(self).spec_clients().dom() == old(self).spec_clients().dom().insert(client_id),
            forall|k: u32| k != client_id && old(self).spec_clients().contains_key(k) ==> final(self).spec_clients()[k]
                == old(self).spec_clients()[k],
            final(self).spec_opens() == old(self).spec_opens(),
            final(self).spec_locks() == old(self).spec_locks(),
            final(self).spec_lease_nanos() == old(self).spec_lease_nanos(),
    {
        let ghost m = machinename@;
        let last_renewal = now_instant();
        self.clients.insert(client_id, ClientInfo { last_renewal, machinename });
        proof {
            assert(self.client_names() =~= old(self).client_names().insert(client_id, m));
        }
        Ok(())
    }

    /// Renews the lease of a registered client from now; an unknown client gives the state
    /// error "Client not found".
    pub fn renew_lease(&mut self, client_id: u32) -> (r: NfsResult<()>)
        ensures
            r is Ok <==> old(self).spec_clients().contains_key(client_id),
            r matches Err(e) ==> is_state_error(e, "Client not found"@),
            final(self).client_names() == old(self).client_names(),
            final(self).spec_clients().dom() == old(self).spec_clients().dom(),
            forall|k: u32| k != client_id && old(self).spec_clients().contains_key(k) ==> final(self).spec_clients()[k]
                == old(self).spec_clients()[k],
            final(self).spec_opens() == old(self).spec_opens(),
            final(self).spec_locks() == old(self).spec_locks(),
            final(self).spec_lease_nanos() == old(self).spec_lease_nanos(),
    {
        match self.clients.remove(&client_id) {
            Some(client) => {
                let ghost m = client.machinename@;
                let last_renewal = now_instant();
                self.clients.insert(client_id, ClientInfo { last_renewal, machinename: client.machinename });
                proof {
                    assert(self.client_names() =~= old(self).client_names());
                    assert(self.spec_clients().dom() =~= old(self).spec_clients().dom());
                }
                Ok(())
            },
            None => {
                proof {
                    reveal_strlit("Client not found");
                }
                Err(NfsError::State(String::from_str("Client not found")))
            },
        }
    }

    /// Whether the lease of a client that renewed `elapsed` nanoseconds ago still holds: it
    /// holds up to and including the lease's length. An unknown client gives the state error
    /// "Client not found".
    pub fn lease_valid_after(&self, client_id: u32, elapsed: u128) -> (r: NfsResult<bool>)
        ensures
            self.spec_clients().contains_key(client_id) ==> r == NfsResult::<bool>::Ok(elapsed <= self.spec_lease_nanos()),
            !self.spec_clients().contains_key(client_id) ==> (r matches Err(e) && is_state_error(e, "Client not found"@)),
    {
        if self.clients.contains_key(&client_id) {
            Ok(elapsed <= self.lease_nanos)
        } else {
            proof {
                reveal_strlit("Client not found");
            }
            Err(NfsError::State(String::from_str("Client not found")))
        }
    }

    /// Whether a client's lease is still valid, by the time since its last renewal; an
    /// unknown client gives the state error "Client not found".
    pub fn is_lease_valid(&self, client_id: u32) -> (r: NfsResult<bool>)
        ensures
            r is Ok <==> self.spec_clients().contains_key(client_id),
            r matches Err(e) ==> is_state_error(e, "Client not found"@),
    {
        match self.clients.get(&client_id) {
            Some(client) => {
                let elapsed = elapsed_nanos(&client.last_renewal);
                self.lease_valid_after(client_id, elapsed)
            },
            None => self.lease_valid_after(client_id, 0),
        }
    }

    /// Records an open state under its state id, replacing any there.
    pub fn record_open(&mut self, stateid: u32, filehandle: Vec<u8>, owner: u32, access: u32, share: u32) -> (r: NfsResult<()>)
        ensures
            r is Ok,
            final(self).spec_opens() == old(self).spec_opens().insert(stateid, OpenState { filehandle, owner, access, share }),
            final(self).spec_clients() == old(self).spec_clients(),
            final(self).spec_locks() == old(self).spec_locks(),
            final(self).spec_lease_nanos() == old(self).spec_lease_nanos(),
    {
        self.open_states.insert(stateid, OpenState { filehandle, owner, access, share });
        Ok(())
    }

    /// Records a lock state under its state id, replacing any there.
    pub fn record_lock(
        &mut self,
        stateid: u32,
        filehandle: Vec<u8>,
        owner: u32,
        lock_type: u32,
        offset: u64,
        length: u64,
    ) -> (r: NfsResult<()>)
        ensures
            r is Ok,
            final(self).spec_locks() == old(self).spec_locks().insert(
                stateid,
                LockState { filehandle, owner, lock_type, offset, length },
            ),
            final(self).spec_clients() == old(self).spec_clients(),
            final(self).spec_opens() == old(self).spec_opens(),
            final(self).spec_lease_nanos() == old(self).spec_lease_nanos(),
    {
        self.lock_states.insert(stateid, LockState { filehandle, owner, lock_type, offset, length });
        Ok(())
    }

    /// Removes the open state with the given id, if any.
    pub fn remove_open(&mut self, stateid: u32) -> (r: NfsResult<()>)
        ensures
            r is Ok,
            final(self).spec_opens() == old(self).spec_opens().remove(stateid),
            final(self).spec_clients() == old(self).spec_clients(),
            final(self).spec_locks() == old(self).spec_locks(),
            final(self).spec_lease_nanos() == old(self).spec_lease_nanos(),
    {
        self.open_states.remove(&stateid);
        Ok(())
    }

    /// Removes the lock state with the given id, if any.
    pub fn remove_lock(&mut self, stateid: u32) -> (r: NfsResult<()>)
        ensures
            r is Ok,
            final(self).spec_locks() == old(self).spec_locks().remove(stateid),
            final(self).spec_clients() == old(self).spec_clients(),
            final(self).spec_opens() == old(self).spec_opens(),
            final(self).spec_lease_nanos() == old(self).spec_lease_nanos(),
    {
        self.lock_states.remove(&stateid);
        Ok(())
    }

    /// Removes the clients that a reading in `readings` (client id and nanoseconds since its
    /// renewal) finds past the lease.
    pub fn remove_expired(&mut self, readings: &Vec<(u32, u128)>)
        ensures
            final(self).spec_clients() == old(self).spec_clients().remove_keys(expired_ids(readings@, old(self).spec_lease_nanos())),
            final(self).spec_opens() == old(self).spec_opens(),
            final(self).spec_locks() == old(self).spec_locks(),
            final(self).spec_lease_nanos() == old(self).spec_lease_nanos(),
    {
        let mut i: usize = 0;
        assert(expired_ids(readings@.take(0), self.lease_nanos) =~= Set::<u32>::empty());
        assert(old(self).spec_clients().remove_keys(Set::<u32>::empty()) =~= old(self).spec_clients());
        while i < readings.len()
            invariant
                i <= readings@.len(),
                self.spec_clients() == old(self).spec_clients().remove_keys(
                    expired_ids(readings@.take(i as int), self.lease_nanos),
                ),
                self.lease_nanos == old(self).spec_lease_nanos(),
                self.spec_opens() == old(self).spec_opens(),
                self.spec_locks() == old(self).spec_locks(),
            decreases readings.len() - i,
        {
            let (id, elapsed) = readings[i];
            let ghost lease = self.lease_nanos;
            let ghost prev = expired_ids(readings@.take(i as int), lease);
            let ghost next = expired_ids(readings@.take(i + 1), lease);
            proof {
                let t = readings@.take(i + 1);
                assert(t[i as int] == readings@[i as int]);
                assert forall|j: int| 0 <= j < i implies t[j] == readings@.take(i as int)[j] by {}
            }
            if elapsed > self.lease_nanos {
                proof {
                    assert(next =~= prev.insert(id));
                }
                self.clients.remove(&id);
                proof {
                    assert(self.spec_clients() =~= old(self).spec_clients().remove_keys(next));
                }
            } else {
                proof {
                    assert(next =~= prev);
                }
            }
            i = i + 1;
        }
        assert(readings@.take(readings@.len() as int) =~= readings@);
    }

    /// Removes the clients whose leases have expired, by the time since each one's last
    /// renewal. Every client that stays is unchanged.
    pub fn cleanup_expired(&mut self) -> (r: NfsResult<()>)
        ensures
            r is Ok,
            final(self).spec_clients().dom().subset_of(old(self).spec_clients().dom()),
            forall|k: u32| final(self).spec_clients().contains_key(k) ==> final(self).spec_clients()[k]
                == old(self).spec_clients()[k],
            final(self).spec_opens() == old(self).spec_opens(),
            final(self).spec_locks() == old(self).spec_locks(),
            final(self).spec_lease_nanos() == old(self).spec_lease_nanos(),
            exists|readings: Seq<(u32, u128)>| {
                &&& one_reading_each(readings, old(self).spec_clients().dom())
                &&& final(self).spec_clients() == old(self).spec_clients().remove_keys(
                    #[trigger] expired_ids(readings, old(self).spec_lease_nanos()),
                )
            },
    {
        let mut readings: Vec<(u32, u128)> = Vec::new();
        let ghost keys = vstd::std_specs::iter::IteratorSpec::remaining(&vstd::std_specs::hash::spec_keys_iter(&self.clients));
        proof {
            vstd::std_specs::hash::axiom_spec_keys_iter(&self.clients);
        }
        for id in it: self.clients.keys()
            invariant
                it.seq() == keys,
                readings@.len() == it.index(),
                forall|j: int| 0 <= j < it.index() ==> (#[trigger] readings@[j]).0 == *keys[j],
        {
            let elapsed = match self.clients.get(id) {
                Some(c) => elapsed_nanos(&c.last_renewal),
                None => 0,
            };
            readings.push((*id, elapsed));
        }
        proof {
            let dom = old(self).spec_clients().dom();
            assert(keys.unref().to_set() == dom);
            assert forall|j: int, k: int| 0 <= j < k < readings@.len() implies (#[trigger] readings@[j]).0
                != (#[trigger] readings@[k]).0 by {
                assert(keys.unref()[j] == *keys[j]);
                assert(keys.unref()[k] == *keys[k]);
            }
            assert forall|j: int| 0 <= j < readings@.len() implies dom.contains((#[trigger] readings@[j]).0) by {
                assert(keys.unref()[j] == *keys[j]);
                assert(keys.unref().contains(*keys[j]));
            }
            assert forall|id: u32| #[trigger] dom.contains(id) implies exists|j: int|
                0 <= j < readings@.len() && (#[trigger] readings@[j]).0 == id by {
                assert(keys.unref().to_set().contains(id));
                let j = choose|j: int| 0 <= j < keys.unref().len() && keys.unref()[j] == id;
                assert(readings@[j].0 == id);
            }
        }
        self.remove_expired(&readings);
        assert(self.spec_clients() == old(self).spec_clients().remove_keys(
            expired_ids(readings@, old(self).spec_lease_nanos()),
        ));
        Ok(())
    }
}

} // verus!
