//! The chain fork manager: the relay's state machine.
//!
//! The relay owns the set of stored headers and the candidate chains.
//! Chains are kept as full sequences of entries (indices into the
//! header store) from their start height to their tip, so a fork
//! carries a copy of the shared prefix and diverges only past its
//! fork height. Exactly one chain is main: the highest non-invalid,
//! gap-free chain, with ties kept by the earlier chain.

use vstd::prelude::*;
use crate::errors::Error;
use crate::hashing::{bytes_eq, clone_bytes, sha256d, sha256d_spec};
use crate::header::{le4_at, BlockHeader};
use crate::pow::{check_proof_of_work, compact_valid, compact_value, decode_compact};
use crate::retarget::{next_target, next_target_spec, DIFFICULTY_ADJUSTMENT_INTERVAL};
use crate::u256::le_bytes_value;

verus! {

/// A notification the relay emits towards its host.
#[derive(Debug)]
pub enum Event {
    /// The relay accepted its genesis header.
    Initialized { height: u64, hash: Vec<u8> },
    /// The main chain grew by one header.
    ExtendedMainChain { height: u64, hash: Vec<u8> },
    /// A header was stored on a chain other than main, or started one.
    NewFork { chain_id: u64, height: u64, hash: Vec<u8> },
    /// A fork overtook the main chain and became main.
    ChainReorg { old_main_id: u64, new_main_id: u64, fork_height: u64 },
}


/// `e` is an `Initialized` notification carrying exactly this height
/// and hash.
pub open spec fn event_is_initialized(e: Event, height: u64, hash: Seq<u8>) -> bool {
    match e {
        Event::Initialized { height: h, hash: v } => h == height && v@ == hash,
        _ => false,
    }
}

/// `e` is an `ExtendedMainChain` notification carrying exactly this
/// height and hash.
pub open spec fn event_is_extended(e: Event, height: u64, hash: Seq<u8>) -> bool {
    match e {
        Event::ExtendedMainChain { height: h, hash: v } => h == height && v@ == hash,
        _ => false,
    }
}

/// `e` is a `NewFork` notification carrying exactly these fields.
pub open spec fn event_is_new_fork(e: Event, chain_id: u64, height: u64, hash: Seq<u8>) -> bool {
    match e {
        Event::NewFork { chain_id: c, height: h, hash: v } => c == chain_id && h == height && v@
            == hash,
        _ => false,
    }
}

/// `e` is a `ChainReorg` notification carrying exactly these fields.
pub open spec fn event_is_reorg(e: Event, old_main_id: u64, new_main_id: u64, fork_height: u64) -> bool {
    e == (Event::ChainReorg { old_main_id, new_main_id, fork_height })
}

/// A block header at rest: its parsed form, its id, the height it was
/// stored at, and the chain that first stored it. Headers are
/// append-only and never change once stored.
#[derive(Debug)]
pub struct StoredHeader {
    pub header: BlockHeader,
    pub block_hash: Vec<u8>,
    pub height: u64,
    pub chain_ref: u64,
}

/// One candidate chain: a contiguous run of headers from
/// `start_height` to its tip, each entry an index into the relay's
/// header store.
#[derive(Debug)]
pub struct Chain {
    /// Equals this chain's index in the relay's chain list; ids are
    /// assigned by a counter and never reused.
    pub chain_id: u64,
    /// Height of `entries[0]`. For a `no_data` chain the heights are
    /// provisional (counted from zero) until its ancestry is known.
    pub start_height: u64,
    /// The height at which this chain diverged from the chain it
    /// forked off; for the genesis chain, its start height.
    pub fork_height: u64,
    /// Indices into the header store, one per height.
    pub entries: Vec<usize>,
    /// The chain's ancestry has a gap: its first header arrived
    /// before its parent was known. Such a chain keeps provisional
    /// heights, may grow at its tip, and never takes part in
    /// main-chain selection.
    pub no_data: bool,
    /// The chain was caught violating a consensus rule and may never
    /// become main.
    pub invalid: bool,
}

impl Chain {
    /// The height of this chain's tip.
    pub open spec fn max_height(self) -> int {
        self.start_height + self.entries@.len() - 1
    }
}

/// The whole relay state. All mutation goes through `initialize` and
/// `submit_header`; each call is one atomic transition.
#[derive(Debug)]
pub struct BtcRelay {
    /// Set by the one successful `initialize`.
    pub initialized: bool,
    /// While set, every mutating operation fails fast.
    pub shutdown: bool,
    /// Every header ever accepted, append-only.
    pub headers: Vec<StoredHeader>,
    /// Every chain ever created; `chains[i].chain_id == i`.
    pub chains: Vec<Chain>,
    /// The next chain id; equals the number of chains.
    pub chain_counter: u64,
    /// Index (= id) of the current main chain.
    pub main_index: usize,
    /// Hash of the main chain's tip.
    pub best_block: Vec<u8>,
    /// Height of the main chain's tip.
    pub best_block_height: u64,
    /// Everything emitted so far, append-only.
    pub events: Vec<Event>,
}

impl BtcRelay {
    /// Stored header `j` is well formed and points at a real chain.
    pub open spec fn header_ok(self, j: int) -> bool {
        &&& self.headers@[j].block_hash@.len() == 32
        &&& self.headers@[j].header.wf()
        &&& self.headers@[j].chain_ref < self.chains@.len()
    }

    /// Chain `ci` is well formed: entries are real headers, heights
    /// are contiguous from its start, and every non-first header
    /// links to its predecessor by hash.
    pub open spec fn chain_ok(self, ci: int) -> bool {
        let c = self.chains@[ci];
        &&& c.chain_id == ci
        &&& c.entries@.len() >= 1
        &&& c.start_height + c.entries@.len() - 1 <= u64::MAX
        &&& forall|i: int|
            0 <= i < c.entries@.len() ==> (#[trigger] c.entries@[i]) < self.headers@.len()
        &&& forall|i: int|
            0 <= i < c.entries@.len() ==> self.headers@[#[trigger] c.entries@[i] as int].height
                == c.start_height + i
        &&& forall|i: int|
            1 <= i < c.entries@.len() ==> self.headers@[#[trigger] c.entries@[i] as int].header.prev_hash@
                == self.headers@[c.entries@[i - 1] as int].block_hash@
    }

    /// No two stored headers share a hash.
    pub open spec fn hashes_unique(self) -> bool {
        forall|j: int, k: int|
            0 <= j < self.headers@.len() && 0 <= k < self.headers@.len() && j != k
                ==> (#[trigger] self.headers@[j].block_hash@) != (#[trigger] self.headers@[k].block_hash@)
    }

    /// Stored header `j` sits on the chain it references, at its own
    /// height.
    pub open spec fn member_of_ref(self, j: int) -> bool {
        let h = self.headers@[j];
        let c = self.chains@[h.chain_ref as int];
        &&& c.start_height <= h.height
        &&& h.height - c.start_height < c.entries@.len()
        &&& c.entries@[h.height - c.start_height] == j
    }

    /// The main chain exists, is clean, tops every other clean chain,
    /// and the best-block pointers describe its tip.
    pub open spec fn main_ok(self) -> bool {
        let m = self.chains@[self.main_index as int];
        &&& self.main_index < self.chains@.len()
        &&& !m.invalid
        &&& !m.no_data
        &&& forall|ci: int|
            0 <= ci < self.chains@.len() && !(#[trigger] self.chains@[ci]).invalid
                && !self.chains@[ci].no_data ==> self.chains@[ci].max_height() <= m.max_height()
        &&& self.best_block_height == m.max_height()
        &&& self.best_block@ == self.headers@[m.entries@.last() as int].block_hash@
    }

    /// The relay's global invariant.
    pub open spec fn wf(self) -> bool {
        &&& !self.initialized ==> self.headers@.len() == 0 && self.chains@.len() == 0
        &&& self.initialized ==> self.chains@.len() >= 1 && self.main_ok()
        &&& forall|j: int| 0 <= j < self.headers@.len() ==> self.header_ok(j)
        &&& forall|j: int| 0 <= j < self.headers@.len() ==> self.member_of_ref(j)
        &&& forall|ci: int| 0 <= ci < self.chains@.len() ==> self.chain_ok(ci)
        &&& self.hashes_unique()
        &&& self.chain_counter == self.chains@.len()
    }

    /// Some stored header has hash `h`.
    pub open spec fn has_hash(self, h: Seq<u8>) -> bool {
        exists|j: int| 0 <= j < self.headers@.len() && (#[trigger] self.headers@[j].block_hash@) == h
    }

    /// The index of the stored header with hash `h`.
    pub open spec fn idx_of_hash(self, h: Seq<u8>) -> int {
        choose|j: int| 0 <= j < self.headers@.len() && (#[trigger] self.headers@[j].block_hash@) == h
    }

    /// Field-wise sameness of two relay states.
    pub open spec fn like(self, other: BtcRelay) -> bool {
        &&& self.initialized == other.initialized
        &&& self.shutdown == other.shutdown
        &&& self.headers@ == other.headers@
        &&& self.chains@ == other.chains@
        &&& self.chain_counter == other.chain_counter
        &&& self.main_index == other.main_index
        &&& self.best_block@ == other.best_block@
        &&& self.best_block_height == other.best_block_height
        &&& self.events@ == other.events@
    }

    /// A fresh, uninitialized relay.
    pub fn new() -> (r: BtcRelay)
        ensures
            r.wf(),
            !r.initialized,
            !r.shutdown,
            r.events@.len() == 0,
            r.headers@.len() == 0,
            r.chains@.len() == 0,
            r.chain_counter == 0,
            r.best_block_height == 0,
            r.best_block@ == Seq::<u8>::empty(),
    {
        BtcRelay {
            initialized: false,
            shutdown: false,
            headers: Vec::new(),
            chains: Vec::new(),
            chain_counter: 0,
            main_index: 0,
            best_block: Vec::new(),
            best_block_height: 0,
            events: Vec::new(),
        }
    }

    /// Flips the host's pause switch; while set, mutating calls fail
    /// with `Shutdown`.
    pub fn set_shutdown(&mut self, flag: bool)
        requires
            old(self).wf(),
        ensures
            final(self).wf(),
            final(self).shutdown == flag,
            final(self).initialized == old(self).initialized,
            final(self).headers@ == old(self).headers@,
            final(self).chains@ == old(self).chains@,
            final(self).chain_counter == old(self).chain_counter,
            final(self).main_index == old(self).main_index,
            final(self).best_block@ == old(self).best_block@,
            final(self).best_block_height == old(self).best_block_height,
            final(self).events@ == old(self).events@,
    {
        self.shutdown = flag;
        proof {
            assert forall|j: int| 0 <= j < self.headers@.len() implies self.header_ok(j) by {
                assert(old(self).header_ok(j));
            }
            assert forall|j: int| 0 <= j < self.headers@.len() implies self.member_of_ref(j) by {
                assert(old(self).member_of_ref(j));
            }
            assert forall|ci: int| 0 <= ci < self.chains@.len() implies self.chain_ok(ci) by {
                assert(old(self).chain_ok(ci));
            }
        }
    }

    /// Finds the stored header carrying the given hash.
    fn find_header_index(&self, hash: &Vec<u8>) -> (r: Option<usize>)
        ensures
            match r {
                Some(j) => j < self.headers@.len() && self.headers@[j as int].block_hash@ == hash@,
                None => !self.has_hash(hash@),
            },
    {
        let mut j: usize = 0;
        while j < self.headers.len()
            invariant
                j <= self.headers@.len(),
                forall|k: int| 0 <= k < j ==> (#[trigger] self.headers@[k].block_hash@) != hash@,
            decreases self.headers@.len() - j,
        {
            if bytes_eq(&self.headers[j].block_hash, hash) {
                return Some(j);
            }
            j = j + 1;
        }
        None
    }

    /// Accepts the one genesis header: only legal while no chain
    /// exists. Creates chain 0 as main at the supplied height.
    #[verifier::rlimit(50)]
    pub fn initialize(&mut self, raw: &Vec<u8>, height: u64) -> (r: Result<(), Error>)
        requires
            old(self).wf(),
            height < u64::MAX,
        ensures
            final(self).wf(),
            final(self).shutdown == old(self).shutdown,
            old(self).shutdown ==> r == Err::<(), Error>(Error::Shutdown) && final(self).like(
                *old(self),
            ),
            !old(self).shutdown && old(self).initialized ==> r == Err::<(), Error>(
                Error::AlreadyInitialized,
            ) && final(self).like(*old(self)),
            !old(self).shutdown && !old(self).initialized && raw@.len() != 80 ==> r == Err::<
                (),
                Error,
            >(Error::InvalidHeaderSize) && final(self).like(*old(self)),
            !old(self).shutdown && !old(self).initialized && raw@.len() == 80 ==> {
                &&& r is Ok
                &&& final(self).initialized
                &&& final(self).headers@.len() == 1
                &&& final(self).headers@[0].header.parsed_from(raw@)
                &&& final(self).headers@[0].block_hash@ == sha256d_spec(raw@)
                &&& final(self).headers@[0].height == height
                &&& final(self).chains@.len() == 1
                &&& final(self).chain_counter == 1
                &&& final(self).chains@[0].start_height == height
                &&& final(self).chains@[0].fork_height == height
                &&& !final(self).chains@[0].no_data
                &&& !final(self).chains@[0].invalid
                &&& final(self).chains@[0].entries@ == seq![0usize]
                &&& final(self).headers@[0].chain_ref == 0
                &&& final(self).main_index == 0
                &&& final(self).best_block_height == height
                &&& final(self).best_block@ == sha256d_spec(raw@)
                &&& final(self).events@.len() == old(self).events@.len() + 1
                &&& final(self).events@.subrange(0, old(self).events@.len() as int) == old(
                    self,
                ).events@
                &&& event_is_initialized(final(self).events@.last(), height, sha256d_spec(raw@))
            },
    {
        if self.shutdown {
            return Err(Error::Shutdown);
        }
        if self.initialized {
            return Err(Error::AlreadyInitialized);
        }
        let header = match BlockHeader::decode(raw) {
            Ok(h) => h,
            Err(e) => {
                return Err(e);
            },
        };
        let hash = sha256d(raw);
        let stored = StoredHeader { header, block_hash: hash, height, chain_ref: 0 };
        let event_hash = clone_bytes(&stored.block_hash);
        let mut entries: Vec<usize> = Vec::new();
        entries.push(0);
        let chain = Chain {
            chain_id: 0,
            start_height: height,
            fork_height: height,
            entries,
            no_data: false,
            invalid: false,
        };
        self.headers.push(stored);
        self.chains.push(chain);
        self.chain_counter = 1;
        self.main_index = 0;
        self.best_block = clone_bytes(&event_hash);
        self.best_block_height = height;
        self.initialized = true;
        self.events.push(Event::Initialized { height, hash: event_hash });
        proof {
            assert(self.chains@[0].entries@.len() == 1);
            assert(self.chains@[0].entries@[0] == 0);
            assert(self.header_ok(0));
            assert(self.chain_ok(0));
            assert(self.member_of_ref(0));
            assert(self.main_ok());
            assert(self.events@.subrange(0, old(self).events@.len() as int) =~= old(self).events@);
        }
        Ok(())
    }


    /// The difficulty target the schedule expects for the header that
    /// would extend stored header `pj`: at an adjustment boundary the
    /// retarget rule applies, otherwise the previous header's own
    /// target carries over. Gapped chains never retarget, since their
    /// heights are provisional.
    pub open spec fn expected_target_spec(self, pj: int) -> int {
        let prev = self.headers@[pj];
        let c = self.chains@[prev.chain_ref as int];
        let h = prev.height + 1;
        if !c.no_data && h % (DIFFICULTY_ADJUSTMENT_INTERVAL as int) == 0 && h - (
        DIFFICULTY_ADJUSTMENT_INTERVAL as int) >= c.start_height {
            let sj = c.entries@[h - (DIFFICULTY_ADJUSTMENT_INTERVAL as int) - c.start_height];
            next_target_spec(
                compact_value(prev.header.bits),
                self.headers@[sj as int].header.timestamp,
                prev.header.timestamp,
            )
        } else {
            compact_value(prev.header.bits)
        }
    }

    /// Computes `expected_target_spec`; fails `InvalidHeaderSize` when
    /// the previous header's own compact target is malformed.
    #[verifier::rlimit(100)]
    #[verifier::spinoff_prover]
    fn expected_target(&self, pj: usize) -> (r: Result<crate::u256::U256, Error>)
        requires
            pj < self.headers@.len(),
            self.header_ok(pj as int),
            self.chain_ok(self.headers@[pj as int].chain_ref as int),
            self.member_of_ref(pj as int),
            self.headers@[pj as int].height < u64::MAX,
        ensures
            compact_valid(self.headers@[pj as int].header.bits) ==> r is Ok && r->Ok_0.to_nat()
                == self.expected_target_spec(pj as int),
            !compact_valid(self.headers@[pj as int].header.bits) ==> r == Err::<
                crate::u256::U256,
                Error,
            >(Error::InvalidHeaderSize),
    {
        let prev_bits = self.headers[pj].header.bits;
        let cur = match decode_compact(prev_bits) {
            Ok(t) => t,
            Err(e) => {
                return Err(e);
            },
        };
        let cr: u64 = self.headers[pj].chain_ref;
        let n_chains: usize = self.chains.len();
        proof {
            assert(cr < self.chains@.len());
            assert(n_chains == self.chains@.len());
        }
        let ci: usize = cr as usize;
        proof {
            assert(ci == cr as int);
        }
        let c = &self.chains[ci];
        let h = self.headers[pj].height + 1;
        if !c.no_data && h % DIFFICULTY_ADJUSTMENT_INTERVAL == 0 && h >= DIFFICULTY_ADJUSTMENT_INTERVAL
            && h - DIFFICULTY_ADJUSTMENT_INTERVAL >= c.start_height {
            let off64: u64 = h - DIFFICULTY_ADJUSTMENT_INTERVAL - c.start_height;
            let n_entries: usize = c.entries.len();
            proof {
                assert(self.headers@[pj as int].height - c.start_height < c.entries@.len());
                assert(off64 <= self.headers@[pj as int].height - c.start_height);
                assert(off64 < n_entries);
            }
            let off: usize = off64 as usize;
            let sj = c.entries[off];
            proof {
                assert(sj == c.entries@[off as int]);
                assert(sj < self.headers@.len());
            }
            let start_ts = self.headers[sj].header.timestamp;
            let end_ts = self.headers[pj].header.timestamp;
            let r = next_target(&cur, start_ts, end_ts);
            proof {
                assert(self.expected_target_spec(pj as int) == next_target_spec(
                    compact_value(prev_bits),
                    start_ts,
                    end_ts,
                ));
            }
            Ok(r)
        } else {
            proof {
                assert(self.expected_target_spec(pj as int) == compact_value(prev_bits));
            }
            Ok(cur)
        }
    }


    /// Marks a non-main chain invalid; everything else is untouched.
    #[verifier::rlimit(100)]
    fn mark_invalid(&mut self, ci: usize)
        requires
            old(self).wf(),
            ci < old(self).chains@.len(),
            ci != old(self).main_index,
        ensures
            final(self).wf(),
            final(self).initialized == old(self).initialized,
            final(self).shutdown == old(self).shutdown,
            final(self).headers@ == old(self).headers@,
            final(self).chain_counter == old(self).chain_counter,
            final(self).main_index == old(self).main_index,
            final(self).best_block@ == old(self).best_block@,
            final(self).best_block_height == old(self).best_block_height,
            final(self).events@ == old(self).events@,
            final(self).chains@.len() == old(self).chains@.len(),
            forall|i: int|
                0 <= i < old(self).chains@.len() && i != ci ==> final(self).chains@[i] == old(
                    self,
                ).chains@[i],
            final(self).chains@[ci as int].invalid,
            final(self).chains@[ci as int].chain_id == old(self).chains@[ci as int].chain_id,
            final(self).chains@[ci as int].start_height == old(self).chains@[ci as int].start_height,
            final(self).chains@[ci as int].fork_height == old(self).chains@[ci as int].fork_height,
            final(self).chains@[ci as int].entries@ == old(self).chains@[ci as int].entries@,
            final(self).chains@[ci as int].no_data == old(self).chains@[ci as int].no_data,
    {
        self.chains[ci].invalid = true;
        proof {
            assert forall|j: int| 0 <= j < self.headers@.len() implies self.header_ok(j) by {
                assert(old(self).header_ok(j));
            }
            assert forall|j: int| 0 <= j < self.headers@.len() implies self.member_of_ref(j) by {
                assert(old(self).header_ok(j));
                assert(old(self).member_of_ref(j));
                let cr = self.headers@[j].chain_ref as int;
                assert(self.chains@[cr].entries@ == old(self).chains@[cr].entries@);
                assert(self.chains@[cr].start_height == old(self).chains@[cr].start_height);
            }
            assert forall|c2: int| 0 <= c2 < self.chains@.len() implies self.chain_ok(c2) by {
                assert(old(self).chain_ok(c2));
                assert(self.chains@[c2].entries@ == old(self).chains@[c2].entries@);
                assert(self.chains@[c2].start_height == old(self).chains@[c2].start_height);
                assert(self.chains@[c2].chain_id == old(self).chains@[c2].chain_id);
            }
            if self.initialized {
                let m = self.chains@[self.main_index as int];
                assert forall|c2: int|
                    0 <= c2 < self.chains@.len() && !(#[trigger] self.chains@[c2]).invalid
                        && !self.chains@[c2].no_data implies self.chains@[c2].max_height()
                    <= m.max_height() by {
                    assert(!old(self).chains@[c2].invalid && !old(self).chains@[c2].no_data);
                }
            }
        }
    }

    /// Stores a header whose ancestry is unknown: it starts a fresh
    /// `no_data` chain with provisional heights counted from zero.
    #[verifier::rlimit(100)]
    fn push_nodata(&mut self, header: BlockHeader, hash: Vec<u8>)
        requires
            old(self).wf(),
            old(self).initialized,
            header.wf(),
            hash@.len() == 32,
            !old(self).has_hash(hash@),
        ensures
            final(self).wf(),
            final(self).initialized,
            final(self).shutdown == old(self).shutdown,
            final(self).headers@.len() == old(self).headers@.len() + 1,
            final(self).headers@.subrange(0, old(self).headers@.len() as int) == old(
                self,
            ).headers@,
            final(self).headers@.last().header == header,
            final(self).headers@.last().block_hash@ == hash@,
            final(self).headers@.last().height == 0,
            final(self).headers@.last().chain_ref == old(self).chains@.len(),
            final(self).chains@.len() == old(self).chains@.len() + 1,
            final(self).chain_counter == old(self).chain_counter + 1,
            final(self).chains@.subrange(0, old(self).chains@.len() as int) == old(self).chains@,
            final(self).chains@.last().chain_id == old(self).chains@.len(),
            final(self).chains@.last().start_height == 0,
            final(self).chains@.last().fork_height == 0,
            final(self).chains@.last().no_data,
            !final(self).chains@.last().invalid,
            final(self).chains@.last().entries@.len() == 1,
            final(self).main_index == old(self).main_index,
            final(self).best_block@ == old(self).best_block@,
            final(self).best_block_height == old(self).best_block_height,
            final(self).events@.len() == old(self).events@.len() + 1,
            final(self).events@.subrange(0, old(self).events@.len() as int) == old(self).events@,
            event_is_new_fork(
                final(self).events@.last(),
                old(self).chains@.len() as u64,
                0,
                hash@,
            ),
    {
        let new_j: usize = self.headers.len();
        let new_id64: u64 = self.chains.len() as u64;
        let hash_ev = clone_bytes(&hash);
        let stored = StoredHeader { header, block_hash: hash, height: 0, chain_ref: new_id64 };
        let mut entries: Vec<usize> = Vec::new();
        entries.push(new_j);
        let chain = Chain {
            chain_id: new_id64,
            start_height: 0,
            fork_height: 0,
            entries,
            no_data: true,
            invalid: false,
        };
        self.headers.push(stored);
        self.chains.push(chain);
        self.chain_counter = self.chains.len() as u64;
        self.events.push(Event::NewFork { chain_id: new_id64, height: 0, hash: hash_ev });
        proof {
            let nl = self.headers@.len() - 1;
            let nc = self.chains@.len() - 1;
            assert(self.headers@.subrange(0, nl) =~= old(self).headers@);
            assert(self.chains@.subrange(0, nc) =~= old(self).chains@);
            assert(self.events@.subrange(0, self.events@.len() - 1) =~= old(self).events@);
            assert forall|j: int| 0 <= j < self.headers@.len() implies self.header_ok(j) by {
                if j < nl {
                    assert(old(self).header_ok(j));
                }
            }
            assert forall|j: int| 0 <= j < self.headers@.len() implies self.member_of_ref(j) by {
                if j < nl {
                    assert(old(self).header_ok(j));
                    assert(old(self).member_of_ref(j));
                    assert(self.headers@[j] == old(self).headers@[j]);
                    assert(self.chains@[self.headers@[j].chain_ref as int] == old(
                        self,
                    ).chains@[self.headers@[j].chain_ref as int]);
                } else {
                    assert(self.chains@[nc].entries@[0] == new_j);
                }
            }
            assert forall|c2: int| 0 <= c2 < self.chains@.len() implies self.chain_ok(c2) by {
                if c2 < nc {
                    assert(old(self).chain_ok(c2));
                    assert(self.chains@[c2] == old(self).chains@[c2]);
                    let c = self.chains@[c2];
                    assert forall|i: int|
                        0 <= i < c.entries@.len() implies self.headers@[#[trigger] c.entries@[i] as int]
                        == old(self).headers@[c.entries@[i] as int] by {}
                } else {
                    assert(self.chains@[c2].entries@.len() == 1);
                    assert(self.chains@[c2].entries@[0] == new_j);
                }
            }
            assert forall|j: int, k: int|
                0 <= j < self.headers@.len() && 0 <= k < self.headers@.len() && j
                    != k implies (#[trigger] self.headers@[j].block_hash@) != (
            #[trigger] self.headers@[k].block_hash@) by {
                if j < nl && k < nl {
                    assert(old(self).hashes_unique());
                    assert(old(self).headers@[j].block_hash@ != old(self).headers@[k].block_hash@);
                } else if j == nl && k < nl {
                    assert(!old(self).has_hash(self.headers@[j].block_hash@));
                } else if k == nl && j < nl {
                    assert(!old(self).has_hash(self.headers@[k].block_hash@));
                }
            }
            let m = self.chains@[self.main_index as int];
            assert(m == old(self).chains@[old(self).main_index as int]);
            assert forall|c2: int|
                0 <= c2 < self.chains@.len() && !(#[trigger] self.chains@[c2]).invalid
                    && !self.chains@[c2].no_data implies self.chains@[c2].max_height()
                <= m.max_height() by {
                if c2 < nc {
                    assert(old(self).chains@[c2] == self.chains@[c2]);
                }
            }
            assert(old(self).main_ok());
            assert(old(self).chain_ok(old(self).main_index as int));
            assert(m.entries@.last() == old(self).chains@[old(
                self,
            ).main_index as int].entries@.last());
            assert(old(self).chains@[old(self).main_index as int].entries@[old(
                self,
            ).chains@[old(self).main_index as int].entries@.len() - 1] < old(self).headers@.len());
            assert(self.headers@[m.entries@.last() as int] == old(self).headers@[m.entries@.last() as int]);
        }
    }


    /// Appends a header to the tip of the chain its parent sits on.
    /// If that chain is main, the best-block pointers advance; if a
    /// fork overtakes main, the relay reorganizes and says so.
    #[verifier::rlimit(100)]
    #[verifier::spinoff_prover]
    fn push_extend(&mut self, pj: usize, header: BlockHeader, hash: Vec<u8>)
        requires
            old(self).wf(),
            old(self).initialized,
            pj < old(self).headers@.len(),
            header.wf(),
            hash@.len() == 32,
            !old(self).has_hash(hash@),
            header.prev_hash@ == old(self).headers@[pj as int].block_hash@,
            old(self).headers@[pj as int].height < u64::MAX,
            old(self).headers@[pj as int].height == old(self).chains@[old(self).headers@[pj as int].chain_ref as int].max_height(),
        ensures
            final(self).wf(),
            final(self).initialized,
            final(self).shutdown == old(self).shutdown,
            final(self).headers@.len() == old(self).headers@.len() + 1,
            final(self).headers@.subrange(0, old(self).headers@.len() as int) == old(
                self,
            ).headers@,
            final(self).headers@.last().header == header,
            final(self).headers@.last().block_hash@ == hash@,
            final(self).headers@.last().height == old(self).headers@[pj as int].height + 1,
            final(self).headers@.last().chain_ref == old(self).headers@[pj as int].chain_ref,
            final(self).chains@.len() == old(self).chains@.len(),
            final(self).chain_counter == old(self).chain_counter,
            forall|i: int|
                0 <= i < old(self).chains@.len() && i != old(self).headers@[pj as int].chain_ref
                    ==> final(self).chains@[i] == old(self).chains@[i],
            final(self).chains@[old(self).headers@[pj as int].chain_ref as int].entries@ == old(
                self,
            ).chains@[old(self).headers@[pj as int].chain_ref as int].entries@.push(
                old(self).headers@.len() as usize,
            ),
            final(self).chains@[old(self).headers@[pj as int].chain_ref as int].start_height
                == old(self).chains@[old(self).headers@[pj as int].chain_ref as int].start_height,
            final(self).chains@[old(self).headers@[pj as int].chain_ref as int].chain_id == old(
                self,
            ).chains@[old(self).headers@[pj as int].chain_ref as int].chain_id,
            final(self).chains@[old(self).headers@[pj as int].chain_ref as int].fork_height == old(
                self,
            ).chains@[old(self).headers@[pj as int].chain_ref as int].fork_height,
            final(self).chains@[old(self).headers@[pj as int].chain_ref as int].no_data == old(
                self,
            ).chains@[old(self).headers@[pj as int].chain_ref as int].no_data,
            final(self).chains@[old(self).headers@[pj as int].chain_ref as int].invalid == old(
                self,
            ).chains@[old(self).headers@[pj as int].chain_ref as int].invalid,
            final(self).events@.subrange(0, old(self).events@.len() as int) == old(self).events@,
            ({
                let cr = old(self).headers@[pj as int].chain_ref as int;
                let nh = old(self).headers@[pj as int].height + 1;
                if cr == old(self).main_index {
                    &&& final(self).main_index == old(self).main_index
                    &&& final(self).best_block_height == nh
                    &&& final(self).best_block@ == hash@
                    &&& final(self).events@.len() == old(self).events@.len() + 1
                    &&& event_is_extended(final(self).events@.last(), nh as u64, hash@)
                } else if !old(self).chains@[cr].invalid && !old(self).chains@[cr].no_data && nh
                    > old(self).best_block_height {
                    &&& final(self).main_index == cr
                    &&& final(self).best_block_height == nh
                    &&& final(self).best_block@ == hash@
                    &&& final(self).events@.len() == old(self).events@.len() + 2
                    &&& event_is_new_fork(
                        final(self).events@[final(self).events@.len() - 2],
                        cr as u64,
                        nh as u64,
                        hash@,
                    )
                    &&& event_is_reorg(
                        final(self).events@.last(),
                        old(self).main_index as u64,
                        cr as u64,
                        old(self).chains@[cr].fork_height,
                    )
                } else {
                    &&& final(self).main_index == old(self).main_index
                    &&& final(self).best_block_height == old(self).best_block_height
                    &&& final(self).best_block@ == old(self).best_block@
                    &&& final(self).events@.len() == old(self).events@.len() + 1
                    &&& event_is_new_fork(final(self).events@.last(), cr as u64, nh as u64, hash@)
                }
            }),
    {
        let cr64: u64 = self.headers[pj].chain_ref;
        let n_chains: usize = self.chains.len();
        proof {
            assert(old(self).header_ok(pj as int));
            assert(cr64 < n_chains);
            assert(old(self).member_of_ref(pj as int));
            assert(old(self).chain_ok(cr64 as int));
        }
        let ci: usize = cr64 as usize;
        let new_j: usize = self.headers.len();
        let h_new: u64 = self.headers[pj].height + 1;
        let hash_ev = clone_bytes(&hash);
        let stored = StoredHeader { header, block_hash: hash, height: h_new, chain_ref: cr64 };
        self.headers.push(stored);
        self.chains[ci].entries.push(new_j);
        let n_after: usize = self.headers.len();
        proof {
            assert(old(self).headers@.len() == n_after - 1);
            let nl = self.headers@.len() - 1;
            assert(self.headers@.subrange(0, nl) =~= old(self).headers@);
            assert(self.chains@[ci as int].entries@ == old(self).chains@[ci as int].entries@.push(
                new_j,
            ));
        }
        if ci == self.main_index {
            self.best_block = clone_bytes(&hash_ev);
            self.best_block_height = h_new;
            self.events.push(Event::ExtendedMainChain { height: h_new, hash: hash_ev });
            proof {
                assert(self.events@.subrange(0, self.events@.len() - 1) =~= old(self).events@);
                assert(extend_rel(*old(self), *self, pj as int, ci as int));
                lemma_wf_after_extend(*old(self), *self, pj as int, ci as int, new_j as int);
                lemma_main_ok_after_extend_main(*old(self), *self, pj as int, ci as int);
                assert(self.wf());
            }
        } else {
            self.events.push(Event::NewFork { chain_id: cr64, height: h_new, hash: hash_ev });
            let overtakes = !self.chains[ci].invalid && !self.chains[ci].no_data && h_new
                > self.best_block_height;
            if overtakes {
                let old_main = self.main_index;
                self.main_index = ci;
                self.best_block_height = h_new;
                self.best_block = clone_bytes(&self.headers[new_j].block_hash);
                self.events.push(
                    Event::ChainReorg {
                        old_main_id: old_main as u64,
                        new_main_id: cr64,
                        fork_height: self.chains[ci].fork_height,
                    },
                );
                proof {
                    assert(self.events@.subrange(0, self.events@.len() - 2) =~= old(self).events@);
                    assert(extend_rel(*old(self), *self, pj as int, ci as int));
                    lemma_wf_after_extend(*old(self), *self, pj as int, ci as int, new_j as int);
                    lemma_main_ok_after_reorg(*old(self), *self, pj as int, ci as int);
                    assert(self.wf());
                }
            } else {
                proof {
                    assert(self.events@.subrange(0, self.events@.len() - 1) =~= old(self).events@);
                    assert(extend_rel(*old(self), *self, pj as int, ci as int));
                    lemma_wf_after_extend(*old(self), *self, pj as int, ci as int, new_j as int);
                    lemma_main_ok_after_side_extend(*old(self), *self, pj as int, ci as int);
                    assert(self.wf());
                }
            }
        }
    }


    /// Stores a header that attaches below the tip of an existing
    /// chain: a new fork chain is created that shares the prefix up
    /// to the parent and diverges past it. The fork inherits the
    /// parent chain's flags, and main never changes here, since the
    /// fork starts no higher than the chain it left.
    #[verifier::rlimit(100)]
    #[verifier::spinoff_prover]
    fn push_fork(&mut self, pj: usize, header: BlockHeader, hash: Vec<u8>)
        requires
            old(self).wf(),
            old(self).initialized,
            pj < old(self).headers@.len(),
            header.wf(),
            hash@.len() == 32,
            !old(self).has_hash(hash@),
            header.prev_hash@ == old(self).headers@[pj as int].block_hash@,
            old(self).headers@[pj as int].height < old(self).chains@[old(self).headers@[pj as int].chain_ref as int].max_height(),
        ensures
            final(self).wf(),
            final(self).initialized,
            final(self).shutdown == old(self).shutdown,
            final(self).headers@.len() == old(self).headers@.len() + 1,
            final(self).headers@.subrange(0, old(self).headers@.len() as int) == old(
                self,
            ).headers@,
            final(self).headers@.last().header == header,
            final(self).headers@.last().block_hash@ == hash@,
            final(self).headers@.last().height == old(self).headers@[pj as int].height + 1,
            final(self).headers@.last().chain_ref == old(self).chains@.len(),
            final(self).chains@.len() == old(self).chains@.len() + 1,
            final(self).chain_counter == old(self).chain_counter + 1,
            final(self).chains@.subrange(0, old(self).chains@.len() as int) == old(self).chains@,
            final(self).chains@.last().chain_id == old(self).chains@.len(),
            final(self).chains@.last().start_height == old(self).chains@[old(self).headers@[pj as int].chain_ref as int].start_height,
            final(self).chains@.last().max_height() == old(self).headers@[pj as int].height + 1,
            final(self).chains@.last().fork_height == old(self).headers@[pj as int].height + 1,
            final(self).chains@.last().no_data == old(self).chains@[old(self).headers@[pj as int].chain_ref as int].no_data,
            final(self).chains@.last().invalid == old(self).chains@[old(self).headers@[pj as int].chain_ref as int].invalid,
            final(self).main_index == old(self).main_index,
            final(self).best_block@ == old(self).best_block@,
            final(self).best_block_height == old(self).best_block_height,
            final(self).events@.len() == old(self).events@.len() + 1,
            final(self).events@.subrange(0, old(self).events@.len() as int) == old(self).events@,
            event_is_new_fork(
                final(self).events@.last(),
                old(self).chains@.len() as u64,
                (old(self).headers@[pj as int].height + 1) as u64,
                hash@,
            ),
    {
        let cr64: u64 = self.headers[pj].chain_ref;
        let n_chains: usize = self.chains.len();
        proof {
            assert(old(self).header_ok(pj as int));
            assert(cr64 < n_chains);
            assert(old(self).member_of_ref(pj as int));
            assert(old(self).chain_ok(cr64 as int));
        }
        let ci: usize = cr64 as usize;
        let new_j: usize = self.headers.len();
        let new_id64: u64 = self.chains.len() as u64;
        let h_new: u64 = self.headers[pj].height + 1;
        let hash_ev = clone_bytes(&hash);
        let k64: u64 = self.headers[pj].height - self.chains[ci].start_height;
        let n_entries: usize = self.chains[ci].entries.len();
        proof {
            assert(k64 < n_entries);
        }
        let k: usize = k64 as usize;
        let mut entries: Vec<usize> = Vec::new();
        let mut i: usize = 0;
        proof {
            assert(entries@ =~= self.chains@[ci as int].entries@.subrange(0, 0));
        }
        proof {
            assert(k < usize::MAX);
        }
        while i <= k
            invariant
                i <= k + 1,
                k < usize::MAX,
                k < self.chains@[ci as int].entries@.len(),
                ci < self.chains@.len(),
                entries@ == self.chains@[ci as int].entries@.subrange(0, i as int),
            decreases k + 1 - i,
        {
            entries.push(self.chains[ci].entries[i]);
            i = i + 1;
            proof {
                assert(entries@ =~= self.chains@[ci as int].entries@.subrange(0, i as int));
            }
        }
        entries.push(new_j);
        let chain = Chain {
            chain_id: new_id64,
            start_height: self.chains[ci].start_height,
            fork_height: h_new,
            entries,
            no_data: self.chains[ci].no_data,
            invalid: self.chains[ci].invalid,
        };
        let stored = StoredHeader { header, block_hash: hash, height: h_new, chain_ref: new_id64 };
        self.headers.push(stored);
        self.chains.push(chain);
        self.chain_counter = self.chains.len() as u64;
        self.events.push(Event::NewFork { chain_id: new_id64, height: h_new, hash: hash_ev });
        proof {
            let pre = *old(self);
            let nl = self.headers@.len() - 1;
            let nc = self.chains@.len() - 1;
            let cidx = ci as int;
            let pc = pre.chains@[cidx];
            assert(self.headers@.subrange(0, nl) =~= pre.headers@);
            assert(self.chains@.subrange(0, nc) =~= pre.chains@);
            assert(self.events@.subrange(0, self.events@.len() - 1) =~= pre.events@);
            assert(self.chains@[nc].entries@ == pc.entries@.subrange(0, k + 1).push(new_j));
            assert forall|j: int| 0 <= j < self.headers@.len() implies self.header_ok(j) by {
                if j < nl {
                    assert(pre.header_ok(j));
                    assert(self.headers@[j] == pre.headers@[j]);
                }
            }
            assert forall|j: int| 0 <= j < self.headers@.len() implies self.member_of_ref(j) by {
                if j < nl {
                    assert(pre.header_ok(j));
                    assert(pre.member_of_ref(j));
                    assert(self.headers@[j] == pre.headers@[j]);
                    assert(self.chains@[self.headers@[j].chain_ref as int] == pre.chains@[self.headers@[j].chain_ref as int]);
                } else {
                    assert(self.chains@[nc].entries@.len() == k + 2);
                    assert(self.chains@[nc].entries@[k + 1] == new_j);
                    assert(self.headers@[j].height - self.chains@[nc].start_height == k + 1);
                }
            }
            assert forall|c2: int| 0 <= c2 < self.chains@.len() implies self.chain_ok(c2) by {
                if c2 < nc {
                    assert(pre.chain_ok(c2));
                    assert(self.chains@[c2] == pre.chains@[c2]);
                    let c = self.chains@[c2];
                    assert forall|i2: int|
                        0 <= i2 < c.entries@.len() implies self.headers@[#[trigger] c.entries@[i2] as int]
                        == pre.headers@[c.entries@[i2] as int] by {}
                } else {
                    let c = self.chains@[nc];
                    assert(c.chain_id == nc);
                    assert(c.entries@.len() == k + 2);
                    assert(pre.chain_ok(cidx));
                    assert(pre.member_of_ref(pj as int));
                    assert(pc.entries@[k as int] == pj);
                    assert forall|i2: int|
                        0 <= i2 < c.entries@.len() implies (#[trigger] c.entries@[i2])
                        < self.headers@.len() by {
                        if i2 <= k {
                            assert(c.entries@[i2] == pc.entries@[i2]);
                            assert(pc.entries@[i2] < pre.headers@.len());
                        } else {
                            assert(c.entries@[i2] == new_j);
                        }
                    }
                    assert forall|i2: int|
                        0 <= i2 < c.entries@.len() implies self.headers@[#[trigger] c.entries@[i2] as int].height
                        == c.start_height + i2 by {
                        if i2 <= k {
                            assert(c.entries@[i2] == pc.entries@[i2]);
                            assert(pre.headers@[pc.entries@[i2] as int].height == pc.start_height
                                + i2);
                            assert(self.headers@[c.entries@[i2] as int] == pre.headers@[pc.entries@[i2] as int]);
                        } else {
                            assert(c.entries@[i2] == new_j);
                        }
                    }
                    assert forall|i2: int|
                        1 <= i2 < c.entries@.len() implies self.headers@[#[trigger] c.entries@[i2] as int].header.prev_hash@
                        == self.headers@[c.entries@[i2 - 1] as int].block_hash@ by {
                        if i2 <= k {
                            assert(c.entries@[i2] == pc.entries@[i2]);
                            assert(c.entries@[i2 - 1] == pc.entries@[i2 - 1]);
                            assert(self.headers@[c.entries@[i2] as int] == pre.headers@[pc.entries@[i2] as int]);
                            assert(self.headers@[c.entries@[i2 - 1] as int] == pre.headers@[pc.entries@[i2
                                - 1] as int]);
                        } else {
                            assert(c.entries@[i2] == new_j);
                            assert(c.entries@[i2 - 1] == pc.entries@[k as int]);
                            assert(self.headers@[pj as int] == pre.headers@[pj as int]);
                        }
                    }
                }
            }
            assert forall|j: int, j2: int|
                0 <= j < self.headers@.len() && 0 <= j2 < self.headers@.len() && j
                    != j2 implies (#[trigger] self.headers@[j].block_hash@) != (
            #[trigger] self.headers@[j2].block_hash@) by {
                if j < nl && j2 < nl {
                    assert(pre.hashes_unique());
                    assert(pre.headers@[j].block_hash@ != pre.headers@[j2].block_hash@);
                } else if j == nl && j2 < nl {
                    assert(pre.headers@[j2].block_hash@ != self.headers@[nl].block_hash@);
                } else if j2 == nl && j < nl {
                    assert(pre.headers@[j].block_hash@ != self.headers@[nl].block_hash@);
                }
            }
            assert(pre.main_ok());
            assert(pre.chain_ok(pre.main_index as int));
            let m = self.chains@[self.main_index as int];
            assert(m == pre.chains@[pre.main_index as int]);
            assert forall|c2: int|
                0 <= c2 < self.chains@.len() && !(#[trigger] self.chains@[c2]).invalid
                    && !self.chains@[c2].no_data implies self.chains@[c2].max_height()
                <= m.max_height() by {
                if c2 < nc {
                    assert(self.chains@[c2] == pre.chains@[c2]);
                } else {
                    assert(!pc.invalid && !pc.no_data);
                    assert(pc.max_height() <= m.max_height());
                    assert(self.chains@[nc].max_height() == pre.headers@[pj as int].height + 1);
                }
            }
            assert(m.entries@.last() == pre.chains@[pre.main_index as int].entries@.last());
            assert(pre.chains@[pre.main_index as int].entries@[pre.chains@[pre.main_index as int].entries@.len()
                - 1] < pre.headers@.len());
            assert(self.headers@[m.entries@.last() as int] == pre.headers@[m.entries@.last() as int]);
        }
    }


    /// The decision `submit_header` takes on a raw header, given the
    /// state it arrives in: the error it is rejected with, or `None`
    /// when it is accepted and stored.
    pub open spec fn submit_rejection(self, raw: Seq<u8>) -> Option<Error> {
        let h = sha256d_spec(raw);
        let bits = le4_at(raw, 72) as u32;
        let prev_h = raw.subrange(4, 36);
        if self.shutdown {
            Some(Error::Shutdown)
        } else if !self.initialized {
            Some(Error::PrevBlock)
        } else if raw.len() != 80 {
            Some(Error::InvalidHeaderSize)
        } else if self.has_hash(h) {
            Some(Error::DuplicateBlock)
        } else if !compact_valid(bits) {
            Some(Error::InvalidHeaderSize)
        } else if le_bytes_value(h) > compact_value(bits) {
            Some(Error::LowDiff)
        } else if !self.has_hash(prev_h) {
            None
        } else {
            let pj = self.idx_of_hash(prev_h);
            if self.headers@[pj].height >= u64::MAX {
                Some(Error::PrevBlock)
            } else if !compact_valid(self.headers@[pj].header.bits) {
                Some(Error::InvalidHeaderSize)
            } else if compact_value(bits) != self.expected_target_spec(pj) {
                Some(Error::DiffTargetHeader)
            } else {
                None
            }
        }
    }

    /// The chain a consensus-failing header condemns, if any: the
    /// failing header's parent must be stored and sit at the tip of
    /// a chain other than main. That chain is then marked invalid.
    pub open spec fn marked_on_reject(self, raw: Seq<u8>) -> Option<int> {
        let prev_h = raw.subrange(4, 36);
        if self.has_hash(prev_h) {
            let pj = self.idx_of_hash(prev_h);
            let cr = self.headers@[pj].chain_ref as int;
            if self.headers@[pj].height == self.chains@[cr].max_height() && cr
                != self.main_index {
                Some(cr)
            } else {
                None
            }
        } else {
            None
        }
    }

    /// When a header failing a consensus check would have extended
    /// the tip of a chain other than main, that chain is marked
    /// invalid, so it can never become main; the rejected header
    /// itself is never stored.
    #[verifier::rlimit(100)]
    fn mark_submitting_chain(&mut self, pj: usize)
        requires
            old(self).wf(),
            old(self).initialized,
            pj < old(self).headers@.len(),
        ensures
            final(self).wf(),
            final(self).initialized == old(self).initialized,
            final(self).shutdown == old(self).shutdown,
            final(self).headers@ == old(self).headers@,
            final(self).events@ == old(self).events@,
            final(self).main_index == old(self).main_index,
            final(self).best_block@ == old(self).best_block@,
            final(self).best_block_height == old(self).best_block_height,
            final(self).chain_counter == old(self).chain_counter,
            ({
                let cr = old(self).headers@[pj as int].chain_ref as int;
                if old(self).headers@[pj as int].height == old(self).chains@[cr].max_height()
                    && cr != old(self).main_index {
                    chains_invalidated_at(*old(self), *final(self), cr)
                } else {
                    final(self).chains@ == old(self).chains@
                }
            }),
    {
        let cr64: u64 = self.headers[pj].chain_ref;
        let n_chains: usize = self.chains.len();
        proof {
            assert(self.header_ok(pj as int));
            assert(cr64 < n_chains);
            assert(self.member_of_ref(pj as int));
            assert(self.chain_ok(cr64 as int));
        }
        let ci: usize = cr64 as usize;
        let off64: u64 = self.headers[pj].height - self.chains[ci].start_height;
        let at_tip = off64 == self.chains[ci].entries.len() as u64 - 1;
        if at_tip && ci != self.main_index {
            self.mark_invalid(ci);
        }
    }

    /// Accepts or rejects one raw block header: the single mutating
    /// entry point after initialization. The decision is exactly
    /// `submit_rejection`; a rejected header never stores anything or
    /// emits an event, though a consensus failure at the tip of a
    /// fork marks that fork invalid. An accepted header is stored
    /// once, placed as `submit_accept_linked` or `submit_accept_gap`
    /// say, and the relay reorganizes, with exactly one reorg event,
    /// exactly when a clean fork overtakes the main chain.
    ///
    /// A chain started by an orphan header stays a gap chain for
    /// good: a later arrival of the missing ancestor does not
    /// re-anchor it, so its headers keep provisional heights and it
    /// never competes for main.
    #[verifier::rlimit(100)]
    #[verifier::spinoff_prover]
    pub fn submit_header(&mut self, raw: &Vec<u8>) -> (r: Result<(), Error>)
        requires
            old(self).wf(),
        ensures
            final(self).wf(),
            final(self).initialized == old(self).initialized,
            final(self).shutdown == old(self).shutdown,
            (match old(self).submit_rejection(raw@) {
                Some(e) => r == Err::<(), Error>(e),
                None => r is Ok,
            }),
            r is Err ==> {
                &&& final(self).headers@ == old(self).headers@
                &&& final(self).events@ == old(self).events@
                &&& final(self).main_index == old(self).main_index
                &&& final(self).best_block@ == old(self).best_block@
                &&& final(self).best_block_height == old(self).best_block_height
                &&& final(self).chain_counter == old(self).chain_counter
                &&& if (r == Err::<(), Error>(Error::LowDiff) || r == Err::<(), Error>(
                    Error::DiffTargetHeader,
                )) && old(self).marked_on_reject(raw@) is Some {
                    chains_invalidated_at(
                        *old(self),
                        *final(self),
                        old(self).marked_on_reject(raw@)->0,
                    )
                } else {
                    final(self).chains@ == old(self).chains@
                }
            },
            r is Err && r != Err::<(), Error>(Error::LowDiff) && r != Err::<(), Error>(
                Error::DiffTargetHeader,
            ) ==> final(self).like(*old(self)),
            r is Ok ==> {
                &&& final(self).headers@.len() == old(self).headers@.len() + 1
                &&& final(self).headers@.subrange(0, old(self).headers@.len() as int) == old(
                    self,
                ).headers@
                &&& final(self).headers@.last().header.parsed_from(raw@)
                &&& final(self).headers@.last().block_hash@ == sha256d_spec(raw@)
                &&& if old(self).has_hash(raw@.subrange(4, 36)) {
                    submit_accept_linked(
                        *old(self),
                        *final(self),
                        raw@,
                        old(self).idx_of_hash(raw@.subrange(4, 36)),
                    )
                } else {
                    submit_accept_gap(*old(self), *final(self), raw@)
                }
            },
            final(self).events@.len() >= old(self).events@.len(),
            final(self).events@.subrange(0, old(self).events@.len() as int) == old(self).events@,
            final(self).main_index != old(self).main_index ==> {
                &&& r is Ok
                &&& final(self).best_block_height > old(self).best_block_height
                &&& final(self).events@.len() >= 1
                &&& event_is_reorg(
                    final(self).events@.last(),
                    old(self).main_index as u64,
                    final(self).main_index as u64,
                    final(self).chains@[final(self).main_index as int].fork_height,
                )
            },
            forall|i: int|
                (old(self).events@.len() <= i < final(self).events@.len()
                    && (#[trigger] final(self).events@[i]) is ChainReorg)
                    ==> (i == final(self).events@.len() - 1
                    && final(self).main_index != old(self).main_index),
    {
        if self.shutdown {
            return Err(Error::Shutdown);
        }
        if !self.initialized {
            return Err(Error::PrevBlock);
        }
        let header = match BlockHeader::decode(raw) {
            Ok(h) => h,
            Err(e) => {
                return Err(e);
            },
        };
        let hash = sha256d(raw);
        match self.find_header_index(&hash) {
            Some(j) => {
                proof {
                    assert(self.has_hash(hash@));
                }
                return Err(Error::DuplicateBlock);
            },
            None => {},
        }
        let prev_opt = self.find_header_index(&header.prev_hash);
        proof {
            if prev_opt is Some {
                assert(self.has_hash(header.prev_hash@));
                let j0 = prev_opt->0 as int;
                let k = self.idx_of_hash(header.prev_hash@);
                if k != j0 {
                    assert(self.headers@[k].block_hash@ != self.headers@[j0].block_hash@);
                }
                assert(self.idx_of_hash(header.prev_hash@) == j0);
            }
            assert(header.prev_hash@ == raw@.subrange(4, 36));
        }
        let own_target = match decode_compact(header.bits) {
            Ok(t) => t,
            Err(e) => {
                return Err(e);
            },
        };
        match check_proof_of_work(&hash, &own_target) {
            Ok(_) => {},
            Err(e) => {
                if let Some(pj) = prev_opt {
                    self.mark_submitting_chain(pj);
                }
                return Err(e);
            },
        }
        match prev_opt {
            None => {
                self.push_nodata(header, hash);
                Ok(())
            },
            Some(pj) => self.submit_linked(pj, header, hash, Ghost(raw@)),
        }
    }

    /// Handles an already-validated header whose parent is stored:
    /// checks the height cap and the difficulty schedule, then
    /// extends the parent's chain at its tip or forks below it.
    #[verifier::rlimit(100)]
    #[verifier::spinoff_prover]
    fn submit_linked(
        &mut self,
        pj: usize,
        header: BlockHeader,
        hash: Vec<u8>,
        Ghost(raw): Ghost<Seq<u8>>,
    ) -> (r: Result<(), Error>)
        requires
            old(self).wf(),
            old(self).initialized,
            pj < old(self).headers@.len(),
            header.wf(),
            hash@.len() == 32,
            !old(self).has_hash(hash@),
            header.prev_hash@ == old(self).headers@[pj as int].block_hash@,
            header.parsed_from(raw),
            hash@ == sha256d_spec(raw),
            compact_valid(header.bits),
        ensures
            final(self).wf(),
            final(self).initialized == old(self).initialized,
            final(self).shutdown == old(self).shutdown,
            ({
                let prev = old(self).headers@[pj as int];
                if prev.height >= u64::MAX {
                    r == Err::<(), Error>(Error::PrevBlock)
                } else if !compact_valid(prev.header.bits) {
                    r == Err::<(), Error>(Error::InvalidHeaderSize)
                } else if compact_value(header.bits) != old(self).expected_target_spec(pj as int) {
                    r == Err::<(), Error>(Error::DiffTargetHeader)
                } else {
                    r is Ok
                }
            }),
            r is Err ==> {
                &&& final(self).headers@ == old(self).headers@
                &&& final(self).events@ == old(self).events@
                &&& final(self).main_index == old(self).main_index
                &&& final(self).best_block@ == old(self).best_block@
                &&& final(self).best_block_height == old(self).best_block_height
                &&& final(self).chain_counter == old(self).chain_counter
                &&& ({
                    let cr = old(self).headers@[pj as int].chain_ref as int;
                    if r == Err::<(), Error>(Error::DiffTargetHeader) && old(self).headers@[pj as int].height
                        == old(self).chains@[cr].max_height() && cr != old(self).main_index {
                        chains_invalidated_at(*old(self), *final(self), cr)
                    } else {
                        final(self).chains@ == old(self).chains@
                    }
                })
            },
            r is Err && r != Err::<(), Error>(Error::DiffTargetHeader) ==> final(self).like(
                *old(self),
            ),
            r is Ok ==> {
                &&& final(self).headers@.len() == old(self).headers@.len() + 1
                &&& final(self).headers@.subrange(0, old(self).headers@.len() as int) == old(
                    self,
                ).headers@
                &&& final(self).headers@.last().header.parsed_from(raw)
                &&& final(self).headers@.last().block_hash@ == sha256d_spec(raw)
                &&& submit_accept_linked(*old(self), *final(self), raw, pj as int)
            },
            final(self).events@.len() >= old(self).events@.len(),
            final(self).events@.subrange(0, old(self).events@.len() as int) == old(self).events@,
            final(self).main_index != old(self).main_index ==> {
                &&& r is Ok
                &&& final(self).best_block_height > old(self).best_block_height
                &&& final(self).events@.len() >= 1
                &&& event_is_reorg(
                    final(self).events@.last(),
                    old(self).main_index as u64,
                    final(self).main_index as u64,
                    final(self).chains@[final(self).main_index as int].fork_height,
                )
            },
            forall|i: int|
                (old(self).events@.len() <= i < final(self).events@.len()
                    && (#[trigger] final(self).events@[i]) is ChainReorg)
                    ==> (i == final(self).events@.len() - 1
                    && final(self).main_index != old(self).main_index),
    {
        if self.headers[pj].height == u64::MAX {
            return Err(Error::PrevBlock);
        }
        proof {
            assert(self.header_ok(pj as int));
            assert(self.chain_ok(self.headers@[pj as int].chain_ref as int));
            assert(self.member_of_ref(pj as int));
        }
        let own_target = match decode_compact(header.bits) {
            Ok(t) => t,
            Err(_) => {
                return Err(Error::InvalidHeaderSize);
            },
        };
        let expected = match self.expected_target(pj) {
            Ok(t) => t,
            Err(e) => {
                return Err(e);
            },
        };
        let same_target = own_target.le(&expected) && expected.le(&own_target);
        if !same_target {
            self.mark_submitting_chain(pj);
            return Err(Error::DiffTargetHeader);
        }
        let cr64: u64 = self.headers[pj].chain_ref;
        let n_chains: usize = self.chains.len();
        proof {
            assert(cr64 < n_chains);
        }
        let ci: usize = cr64 as usize;
        let off64: u64 = self.headers[pj].height - self.chains[ci].start_height;
        let at_tip = off64 == self.chains[ci].entries.len() as u64 - 1;
        if at_tip {
            self.push_extend(pj, header, hash);
        } else {
            proof {
                assert(self.headers@[pj as int].height < self.chains@[ci as int].max_height());
            }
            self.push_fork(pj, header, hash);
        }
        Ok(())
    }


    /// Verifies that a transaction is included in the block with the
    /// given hash: the stored header's Merkle root must be reproduced
    /// by folding the proof path from the transaction id.
    pub fn verify_transaction_inclusion(
        &self,
        tx_id: &Vec<u8>,
        block_hash: &Vec<u8>,
        proof_path: &Vec<Vec<u8>>,
        tx_index: u64,
    ) -> (r: Result<(), Error>)
        requires
            self.wf(),
        ensures
            !self.has_hash(block_hash@) ==> r == Err::<(), Error>(Error::HeaderNotFound),
            self.has_hash(block_hash@) ==> {
                let root = self.headers@[self.idx_of_hash(block_hash@)].header.merkle_root@;
                if tx_id@.len() != 32 {
                    r == Err::<(), Error>(Error::MalformedTxid)
                } else if crate::merkle::fold_path(
                    tx_id@,
                    crate::merkle::paths_view(proof_path@),
                    tx_index as nat,
                ) == root {
                    r is Ok
                } else {
                    r == Err::<(), Error>(Error::InvalidMerkleProof)
                }
            },
    {
        let j = match self.find_header_index(block_hash) {
            Some(j) => j,
            None => {
                return Err(Error::HeaderNotFound);
            },
        };
        proof {
            assert(self.has_hash(block_hash@));
            let k = self.idx_of_hash(block_hash@);
            if k != j {
                assert(self.headers@[k].block_hash@ != self.headers@[j as int].block_hash@);
            }
        }
        let root = &self.headers[j].header.merkle_root;
        let height = proof_path.len();
        crate::merkle::verify_merkle_proof(tx_id, root, proof_path, tx_index, height)
    }

    /// The linkage law: on a well-formed relay, every chain's stored
    /// heights are contiguous from its start, and each header past
    /// the first references its predecessor's hash. A gap can only
    /// exist between chains, and only on one marked `no_data`.
    pub proof fn lemma_chain_linkage(self, ci: int, i: int)
        requires
            self.wf(),
            0 <= ci < self.chains@.len(),
            0 <= i < self.chains@[ci].entries@.len(),
        ensures
            self.headers@[self.chains@[ci].entries@[i] as int].height == self.chains@[ci].start_height
                + i,
            i >= 1 ==> self.headers@[self.chains@[ci].entries@[i] as int].header.prev_hash@
                == self.headers@[self.chains@[ci].entries@[i - 1] as int].block_hash@,
    {
        assert(self.chain_ok(ci));
    }

    /// The main-chain selection law: on a well-formed, initialized
    /// relay there is exactly one main chain, it is neither invalid
    /// nor gapped, and its height tops every other chain that is
    /// neither invalid nor gapped.
    pub proof fn lemma_main_chain_selection(self, ci: int)
        requires
            self.wf(),
            self.initialized,
            0 <= ci < self.chains@.len(),
            !self.chains@[ci].invalid,
            !self.chains@[ci].no_data,
        ensures
            self.main_index < self.chains@.len(),
            !self.chains@[self.main_index as int].invalid,
            !self.chains@[self.main_index as int].no_data,
            self.chains@[ci].max_height() <= self.chains@[self.main_index as int].max_height(),
            self.best_block_height == self.chains@[self.main_index as int].max_height(),
    {
        assert(self.main_ok());
    }

    /// Whether stored header `j` lies on the current main chain: the
    /// main chain holds its hash at its height.
    pub open spec fn on_main_chain(self, j: int) -> bool {
        let h = self.headers@[j];
        let m = self.chains@[self.main_index as int];
        &&& m.start_height <= h.height
        &&& h.height - m.start_height < m.entries@.len()
        &&& m.entries@[h.height - m.start_height] == j
    }

    /// Checks that the block with the given hash has at least
    /// `required` confirmations on the main chain: the block must lie
    /// on main, with `main tip height - block height + 1 >= required`.
    pub fn check_confirmations(&self, block_hash: &Vec<u8>, required: u64) -> (r: Result<
        (),
        Error,
    >)
        requires
            self.wf(),
        ensures
            !self.has_hash(block_hash@) ==> r == Err::<(), Error>(Error::HeaderNotFound),
            self.has_hash(block_hash@) ==> {
                let j = self.idx_of_hash(block_hash@);
                if self.on_main_chain(j) && self.best_block_height - self.headers@[j].height + 1
                    >= required {
                    r is Ok
                } else {
                    r == Err::<(), Error>(Error::Confirmations)
                }
            },
    {
        let j = match self.find_header_index(block_hash) {
            Some(j) => j,
            None => {
                return Err(Error::HeaderNotFound);
            },
        };
        proof {
            assert(self.has_hash(block_hash@));
            assert(self.idx_of_hash(block_hash@) == j) by {
                let k = self.idx_of_hash(block_hash@);
                if k != j {
                    assert(self.headers@[k].block_hash@ != self.headers@[j as int].block_hash@);
                }
            };
        }
        if !self.initialized {
            proof {
                assert(self.headers@.len() == 0);
            }
            return Err(Error::Confirmations);
        }
        let height = self.headers[j].height;
        let m = &self.chains[self.main_index];
        if height < m.start_height {
            return Err(Error::Confirmations);
        }
        let off_u64: u64 = height - m.start_height;
        if off_u64 >= m.entries.len() as u64 {
            return Err(Error::Confirmations);
        }
        let off: usize = off_u64 as usize;
        if m.entries[off] != j {
            return Err(Error::Confirmations);
        }
        if self.best_block_height - height + 1 < required {
            return Err(Error::Confirmations);
        }
        Ok(())
    }
}




/// Builds a fresh relay for tests and hosts: no chain exists yet, so
/// the next call is `initialize`.
pub struct ExtBuilder;

impl ExtBuilder {
    pub fn build() -> (r: BtcRelay)
        ensures
            r.wf(),
            !r.initialized,
            !r.shutdown,
            r.events@.len() == 0,
            r.headers@.len() == 0,
            r.chains@.len() == 0,
            r.chain_counter == 0,
            r.best_block_height == 0,
            r.best_block@ == Seq::<u8>::empty(),
    {
        BtcRelay::new()
    }
}

/// `post` has the same chains as `pre`, except that chain `cr` has
/// its invalid flag set; every other field of `cr` is untouched.
pub open spec fn chains_invalidated_at(pre: BtcRelay, post: BtcRelay, cr: int) -> bool {
    &&& post.chains@.len() == pre.chains@.len()
    &&& forall|i: int| 0 <= i < pre.chains@.len() && i != cr ==> post.chains@[i] == pre.chains@[i]
    &&& post.chains@[cr].chain_id == pre.chains@[cr].chain_id
    &&& post.chains@[cr].start_height == pre.chains@[cr].start_height
    &&& post.chains@[cr].fork_height == pre.chains@[cr].fork_height
    &&& post.chains@[cr].entries@ == pre.chains@[cr].entries@
    &&& post.chains@[cr].no_data == pre.chains@[cr].no_data
    &&& post.chains@[cr].invalid
}

/// What an accepted header with a stored parent (`pj`) does to the
/// state: stored at the parent's height plus one, at the tip of the
/// parent's chain when the parent is that chain's tip, else on one
/// fresh fork chain; main moves, exactly then, when a clean chain
/// overtakes it.
pub open spec fn submit_accept_linked(pre: BtcRelay, post: BtcRelay, raw: Seq<u8>, pj: int) -> bool {
    let prev = pre.headers@[pj];
    let cr = prev.chain_ref as int;
    let c = pre.chains@[cr];
    let h = prev.height + 1;
    let nj = pre.headers@.len();
    let hash = sha256d_spec(raw);
    &&& post.headers@.last().height == h
    &&& (prev.height == c.max_height() ==> {
        &&& post.headers@.last().chain_ref == cr
        &&& post.chains@.len() == pre.chains@.len()
        &&& post.chain_counter == pre.chain_counter
        &&& (forall|i: int|
            0 <= i < pre.chains@.len() && i != cr ==> post.chains@[i] == pre.chains@[i])
        &&& post.chains@[cr].entries@ == c.entries@.push(nj as usize)
        &&& post.chains@[cr].start_height == c.start_height
        &&& post.chains@[cr].fork_height == c.fork_height
        &&& post.chains@[cr].no_data == c.no_data
        &&& post.chains@[cr].invalid == c.invalid
        &&& (cr == pre.main_index ==> {
            &&& post.main_index == pre.main_index
            &&& post.best_block_height == h
            &&& post.best_block@ == hash
            &&& post.events@.len() == pre.events@.len() + 1
            &&& event_is_extended(post.events@.last(), h as u64, hash)
        })
        &&& (cr != pre.main_index && !c.invalid && !c.no_data && h > pre.best_block_height ==> {
            &&& post.main_index == cr
            &&& post.best_block_height == h
            &&& post.best_block@ == hash
            &&& post.events@.len() == pre.events@.len() + 2
        })
        &&& (cr != pre.main_index && !(!c.invalid && !c.no_data && h > pre.best_block_height)
            ==> {
            &&& post.main_index == pre.main_index
            &&& post.best_block_height == pre.best_block_height
            &&& post.best_block@ == pre.best_block@
            &&& post.events@.len() == pre.events@.len() + 1
            &&& event_is_new_fork(post.events@.last(), cr as u64, h as u64, hash)
        })
    })
    &&& (prev.height < c.max_height() ==> {
        &&& post.headers@.last().chain_ref == pre.chains@.len()
        &&& post.chains@.len() == pre.chains@.len() + 1
        &&& post.chain_counter == pre.chain_counter + 1
        &&& post.chains@.subrange(0, pre.chains@.len() as int) == pre.chains@
        &&& post.chains@.last().chain_id == pre.chains@.len()
        &&& post.chains@.last().start_height == c.start_height
        &&& post.chains@.last().fork_height == h
        &&& post.chains@.last().max_height() == h
        &&& post.chains@.last().no_data == c.no_data
        &&& post.chains@.last().invalid == c.invalid
        &&& post.main_index == pre.main_index
        &&& post.best_block_height == pre.best_block_height
        &&& post.best_block@ == pre.best_block@
        &&& post.events@.len() == pre.events@.len() + 1
        &&& event_is_new_fork(post.events@.last(), pre.chains@.len() as u64, h as u64, hash)
    })
}

/// What an accepted header with an unknown parent does to the state:
/// it starts one fresh gap chain with a fresh id and provisional
/// height zero; main and the best-block pointers stand still.
pub open spec fn submit_accept_gap(pre: BtcRelay, post: BtcRelay, raw: Seq<u8>) -> bool {
    &&& post.headers@.last().height == 0
    &&& post.headers@.last().chain_ref == pre.chains@.len()
    &&& post.chains@.len() == pre.chains@.len() + 1
    &&& post.chain_counter == pre.chain_counter + 1
    &&& post.chains@.subrange(0, pre.chains@.len() as int) == pre.chains@
    &&& post.chains@.last().chain_id == pre.chains@.len()
    &&& post.chains@.last().start_height == 0
    &&& post.chains@.last().fork_height == 0
    &&& post.chains@.last().entries@.len() == 1
    &&& post.chains@.last().no_data
    &&& !post.chains@.last().invalid
    &&& post.main_index == pre.main_index
    &&& post.best_block_height == pre.best_block_height
    &&& post.best_block@ == pre.best_block@
    &&& post.events@.len() == pre.events@.len() + 1
    &&& event_is_new_fork(post.events@.last(), pre.chains@.len() as u64, 0, sha256d_spec(raw))
}

/// How a state `post` relates to `pre` after appending one header at
/// the tip of chain `ci`: the header store grew by the new header,
/// chain `ci` gained its index, and nothing else moved.
pub open spec fn extend_rel(pre: BtcRelay, post: BtcRelay, pj: int, ci: int) -> bool {
    let nj = pre.headers@.len() as int;
    &&& pre.headers@.len() < usize::MAX
    &&& 0 <= pj < pre.headers@.len()
    &&& ci == pre.headers@[pj].chain_ref as int
    &&& pre.headers@[pj].height == pre.chains@[ci].max_height()
    &&& pre.headers@[pj].height < u64::MAX
    &&& post.headers@.len() == pre.headers@.len() + 1
    &&& forall|k: int| 0 <= k < pre.headers@.len() ==> post.headers@[k] == pre.headers@[k]
    &&& post.headers@[nj].block_hash@.len() == 32
    &&& post.headers@[nj].header.wf()
    &&& post.headers@[nj].header.prev_hash@ == pre.headers@[pj].block_hash@
    &&& post.headers@[nj].height == pre.headers@[pj].height + 1
    &&& post.headers@[nj].chain_ref == ci
    &&& forall|k: int|
        0 <= k < pre.headers@.len() ==> (#[trigger] pre.headers@[k].block_hash@)
            != post.headers@[nj].block_hash@
    &&& post.chains@.len() == pre.chains@.len()
    &&& forall|i: int| 0 <= i < pre.chains@.len() && i != ci ==> post.chains@[i] == pre.chains@[i]
    &&& post.chains@[ci].entries@ == pre.chains@[ci].entries@.push(nj as usize)
    &&& post.chains@[ci].start_height == pre.chains@[ci].start_height
    &&& post.chains@[ci].chain_id == pre.chains@[ci].chain_id
    &&& post.chains@[ci].invalid == pre.chains@[ci].invalid
    &&& post.chains@[ci].no_data == pre.chains@[ci].no_data
    &&& post.chains@[ci].fork_height == pre.chains@[ci].fork_height
    &&& post.initialized
    &&& post.chain_counter == pre.chain_counter
}

/// After a tip extension, every structural invariant except the
/// main-chain clauses carries over.
#[verifier::rlimit(100)]
proof fn lemma_wf_after_extend(pre: BtcRelay, post: BtcRelay, pj: int, ci: int, nj: int)
    requires
        pre.wf(),
        pre.initialized,
        extend_rel(pre, post, pj, ci),
        nj == pre.headers@.len(),
    ensures
        forall|j: int| 0 <= j < post.headers@.len() ==> post.header_ok(j),
        forall|j: int| 0 <= j < post.headers@.len() ==> post.member_of_ref(j),
        forall|c2: int| 0 <= c2 < post.chains@.len() ==> post.chain_ok(c2),
        post.hashes_unique(),
{
    assert(pre.header_ok(pj));
    assert(pre.chain_ok(ci));
    assert forall|j: int| 0 <= j < post.headers@.len() implies post.header_ok(j) by {
        if j < nj {
            assert(pre.header_ok(j));
            assert(post.headers@[j] == pre.headers@[j]);
        }
    }
    assert forall|j: int| 0 <= j < post.headers@.len() implies post.member_of_ref(j) by {
        if j < nj {
            assert(pre.header_ok(j));
            assert(pre.member_of_ref(j));
            assert(post.headers@[j] == pre.headers@[j]);
            let cr = pre.headers@[j].chain_ref as int;
            if cr == ci {
                assert(post.chains@[cr].entries@[pre.headers@[j].height - post.chains@[cr].start_height]
                    == pre.chains@[cr].entries@[pre.headers@[j].height - pre.chains@[cr].start_height]);
            } else {
                assert(post.chains@[cr] == pre.chains@[cr]);
            }
        } else {
            assert(post.chains@[ci].entries@.last() == nj as usize);
            assert(pre.chain_ok(ci));
            assert(post.headers@[nj].height - post.chains@[ci].start_height == pre.chains@[
                ci
            ].entries@.len());
        }
    }
    assert forall|c2: int| 0 <= c2 < post.chains@.len() implies post.chain_ok(c2) by {
        assert(pre.chain_ok(c2));
        if c2 != ci {
            assert(post.chains@[c2] == pre.chains@[c2]);
            let c = post.chains@[c2];
            assert forall|i: int|
                0 <= i < c.entries@.len() implies post.headers@[#[trigger] c.entries@[i] as int]
                == pre.headers@[c.entries@[i] as int] by {}
        } else {
            let c = post.chains@[c2];
            let pc = pre.chains@[c2];
            let plen = pc.entries@.len() as int;
            assert(c.entries@.len() == plen + 1);
            assert forall|i: int| 0 <= i < plen implies c.entries@[i] == pc.entries@[i] by {}
            assert(pre.member_of_ref(pj));
            assert(pc.entries@[pre.headers@[pj].height - pc.start_height] == pj);
            assert(pre.headers@[pj].height - pc.start_height == plen - 1);
            assert(c.entries@[plen - 1] == pj as usize);
            assert forall|i: int|
                0 <= i < c.entries@.len() implies (#[trigger] c.entries@[i])
                < post.headers@.len() by {
                if i < plen {
                    assert(pc.entries@[i] < pre.headers@.len());
                }
            }
            assert forall|i: int|
                0 <= i < c.entries@.len() implies post.headers@[#[trigger] c.entries@[i] as int].height
                == c.start_height + i by {
                if i < plen {
                    assert(pre.headers@[pc.entries@[i] as int].height == pc.start_height + i);
                    assert(post.headers@[c.entries@[i] as int] == pre.headers@[pc.entries@[i] as int]);
                }
            }
            assert forall|i: int|
                1 <= i < c.entries@.len() implies post.headers@[#[trigger] c.entries@[i] as int].header.prev_hash@
                == post.headers@[c.entries@[i - 1] as int].block_hash@ by {
                if i < plen {
                    assert(post.headers@[c.entries@[i] as int] == pre.headers@[pc.entries@[i] as int]);
                    assert(post.headers@[c.entries@[i - 1] as int] == pre.headers@[pc.entries@[i
                        - 1] as int]);
                } else {
                    assert(c.entries@[i] == nj as usize);
                    assert(c.entries@[i - 1] == pj as usize);
                    assert(post.headers@[pj] == pre.headers@[pj]);
                }
            }
        }
    }
    assert forall|j: int, k: int|
        0 <= j < post.headers@.len() && 0 <= k < post.headers@.len() && j
            != k implies (#[trigger] post.headers@[j].block_hash@) != (
    #[trigger] post.headers@[k].block_hash@) by {
        if j < nj && k < nj {
            assert(pre.hashes_unique());
            assert(pre.headers@[j].block_hash@ != pre.headers@[k].block_hash@);
        } else if j == nj {
            assert(pre.headers@[k].block_hash@ != post.headers@[nj].block_hash@);
        } else {
            assert(pre.headers@[j].block_hash@ != post.headers@[nj].block_hash@);
        }
    }
}

/// Main-chain clauses after extending the main chain itself.
#[verifier::rlimit(100)]
proof fn lemma_main_ok_after_extend_main(pre: BtcRelay, post: BtcRelay, pj: int, ci: int)
    requires
        pre.wf(),
        pre.initialized,
        extend_rel(pre, post, pj, ci),
        ci == pre.main_index,
        post.main_index == pre.main_index,
        post.best_block_height == pre.headers@[pj].height + 1,
        post.best_block@ == post.headers@[pre.headers@.len() as int].block_hash@,
    ensures
        post.main_ok(),
{
    let m = post.chains@[post.main_index as int];
    assert(pre.header_ok(pj));
    assert(pre.main_ok());
    assert(pre.chain_ok(ci));
    assert(m.max_height() == pre.chains@[ci].max_height() + 1);
    assert forall|c2: int|
        0 <= c2 < post.chains@.len() && !(#[trigger] post.chains@[c2]).invalid
            && !post.chains@[c2].no_data implies post.chains@[c2].max_height()
        <= m.max_height() by {
        if c2 != ci {
            assert(post.chains@[c2] == pre.chains@[c2]);
            assert(pre.chains@[c2].max_height() <= pre.chains@[ci].max_height());
        }
    }
    assert(m.entries@.last() == pre.headers@.len() as usize);
}

/// Main-chain clauses after a fork extension that overtakes main:
/// the extended chain becomes main.
#[verifier::rlimit(100)]
proof fn lemma_main_ok_after_reorg(pre: BtcRelay, post: BtcRelay, pj: int, ci: int)
    requires
        pre.wf(),
        pre.initialized,
        extend_rel(pre, post, pj, ci),
        ci != pre.main_index,
        !pre.chains@[ci].invalid,
        !pre.chains@[ci].no_data,
        pre.headers@[pj].height + 1 > pre.best_block_height,
        post.main_index == ci,
        post.best_block_height == pre.headers@[pj].height + 1,
        post.best_block@ == post.headers@[pre.headers@.len() as int].block_hash@,
    ensures
        post.main_ok(),
{
    let m = post.chains@[ci];
    assert(pre.header_ok(pj));
    assert(pre.main_ok());
    assert(pre.chain_ok(ci));
    assert(m.max_height() == pre.chains@[ci].max_height() + 1);
    assert(m.max_height() == pre.headers@[pj].height + 1);
    assert forall|c2: int|
        0 <= c2 < post.chains@.len() && !(#[trigger] post.chains@[c2]).invalid
            && !post.chains@[c2].no_data implies post.chains@[c2].max_height()
        <= m.max_height() by {
        if c2 != ci {
            assert(post.chains@[c2] == pre.chains@[c2]);
            assert(pre.chains@[c2].max_height() <= pre.best_block_height);
        }
    }
    assert(m.entries@.last() == pre.headers@.len() as usize);
}

/// Main-chain clauses after extending a side chain that does not
/// overtake main: the pointers stand still.
#[verifier::rlimit(100)]
proof fn lemma_main_ok_after_side_extend(pre: BtcRelay, post: BtcRelay, pj: int, ci: int)
    requires
        pre.wf(),
        pre.initialized,
        extend_rel(pre, post, pj, ci),
        ci != pre.main_index,
        !(!pre.chains@[ci].invalid && !pre.chains@[ci].no_data && pre.headers@[pj].height + 1
            > pre.best_block_height),
        post.main_index == pre.main_index,
        post.best_block_height == pre.best_block_height,
        post.best_block@ == pre.best_block@,
    ensures
        post.main_ok(),
{
    let m = post.chains@[post.main_index as int];
    assert(pre.header_ok(pj));
    assert(pre.main_ok());
    assert(pre.chain_ok(pre.main_index as int));
    assert(pre.chain_ok(ci));
    assert(post.chains@[pre.main_index as int] == pre.chains@[pre.main_index as int]);
    assert forall|c2: int|
        0 <= c2 < post.chains@.len() && !(#[trigger] post.chains@[c2]).invalid
            && !post.chains@[c2].no_data implies post.chains@[c2].max_height()
        <= m.max_height() by {
        if c2 != ci {
            assert(post.chains@[c2] == pre.chains@[c2]);
        } else {
            assert(post.chains@[ci].max_height() == pre.chains@[ci].max_height() + 1);
        }
    }
    let t = m.entries@.last() as int;
    assert(pre.chains@[pre.main_index as int].entries@.last() < pre.headers@.len());
    assert(post.headers@[t] == pre.headers@[t]);
}

} // verus!} // verus!
