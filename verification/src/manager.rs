//! Pool registry: per-pool records, the reentrancy lock, the precision
//! table, and the balance helpers.
//!
//! The store is an explicit key-value structure handed into each
//! operation; the key is the unordered pair of asset identifiers,
//! canonicalized by sorting. The reentrancy lock is a fallible,
//! non-blocking checkout: acquiring a held lock fails with `PoolLocked`
//! rather than waiting.

use vstd::prelude::*;
use crate::dec::Dec;
use crate::params::PoolParams;
use crate::pool::CurveState;
use crate::error::PoolError;

verus! {

/// The canonical key of a pool: the unordered pair of its asset
/// identifiers, held sorted.
#[derive(Clone, Copy, Debug, PartialEq, Eq, Structural)]
pub struct PairKey {
    pub lo: u64,
    pub hi: u64,
}

/// The canonical key for two asset identifiers, in either order.
pub fn pair_key(asset_infos: (u64, u64)) -> (r: PairKey)
    ensures
        r.lo == if asset_infos.0 <= asset_infos.1 {
            asset_infos.0
        } else {
            asset_infos.1
        },
        r.hi == if asset_infos.0 <= asset_infos.1 {
            asset_infos.1
        } else {
            asset_infos.0
        },
        r.lo <= r.hi,
{
    if asset_infos.0 <= asset_infos.1 {
        PairKey { lo: asset_infos.0, hi: asset_infos.1 }
    } else {
        PairKey { lo: asset_infos.1, hi: asset_infos.0 }
    }
}

/// The pool key does not depend on the order of the two assets.
pub proof fn lemma_pair_key_symmetric(a: u64, b: u64)
    ensures
        (if a <= b {
            PairKey { lo: a, hi: b }
        } else {
            PairKey { lo: b, hi: a }
        }) == (if b <= a {
            PairKey { lo: b, hi: a }
        } else {
            PairKey { lo: a, hi: b }
        }),
{
}

/// All numeric state of one pool.
#[derive(Clone, Copy, Debug, PartialEq, Eq, Structural)]
pub struct PoolState {
    /// The first asset of the pair.
    pub asset0: u64,
    /// The second asset of the pair.
    pub asset1: u64,
    /// Decimal precision of the first asset.
    pub precision0: u8,
    /// Decimal precision of the second asset.
    pub precision1: u8,
    /// Reserve of the first asset, in internal decimals.
    pub reserve0: Dec,
    /// Reserve of the second asset, in internal decimals.
    pub reserve1: Dec,
    /// The parameter ramp and the price state.
    pub curve: CurveState,
    /// The fee curve and repeg thresholds.
    pub params: PoolParams,
    /// Liquidity-token supply, tracked by the host but read here.
    pub total_share_supply: Dec,
    /// Whether per-asset balance snapshots are recorded by height.
    pub track_balances: bool,
    /// Share of the fee routed to the protocol fee recipient.
    pub maker_fee_share: Dec,
    /// Share of the fee routed to the revenue-share recipient.
    pub share_fee_share: Dec,
}

impl PoolState {
    /// The record is internally consistent: distinct assets, bounded
    /// precisions, a well-formed ramp and parameter set, and fee shares of
    /// at most one.
    pub open spec fn wf(self) -> bool {
        &&& self.asset0 != self.asset1
    &&& self.precision0 <= crate::dec::MAX_PRECISION
    &&& self.precision1 <= crate::dec::MAX_PRECISION
    &&& self.curve.wf()
    &&& self.params.wf()
    &&& self.maker_fee_share.atomics <= crate::dec::ONE
    &&& self.share_fee_share.atomics <= crate::dec::ONE
    }
}

/// One slot of the registry: a pool and its reentrancy lock.
#[derive(Clone, Copy, Debug, PartialEq, Eq, Structural)]
pub struct PoolSlot {
    pub key: PairKey,
    pub state: PoolState,
    pub locked: bool,
}

/// The pool registry: per-key pool records and their locks.
pub struct PoolManager {
    pub pools: Vec<PoolSlot>,
}

impl PoolManager {
    /// Every key appears at most once.
    pub open spec fn wf(self) -> bool {
        forall|i: int, j: int|
            0 <= i < j < self.pools@.len() ==> (#[trigger] self.pools@[i]).key != (
            #[trigger] self.pools@[j]).key
    }

    /// Whether a pool with this key exists.
    pub open spec fn has_pool(self, key: PairKey) -> bool {
        exists|i: int| 0 <= i < self.pools@.len() && (#[trigger] self.pools@[i]).key == key
    }

    pub fn new() -> (r: PoolManager)
        ensures
            r.wf(),
            r.pools@.len() == 0,
    {
        PoolManager { pools: Vec::new() }
    }

    /// The slot index of a key, if any.
    pub(crate) fn find_slot(&self, key: PairKey) -> (r: Option<usize>)
        ensures
            match r {
                Some(i) => i < self.pools@.len() && self.pools@[i as int].key == key,
                None => !self.has_pool(key),
            },
    {
        let mut i: usize = 0;
        while i < self.pools.len()
            invariant
                i <= self.pools@.len(),
                forall|j: int| 0 <= j < i ==> (#[trigger] self.pools@[j]).key != key,
            decreases self.pools@.len() - i,
        {
            if self.pools[i].key.lo == key.lo && self.pools[i].key.hi == key.hi {
                return Some(i);
            }
            i = i + 1;
        }
        None
    }

    /// Registers a pool under its key with the lock released; an existing
    /// record under the same key is replaced.
    pub fn create_pool(&mut self, key: PairKey, initial_state: PoolState)
        requires
            old(self).wf(),
        ensures
            final(self).wf(),
            final(self).has_pool(key),
            (exists|i: int|
                0 <= i < old(self).pools@.len() && (#[trigger] old(self).pools@[i]).key == key
                    && final(self).pools@ == old(self).pools@.update(
                    i,
                    PoolSlot { key, state: initial_state, locked: false },
                )) || (!old(self).has_pool(key) && final(self).pools@ == old(self).pools@.push(
                PoolSlot { key, state: initial_state, locked: false },
            )),
    {
        let slot = PoolSlot { key, state: initial_state, locked: false };
        match self.find_slot(key) {
            Some(i) => {
                proof {
                    assert(old(self).pools@[i as int].key == key);
                }
                self.pools.set(i, slot);
                proof {
                    assert(self.pools@[i as int] == slot);
                    assert(forall|j: int|
                        0 <= j < self.pools@.len() ==> (#[trigger] self.pools@[j]).key == old(
                        self,
                        ).pools@[j].key);
                }
            },
            None => {
                let ghost n = self.pools@.len();
                self.pools.push(slot);
                proof {
                    assert(self.pools@[n as int] == slot);
                    assert forall|x: int, y: int|
                        0 <= x < y < self.pools@.len() implies (#[trigger] self.pools@[x]).key != (
                    #[trigger] self.pools@[y]).key by {
                        if y == n {
                            assert(!old(self).has_pool(key));
                            assert(old(self).pools@[x].key != key);
                        }
                    }
                }
            },
        }
    }

    /// The state of the pool under a key, or `NotFound`.
    pub fn get_pool_state(&self, key: PairKey) -> (r: Result<PoolState, PoolError>)
        requires
            self.wf(),
        ensures
            match r {
                Ok(st) => exists|i: int|
                    0 <= i < self.pools@.len() && (#[trigger] self.pools@[i]).key == key
                        && self.pools@[i].state == st,
                Err(e) => e == PoolError::NotFound && !self.has_pool(key),
            },
    {
        match self.find_slot(key) {
            Some(i) => Ok(self.pools[i].state),
            None => Err(PoolError::NotFound),
        }
    }

    /// Replaces the state of the pool under a key, keeping its lock;
    /// `NotFound` when no such pool exists.
    pub fn update_pool_state(&mut self, key: PairKey, new_state: PoolState) -> (r: Result<
        (),
        PoolError,
    >)
        requires
            old(self).wf(),
        ensures
            final(self).wf(),
            match r {
                Ok(()) => exists|i: int|
                    0 <= i < old(self).pools@.len() && (#[trigger] old(self).pools@[i]).key == key
                        && final(self).pools@ == old(self).pools@.update(
                        i,
                        PoolSlot { key, state: new_state, locked: old(self).pools@[i].locked },
                    ),
                Err(e) => e == PoolError::NotFound && !old(self).has_pool(key) && *final(self)
                    == *old(self),
            },
    {
        match self.find_slot(key) {
            Some(i) => {
                let locked = self.pools[i].locked;
                self.pools.set(i, PoolSlot { key, state: new_state, locked });
                Ok(())
            },
            None => Err(PoolError::NotFound),
        }
    }

    /// Takes the pool's reentrancy lock; fails fast with `PoolLocked` when
    /// it is already held, and `NotFound` when no such pool exists.
    pub fn acquire_lock(&mut self, key: PairKey) -> (r: Result<(), PoolError>)
        requires
            old(self).wf(),
        ensures
            final(self).wf(),
            match r {
                Ok(()) => exists|i: int|
                    0 <= i < old(self).pools@.len() && (#[trigger] old(self).pools@[i]).key == key
                        && old(self).pools@[i].locked == false && final(self).pools@ == old(
                        self,
                    ).pools@.update(
                        i,
                        PoolSlot { key, state: old(self).pools@[i].state, locked: true },
                    ),
                Err(e) => *final(self) == *old(self) && (e == PoolError::PoolLocked && (exists|
                    i: int,
                |
                    0 <= i < old(self).pools@.len() && (#[trigger] old(self).pools@[i]).key == key
                        && old(self).pools@[i].locked) || e == PoolError::NotFound && !old(
                    self,
                ).has_pool(key)),
            },
    {
        match self.find_slot(key) {
            Some(i) => {
                if self.pools[i].locked {
                    Err(PoolError::PoolLocked)
                } else {
                    let state = self.pools[i].state;
                    self.pools.set(i, PoolSlot { key, state, locked: true });
                    Ok(())
                }
            },
            None => Err(PoolError::NotFound),
        }
    }

    /// Releases the pool's reentrancy lock; fails when it was not held, and
    /// `NotFound` when no such pool exists.
    pub fn release_lock(&mut self, key: PairKey) -> (r: Result<(), PoolError>)
        requires
            old(self).wf(),
        ensures
            final(self).wf(),
            match r {
                Ok(()) => exists|i: int|
                    0 <= i < old(self).pools@.len() && (#[trigger] old(self).pools@[i]).key == key
                        && old(self).pools@[i].locked == true && final(self).pools@ == old(
                        self,
                    ).pools@.update(
                        i,
                        PoolSlot { key, state: old(self).pools@[i].state, locked: false },
                    ),
                Err(e) => *final(self) == *old(self) && (e == PoolError::PoolLocked && (exists|
                    i: int,
                |
                    0 <= i < old(self).pools@.len() && (#[trigger] old(self).pools@[i]).key == key
                        && !old(self).pools@[i].locked) || e == PoolError::NotFound && !old(
                    self,
                ).has_pool(key)),
            },
    {
        match self.find_slot(key) {
            Some(i) => {
                if self.pools[i].locked {
                    let state = self.pools[i].state;
                    self.pools.set(i, PoolSlot { key, state, locked: false });
                    Ok(())
                } else {
                    Err(PoolError::PoolLocked)
                }
            },
            None => Err(PoolError::NotFound),
        }
    }
}

/// The precision table: asset identifier to decimal precision, populated
/// once per asset at pool creation.
pub struct Precisions(pub Vec<(u64, u8)>);

impl Precisions {
    /// Every asset appears at most once and every precision is in range.
    pub open spec fn wf(self) -> bool {
        &&& forall|i: int, j: int|
            0 <= i < j < self.0@.len() ==> (#[trigger] self.0@[i]).0 != (#[trigger] self.0@[j]).0
    &&& forall|i: int| 0 <= i < self.0@.len() ==> (#[trigger] self.0@[i]).1 <= crate::dec::MAX_PRECISION
    }

    /// Builds the table from the host's stored entries.
    pub fn new(items: Vec<(u64, u8)>) -> (r: Precisions)
        requires
            forall|i: int, j: int|
                0 <= i < j < items@.len() ==> (#[trigger] items@[i]).0 != (#[trigger] items@[j]).0,
            forall|i: int|
                0 <= i < items@.len() ==> (#[trigger] items@[i]).1 <= crate::dec::MAX_PRECISION,
        ensures
            r.wf(),
            r.0@ == items@,
    {
        Precisions(items)
    }

    /// Whether the table has an entry for the asset.
    pub open spec fn has_asset(self, a: u64) -> bool {
        exists|i: int| 0 <= i < self.0@.len() && (#[trigger] self.0@[i]).0 == a
    }

    /// Records one asset's precision, replacing an existing entry.
    fn store_precision(&mut self, a: u64, p: u8) -> (r: Result<(), PoolError>)
        requires
            old(self).wf(),
        ensures
            final(self).wf(),
            match r {
                Ok(()) => {
                    &&& p <= crate::dec::MAX_PRECISION
                &&& exists|i: int|
                    0 <= i < final(self).0@.len() && #[trigger] final(self).0@[i] == (a, p)
                &&& forall|x: u64|
                    #[trigger] final(self).has_asset(x) <==> (old(self).has_asset(x) || x == a)
                },
                Err(e) => e == PoolError::IncorrectPoolParam && p > crate::dec::MAX_PRECISION
                    && *final(self) == *old(self),
            },
    {
        if p > crate::dec::MAX_PRECISION {
            return Err(PoolError::IncorrectPoolParam);
        }
        let ghost pre = self.0@;
        let mut m: usize = 0;
        while m < self.0.len()
            invariant
                self.0@ == pre,
                pre == old(self).0@,
                old(self).wf(),
                p <= crate::dec::MAX_PRECISION,
                m <= pre.len(),
                forall|i: int| 0 <= i < m ==> (#[trigger] pre[i]).0 != a,
            decreases pre.len() - m,
        {
            if self.0[m].0 == a {
                proof {
                    assert(pre[m as int].0 == a);
                }
                self.0.set(m, (a, p));
                proof {
                    assert(old(self).0@ == pre);
                    assert(self.0@.len() == pre.len());
                    assert(self.0@[m as int] == (a, p));
                    assert(forall|j: int|
                        0 <= j < pre.len() && j != m ==> self.0@[j] == #[trigger] pre[j]);
                    assert(forall|j: int|
                        0 <= j < pre.len() ==> (#[trigger] self.0@[j]).0 == pre[j].0);
                    assert(self.wf());
                    assert forall|x: u64| #[trigger]
                        self.has_asset(x) implies (old(self).has_asset(x) || x == a) by {
                        let i = choose|i: int|
                            0 <= i < self.0@.len() && (#[trigger] self.0@[i]).0 == x;
                        if i != m {
                            assert(pre[i].0 == x);
                        } else {
                            assert(x == a);
                        }
                    }
                    assert forall|x: u64| (old(self).has_asset(x) || x
                        == a) implies #[trigger] self.has_asset(x) by {
                        if x == a {
                            assert(self.0@[m as int].0 == a);
                        } else {
                            let i = choose|i: int|
                                0 <= i < pre.len() && (#[trigger] pre[i]).0 == x;
                            assert(i != m);
                            assert(self.0@[i].0 == x);
                        }
                    }
                }
                return Ok(());
            }
            m = m + 1;
        }
        self.0.push((a, p));
        proof {
            assert(old(self).0@ == pre);
            assert(self.0@.len() == pre.len() + 1);
            assert(self.0@[pre.len() as int] == (a, p));
            assert(forall|j: int| 0 <= j < pre.len() ==> self.0@[j] == #[trigger] pre[j]);
            assert forall|x: int, y: int|
                0 <= x < y < self.0@.len() implies (#[trigger] self.0@[x]).0 != (
            #[trigger] self.0@[y]).0 by {
                if y == pre.len() {
                    assert(pre[x].0 != a);
                }
            }
            assert forall|x: u64| #[trigger]
                self.has_asset(x) implies (old(self).has_asset(x) || x == a) by {
                let i = choose|i: int|
                    0 <= i < self.0@.len() && (#[trigger] self.0@[i]).0 == x;
                if i < pre.len() {
                    assert(pre[i].0 == x);
                }
            }
            assert forall|x: u64| (old(self).has_asset(x) || x == a) implies #[trigger] self.has_asset(x) by {
                if x != a {
                    let i = choose|i: int| 0 <= i < pre.len() && (#[trigger] pre[i]).0 == x;
                    assert(self.0@[i].0 == x);
                }
            }
        }
        Ok(())
    }

    /// Records the precision of every listed asset, replacing existing
    /// entries; the whole update is rejected when any precision is out of
    /// range.
    pub fn store_precisions(&mut self, asset_infos: &Vec<(u64, u8)>) -> (r: Result<(), PoolError>)
        requires
            old(self).wf(),
        ensures
            final(self).wf(),
            match r {
                Ok(()) => forall|i: int|
                    0 <= i < asset_infos@.len() ==> final(self).has_asset(
                        (#[trigger] asset_infos@[i]).0,
                    ),
                Err(e) => e == PoolError::IncorrectPoolParam && *final(self) == *old(self)
                    && exists|i: int|
                    0 <= i < asset_infos@.len() && (#[trigger] asset_infos@[i]).1
                        > crate::dec::MAX_PRECISION,
            },
    {
        let mut j: usize = 0;
        while j < asset_infos.len()
            invariant
                *self == *old(self),
                self.wf(),
                forall|i: int|
                    0 <= i < j ==> (#[trigger] asset_infos@[i]).1 <= crate::dec::MAX_PRECISION,
                j <= asset_infos@.len(),
            decreases asset_infos@.len() - j,
        {
            if asset_infos[j].1 > crate::dec::MAX_PRECISION {
                return Err(PoolError::IncorrectPoolParam);
            }
            j = j + 1;
        }
        let mut k: usize = 0;
        while k < asset_infos.len()
            invariant
                self.wf(),
                k <= asset_infos@.len(),
                forall|i: int|
                    0 <= i < asset_infos@.len() ==> (#[trigger] asset_infos@[i]).1
                        <= crate::dec::MAX_PRECISION,
                forall|i: int|
                    0 <= i < k ==> self.has_asset((#[trigger] asset_infos@[i]).0),
            decreases asset_infos@.len() - k,
        {
            let (a, p) = asset_infos[k];
            let ghost mid = *self;
            match self.store_precision(a, p) {
                Ok(()) => {
                    proof {
                        assert forall|i: int| 0 <= i < k + 1 implies self.has_asset(
                            (#[trigger] asset_infos@[i]).0,
                        ) by {
                            if i < k {
                                assert(mid.has_asset(asset_infos@[i].0));
                            }
                        }
                    }
                },
                Err(_) => {
                    proof {
                        assert(false);
                    }
                },
            }
            k = k + 1;
        }
        Ok(())
    }

    /// The precision of an asset; `InvalidAsset` when the asset is not in
    /// the table.
    pub fn get_precision(&self, asset_info: u64) -> (r: Result<u8, PoolError>)
        requires
            self.wf(),
        ensures
            match r {
                Ok(p) => p <= crate::dec::MAX_PRECISION && exists|i: int|
                    0 <= i < self.0@.len() && #[trigger] self.0@[i] == (asset_info, p),
                Err(e) => e == PoolError::InvalidAsset && forall|i: int|
                    0 <= i < self.0@.len() ==> (#[trigger] self.0@[i]).0 != asset_info,
            },
    {
        let mut i: usize = 0;
        while i < self.0.len()
            invariant
                forall|j: int| 0 <= j < i ==> (#[trigger] self.0@[j]).0 != asset_info,
                i <= self.0@.len(),
                self.wf(),
            decreases self.0@.len() - i,
        {
            if self.0[i].0 == asset_info {
                return Ok(self.0[i].1);
            }
            i = i + 1;
        }
        Err(PoolError::InvalidAsset)
    }
}

/// Rejects an asset list that names the same asset twice.
pub fn check_asset_infos(asset_infos: &Vec<u64>) -> (r: Result<(), PoolError>)
    ensures
        r is Ok <==> (forall|i: int, j: int|
            0 <= i < j < asset_infos@.len() ==> asset_infos@[i] != asset_infos@[j]),
        r is Err ==> r == Err::<(), PoolError>(PoolError::DoublingAssetsPath),
{
    let n = asset_infos.len();
    let mut i: usize = 0;
    while i < n
        invariant
            i <= n,
            n == asset_infos@.len(),
            forall|x: int, y: int| 0 <= x < y < n && x < i ==> asset_infos@[x] != asset_infos@[y],
        decreases n - i,
    {
        let mut j: usize = i + 1;
        while j < n
            invariant
                i < j <= n,
                i < n,
                n == asset_infos@.len(),
                forall|y: int| i < y < j ==> asset_infos@[i as int] != asset_infos@[y],
            decreases n - j,
        {
            if asset_infos[i] == asset_infos[j] {
                return Err(PoolError::DoublingAssetsPath);
            }
            j = j + 1;
        }
        i = i + 1;
    }
    Ok(())
}

/// The creation-time parameters of a pool.
#[derive(Clone, Copy, Debug, PartialEq, Eq, Structural)]
pub struct InitPoolParams {
    pub amp: Dec,
    pub gamma: Dec,
    pub mid_fee: Dec,
    pub out_fee: Dec,
    pub fee_gamma: Dec,
    pub repeg_profit_threshold: Dec,
    pub min_price_scale_delta: Dec,
    /// The starting internal price of the second asset in the first.
    pub price_scale: Dec,
    pub ma_half_time: u64,
    pub track_balances: bool,
}

/// The record a fresh pool starts from: empty reserves, the ramp pinned at
/// the requested parameters, and every price anchored at the initial price
/// scale.
pub open spec fn initial_pool_state(
    asset0: u64,
    asset1: u64,
    precision0: u8,
    precision1: u8,
    init: InitPoolParams,
    maker_fee_share: Dec,
    share_fee_share: Dec,
    block_time: u64,
) -> PoolState {
    PoolState {
        asset0,
        asset1,
        precision0,
        precision1,
        reserve0: Dec { atomics: 0 },
        reserve1: Dec { atomics: 0 },
        curve: CurveState {
            initial: crate::params::AmpGamma {
                amp: Dec { atomics: 0 },
                gamma: Dec { atomics: 0 },
            },
            future: crate::params::AmpGamma { amp: init.amp, gamma: init.gamma },
            future_time: block_time,
            initial_time: 0,
            price_state: crate::pool::PriceState {
                oracle_price: init.price_scale,
                last_price: init.price_scale,
                price_scale: init.price_scale,
                last_price_update: block_time,
                xcp_profit: Dec { atomics: 0 },
                xcp_profit_real: Dec { atomics: 0 },
            },
        },
        params: PoolParams {
            mid_fee: init.mid_fee,
            out_fee: init.out_fee,
            fee_gamma: init.fee_gamma,
            repeg_profit_threshold: init.repeg_profit_threshold,
            min_price_scale_delta: init.min_price_scale_delta,
            ma_half_time: init.ma_half_time,
        },
        total_share_supply: Dec { atomics: 0 },
        track_balances: init.track_balances,
        maker_fee_share,
        share_fee_share,
    }
}

/// Validates the creation parameters and builds a fresh, well-formed pool
/// record; every rejected input is named in the contract.
pub fn create_pool_state(
    asset0: u64,
    asset1: u64,
    precision0: u8,
    precision1: u8,
    init: &InitPoolParams,
    maker_fee_share: Dec,
    share_fee_share: Dec,
    block_time: u64,
) -> (r: Result<PoolState, PoolError>)
    ensures
        match r {
            Ok(st) => {
                &&& st == initial_pool_state(
                    asset0,
                    asset1,
                    precision0,
                    precision1,
                    *init,
                    maker_fee_share,
                    share_fee_share,
                    block_time,
                )
            &&& st.wf()
            &&& st.curve.future.wf()
            },
            Err(e) => {
                ||| e == PoolError::DoublingAssetsPath && asset0 == asset1
                ||| e == PoolError::IncorrectPoolParam && asset0 != asset1 && !((initial_pool_state(
                    asset0,
                    asset1,
                    precision0,
                    precision1,
                    *init,
                    maker_fee_share,
                    share_fee_share,
                    block_time,
                )).wf() && (crate::params::AmpGamma { amp: init.amp, gamma: init.gamma }).wf())
            },
        },
{
    if asset0 == asset1 {
        return Err(PoolError::DoublingAssetsPath);
    }
    if precision0 > crate::dec::MAX_PRECISION || precision1 > crate::dec::MAX_PRECISION {
        return Err(PoolError::IncorrectPoolParam);
    }
    if init.price_scale.atomics == 0 {
        return Err(PoolError::IncorrectPoolParam);
    }
    if maker_fee_share.atomics > crate::dec::ONE || share_fee_share.atomics > crate::dec::ONE {
        return Err(PoolError::IncorrectPoolParam);
    }
    let ag = match crate::params::AmpGamma::new(init.amp, init.gamma) {
        Ok(v) => v,
        Err(_) => {
            return Err(PoolError::IncorrectPoolParam);
        },
    };
    let mut params = PoolParams {
        mid_fee: init.mid_fee,
        out_fee: init.out_fee,
        fee_gamma: init.fee_gamma,
        repeg_profit_threshold: init.repeg_profit_threshold,
        min_price_scale_delta: init.min_price_scale_delta,
        ma_half_time: init.ma_half_time,
    };
    let check = params.update_params(
        crate::params::UpdatePoolParams {
            mid_fee: None,
            out_fee: None,
            fee_gamma: None,
            repeg_profit_threshold: None,
            min_price_scale_delta: None,
            ma_half_time: None,
        },
    );
    match check {
        Ok(()) => {},
        Err(_) => {
            return Err(PoolError::IncorrectPoolParam);
        },
    }
    Ok(
        PoolState {
            asset0,
            asset1,
            precision0,
            precision1,
            reserve0: Dec::zero(),
            reserve1: Dec::zero(),
            curve: CurveState {
                initial: crate::params::AmpGamma { amp: Dec::zero(), gamma: Dec::zero() },
                future: ag,
                future_time: block_time,
                initial_time: 0,
                price_state: crate::pool::PriceState {
                    oracle_price: init.price_scale,
                    last_price: init.price_scale,
                    price_scale: init.price_scale,
                    last_price_update: block_time,
                    xcp_profit: Dec::zero(),
                    xcp_profit_real: Dec::zero(),
                },
            },
            params,
            total_share_supply: Dec::zero(),
            track_balances: init.track_balances,
            maker_fee_share,
            share_fee_share,
        },
    )
}

/// The index of an asset in a balance list; `NotFound` when absent.
pub fn find_asset_index(balances: &Vec<(u64, u128)>, asset: u64) -> (r: Result<usize, PoolError>)
    ensures
        match r {
            Ok(i) => i < balances@.len() && balances@[i as int].0 == asset && forall|j: int|
                0 <= j < i ==> (#[trigger] balances@[j]).0 != asset,
            Err(e) => e == PoolError::NotFound && forall|j: int|
                0 <= j < balances@.len() ==> (#[trigger] balances@[j]).0 != asset,
        },
{
    let mut i: usize = 0;
    while i < balances.len()
        invariant
            i <= balances@.len(),
            forall|j: int| 0 <= j < i ==> (#[trigger] balances@[j]).0 != asset,
        decreases balances@.len() - i,
    {
        if balances[i].0 == asset {
            return Ok(i);
        }
        i = i + 1;
    }
    Err(PoolError::NotFound)
}

/// Adds an amount to one asset's balance.
pub fn increment_asset_balance(balances: &mut Vec<(u64, u128)>, index: usize, amount: u128) -> (r:
    Result<(), PoolError>)
    requires
        index < old(balances)@.len(),
    ensures
        match r {
            Ok(()) => final(balances)@ == old(balances)@.update(
                index as int,
                (old(balances)@[index as int].0, (old(balances)@[index as int].1 + amount) as u128),
            ),
            Err(e) => e == PoolError::ArithmeticOverflow && old(balances)@[index as int].1 + amount
                > u128::MAX && final(balances)@ == old(balances)@,
        },
{
    let (a, b) = balances[index];
    match b.checked_add(amount) {
        Some(nb) => {
            balances.set(index, (a, nb));
            Ok(())
        },
        None => Err(PoolError::ArithmeticOverflow),
    }
}

/// Takes an amount off one asset's balance; a depletion past zero is
/// rejected rather than wrapped.
pub fn decrease_asset_balance(balances: &mut Vec<(u64, u128)>, index: usize, amount: u128) -> (r:
    Result<(), PoolError>)
    requires
        index < old(balances)@.len(),
    ensures
        match r {
            Ok(()) => amount <= old(balances)@[index as int].1 && final(balances)@ == old(
                balances,
            )@.update(
                index as int,
                (old(balances)@[index as int].0, (old(balances)@[index as int].1 - amount) as u128),
            ),
            Err(e) => e == PoolError::ArithmeticOverflow && amount > old(
                balances,
            )@[index as int].1 && final(balances)@ == old(balances)@,
        },
{
    let (a, b) = balances[index];
    if amount <= b {
        balances.set(index, (a, b - amount));
        Ok(())
    } else {
        Err(PoolError::ArithmeticOverflow)
    }
}

/// Adds an amount to every balance of a pair, atomically: on overflow
/// nothing changes.
pub fn increment_pair_balances(balances: &mut Vec<(u64, u128)>, amounts: &Vec<u128>) -> (r: Result<
    (),
    PoolError,
>)
    requires
        amounts@.len() == old(balances)@.len(),
    ensures
        match r {
            Ok(()) => final(balances)@.len() == old(balances)@.len() && forall|i: int|
                0 <= i < old(balances)@.len() ==> #[trigger] final(balances)@[i] == (
                old(balances)@[i].0,
                (old(balances)@[i].1 + amounts@[i]) as u128,
            ),
            Err(e) => e == PoolError::ArithmeticOverflow && final(balances)@ == old(balances)@
                && exists|i: int|
                0 <= i < old(balances)@.len() && (#[trigger] old(balances)@[i]).1 + amounts@[i]
                    > u128::MAX,
        },
{
    let mut out: Vec<(u64, u128)> = Vec::new();
    let mut i: usize = 0;
    while i < balances.len()
        invariant
            i <= balances@.len(),
            amounts@.len() == balances@.len(),
            out@.len() == i,
            forall|j: int|
                0 <= j < i ==> #[trigger] out@[j] == (
                    balances@[j].0,
                    (balances@[j].1 + amounts@[j]) as u128,
                ),
            forall|j: int| 0 <= j < i ==> (#[trigger] balances@[j]).1 + amounts@[j] <= u128::MAX,
        decreases balances@.len() - i,
    {
        let (a, b) = balances[i];
        match b.checked_add(amounts[i]) {
            Some(nb) => {
                out.push((a, nb));
            },
            None => {
                return Err(PoolError::ArithmeticOverflow);
            },
        }
        i = i + 1;
    }
    *balances = out;
    Ok(())
}

/// Takes an amount off every balance of a pair, atomically: on a depletion
/// past zero nothing changes.
pub fn decrease_pair_balances(balances: &mut Vec<(u64, u128)>, amounts: &Vec<u128>) -> (r: Result<
    (),
    PoolError,
>)
    requires
        amounts@.len() == old(balances)@.len(),
    ensures
        match r {
            Ok(()) => final(balances)@.len() == old(balances)@.len() && forall|i: int|
                0 <= i < old(balances)@.len() ==> #[trigger] final(balances)@[i] == (
                old(balances)@[i].0,
                (old(balances)@[i].1 - amounts@[i]) as u128,
            ),
            Err(e) => e == PoolError::ArithmeticOverflow && final(balances)@ == old(balances)@
                && exists|i: int|
                0 <= i < old(balances)@.len() && (#[trigger] old(balances)@[i]).1 < amounts@[i],
        },
{
    let mut out: Vec<(u64, u128)> = Vec::new();
    let mut i: usize = 0;
    while i < balances.len()
        invariant
            i <= balances@.len(),
            amounts@.len() == balances@.len(),
            out@.len() == i,
            forall|j: int|
                0 <= j < i ==> #[trigger] out@[j] == (
                    balances@[j].0,
                    (balances@[j].1 - amounts@[j]) as u128,
                ),
            forall|j: int| 0 <= j < i ==> (#[trigger] balances@[j]).1 >= amounts@[j],
        decreases balances@.len() - i,
    {
        let (a, b) = balances[i];
        if amounts[i] <= b {
            out.push((a, b - amounts[i]));
        } else {
            return Err(PoolError::ArithmeticOverflow);
        }
        i = i + 1;
    }
    *balances = out;
    Ok(())
}

} // verus!
