//! Per-function stack maps, the offset lookup that picks a checkpoint, the
//! replay of its diff chain, and the module-wide collection.

use crate::bytes::CacheError;
use crate::exception::ExceptionTable;
use crate::keyed::{keyed_find, keyed_map, keys_ascending, lemma_keyed_at};
use crate::state::{
    chain_valid, lemma_replay_ok_valid, replay, replay_ok, MachineState, MachineStateDiff, StateModel,
};
use crate::values::{suspend_at, OffsetInfo, SuspendOffset, WasmAbstractValue};
use vstd::prelude::*;

verus! {

/// The stack maps of one function.
#[derive(Debug)]
pub struct FunctionStateMap {
    /// The baseline state.
    pub initial: MachineState,
    /// The function's local id.
    pub local_function_id: usize,
    /// One abstract value per wasm local.
    pub locals: Vec<WasmAbstractValue>,
    /// Bytes reserved below the checkpointed stack.
    pub shadow_size: usize,
    /// The diffs; a diff id is a position here.
    pub diffs: Vec<MachineStateDiff>,
    /// The safepoint at the function's entry, if any.
    pub wasm_function_header_target_offset: Option<SuspendOffset>,
    /// Wasm offsets to safepoints, in ascending key order.
    pub wasm_offset_to_target_offset: Vec<(usize, SuspendOffset)>,
    /// Loop headers by code offset, in ascending key order.
    pub loop_offsets: Vec<(usize, OffsetInfo)>,
    /// Call sites by code offset, in ascending key order.
    pub call_offsets: Vec<(usize, OffsetInfo)>,
    /// Trapping instructions by code offset, in ascending key order.
    pub trappable_offsets: Vec<(usize, OffsetInfo)>,
}

/// Entry `i` has the greatest key of `s` that is at most `t`.
pub open spec fn is_floor(s: Seq<(usize, OffsetInfo)>, t: usize, i: int) -> bool {
    &&& 0 <= i < s.len()
    &&& s[i].0 <= t
    &&& forall|j: int| 0 <= j < s.len() && s[j].0 <= t ==> s[j].0 <= s[i].0
}

/// The entry that governs offset `t`: the one with the greatest key at most
/// `t`, provided its range, which excludes its end offset, holds `t`.
pub open spec fn governing(s: Seq<(usize, OffsetInfo)>, t: usize) -> Option<OffsetInfo> {
    if exists|i: int| is_floor(s, t, i) {
        let i = choose|i: int| is_floor(s, t, i);
        if t < s[i].1.end_offset {
            Some(s[i].1)
        } else {
            None
        }
    } else {
        None
    }
}

/// The entry of `index` that governs offset `t`.
pub fn find_governing(index: &Vec<(usize, OffsetInfo)>, t: usize) -> (r: Result<
    OffsetInfo,
    CacheError,
>)
    requires
        keys_ascending(index@),
    ensures
        match governing(index@, t) {
            Some(info) => r == Ok::<OffsetInfo, CacheError>(info),
            None => r == Err::<OffsetInfo, CacheError>(CacheError::OffsetNotCovered),
        },
{
    let mut best: Option<usize> = None;
    let mut i: usize = 0;
    while i < index.len() && index[i].0 <= t
        invariant
            i <= index@.len(),
            keys_ascending(index@),
            forall|j: int| 0 <= j < i ==> index@[j].0 <= t,
            i > 0 ==> best == Some((i - 1) as usize),
            i == 0 ==> best is None,
        decreases index@.len() - i,
    {
        best = Some(i);
        i = i + 1;
    }
    proof {
        assert forall|j: int| 0 <= j < index@.len() && index@[j].0 <= t implies j < i by {
            if j >= i {
                if j > i {
                    assert(index@[i as int].0 < index@[j].0);
                }
            }
        }
    }
    match best {
        None => {
            assert(!exists|k: int| is_floor(index@, t, k));
            Err(CacheError::OffsetNotCovered)
        },
        Some(b) => {
            assert forall|j: int| 0 <= j < index@.len() && index@[j].0 <= t implies index@[j].0
                <= index@[b as int].0 by {
                if j < b {
                    assert(index@[j].0 < index@[b as int].0);
                }
            }
            assert(is_floor(index@, t, b as int));
            let ghost c = choose|k: int| is_floor(index@, t, k);
            assert(c == b) by {
                if c < b {
                    assert(index@[c].0 < index@[b as int].0);
                } else if c > b {
                    assert(index@[b as int].0 < index@[c].0);
                }
            }
            let info = index[b].1;
            if t < info.end_offset {
                Ok(info)
            } else {
                Err(CacheError::OffsetNotCovered)
            }
        },
    }
}

impl FunctionStateMap {
    /// The baseline is well formed and every offset index ascends.
    pub open spec fn wf(&self) -> bool {
        &&& self.initial.wf()
        &&& keys_ascending(self.wasm_offset_to_target_offset@)
        &&& keys_ascending(self.loop_offsets@)
        &&& keys_ascending(self.call_offsets@)
        &&& keys_ascending(self.trappable_offsets@)
    }

    /// The index that serves safepoints of the kind of `at`.
    pub open spec fn index_for(&self, at: SuspendOffset) -> Seq<(usize, OffsetInfo)> {
        match at {
            SuspendOffset::Loop(_) => self.loop_offsets@,
            SuspendOffset::Call(_) => self.call_offsets@,
            SuspendOffset::Trappable(_) => self.trappable_offsets@,
        }
    }

    /// The offset-index entry that governs the safepoint `at`, looked up in
    /// the index of its kind.
    pub fn offset_info(&self, at: SuspendOffset) -> (r: Result<OffsetInfo, CacheError>)
        requires
            self.wf(),
        ensures
            match governing(self.index_for(at), suspend_at(at)) {
                Some(info) => r == Ok::<OffsetInfo, CacheError>(info),
                None => r == Err::<OffsetInfo, CacheError>(CacheError::OffsetNotCovered),
            },
    {
        match at {
            SuspendOffset::Loop(x) => find_governing(&self.loop_offsets, x),
            SuspendOffset::Call(x) => find_governing(&self.call_offsets, x),
            SuspendOffset::Trappable(x) => find_governing(&self.trappable_offsets, x),
        }
    }

    /// The full state at diff `id`: the baseline with the diffs of its chain
    /// applied oldest first. A chain that leaves the diff list, does not step
    /// to strictly smaller indices, or holds a diff that pops more than the
    /// stack holds or overrides a missing register, is corrupt.
    pub fn state_at_diff(&self, id: usize) -> (r: Result<MachineState, CacheError>)
        requires
            self.wf(),
        ensures
            replay_ok(self.initial.model(), self.diffs@, id as int) ==> (r matches Ok(s) && s.wf()
                && s.model() == replay(self.initial.model(), self.diffs@, id as int)),
            !replay_ok(self.initial.model(), self.diffs@, id as int) ==> r == Err::<
                MachineState,
                CacheError,
            >(CacheError::DiffChainCorrupt),
    {
        let ghost ds = self.diffs@;
        let ghost init = self.initial.model();
        if id >= self.diffs.len() {
            return Err(CacheError::DiffChainCorrupt);
        }
        proof {
            if replay_ok(init, ds, id as int) {
                lemma_replay_ok_valid(init, ds, id as int);
            }
        }
        let mut chain: Vec<usize> = Vec::new();
        chain.push(id);
        let mut cur: usize = id;
        loop
            invariant
                ds == self.diffs@,
                init == self.initial.model(),
                chain@.len() > 0,
                chain@[0] == id,
                chain@.last() == cur,
                cur < ds.len(),
                forall|k: int| 0 <= k < chain@.len() ==> 0 <= #[trigger] chain@[k] < ds.len(),
                forall|k: int|
                    0 <= k < chain@.len() - 1 ==> ds[#[trigger] chain@[k] as int].last == Some(
                        chain@[k + 1],
                    ) && chain@[k + 1] < chain@[k],
                chain_valid(ds, id as int) <==> chain_valid(ds, cur as int),
            ensures
                ds == self.diffs@,
                chain@.len() > 0,
                chain@[0] == id,
                chain@.last() == cur,
                cur < ds.len(),
                ds[cur as int].last is None,
                forall|k: int| 0 <= k < chain@.len() ==> 0 <= #[trigger] chain@[k] < ds.len(),
                forall|k: int|
                    0 <= k < chain@.len() - 1 ==> ds[#[trigger] chain@[k] as int].last == Some(
                        chain@[k + 1],
                    ) && chain@[k + 1] < chain@[k],
                chain_valid(ds, id as int),
            decreases cur,
        {
            match self.diffs[cur].last {
                None => break,
                Some(l) => {
                    if l >= cur {
                        proof {
                            if replay_ok(init, ds, id as int) {
                                lemma_replay_ok_valid(init, ds, id as int);
                            }
                        }
                        return Err(CacheError::DiffChainCorrupt);
                    }
                    chain.push(l);
                    cur = l;
                },
            }
        }
        let mut state = self.initial.duplicate();
        let mut k: usize = chain.len();
        while k > 0
            invariant
                ds == self.diffs@,
                init == self.initial.model(),
                chain@.len() > 0,
                chain@[0] == id,
                ds[chain@.last() as int].last is None,
                k <= chain@.len(),
                forall|x: int| 0 <= x < chain@.len() ==> 0 <= #[trigger] chain@[x] < ds.len(),
                forall|x: int|
                    0 <= x < chain@.len() - 1 ==> ds[#[trigger] chain@[x] as int].last == Some(
                        chain@[x + 1],
                    ) && chain@[x + 1] < chain@[x],
                state.wf(),
                k < chain@.len() ==> replay_ok(init, ds, chain@[k as int] as int),
                k < chain@.len() ==> state.model() == replay(init, ds, chain@[k as int] as int),
                k == chain@.len() ==> state.model() == init,
            decreases k,
        {
            k = k - 1;
            let d = chain[k];
            if !self.diffs[d].applies_to(&state) {
                proof {
                    if replay_ok(init, ds, id as int) {
                        lemma_chain_ok(init, ds, chain@, k as int);
                        if k + 1 < chain@.len() {
                            assert(ds[chain@[k as int] as int].last == Some(chain@[k + 1]));
                        }
                    }
                }
                return Err(CacheError::DiffChainCorrupt);
            }
            proof {
                if k + 1 < chain@.len() {
                    assert(ds[chain@[k as int] as int].last == Some(chain@[k + 1]));
                }
            }
            state.apply(&self.diffs[d]);
        }
        Ok(state)
    }
}

/// Along a chain of back references from `chain[0]`, a fault-free replay of
/// the first diff makes every later one fault-free too.
proof fn lemma_chain_ok(init: StateModel, ds: Seq<MachineStateDiff>, chain: Seq<usize>, x: int)
    requires
        0 <= x < chain.len(),
        forall|k: int|
            0 <= k < chain.len() - 1 ==> ds[#[trigger] chain[k] as int].last == Some(chain[k + 1])
                && chain[k + 1] < chain[k],
        replay_ok(init, ds, chain[0] as int),
    ensures
        replay_ok(init, ds, chain[x] as int),
    decreases x,
{
    if x > 0 {
        lemma_chain_ok(init, ds, chain, x - 1);
        assert(ds[chain[x - 1] as int].last == Some(chain[x]));
    }
}

impl FunctionStateMap {
    /// `r` is the outcome owed for the safepoint `at`: `OffsetNotCovered`
    /// when no entry governs it, `DiffChainCorrupt` when the chain of the
    /// governing entry's diff does not replay, and otherwise the replayed state.
    pub open spec fn reconstructs(&self, at: SuspendOffset, r: Result<MachineState, CacheError>) -> bool {
        match governing(self.index_for(at), suspend_at(at)) {
            None => r == Err::<MachineState, CacheError>(CacheError::OffsetNotCovered),
            Some(info) => if replay_ok(self.initial.model(), self.diffs@, info.diff_id as int) {
                r matches Ok(s) && s.wf() && s.model() == replay(
                    self.initial.model(),
                    self.diffs@,
                    info.diff_id as int,
                )
            } else {
                r == Err::<MachineState, CacheError>(CacheError::DiffChainCorrupt)
            },
        }
    }

    /// The full state at wasm offset `w`: the wasm-offset index gives the
    /// safepoint recorded for exactly that offset, which is then
    /// reconstructed. An offset with no entry is not covered.
    pub fn reconstruct_at_wasm_offset(&self, w: usize) -> (r: Result<MachineState, CacheError>)
        requires
            self.wf(),
        ensures
            !keyed_map(self.wasm_offset_to_target_offset@).contains_key(w) ==> r == Err::<
                MachineState,
                CacheError,
            >(CacheError::OffsetNotCovered),
            keyed_map(self.wasm_offset_to_target_offset@).contains_key(w) ==> self.reconstructs(
                keyed_map(self.wasm_offset_to_target_offset@)[w],
                r,
            ),
    {
        match keyed_find(&self.wasm_offset_to_target_offset, w) {
            Some(i) => {
                proof {
                    lemma_keyed_at(self.wasm_offset_to_target_offset@, i as int);
                }
                self.reconstruct(self.wasm_offset_to_target_offset[i].1)
            },
            None => Err(CacheError::OffsetNotCovered),
        }
    }

    /// The full state at the safepoint `at`: the governing entry of the
    /// index of its kind picks a diff, whose chain is replayed.
    pub fn reconstruct(&self, at: SuspendOffset) -> (r: Result<MachineState, CacheError>)
        requires
            self.wf(),
        ensures
            self.reconstructs(at, r),
    {
        match self.offset_info(at) {
            Ok(info) => self.state_at_diff(info.diff_id),
            Err(e) => Err(e),
        }
    }
}

/// A compiled module with its metadata, as stored in a cache.
#[derive(Debug)]
pub struct CacheImage {
    /// The executable image.
    pub code: Vec<u8>,
    /// Offset of each function's entry, trampoline included.
    pub function_pointers: Vec<usize>,
    /// Offset of each function's entry after any trampoline.
    pub function_offsets: Vec<usize>,
    /// Number of imported functions.
    pub func_import_count: usize,
    /// The module's stack maps.
    pub msm: ModuleStateMap,
    /// Trap codes by instruction offset.
    pub exception_table: ExceptionTable,
}

/// The stack maps of every local function of a module.
#[derive(Debug)]
pub struct ModuleStateMap {
    /// Functions by local id, in ascending id order.
    pub local_functions: Vec<(usize, FunctionStateMap)>,
    /// Total size of the governed code.
    pub total_size: usize,
}

impl ModuleStateMap {
    /// Function ids ascend and every function's stack maps are well formed.
    pub open spec fn wf(&self) -> bool {
        &&& keys_ascending(self.local_functions@)
        &&& forall|i: int| 0 <= i < self.local_functions@.len() ==> (#[trigger] self.local_functions@[i]).1.wf()
    }

    /// The functions by id.
    pub open spec fn functions(&self) -> Map<usize, FunctionStateMap> {
        keyed_map(self.local_functions@)
    }

    /// The stack maps of the function with local id `id`.
    pub fn function(&self, id: usize) -> (r: Option<&FunctionStateMap>)
        requires
            self.wf(),
        ensures
            self.functions().contains_key(id) ==> (r matches Some(f) && *f == self.functions()[id]
                && f.wf()),
            !self.functions().contains_key(id) ==> r is None,
    {
        match keyed_find(&self.local_functions, id) {
            Some(i) => {
                proof {
                    lemma_keyed_at(self.local_functions@, i as int);
                }
                Some(&self.local_functions[i].1)
            },
            None => None,
        }
    }
}

} // verus!
