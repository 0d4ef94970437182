//! Machine-state checkpoints, the diffs between them, and the replay of a
//! diff chain that rebuilds the full state at a safepoint.

use crate::bytes::CacheError;
use crate::keyed::{keyed_find, keyed_insert, keyed_map, keyed_remove, keys_ascending, lemma_keyed_at};
use crate::values::{
    suspend_at, MachineValue, OffsetInfo, RegisterIndex, SuspendOffset, ValueModel,
    WasmAbstractValue,
};
use vstd::prelude::*;

verus! {

/// A full snapshot of where every value lives.
#[derive(Debug)]
pub struct MachineState {
    /// Abstract value stack, bottom first.
    pub stack_values: Vec<MachineValue>,
    /// Register contents, by register number.
    pub register_values: Vec<MachineValue>,
    /// Caller-saved state by frame slot, in ascending slot order.
    pub prev_frame: Vec<(usize, MachineValue)>,
    /// Wasm operand stack, bottom first.
    pub wasm_stack: Vec<WasmAbstractValue>,
    /// Values below this depth of the wasm stack belong to the caller.
    pub wasm_stack_private_depth: usize,
    /// Offset of the wasm instruction.
    pub wasm_inst_offset: usize,
}

/// The mathematical form of a [`MachineState`].
pub struct StateModel {
    pub stack: Seq<ValueModel>,
    pub regs: Seq<ValueModel>,
    pub frame: Map<usize, ValueModel>,
    pub wasm_stack: Seq<WasmAbstractValue>,
    pub depth: usize,
    pub inst: usize,
}

/// The change from one checkpoint to the next.
#[derive(Debug)]
pub struct MachineStateDiff {
    /// The diff this one follows; `None` when it follows the baseline.
    pub last: Option<usize>,
    /// Values pushed on the abstract stack.
    pub stack_push: Vec<MachineValue>,
    /// Values then popped off it.
    pub stack_pop: usize,
    /// Registers overwritten, in order.
    pub reg_diff: Vec<(RegisterIndex, MachineValue)>,
    /// Frame slots set (`Some`) or removed (`None`), in ascending slot order.
    pub prev_frame_diff: Vec<(usize, Option<MachineValue>)>,
    /// Values pushed on the wasm stack.
    pub wasm_stack_push: Vec<WasmAbstractValue>,
    /// Values then popped off it.
    pub wasm_stack_pop: usize,
    /// The new private depth, absolute.
    pub wasm_stack_private_depth: usize,
    /// The new wasm instruction offset, absolute.
    pub wasm_inst_offset: usize,
}

pub open spec fn models(s: Seq<MachineValue>) -> Seq<ValueModel> {
    s.map_values(|v: MachineValue| v.model())
}

pub open spec fn frame_model(s: Seq<(usize, MachineValue)>) -> Map<usize, ValueModel> {
    keyed_map(s).map_values(|v: MachineValue| v.model())
}

impl MachineState {
    pub open spec fn model(&self) -> StateModel {
        StateModel {
            stack: models(self.stack_values@),
            regs: models(self.register_values@),
            frame: frame_model(self.prev_frame@),
            wasm_stack: self.wasm_stack@,
            depth: self.wasm_stack_private_depth,
            inst: self.wasm_inst_offset,
        }
    }

    /// Frame slots ascend.
    pub open spec fn wf(&self) -> bool {
        keys_ascending(self.prev_frame@)
    }
}

/// `s` after pushing `push` and then popping `pop` values, or all of them
/// when there are fewer.
pub open spec fn push_pop<T>(s: Seq<T>, push: Seq<T>, pop: usize) -> Seq<T> {
    let p = s + push;
    if pop <= p.len() {
        p.take(p.len() - pop)
    } else {
        Seq::empty()
    }
}

/// `regs` after each override of `d` in turn; an override of a register
/// beyond the sequence changes nothing.
pub open spec fn apply_regs(regs: Seq<ValueModel>, d: Seq<(RegisterIndex, MachineValue)>) -> Seq<
    ValueModel,
>
    decreases d.len(),
{
    if d.len() == 0 {
        regs
    } else {
        let r = apply_regs(regs, d.drop_last());
        let (i, v) = d.last();
        if i.0 < r.len() {
            r.update(i.0 as int, v.model())
        } else {
            r
        }
    }
}

/// `frame` after each entry of `d` in turn: `Some` sets the slot, `None` removes it.
pub open spec fn apply_frame(frame: Map<usize, ValueModel>, d: Seq<(usize, Option<MachineValue>)>) -> Map<
    usize,
    ValueModel,
>
    decreases d.len(),
{
    if d.len() == 0 {
        frame
    } else {
        let f = apply_frame(frame, d.drop_last());
        match d.last().1 {
            Some(v) => f.insert(d.last().0, v.model()),
            None => f.remove(d.last().0),
        }
    }
}

/// The state after applying diff `d` to `m`.
pub open spec fn apply_diff(m: StateModel, d: MachineStateDiff) -> StateModel {
    StateModel {
        stack: push_pop(m.stack, models(d.stack_push@), d.stack_pop),
        regs: apply_regs(m.regs, d.reg_diff@),
        frame: apply_frame(m.frame, d.prev_frame_diff@),
        wasm_stack: push_pop(m.wasm_stack, d.wasm_stack_push@, d.wasm_stack_pop),
        depth: d.wasm_stack_private_depth,
        inst: d.wasm_inst_offset,
    }
}

/// Following `last` from diff `id` reaches the baseline, each step going to
/// a strictly smaller index.
pub open spec fn chain_valid(diffs: Seq<MachineStateDiff>, id: int) -> bool
    decreases id,
{
    &&& 0 <= id < diffs.len()
    &&& match diffs[id].last {
        None => true,
        Some(l) => l < id && chain_valid(diffs, l as int),
    }
}

/// The state at diff `id`: the baseline with every diff of its chain applied,
/// oldest first.
pub open spec fn replay(init: StateModel, diffs: Seq<MachineStateDiff>, id: int) -> StateModel
    decreases id,
{
    if 0 <= id < diffs.len() {
        match diffs[id].last {
            Some(l) => if l < id {
                apply_diff(replay(init, diffs, l as int), diffs[id])
            } else {
                apply_diff(init, diffs[id])
            },
            None => apply_diff(init, diffs[id]),
        }
    } else {
        init
    }
}

/// Diff `d` fits the state `m` it follows: it pops no more than the stacks
/// hold after its pushes, and overrides only registers that exist.
pub open spec fn diff_applies(m: StateModel, d: MachineStateDiff) -> bool {
    &&& d.stack_pop <= m.stack.len() + d.stack_push@.len()
    &&& d.wasm_stack_pop <= m.wasm_stack.len() + d.wasm_stack_push@.len()
    &&& forall|i: int| 0 <= i < d.reg_diff@.len() ==> (#[trigger] d.reg_diff@[i]).0.0 < m.regs.len()
}

/// The chain of diff `id` is valid and each of its diffs fits the state it
/// follows.
pub open spec fn replay_ok(init: StateModel, diffs: Seq<MachineStateDiff>, id: int) -> bool
    decreases id,
{
    &&& 0 <= id < diffs.len()
    &&& match diffs[id].last {
        None => diff_applies(init, diffs[id]),
        Some(l) => l < id && replay_ok(init, diffs, l as int) && diff_applies(
            replay(init, diffs, l as int),
            diffs[id],
        ),
    }
}

/// A chain that replays without fault is a valid chain.
pub proof fn lemma_replay_ok_valid(init: StateModel, diffs: Seq<MachineStateDiff>, id: int)
    requires
        replay_ok(init, diffs, id),
    ensures
        chain_valid(diffs, id),
    decreases id,
{
    if let Some(l) = diffs[id].last {
        lemma_replay_ok_valid(init, diffs, l as int);
    }
}

/// A copy of a list of storage locations.
pub fn copy_values(v: &Vec<MachineValue>) -> (r: Vec<MachineValue>)
    ensures
        models(r@) == models(v@),
{
    let mut c: Vec<MachineValue> = Vec::new();
    let mut i: usize = 0;
    while i < v.len()
        invariant
            i <= v@.len(),
            c@.len() == i,
            forall|j: int| 0 <= j < i ==> (#[trigger] c@[j]).model() == v@[j].model(),
        decreases v@.len() - i,
    {
        c.push(v[i].duplicate());
        i = i + 1;
    }
    assert(models(c@) =~= models(v@));
    c
}

/// Pushes `push`, then pops `pop` values or all of them.
fn push_pop_values(s: &mut Vec<MachineValue>, push: &Vec<MachineValue>, pop: usize)
    ensures
        models(final(s)@) == push_pop(models(old(s)@), models(push@), pop),
{
    let ghost o = s@;
    let mut i: usize = 0;
    while i < push.len()
        invariant
            i <= push@.len(),
            s@.len() == o.len() + i,
            forall|j: int| 0 <= j < o.len() ==> (#[trigger] s@[j]).model() == o[j].model(),
            forall|j: int| 0 <= j < i ==> (#[trigger] s@[o.len() + j]).model() == push@[j].model(),
        decreases push@.len() - i,
    {
        s.push(push[i].duplicate());
        i = i + 1;
    }
    assert(models(s@) =~= models(o) + models(push@)) by {
        assert forall|j: int| 0 <= j < s@.len() implies models(s@)[j] == (models(o) + models(
            push@,
        ))[j] by {
            if j >= o.len() {
                assert(s@[o.len() + (j - o.len())].model() == push@[j - o.len()].model());
            }
        }
    }
    let ghost o = models(o);
    let n = s.len();
    if pop <= n {
        s.truncate(n - pop);
    } else {
        s.truncate(0);
    }
    assert(models(s@) =~= push_pop(o, models(push@), pop));
}

/// Pushes `push`, then pops `pop` values or all of them.
fn push_pop_wasm(s: &mut Vec<WasmAbstractValue>, push: &Vec<WasmAbstractValue>, pop: usize)
    ensures
        final(s)@ == push_pop(old(s)@, push@, pop),
{
    let ghost o = s@;
    let mut i: usize = 0;
    while i < push.len()
        invariant
            i <= push@.len(),
            s@ == o + push@.take(i as int),
        decreases push@.len() - i,
    {
        s.push(push[i]);
        i = i + 1;
        assert(s@ =~= o + push@.take(i as int));
    }
    assert(push@.take(push@.len() as int) =~= push@);
    let n = s.len();
    if pop <= n {
        s.truncate(n - pop);
    } else {
        s.truncate(0);
    }
    assert(s@ =~= push_pop(o, push@, pop));
}

impl MachineStateDiff {
    /// Whether this diff fits the state `s`.
    pub fn applies_to(&self, s: &MachineState) -> (r: bool)
        ensures
            r == diff_applies(s.model(), *self),
    {
        let n = s.stack_values.len();
        let w = s.wasm_stack.len();
        if self.stack_pop > n && self.stack_pop - n > self.stack_push.len() {
            return false;
        }
        if self.wasm_stack_pop > w && self.wasm_stack_pop - w > self.wasm_stack_push.len() {
            return false;
        }
        let regs = s.register_values.len();
        let mut i: usize = 0;
        while i < self.reg_diff.len()
            invariant
                i <= self.reg_diff@.len(),
                regs == s.model().regs.len(),
                forall|j: int| 0 <= j < i ==> (#[trigger] self.reg_diff@[j]).0.0 < regs,
            decreases self.reg_diff@.len() - i,
        {
            if self.reg_diff[i].0.0 >= regs {
                return false;
            }
            i = i + 1;
        }
        true
    }
}

impl MachineState {
    /// A deep copy of this state.
    pub fn duplicate(&self) -> (r: MachineState)
        requires
            self.wf(),
        ensures
            r.wf(),
            r.model() == self.model(),
    {
        let mut frame: Vec<(usize, MachineValue)> = Vec::new();
        let mut i: usize = 0;
        while i < self.prev_frame.len()
            invariant
                i <= self.prev_frame@.len(),
                keys_ascending(self.prev_frame@),
                frame@.len() == i,
                forall|j: int| 0 <= j < i ==> (#[trigger] frame@[j]).0 == self.prev_frame@[j].0
                    && frame@[j].1.model() == self.prev_frame@[j].1.model(),
            decreases self.prev_frame@.len() - i,
        {
            let (k, v) = &self.prev_frame[i];
            frame.push((*k, v.duplicate()));
            i = i + 1;
        }
        let ghost a = frame@;
        let ghost b = self.prev_frame@;
        assert(keys_ascending(a)) by {
            assert forall|x: int, y: int| 0 <= x < y < a.len() implies a[x].0 < a[y].0 by {
                assert(b[x].0 < b[y].0);
            }
        }
        assert forall|k: usize| #[trigger] keyed_map(a).contains_key(k) == keyed_map(
            b,
        ).contains_key(k) by {
            if keyed_map(a).contains_key(k) {
                let j = choose|j: int| 0 <= j < a.len() && a[j].0 == k;
                assert(b[j].0 == k);
            }
            if keyed_map(b).contains_key(k) {
                let j = choose|j: int| 0 <= j < b.len() && b[j].0 == k;
                assert(a[j].0 == k);
            }
        }
        assert forall|k: usize| #[trigger] frame_model(a).contains_key(k) implies frame_model(
            a,
        )[k] == frame_model(b)[k] by {
            let j = choose|j: int| 0 <= j < a.len() && a[j].0 == k;
            lemma_keyed_at(a, j);
            lemma_keyed_at(b, j);
        }
        assert(frame_model(a) =~= frame_model(b));
        let mut ws: Vec<WasmAbstractValue> = Vec::new();
        let mut i: usize = 0;
        while i < self.wasm_stack.len()
            invariant
                i <= self.wasm_stack@.len(),
                ws@ == self.wasm_stack@.take(i as int),
            decreases self.wasm_stack@.len() - i,
        {
            ws.push(self.wasm_stack[i]);
            i = i + 1;
            assert(ws@ =~= self.wasm_stack@.take(i as int));
        }
        assert(self.wasm_stack@.take(self.wasm_stack@.len() as int) =~= self.wasm_stack@);
        MachineState {
            stack_values: copy_values(&self.stack_values),
            register_values: copy_values(&self.register_values),
            prev_frame: frame,
            wasm_stack: ws,
            wasm_stack_private_depth: self.wasm_stack_private_depth,
            wasm_inst_offset: self.wasm_inst_offset,
        }
    }

    /// Applies one diff: the stack changes, the register overrides in order,
    /// the frame-slot settings and removals, the wasm stack changes, and the
    /// absolute depth and instruction offset. Replay checks `applies_to`
    /// first; a diff that does not fit is applied only as far as it goes.
    pub fn apply(&mut self, d: &MachineStateDiff)
        requires
            old(self).wf(),
        ensures
            final(self).wf(),
            final(self).model() == apply_diff(old(self).model(), *d),
    {
        let ghost o = self.model();
        push_pop_values(&mut self.stack_values, &d.stack_push, d.stack_pop);
        let mut i: usize = 0;
        while i < d.reg_diff.len()
            invariant
                i <= d.reg_diff@.len(),
                keys_ascending(self.prev_frame@),
                frame_model(self.prev_frame@) == o.frame,
                models(self.stack_values@) == push_pop(o.stack, models(d.stack_push@), d.stack_pop),
                self.wasm_stack@ == o.wasm_stack,
                models(self.register_values@) == apply_regs(o.regs, d.reg_diff@.take(i as int)),
            decreases d.reg_diff@.len() - i,
        {
            let (r, v) = &d.reg_diff[i];
            let ghost before = models(self.register_values@);
            if r.0 < self.register_values.len() {
                self.register_values.set(r.0, v.duplicate());
                assert(models(self.register_values@) =~= before.update(r.0 as int, v.model()));
            }
            proof {
                let t = d.reg_diff@.take(i + 1);
                assert(t.drop_last() =~= d.reg_diff@.take(i as int));
            }
            i = i + 1;
        }
        assert(d.reg_diff@.take(d.reg_diff@.len() as int) =~= d.reg_diff@);
        let mut i: usize = 0;
        while i < d.prev_frame_diff.len()
            invariant
                i <= d.prev_frame_diff@.len(),
                keys_ascending(self.prev_frame@),
                models(self.stack_values@) == push_pop(o.stack, models(d.stack_push@), d.stack_pop),
                self.wasm_stack@ == o.wasm_stack,
                models(self.register_values@) == apply_regs(o.regs, d.reg_diff@),
                frame_model(self.prev_frame@) == apply_frame(
                    o.frame,
                    d.prev_frame_diff@.take(i as int),
                ),
            decreases d.prev_frame_diff@.len() - i,
        {
            let (k, v) = &d.prev_frame_diff[i];
            let ghost before = self.prev_frame@;
            match v {
                Some(x) => {
                    let c = x.duplicate();
                    keyed_insert(&mut self.prev_frame, *k, c);
                    assert(frame_model(self.prev_frame@) =~= frame_model(before).insert(
                        *k,
                        x.model(),
                    ));
                },
                None => {
                    keyed_remove(&mut self.prev_frame, *k);
                    assert(frame_model(self.prev_frame@) =~= frame_model(before).remove(*k));
                },
            }
            proof {
                let t = d.prev_frame_diff@.take(i + 1);
                assert(t.drop_last() =~= d.prev_frame_diff@.take(i as int));
            }
            i = i + 1;
        }
        assert(d.prev_frame_diff@.take(d.prev_frame_diff@.len() as int) =~= d.prev_frame_diff@);
        push_pop_wasm(&mut self.wasm_stack, &d.wasm_stack_push, d.wasm_stack_pop);
        self.wasm_stack_private_depth = d.wasm_stack_private_depth;
        self.wasm_inst_offset = d.wasm_inst_offset;
    }
}

} // verus!
