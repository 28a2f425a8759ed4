//! Liveness: for each instruction of a block, the registers and variables
//! whose value is still needed when the instruction starts.

use crate::natural::find_name;
use crate::x64_def::Arg;
use crate::x64_def::arg_eq;
use crate::x64_def::ArgView;
use crate::x64_def::blocks_view;
use crate::x64_def::BlockView;
use crate::x64_def::Instr;
use crate::x64_def::instrs_view;
use crate::x64_def::InstrView;
use crate::x64_def::LabelBlockPair;
use vstd::prelude::*;

verus! {

/// Only registers and variables can be live.
pub open spec fn is_location(a: ArgView) -> bool {
    a is Reg || a is Var
}

/// The set that holds `a` alone where it is a register or a variable, and
/// nothing otherwise.
pub open spec fn to_set(a: ArgView) -> Set<ArgView> {
    if is_location(a) {
        set![a]
    } else {
        Set::empty()
    }
}

/// What an instruction writes: the destination of a move, an addition or a
/// negation.
pub open spec fn written_to(i: InstrView) -> Set<ArgView> {
    match i {
        InstrView::Mov64(d, _) => to_set(d),
        InstrView::Add64(d, _) => to_set(d),
        InstrView::Neg64(d) => to_set(d),
        _ => Set::empty(),
    }
}

/// What an instruction reads: the source of a move, both operands of an
/// addition, the operand of a negation.
pub open spec fn read_from(i: InstrView) -> Set<ArgView> {
    match i {
        InstrView::Mov64(_, s) => to_set(s),
        InstrView::Add64(d, s) => to_set(d).union(to_set(s)),
        InstrView::Neg64(d) => to_set(d),
        _ => Set::empty(),
    }
}

/// What is live before instruction `k` of a block taken alone: what is
/// live after it and not written by it, and what it reads. Nothing is live
/// after the last instruction.
pub open spec fn before(k: int, i: Seq<InstrView>) -> Set<ArgView>
    decreases i.len() - k,
{
    if k < 0 || k >= i.len() {
        Set::empty()
    } else {
        after(k, i).difference(written_to(i[k])).union(read_from(i[k]))
    }
}

/// What is live after instruction `k`: what is live before the next one.
pub open spec fn after(k: int, i: Seq<InstrView>) -> Set<ArgView>
    decreases i.len() - k, 0int,
{
    if k < 0 || k >= i.len() {
        Set::empty()
    } else {
        before(k + 1, i)
    }
}

/// The jumps of a block from instruction `k` on, each with its position,
/// the last one first.
pub open spec fn jumps_of(i: Seq<InstrView>, k: int) -> Seq<(usize, Seq<char>)>
    decreases i.len() - k,
{
    if k < 0 || k >= i.len() {
        Seq::empty()
    } else {
        match i[k] {
            InstrView::Jmp(label) => jumps_of(i, k + 1).push((k as usize, label)),
            _ => jumps_of(i, k + 1),
        }
    }
}

/// The labels of a sequence of blocks, in order.
pub open spec fn block_labels(blocks: Seq<BlockView>) -> Seq<Seq<char>> {
    Seq::new(blocks.len(), |i: int| blocks[i].label)
}

/// What is live before instruction `k` of block `b` among `blocks`: for a
/// jump, what is live before the first instruction of the block it jumps
/// to (that block taken alone); for any other instruction, what is live
/// before it in its own block.
pub open spec fn live_at(blocks: Seq<BlockView>, b: int, k: int) -> Set<ArgView> {
    match blocks[b].instr[k] {
        InstrView::Jmp(label) => match find_name(block_labels(blocks), label, 0) {
            Some(t) => before(0, blocks[t].instr),
            None => before(k, blocks[b].instr),
        },
        _ => before(k, blocks[b].instr),
    }
}

/// Every jump goes to a block that is there and is not empty.
pub open spec fn jumps_resolve(blocks: Seq<BlockView>) -> bool {
    forall|b: int, k: int|
        0 <= b < blocks.len() && 0 <= k < blocks[b].instr.len() ==> (
        #[trigger] blocks[b].instr[k] matches InstrView::Jmp(label) ==> (find_name(
            block_labels(blocks),
            label,
            0,
        ) matches Some(t) && blocks[t].instr.len() > 0))
}

/// A set of operands.
pub struct LiveSet {
    items: Vec<Arg>,
}

/// The models of a sequence of operands, in order.
pub open spec fn args_view(v: Seq<Arg>) -> Seq<ArgView> {
    Seq::new(v.len(), |i: int| v[i]@)
}

impl View for LiveSet {
    type V = Set<ArgView>;

    closed spec fn view(&self) -> Set<ArgView> {
        args_view(self.items@).to_set()
    }
}

impl LiveSet {
    #[verifier::type_invariant]
    spec fn distinct(&self) -> bool {
        args_view(self.items@).no_duplicates()
    }

    /// The empty set.
    pub fn new() -> (r: LiveSet)
        ensures
            r@ == Set::<ArgView>::empty(),
    {
        let r = LiveSet { items: Vec::new() };
        assert(r@ =~= Set::empty());
        r
    }

    /// Whether `a` is in the set.
    pub fn contains(&self, a: &Arg) -> (r: bool)
        ensures
            r == self@.contains(a@),
    {
        self.position(a).is_some()
    }

    /// The number of operands in the set.
    pub fn len(&self) -> (r: usize)
        ensures
            r == self@.len(),
            self@.finite(),
    {
        proof {
            use_type_invariant(self);
            args_view(self.items@).unique_seq_to_set();
        }
        self.items.len()
    }

    /// The operands of the set, each once.
    pub fn to_vec(&self) -> (r: Vec<Arg>)
        ensures
            args_view(r@).to_set() == self@,
            args_view(r@).no_duplicates(),
    {
        self.copy_items()
    }

    fn copy_items(&self) -> (r: Vec<Arg>)
        ensures
            args_view(r@).to_set() == self@,
            args_view(r@).no_duplicates(),
            args_view(r@) == args_view(self.items@),
    {
        proof {
            use_type_invariant(self);
        }
        let mut out: Vec<Arg> = Vec::new();
        let mut i: usize = 0;
        while i < self.items.len()
            invariant
                i <= self.items@.len(),
                out@.len() == i,
                forall|j: int| 0 <= j < i ==> out@[j]@ == self.items@[j]@,
            decreases self.items.len() - i,
        {
            out.push(self.items[i].clone());
            i += 1;
        }
        assert(args_view(out@) =~= args_view(self.items@));
        out
    }

    fn position(&self, a: &Arg) -> (r: Option<usize>)
        ensures
            r is Some <==> self@.contains(a@),
            r matches Some(i) ==> i < self.items@.len() && self.items@[i as int]@ == a@,
    {
        let mut i: usize = 0;
        while i < self.items.len()
            invariant
                i <= self.items@.len(),
                forall|j: int| 0 <= j < i ==> args_view(self.items@)[j] != a@,
            decreases self.items.len() - i,
        {
            if arg_eq(&self.items[i], a) {
                assert(args_view(self.items@)[i as int] == a@);
                return Some(i);
            }
            i += 1;
        }
        None
    }

    /// Puts `a` into the set.
    pub fn insert(&mut self, a: Arg)
        ensures
            final(self)@ == old(self)@.insert(a@),
    {
        proof {
            use_type_invariant(&*self);
        }
        if self.position(&a).is_none() {
            let ghost before = args_view(self.items@);
            let mut items = self.copy_items();
            assert(args_view(items@) =~= before) by {
                assert(args_view(items@).len() == before.len());
            }
            items.push(a);
            let ghost now = args_view(items@);
            assert(now =~= before.push(a@));
            assert forall|x: ArgView| now.contains(x) <==> (before.contains(x) || x == a@) by {
                if now.contains(x) {
                    let i = choose|i: int| 0 <= i < now.len() && now[i] == x;
                    if i < before.len() {
                        assert(before[i] == x);
                    }
                }
                if before.contains(x) {
                    let i = choose|i: int| 0 <= i < before.len() && before[i] == x;
                    assert(now[i] == x);
                }
                if x == a@ {
                    assert(now[before.len() as int] == x);
                }
            }
            assert(now.to_set() =~= before.to_set().insert(a@));
            assert forall|i: int, j: int|
                0 <= i < now.len() && 0 <= j < now.len() && i != j implies now[i] != now[j] by {
                if i < before.len() && j < before.len() {
                } else if i < before.len() {
                    assert(before.contains(now[i]));
                } else {
                    assert(before.contains(now[j]));
                }
            }
            *self = LiveSet { items };
        } else {
            assert(self@ =~= self@.insert(a@));
        }
    }

    /// Takes `a` out of the set.
    pub fn remove(&mut self, a: &Arg)
        ensures
            final(self)@ == old(self)@.remove(a@),
    {
        proof {
            use_type_invariant(&*self);
        }
        match self.position(a) {
            Some(i) => {
                let ghost before = args_view(self.items@);
                let mut items = self.copy_items();
                assert(args_view(items@) =~= before) by {
                    assert(args_view(items@).len() == before.len());
                }
                items.remove(i);
                let ghost now = args_view(items@);
                assert(now =~= before.remove(i as int));
                assert forall|x: ArgView| now.contains(x) <==> (before.contains(x) && x != a@) by {
                    assert(before[i as int] == a@);
                    if now.contains(x) {
                        let j = choose|j: int| 0 <= j < now.len() && now[j] == x;
                        if j < i {
                            assert(before[j] == x);
                        } else {
                            assert(before[j + 1] == x);
                        }
                    }
                    if before.contains(x) && x != a@ {
                        let j = choose|j: int| 0 <= j < before.len() && before[j] == x;
                        if j < i {
                            assert(now[j] == x);
                        } else {
                            assert(now[j - 1] == x);
                        }
                    }
                }
                assert(now.to_set() =~= before.to_set().remove(a@));
                assert forall|p: int, q: int|
                    0 <= p < now.len() && 0 <= q < now.len() && p != q implies now[p] != now[q] by {
                    let pp = if p < i {
                        p
                    } else {
                        p + 1
                    };
                    let qq = if q < i {
                        q
                    } else {
                        q + 1
                    };
                    assert(before[pp] == now[p]);
                    assert(before[qq] == now[q]);
                }
                *self = LiveSet { items };
            },
            None => {
                assert(self@ =~= self@.remove(a@));
            },
        }
    }

    /// Puts `a` into the set where it is a register or a variable.
    fn insert_location(&mut self, a: &Arg)
        ensures
            final(self)@ == old(self)@.union(to_set(a@)),
    {
        match a {
            Arg::Reg(_) | Arg::Var(_) => {
                self.insert(a.clone());
                assert(final(self)@ =~= old(self)@.union(to_set(a@)));
            },
            _ => {
                assert(self@ =~= self@.union(to_set(a@)));
            },
        }
    }

    /// Takes `a` out of the set where it is a register or a variable.
    fn remove_location(&mut self, a: &Arg)
        ensures
            final(self)@ == old(self)@.difference(to_set(a@)),
    {
        match a {
            Arg::Reg(_) | Arg::Var(_) => {
                self.remove(a);
                assert(final(self)@ =~= old(self)@.difference(to_set(a@)));
            },
            _ => {
                assert(self@ =~= self@.difference(to_set(a@)));
            },
        }
    }
}

impl Clone for LiveSet {
    fn clone(&self) -> (r: Self)
        ensures
            r@ == self@,
    {
        let items = self.to_vec();
        LiveSet { items }
    }
}

pub type BlockLiveSet = Vec<LiveSet>;

pub type AllBlockLiveSet = Vec<(String, BlockLiveSet)>;

/// The live sets of blocks as plain values: for each block its label and,
/// for each of its instructions, what is live before it.
pub open spec fn live_sets_view(v: Seq<(String, Vec<LiveSet>)>) -> Seq<
    (Seq<char>, Seq<Set<ArgView>>),
> {
    Seq::new(v.len(), |b: int| (v[b].0@, Seq::new(v[b].1@.len(), |k: int| v[b].1@[k]@)))
}

/// The live sets of all blocks: for each block its label and, for each of
/// its instructions, what is live before it among the blocks.
pub open spec fn all_live(blocks: Seq<BlockView>) -> Seq<(Seq<char>, Seq<Set<ArgView>>)> {
    Seq::new(
        blocks.len(),
        |b: int| (blocks[b].label, Seq::new(blocks[b].instr.len(), |k: int| live_at(blocks, b, k))),
    )
}

/// What is live before instruction `k`, from what is live after it.
fn step_before(live_after: &LiveSet, instr: &Instr) -> (r: LiveSet)
    ensures
        r@ == live_after@.difference(written_to(instr@)).union(read_from(instr@)),
{
    let mut live = live_after.clone();
    match instr {
        Instr::Mov64(d, s) => {
            live.remove_location(d);
            live.insert_location(s);
        },
        Instr::Add64(d, s) => {
            live.remove_location(d);
            live.insert_location(d);
            live.insert_location(s);
            assert(live@ =~= live_after@.difference(written_to(instr@)).union(read_from(instr@)));
        },
        Instr::Neg64(d) => {
            live.remove_location(d);
            live.insert_location(d);
        },
        _ => {
            assert(live@ =~= live_after@.difference(written_to(instr@)).union(read_from(instr@)));
        },
    }
    live
}

/// The live sets of a block taken alone, one for each instruction, and the
/// block's jumps, each with its position, the last one first.
pub fn build_liveness_set_for_block(i: &Vec<Instr>) -> (r: (BlockLiveSet, Vec<(usize, String)>))
    ensures
        r.0@.len() == i@.len(),
        forall|k: int| 0 <= k < i@.len() ==> (#[trigger] r.0@[k])@ == before(k, instrs_view(i@)),
        r.1@.len() == jumps_of(instrs_view(i@), 0).len(),
        forall|j: int|
            0 <= j < r.1@.len() ==> (#[trigger] r.1@[j]).0 == jumps_of(instrs_view(i@), 0)[j].0
                && r.1@[j].1@ == jumps_of(instrs_view(i@), 0)[j].1,
{
    let ghost instrs = instrs_view(i@);
    let mut jmp_patches: Vec<(usize, String)> = Vec::new();
    let mut ls: Vec<LiveSet> = Vec::new();
    let mut k: usize = i.len();
    while k > 0
        invariant
            k <= i@.len(),
            instrs == instrs_view(i@),
            ls@.len() == i@.len() - k,
            forall|j: int| 0 <= j < ls@.len() ==> (#[trigger] ls@[j])@ == before(k + j, instrs),
            jmp_patches@.len() == jumps_of(instrs, k as int).len(),
            forall|j: int|
                0 <= j < jmp_patches@.len() ==> (#[trigger] jmp_patches@[j]).0 == jumps_of(
                    instrs,
                    k as int,
                )[j].0 && jmp_patches@[j].1@ == jumps_of(instrs, k as int)[j].1,
        decreases k,
    {
        k -= 1;
        if let Instr::Jmp(label) = &i[k] {
            jmp_patches.push((k, label.clone()));
        }
        let ghost old_len = ls@.len();
        let live = if ls.len() == 0 {
            let empty = LiveSet::new();
            step_before(&empty, &i[k])
        } else {
            step_before(&ls[0], &i[k])
        };
        assert(instrs[k as int] == i@[k as int]@);
        assert(after(k as int, instrs) == before(k + 1, instrs));
        proof {
            if old_len > 0 {
                assert(ls@[0]@ == before(k + 1 + 0, instrs));
            }
        }
        assert(live@ == before(k as int, instrs));
        let ghost old_ls = ls@;
        ls.insert(0, live);
        assert forall|j: int| 0 <= j < ls@.len() implies (#[trigger] ls@[j])@ == before(
            k + j,
            instrs,
        ) by {
            if j > 0 {
                assert(ls@[j] == old_ls[j - 1]);
            }
        }
    }
    (ls, jmp_patches)
}

/// Where the block labelled `label` stands.
pub fn find_block(blocks: &Vec<LabelBlockPair>, label: &String) -> (r: Option<usize>)
    ensures
        r is Some <==> find_name(block_labels(blocks_view(blocks@)), label@, 0) is Some,
        r matches Some(t) ==> t < blocks@.len() && find_name(
            block_labels(blocks_view(blocks@)),
            label@,
            0,
        ) == Some(t as int),
{
    let mut t: usize = 0;
    while t < blocks.len()
        invariant
            t <= blocks@.len(),
            find_name(block_labels(blocks_view(blocks@)), label@, 0) == find_name(
                block_labels(blocks_view(blocks@)),
                label@,
                t as int,
            ),
        decreases blocks.len() - t,
    {
        if blocks[t].label == *label {
            return Some(t);
        }
        t += 1;
    }
    None
}

/// Whether every jump goes to a block that is there and is not empty.
pub fn check_jumps_resolve(blocks: &Vec<LabelBlockPair>) -> (r: bool)
    ensures
        r == jumps_resolve(blocks_view(blocks@)),
{
    let ghost view = blocks_view(blocks@);
    let mut b: usize = 0;
    while b < blocks.len()
        invariant
            b <= blocks@.len(),
            view == blocks_view(blocks@),
            forall|c: int, k: int|
                0 <= c < b && 0 <= k < view[c].instr.len() ==> (#[trigger] view[c].instr[k] matches InstrView::Jmp(
                    label,
                ) ==> (find_name(block_labels(view), label, 0) matches Some(t)
                    && view[t].instr.len() > 0)),
        decreases blocks.len() - b,
    {
        let instrs = &blocks[b].block.instr;
        let mut k: usize = 0;
        while k < instrs.len()
            invariant
                b < blocks@.len(),
                k <= instrs@.len(),
                instrs == &blocks@[b as int].block.instr,
                view == blocks_view(blocks@),
                forall|c: int, k: int|
                    0 <= c < b && 0 <= k < view[c].instr.len() ==> (#[trigger] view[c].instr[k] matches InstrView::Jmp(
                        label,
                    ) ==> (find_name(block_labels(view), label, 0) matches Some(t)
                        && view[t].instr.len() > 0)),
                forall|j: int|
                    0 <= j < k ==> (#[trigger] view[b as int].instr[j] matches InstrView::Jmp(
                        label,
                    ) ==> (find_name(block_labels(view), label, 0) matches Some(t)
                        && view[t].instr.len() > 0)),
            decreases instrs.len() - k,
        {
            assert(view[b as int].instr[k as int] == instrs@[k as int]@);
            if let Instr::Jmp(label) = &instrs[k] {
                match find_block(blocks, label) {
                    Some(t) => {
                        if blocks[t].block.instr.len() == 0 {
                            return false;
                        }
                    },
                    None => {
                        return false;
                    },
                }
            }
            k += 1;
        }
        b += 1;
    }
    true
}

/// The live sets of every block, each under the block's label: those of
/// the block taken alone, but a jump has what is live before the first
/// instruction of the block it jumps to.
pub fn build_liveness_set(blocks: &Vec<LabelBlockPair>) -> (r: AllBlockLiveSet)
    requires
        jumps_resolve(blocks_view(blocks@)),
    ensures
        live_sets_view(r@) == all_live(blocks_view(blocks@)),
{
    let ghost view = blocks_view(blocks@);
    let mut alone: Vec<BlockLiveSet> = Vec::new();
    let mut b: usize = 0;
    while b < blocks.len()
        invariant
            b <= blocks@.len(),
            alone@.len() == b,
            view == blocks_view(blocks@),
            forall|c: int|
                0 <= c < b ==> (#[trigger] alone@[c])@.len() == blocks@[c].block.instr@.len(),
            forall|c: int, k: int|
                0 <= c < b && 0 <= k < blocks@[c].block.instr@.len() ==> (
                #[trigger] alone@[c]@[k])@ == before(k, view[c].instr),
        decreases blocks.len() - b,
    {
        let (block_live_set, _) = build_liveness_set_for_block(&blocks[b].block.instr);
        alone.push(block_live_set);
        b += 1;
    }
    let mut blocks_live_set: AllBlockLiveSet = Vec::new();
    let mut b: usize = 0;
    while b < blocks.len()
        invariant
            b <= blocks@.len(),
            alone@.len() == blocks@.len(),
            blocks_live_set@.len() == b,
            view == blocks_view(blocks@),
            jumps_resolve(view),
            forall|c: int|
                0 <= c < blocks@.len() ==> (#[trigger] alone@[c])@.len()
                    == blocks@[c].block.instr@.len(),
            forall|c: int, k: int|
                0 <= c < blocks@.len() && 0 <= k < blocks@[c].block.instr@.len() ==> (
                #[trigger] alone@[c]@[k])@ == before(k, view[c].instr),
            forall|c: int|
                0 <= c < b ==> (#[trigger] blocks_live_set@[c]).0@ == blocks@[c].label@
                    && blocks_live_set@[c].1@.len() == blocks@[c].block.instr@.len(),
            forall|c: int, k: int|
                0 <= c < b && 0 <= k < blocks@[c].block.instr@.len() ==> (
                #[trigger] blocks_live_set@[c].1@[k])@ == live_at(view, c, k),
        decreases blocks.len() - b,
    {
        let instrs = &blocks[b].block.instr;
        let mut patched: BlockLiveSet = Vec::new();
        let mut k: usize = 0;
        while k < instrs.len()
            invariant
                b < blocks@.len(),
                k <= instrs@.len(),
                instrs == &blocks@[b as int].block.instr,
                patched@.len() == k,
                alone@.len() == blocks@.len(),
                view == blocks_view(blocks@),
                jumps_resolve(view),
                forall|c: int|
                    0 <= c < blocks@.len() ==> (#[trigger] alone@[c])@.len()
                        == blocks@[c].block.instr@.len(),
                forall|c: int, k: int|
                    0 <= c < blocks@.len() && 0 <= k < blocks@[c].block.instr@.len() ==> (
                    #[trigger] alone@[c]@[k])@ == before(k, view[c].instr),
                forall|j: int| 0 <= j < k ==> (#[trigger] patched@[j])@ == live_at(view, b as int, j),
            decreases instrs.len() - k,
        {
            assert(view[b as int].instr[k as int] == instrs@[k as int]@);
            assert(alone@[b as int]@.len() == instrs@.len());
            let live = match &instrs[k] {
                Instr::Jmp(label) => {
                    match find_block(blocks, label) {
                        Some(t) => {
                            assert(view[t as int].instr.len() > 0);
                            assert(alone@[t as int]@.len() == blocks@[t as int].block.instr@.len());
                            assert(alone@[t as int]@[0]@ == before(0, view[t as int].instr));
                            alone[t][0].clone()
                        },
                        None => alone[b][k].clone(),
                    }
                },
                _ => {
                    assert(alone@[b as int]@[k as int]@ == before(k as int, view[b as int].instr));
                    alone[b][k].clone()
                },
            };
            patched.push(live);
            k += 1;
        }
        blocks_live_set.push((blocks[b].label.clone(), patched));
        b += 1;
    }
    assert(live_sets_view(blocks_live_set@) =~~= all_live(view)) by {
        assert forall|c: int| 0 <= c < view.len() implies live_sets_view(blocks_live_set@)[c]
            =~~= all_live(view)[c] by {
            assert(blocks_live_set@[c].0@ == blocks@[c].label@);
            assert(view[c].instr.len() == blocks@[c].block.instr@.len());
            assert forall|k: int| 0 <= k < view[c].instr.len() implies live_sets_view(
                blocks_live_set@,
            )[c].1[k] == all_live(view)[c].1[k] by {
                assert(blocks_live_set@[c].1@[k]@ == live_at(view, c, k));
            }
        }
    }
    blocks_live_set
}

/// What an instruction reads is live before it.
pub proof fn lemma_reads_live(i: Seq<InstrView>, k: int)
    requires
        0 <= k < i.len(),
    ensures
        read_from(i[k]).subset_of(before(k, i)),
{
}

/// Among all blocks too, what an instruction reads is live before it.
pub proof fn lemma_reads_live_at(blocks: Seq<BlockView>, b: int, k: int)
    requires
        0 <= b < blocks.len(),
        0 <= k < blocks[b].instr.len(),
    ensures
        read_from(blocks[b].instr[k]).subset_of(live_at(blocks, b, k)),
{
}

/// What an instruction writes and needs live was live before the
/// instruction in front of it, or is `rax`. This holds where no operand
/// other than `rax` is changed in place by the instruction right after it
/// was overwritten without being read.
pub proof fn lemma_written_live(i: Seq<InstrView>, k: int)
    requires
        1 <= k < i.len(),
        forall|x: ArgView|
            read_from(i[k]).contains(x) && written_to(i[k]).contains(x) && written_to(
                i[k - 1],
            ).contains(x) && !read_from(i[k - 1]).contains(x) ==> x == ArgView::Reg(
                crate::x64_def::Reg::Rax,
            ),
    ensures
        before(k, i).intersect(written_to(i[k])).subset_of(
            before(k - 1, i).insert(ArgView::Reg(crate::x64_def::Reg::Rax)),
        ),
{
    let rax = ArgView::Reg(crate::x64_def::Reg::Rax);
    assert(after(k - 1, i) == before(k, i));
    assert forall|x: ArgView| before(k, i).intersect(written_to(i[k])).contains(x) implies before(
        k - 1,
        i,
    ).insert(rax).contains(x) by {
        assert(read_from(i[k]).contains(x));
        if x != rax {
            if written_to(i[k - 1]).contains(x) {
                assert(read_from(i[k - 1]).contains(x));
            }
        }
    }
}

/// Among all blocks too, what an instruction writes and needs live was
/// live before the instruction in front of it, or is `rax`; this holds
/// under the same condition, where the instruction in front is no jump.
pub proof fn lemma_written_live_at(blocks: Seq<BlockView>, b: int, k: int)
    requires
        0 <= b < blocks.len(),
        1 <= k < blocks[b].instr.len(),
        !(blocks[b].instr[k - 1] is Jmp),
        forall|x: ArgView|
            read_from(blocks[b].instr[k]).contains(x) && written_to(blocks[b].instr[k]).contains(x)
                && written_to(blocks[b].instr[k - 1]).contains(x) && !read_from(
                blocks[b].instr[k - 1],
            ).contains(x) ==> x == ArgView::Reg(crate::x64_def::Reg::Rax),
    ensures
        live_at(blocks, b, k).intersect(written_to(blocks[b].instr[k])).subset_of(
            live_at(blocks, b, k - 1).insert(ArgView::Reg(crate::x64_def::Reg::Rax)),
        ),
{
    lemma_written_live(blocks[b].instr, k);
}

} // verus!
