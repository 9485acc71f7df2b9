//! Hierarchical timer wheel.
//!
//! The wheel has a least level of [TIME_LEAST_VALUE] slots, one for each coming tick, and
//! [TIME_LEVEL_COUNT] levels of [TIME_LEVEL_VALUE] slots for everything farther away. A node moves
//! from a level to a lower one when the time enters the block that its slot stands for.

use std::collections::VecDeque;

use vstd::multiset::Multiset;
use vstd::prelude::*;

verus! {

pub const TIME_LEAST_SHIFT: u64 = 14;

pub const TIME_LEAST_VALUE: u64 = 16384;

pub const TIME_LEAST_MASK: u64 = 16383;

pub const TIME_LEVEL_COUNT: u64 = 5;

pub const TIME_LEVEL_SHIFT: u64 = 10;

pub const TIME_LEVEL_VALUE: u64 = 1024;

pub const TIME_LEVEL_MASK: u64 = 1023;

/// A session waiting for the tick at which it expires.
pub struct Node<W> {
    pub expire: u64,
    pub session: W,
}

/// Nodes of one slot in the order in which they were queued.
pub struct List<W> {
    nodes: VecDeque<Node<W>>,
}

impl<W> View for List<W> {
    type V = Seq<Node<W>>;

    closed spec fn view(&self) -> Seq<Node<W>> {
        self.nodes@
    }
}

impl<W> List<W> {
    fn new() -> (list: Self)
        ensures
            list@ == Seq::<Node<W>>::empty(),
    {
        List { nodes: VecDeque::new() }
    }

    fn insert(&mut self, node: Node<W>)
        ensures
            final(self)@ == old(self)@.push(node),
    {
        self.nodes.push_back(node);
    }

    fn clear(&mut self) -> (nodes: VecDeque<Node<W>>)
        ensures
            nodes@ == old(self)@,
            final(self)@ == Seq::<Node<W>>::empty(),
    {
        let mut nodes: VecDeque<Node<W>> = VecDeque::new();
        core::mem::swap(&mut nodes, &mut self.nodes);
        nodes
    }
}

/// What a timer is to its callers: the current tick, and the nodes that wait.
#[verifier::ext_equal]
pub struct TimerView<W> {
    pub time: u64,
    pub pending: Multiset<Node<W>>,
}

/// The timer after its time moved to `time`: everything that expired has left.
pub open spec fn view_at<W>(timer: TimerView<W>, time: u64) -> TimerView<W> {
    TimerView { time, pending: timer.pending.filter(|node: Node<W>| node.expire > time) }
}

/// The nodes that leave the timer when its time moves to `time`.
pub open spec fn expired_at<W>(timer: TimerView<W>, time: u64) -> Multiset<Node<W>> {
    timer.pending.filter(|node: Node<W>| node.expire <= time)
}

/// Ticks that one slot of `level` covers, or all slots of the level below.
spec fn span(level: int) -> int {
    if level == 0 {
        0x4000
    } else if level == 1 {
        0x100_0000
    } else if level == 2 {
        0x4_0000_0000
    } else if level == 3 {
        0x1000_0000_0000
    } else if level == 4 {
        0x40_0000_0000_0000
    } else {
        0x1_0000_0000_0000_0000
    }
}

/// Number of slots over all levels.
spec fn slot_count() -> int {
    TIME_LEAST_VALUE + TIME_LEVEL_COUNT * TIME_LEVEL_VALUE
}

spec fn level_slot(level: int, index: int) -> int {
    TIME_LEAST_VALUE + level * TIME_LEVEL_VALUE + index
}

/// Whether a node of a level waits for a later block of that level than the one `time` is in.
spec fn in_level(time: u64, level: int, index: int, expire: u64) -> bool {
    &&& expire as int / span(level + 1) == time as int / span(level + 1)
    &&& expire as int / span(level) > time as int / span(level)
    &&& (expire as int / span(level)) % (TIME_LEVEL_VALUE as int) == index + 1
}

spec fn in_least(time: u64, index: int, expire: u64) -> bool {
    &&& expire < time + TIME_LEAST_VALUE
    &&& expire as int % (TIME_LEAST_VALUE as int) == index
}

/// Whether a node that expires at `expire` may be found in `slot` at `time`.
spec fn belongs(time: u64, slot: int, expire: u64) -> bool {
    if slot < TIME_LEAST_VALUE {
        in_least(time, slot, expire)
    } else {
        in_level(
            time,
            (slot - TIME_LEAST_VALUE) / (TIME_LEVEL_VALUE as int),
            (slot - TIME_LEAST_VALUE) % (TIME_LEVEL_VALUE as int),
            expire,
        )
    }
}

spec fn nodes_of<W>(slots: Seq<Seq<Node<W>>>) -> Multiset<Node<W>>
    decreases slots.len(),
{
    if slots.len() == 0 {
        Multiset::empty()
    } else {
        nodes_of(slots.drop_last()).add(slots.last().to_multiset())
    }
}

spec fn lists<W>(slots: Seq<List<W>>) -> Seq<Seq<Node<W>>> {
    Seq::new(slots.len(), |i: int| slots[i]@)
}

/// Replacing the contents of one slot replaces them in the whole.
proof fn lemma_nodes_of_update<W>(slots: Seq<Seq<Node<W>>>, i: int, list: Seq<Node<W>>)
    requires
        0 <= i < slots.len(),
    ensures
        nodes_of(slots.update(i, list)).add(slots[i].to_multiset()) == nodes_of(slots).add(
            list.to_multiset(),
        ),
    decreases slots.len(),
{
    let updated = slots.update(i, list);
    if i == slots.len() - 1 {
        assert(updated.drop_last() =~= slots.drop_last());
        assert(nodes_of(updated).add(slots[i].to_multiset()) =~= nodes_of(slots).add(
            list.to_multiset(),
        ));
    } else {
        lemma_nodes_of_update(slots.drop_last(), i, list);
        assert(updated.drop_last() =~= slots.drop_last().update(i, list));
        assert(updated.last() == slots.last());
        assert(nodes_of(updated).add(slots[i].to_multiset()) =~= nodes_of(
            updated.drop_last(),
        ).add(slots[i].to_multiset()).add(slots.last().to_multiset()));
        assert(nodes_of(slots).add(list.to_multiset()) =~= nodes_of(slots.drop_last()).add(
            list.to_multiset(),
        ).add(slots.last().to_multiset()));
    }
}

/// The whole holds a node if and only if some slot does.
proof fn lemma_nodes_of_contains<W>(slots: Seq<Seq<Node<W>>>, node: Node<W>)
    ensures
        nodes_of(slots).count(node) > 0 <==> exists|i: int|
            0 <= i < slots.len() && #[trigger] slots[i].contains(node),
    decreases slots.len(),
{
    broadcast use vstd::seq_lib::group_to_multiset_ensures;

    if slots.len() > 0 {
        let init = slots.drop_last();
        lemma_nodes_of_contains(init, node);
        if slots.last().contains(node) {
            assert(slots[slots.len() - 1].contains(node));
        }
        if exists|i: int| 0 <= i < init.len() && #[trigger] init[i].contains(node) {
            let i = choose|i: int| 0 <= i < init.len() && #[trigger] init[i].contains(node);
            assert(slots[i].contains(node));
        }
        if exists|i: int| 0 <= i < slots.len() && #[trigger] slots[i].contains(node) {
            let i = choose|i: int| 0 <= i < slots.len() && #[trigger] slots[i].contains(node);
            if i < init.len() {
                assert(init[i].contains(node));
            }
        }
    }
}

proof fn lemma_cancel<V>(a: Multiset<V>, b: Multiset<V>, m: Multiset<V>, v: V)
    requires
        a.add(m) == b.add(m.insert(v)),
    ensures
        a == b.insert(v),
{
    assert forall|x: V| a.count(x) == b.insert(v).count(x) by {
        assert(a.add(m).count(x) == b.add(m.insert(v)).count(x));
        assert(a.add(m).count(x) == a.count(x) + m.count(x));
        assert(b.add(m.insert(v)).count(x) == b.count(x) + m.insert(v).count(x));
        assert(m.insert(v).count(x) == m.count(x) + Multiset::singleton(v).count(x));
        assert(b.insert(v).count(x) == b.count(x) + Multiset::singleton(v).count(x));
    }
    assert(a =~= b.insert(v));
}

proof fn lemma_add_insert<V>(a: Multiset<V>, m: Multiset<V>, v: V)
    ensures
        a.add(m).insert(v) == a.add(m.insert(v)),
{
    assert(a.add(m).insert(v) =~= a.add(m.insert(v)));
}

proof fn lemma_nodes_of_empty<W>(slots: Seq<Seq<Node<W>>>)
    requires
        forall|i: int| 0 <= i < slots.len() ==> #[trigger] slots[i] == Seq::<Node<W>>::empty(),
    ensures
        nodes_of(slots) == Multiset::<Node<W>>::empty(),
    decreases slots.len(),
{
    broadcast use vstd::seq_lib::group_to_multiset_ensures;

    if slots.len() > 0 {
        assert(slots.last() == slots[slots.len() - 1]);
        lemma_nodes_of_empty(slots.drop_last());
        assert(Seq::<Node<W>>::empty().to_multiset() =~= Multiset::<Node<W>>::empty());
        assert(nodes_of(slots) =~= Multiset::<Node<W>>::empty());
    }
}

/// Two ticks agree above the low bits of a mask if and only if they are in the same block.
proof fn lemma_same_block(a: u64, b: u64)
    ensures
        (a | 0xff_ffff) == (b | 0xff_ffff) <==> a as int / span(1) == b as int / span(1),
        (a | 0x3_ffff_ffff) == (b | 0x3_ffff_ffff) <==> a as int / span(2) == b as int / span(2),
        (a | 0xfff_ffff_ffff) == (b | 0xfff_ffff_ffff) <==> a as int / span(3) == b as int / span(
            3,
        ),
        (a | 0x3f_ffff_ffff_ffff) == (b | 0x3f_ffff_ffff_ffff) <==> a as int / span(4) == b as int
            / span(4),
        (a | 0xffff_ffff_ffff_ffff) == (b | 0xffff_ffff_ffff_ffff),
        a as int / span(5) == b as int / span(5),
{
    assert((a | 0xff_ffff) == (b | 0xff_ffff) <==> a / 0x100_0000 == b / 0x100_0000)
        by (bit_vector);
    assert((a | 0x3_ffff_ffff) == (b | 0x3_ffff_ffff) <==> a / 0x4_0000_0000 == b
        / 0x4_0000_0000) by (bit_vector);
    assert((a | 0xfff_ffff_ffff) == (b | 0xfff_ffff_ffff) <==> a / 0x1000_0000_0000 == b
        / 0x1000_0000_0000) by (bit_vector);
    assert((a | 0x3f_ffff_ffff_ffff) == (b | 0x3f_ffff_ffff_ffff) <==> a / 0x40_0000_0000_0000
        == b / 0x40_0000_0000_0000) by (bit_vector);
    assert((a | 0xffff_ffff_ffff_ffff) == (b | 0xffff_ffff_ffff_ffff)) by (bit_vector);
}

/// Shifting out the blocks below a level, and masking out the levels above it, leaves the
/// position in the level.
proof fn lemma_shift_mask(a: u64)
    ensures
        a & TIME_LEAST_MASK == a % TIME_LEAST_VALUE,
        (a >> 14u64) & TIME_LEVEL_MASK == (a as int / span(0)) % 1024,
        (a >> 24u64) & TIME_LEVEL_MASK == (a as int / span(1)) % 1024,
        (a >> 34u64) & TIME_LEVEL_MASK == (a as int / span(2)) % 1024,
        (a >> 44u64) & TIME_LEVEL_MASK == (a as int / span(3)) % 1024,
        (a >> 54u64) & TIME_LEVEL_MASK == (a as int / span(4)) % 1024,
{
    assert(a & 16383 == a % 16384) by (bit_vector);
    assert((a >> 14u64) & 1023 == (a / 0x4000) % 1024) by (bit_vector);
    assert((a >> 24u64) & 1023 == (a / 0x100_0000) % 1024) by (bit_vector);
    assert((a >> 34u64) & 1023 == (a / 0x4_0000_0000) % 1024) by (bit_vector);
    assert((a >> 44u64) & 1023 == (a / 0x1000_0000_0000) % 1024) by (bit_vector);
    assert((a >> 54u64) & 1023 == (a / 0x40_0000_0000_0000) % 1024) by (bit_vector);
}

/// A tick that comes later, and in another block of the level but in the same block of the level
/// above, has a position in the level that is not the first.
proof fn lemma_position(time: u64, expire: u64, level: int)
    requires
        0 <= level < TIME_LEVEL_COUNT,
        time <= expire,
        expire as int / span(level) != time as int / span(level),
        expire as int / span(level + 1) == time as int / span(level + 1),
    ensures
        expire as int / span(level) > time as int / span(level),
        0 < (expire as int / span(level)) % 1024,
        in_level(time, level, (expire as int / span(level)) % 1024 - 1, expire),
{
    let a = expire as int / span(level);
    let b = time as int / span(level);
    if level == 0 {
    } else if level == 1 {
    } else if level == 2 {
    } else if level == 3 {
    } else {
        assert(level == 4);
    }
    assert(a > b);
    assert(a / 1024 == expire as int / span(level + 1));
    assert(b / 1024 == time as int / span(level + 1));
}

/// Blocks come in the order of their ticks.
proof fn lemma_block_order(a: u64, b: u64, level: int)
    requires
        0 <= level <= TIME_LEVEL_COUNT,
    ensures
        a <= b ==> a as int / span(level) <= b as int / span(level),
        a as int / span(level) > b as int / span(level) ==> a > b,
{
    if level == 0 {
        assert(a <= b ==> a as int / span(0) <= b as int / span(0));
    } else if level == 1 {
        assert(a <= b ==> a as int / span(1) <= b as int / span(1));
    } else if level == 2 {
        assert(a <= b ==> a as int / span(2) <= b as int / span(2));
    } else if level == 3 {
        assert(a <= b ==> a as int / span(3) <= b as int / span(3));
    } else if level == 4 {
        assert(a <= b ==> a as int / span(4) <= b as int / span(4));
    } else {
        assert(a <= b ==> a as int / span(5) <= b as int / span(5));
    }
}

proof fn lemma_block_between(a: u64, b: u64, c: u64, level: int)
    requires
        0 <= level <= TIME_LEVEL_COUNT,
        a <= b <= c,
    ensures
        a as int / span(level) <= b as int / span(level) <= c as int / span(level),
{
    lemma_block_order(a, b, level);
    lemma_block_order(b, c, level);
}

proof fn lemma_next_block(time: u64, next: u64, level: int)
    requires
        0 <= level <= TIME_LEVEL_COUNT,
        next == time + 1,
    ensures
        next as int / span(level) == time as int / span(level) || {
            &&& next as int / span(level) == time as int / span(level) + 1
            &&& next as int % span(level) == 0
        },
{
    if level == 0 {
        assert(next as int / span(0) == time as int / span(0) || next as int % span(0) == 0);
    } else if level == 1 {
        assert(next as int / span(1) == time as int / span(1) || next as int % span(1) == 0);
    } else if level == 2 {
        assert(next as int / span(2) == time as int / span(2) || next as int % span(2) == 0);
    } else if level == 3 {
        assert(next as int / span(3) == time as int / span(3) || next as int % span(3) == 0);
    } else if level == 4 {
        assert(next as int / span(4) == time as int / span(4) || next as int % span(4) == 0);
    } else {
        assert(next as int / span(5) == time as int / span(5) || next as int % span(5) == 0);
    }
}

/// Whether `time` is the first tick of the block that a slot stands for, and `expire` is in it.
spec fn enters(time: u64, level: int, index: int, expire: u64) -> bool {
    &&& time as int % span(level) == 0
    &&& time as int / span(level) == expire as int / span(level)
    &&& (time as int / span(level)) % 1024 == index + 1
}

/// When the next tick begins, a node of a level stays where it is, unless the tick is the first of
/// the block that the node's slot stands for.
proof fn lemma_level_tick(time: u64, next: u64, level: int, index: int, expire: u64)
    requires
        0 <= level < TIME_LEVEL_COUNT,
        0 <= index < TIME_LEVEL_VALUE,
        next == time + 1,
        in_level(time, level, index, expire),
    ensures
        next <= expire,
        in_level(next, level, index, expire) || enters(next, level, index, expire),
{
    assert(next <= expire) by {
        lemma_block_order(expire, time, level);
    }
    lemma_next_block(time, next, level);
    lemma_block_between(time, next, expire, level + 1);
    lemma_block_between(time, next, expire, level);
}

/// The first tick of a block of one level is the first of a block of every lower level too, and of
/// the first block there.
proof fn lemma_lower_levels(time: u64, level: int, lower: int)
    requires
        0 <= lower < level < TIME_LEVEL_COUNT,
        time as int % span(level) == 0,
    ensures
        time as int % span(lower) == 0,
        (time as int / span(lower)) % 1024 == 0,
    decreases level,
{
    let block = time as int / span(level);
    if level == 1 {
        assert(time as int == 0x4000 * (1024 * block));
        assert(time as int / span(0) == 1024 * block && time as int % span(0) == 0);
    } else if level == 2 {
        assert(time as int == 0x100_0000 * (1024 * block));
        assert(time as int / span(1) == 1024 * block && time as int % span(1) == 0);
    } else if level == 3 {
        assert(time as int == 0x4_0000_0000 * (1024 * block));
        assert(time as int / span(2) == 1024 * block && time as int % span(2) == 0);
    } else {
        assert(time as int == 0x1000_0000_0000 * (1024 * block));
        assert(time as int / span(3) == 1024 * block && time as int % span(3) == 0);
    }
    if lower < level - 1 {
        lemma_lower_levels(time, level - 1, lower);
    }
}

/// Whether every node is in a slot where it may be found at `time`.
spec fn arranged<W>(time: u64, slots: Seq<Seq<Node<W>>>) -> bool {
    &&& slots.len() == slot_count()
    &&& forall|slot: int, i: int|
        #![trigger slots[slot][i]]
        0 <= slot < slots.len() && 0 <= i < slots[slot].len() ==> {
            &&& time <= slots[slot][i].expire
            &&& belongs(time, slot, slots[slot][i].expire)
        }
}

/// Slot for a node that expires at `expire`.
fn slot_of(time: u64, expire: u64) -> (slot: usize)
    requires
        time <= expire,
    ensures
        slot < slot_count(),
        belongs(time, slot as int, expire),
{
    proof {
        lemma_shift_mask(expire);
        lemma_same_block(expire, time);
    }
    if expire - time < TIME_LEAST_VALUE {
        return (expire & TIME_LEAST_MASK) as usize;
    }
    let mut level: u64 = 0;
    let mut mask: u64 = TIME_LEAST_MASK;
    while level < TIME_LEVEL_COUNT
        invariant
            time <= expire,
            level < TIME_LEVEL_COUNT,
            mask == span(level as int) - 1,
            expire as int / span(level as int) != time as int / span(level as int),
        decreases TIME_LEVEL_COUNT - level,
    {
        proof {
            lemma_shift_mask(expire);
            lemma_same_block(expire, time);
            assert((0x3fffu64 << 10u64) | 0x3ff == 0xff_ffff) by (bit_vector);
            assert((0xff_ffffu64 << 10u64) | 0x3ff == 0x3_ffff_ffff) by (bit_vector);
            assert((0x3_ffff_ffffu64 << 10u64) | 0x3ff == 0xfff_ffff_ffff) by (bit_vector);
            assert((0xfff_ffff_ffffu64 << 10u64) | 0x3ff == 0x3f_ffff_ffff_ffff) by (bit_vector);
            assert((0x3f_ffff_ffff_ffffu64 << 10u64) | 0x3ff == 0xffff_ffff_ffff_ffff)
                by (bit_vector);
        }
        mask = (mask << TIME_LEVEL_SHIFT) | TIME_LEVEL_MASK;
        if (expire | mask) == (time | mask) {
            let shift: u64 = TIME_LEAST_SHIFT + level * TIME_LEVEL_SHIFT;
            let value: u64 = (expire >> shift) & TIME_LEVEL_MASK;
            proof {
                lemma_position(time, expire, level as int);
                assert(value == (expire as int / span(level as int)) % 1024);
                let index = value - 1;
                let slot = level_slot(level as int, index);
                assert((slot - TIME_LEAST_VALUE) / 1024 == level);
                assert((slot - TIME_LEAST_VALUE) % 1024 == index);
            }
            return (TIME_LEAST_VALUE + level * TIME_LEVEL_VALUE + (value - 1)) as usize;
        }
        level = level + 1;
    }
    0
}

/// Slot to move to lower levels at the first tick of a round of the least level.
fn cascade_slot(time: u64) -> (slot: usize)
    requires
        0 < time,
        time % TIME_LEAST_VALUE == 0,
    ensures
        slot < slot_count(),
        exists|level: int| #[trigger]
            cascades(time, level) && slot == level_slot(
                level,
                (time as int / span(level)) % 1024 - 1,
            ),
{
    let mut level: u64 = 0;
    while level < TIME_LEVEL_COUNT
        invariant
            0 < time,
            time % TIME_LEAST_VALUE == 0,
            level <= TIME_LEVEL_COUNT,
            forall|lower: int|
                0 <= lower < level ==> (#[trigger] span(lower)) > 0 && (time as int / span(lower))
                    % 1024 == 0,
        decreases TIME_LEVEL_COUNT - level,
    {
        let shift: u64 = TIME_LEAST_SHIFT + level * TIME_LEVEL_SHIFT;
        let value: u64 = (time >> shift) & TIME_LEVEL_MASK;
        proof {
            lemma_shift_mask(time);
            assert(value == (time as int / span(level as int)) % 1024);
        }
        if value != 0 {
            assert(cascades(time, level as int));
            return (TIME_LEAST_VALUE + level * TIME_LEVEL_VALUE + (value - 1)) as usize;
        }
        level = level + 1;
    }
    proof {
        assert(span(0) > 0 && span(1) > 0 && span(2) > 0 && span(3) > 0 && span(4) > 0);
        lemma_no_block(time);
    }
    0
}

/// Whether `level` is the lowest level in which `time` is not in the first block.
spec fn cascades(time: u64, level: int) -> bool {
    &&& 0 <= level < TIME_LEVEL_COUNT
    &&& (time as int / span(level)) % 1024 != 0
    &&& forall|lower: int|
        0 <= lower < level ==> (#[trigger] span(lower)) > 0 && (time as int / span(lower)) % 1024
            == 0
}

/// A tick in the first block of all levels is zero, or not the first of a round.
proof fn lemma_no_block(time: u64)
    requires
        time % TIME_LEAST_VALUE == 0,
        (time as int / span(0)) % 1024 == 0,
        (time as int / span(1)) % 1024 == 0,
        (time as int / span(2)) % 1024 == 0,
        (time as int / span(3)) % 1024 == 0,
        (time as int / span(4)) % 1024 == 0,
    ensures
        time == 0,
{
    assert(time as int / span(1) == (time as int / span(0)) / 1024);
    assert(time as int / span(2) == (time as int / span(1)) / 1024);
    assert(time as int / span(3) == (time as int / span(2)) / 1024);
    assert(time as int / span(4) == (time as int / span(3)) / 1024);
    assert(time as int / span(4) < 1024);
}

/// Slots in which nodes that begin to expire with the tick `next` are found, but for the least
/// level: the one that [cascade_slot] returns.
proof fn lemma_node_tick(time: u64, next: u64, slot: int, expire: u64)
    requires
        next == time + 1,
        0 <= slot < slot_count(),
        time < expire,
        belongs(time, slot, expire),
    ensures
        next <= expire,
        belongs(next, slot, expire) || {
            &&& next % TIME_LEAST_VALUE == 0
            &&& forall|level: int| #[trigger]
                cascades(next, level) ==> slot == level_slot(
                    level,
                    (next as int / span(level)) % 1024 - 1,
                )
        },
{
    if slot >= TIME_LEAST_VALUE {
        let level = (slot - TIME_LEAST_VALUE) / 1024;
        let index = (slot - TIME_LEAST_VALUE) % 1024;
        assert(0 <= level < TIME_LEVEL_COUNT);
        lemma_level_tick(time, next, level, index, expire);
        if !belongs(next, slot, expire) {
            assert(enters(next, level, index, expire));
            if level > 0 {
                lemma_lower_levels(next, level, 0);
            }
            assert(next as int % span(0) == 0);
            assert forall|l: int| #[trigger] cascades(next, l) implies slot == level_slot(
                l,
                (next as int / span(l)) % 1024 - 1,
            ) by {
                if l < level {
                    lemma_lower_levels(next, level, l);
                }
                if l > level {
                    assert(span(level) > 0);
                }
                assert(l == level);
            }
        }
    }
}

/// When the next tick begins, nodes are still where they may be found once the slot of
/// [cascade_slot] has been emptied.
proof fn lemma_arranged_tick<W>(
    time: u64,
    next: u64,
    slots: Seq<Seq<Node<W>>>,
    after: Seq<Seq<Node<W>>>,
)
    requires
        next == time + 1,
        arranged(time, slots),
        forall|slot: int, i: int|
            0 <= slot < slots.len() && 0 <= i < slots[slot].len() ==> time < (
            #[trigger] slots[slot][i]).expire,
        after == slots && next % TIME_LEAST_VALUE != 0 || exists|level: int| #[trigger]
            cascades(next, level) && after == slots.update(
                level_slot(level, (next as int / span(level)) % 1024 - 1),
                Seq::empty(),
            ),
    ensures
        arranged(next, after),
        forall|slot: int, i: int|
            0 <= slot < slots.len() && 0 <= i < slots[slot].len() ==> next <= (
            #[trigger] slots[slot][i]).expire,
{
    assert forall|slot: int, i: int|
        0 <= slot < slots.len() && 0 <= i < slots[slot].len() implies next <= (
    #[trigger] slots[slot][i]).expire by {
        lemma_node_tick(time, next, slot, slots[slot][i].expire);
    }
    assert forall|slot: int, i: int|
        #![trigger after[slot][i]]
        0 <= slot < after.len() && 0 <= i < after[slot].len() implies next <= after[slot][i].expire
        && belongs(next, slot, after[slot][i].expire) by {
        assert(after[slot] == slots[slot]);
        lemma_node_tick(time, next, slot, slots[slot][i].expire);
    }
}

/// Moving the time splits what waits by when it expires.
proof fn lemma_split<W>(
    timer: TimerView<W>,
    time: u64,
    expired: Multiset<Node<W>>,
    pending: Multiset<Node<W>>,
)
    requires
        timer.pending == pending.add(expired),
        forall|node: Node<W>| #[trigger] expired.count(node) > 0 ==> node.expire <= time,
        forall|node: Node<W>| #[trigger] pending.count(node) > 0 ==> node.expire > time,
    ensures
        expired == expired_at(timer, time),
        pending == view_at(timer, time).pending,
{
    assert forall|node: Node<W>|
        expired.count(node) == expired_at(timer, time).count(node) && pending.count(node)
            == view_at(timer, time).pending.count(node) by {
        assert(timer.pending.count(node) == pending.count(node) + expired.count(node));
    }
    assert(expired =~= expired_at(timer, time));
    assert(pending =~= view_at(timer, time).pending);
}

/// What leaves and what stays make up what waited before.
proof fn lemma_join<W>(timer: TimerView<W>, time: u64)
    ensures
        timer.pending == view_at(timer, time).pending.add(expired_at(timer, time)),
{
    assert(timer.pending =~= view_at(timer, time).pending.add(expired_at(timer, time)));
}

/// The slot of the current tick holds what expires now, the others what expires later.
proof fn lemma_expired<W>(
    time: u64,
    slots: Seq<Seq<Node<W>>>,
    index: int,
    after: Seq<Seq<Node<W>>>,
    expired: Seq<Node<W>>,
)
    requires
        arranged(time, slots),
        index == time % TIME_LEAST_VALUE,
        after == slots.update(index, Seq::empty()),
        expired == slots[index],
    ensures
        arranged(time, after),
        forall|node: Node<W>| #[trigger]
            expired.to_multiset().count(node) > 0 ==> node.expire == time,
        forall|node: Node<W>| #[trigger] nodes_of(after).count(node) > 0 ==> node.expire > time,
{
    broadcast use vstd::seq_lib::group_to_multiset_ensures;

    assert forall|slot: int, i: int|
        #![trigger after[slot][i]]
        0 <= slot < after.len() && 0 <= i < after[slot].len() implies {
        &&& after[slot][i].expire > time
        &&& belongs(time, slot, after[slot][i].expire)
    } by {
        let expire = after[slot][i].expire;
        assert(slots[slot][i].expire == expire);
        if slot >= TIME_LEAST_VALUE {
            let level = (slot - TIME_LEAST_VALUE) / 1024;
            lemma_block_order(expire, time, level);
        }
    }
    assert forall|node: Node<W>| #[trigger]
        expired.to_multiset().count(node) > 0 implies node.expire == time by {
        assert(expired.contains(node));
        let i = choose|i: int| 0 <= i < expired.len() && expired[i] == node;
        assert(slots[index][i] == node);
    }
    assert forall|node: Node<W>| #[trigger] nodes_of(after).count(node) > 0 implies node.expire
        > time by {
        lemma_nodes_of_contains(after, node);
        let slot = choose|slot: int|
            0 <= slot < after.len() && #[trigger] after[slot].contains(node);
        let i = choose|i: int| 0 <= i < after[slot].len() && after[slot][i] == node;
        assert(after[slot][i] == node);
    }
}

/// Timer wakes sessions at the tick at which they expire.
pub struct Timer<W> {
    time: u64,
    slots: Vec<List<W>>,
}

impl<W> View for Timer<W> {
    type V = TimerView<W>;

    closed spec fn view(&self) -> TimerView<W> {
        TimerView { time: self.time, pending: nodes_of(lists(self.slots@)) }
    }
}

impl<W> Timer<W> {
    /// Every waiting node is in its slot, and none of them is overdue.
    pub closed spec fn wf(&self) -> bool {
        &&& arranged(self.time, lists(self.slots@))
        &&& forall|node: Node<W>| #[trigger] self@.pending.count(node) > 0 ==> node.expire > self.time
    }

    /// Constructs a timer at tick zero in which nothing waits.
    pub fn new() -> (timer: Self)
        ensures
            timer.wf(),
            timer@ == (TimerView { time: 0, pending: Multiset::<Node<W>>::empty() }),
    {
        let mut slots: Vec<List<W>> = Vec::new();
        let count: u64 = TIME_LEAST_VALUE + TIME_LEVEL_COUNT * TIME_LEVEL_VALUE;
        let mut i: u64 = 0;
        while i < count
            invariant
                count == slot_count(),
                i <= count,
                slots@.len() == i,
                forall|slot: int|
                    0 <= slot < slots@.len() ==> #[trigger] slots@[slot]@ == Seq::<
                        Node<W>,
                    >::empty(),
            decreases count - i,
        {
            slots.push(List::new());
            i = i + 1;
        }
        let timer = Timer { time: 0, slots };
        proof {
            lemma_nodes_of_empty(lists(timer.slots@));
        }
        timer
    }

    /// Returns the current tick.
    pub fn time(&self) -> (time: u64)
        ensures
            time == self@.time,
    {
        self.time
    }

    fn queue_node(&mut self, node: Node<W>)
        requires
            arranged(old(self).time, lists(old(self).slots@)),
            old(self).time <= node.expire,
        ensures
            arranged(final(self).time, lists(final(self).slots@)),
            final(self)@.time == old(self)@.time,
            final(self)@.pending == old(self)@.pending.insert(node),
    {
        broadcast use vstd::seq_lib::group_to_multiset_ensures;

        let slot: usize = slot_of(self.time, node.expire);
        let ghost before = lists(self.slots@);
        self.slots[slot].insert(node);
        proof {
            let list = before[slot as int].push(node);
            let after = lists(self.slots@);
            assert(after =~= before.update(slot as int, list));
            lemma_nodes_of_update(before, slot as int, list);
            assert(list.to_multiset() =~= before[slot as int].to_multiset().insert(node));
            lemma_cancel(
                nodes_of(after),
                nodes_of(before),
                before[slot as int].to_multiset(),
                node,
            );
        }
    }

    fn queue_list(&mut self, list: VecDeque<Node<W>>)
        requires
            arranged(old(self).time, lists(old(self).slots@)),
            forall|i: int| 0 <= i < list@.len() ==> old(self).time <= (#[trigger] list@[i]).expire,
        ensures
            arranged(final(self).time, lists(final(self).slots@)),
            final(self)@.time == old(self)@.time,
            final(self)@.pending == old(self)@.pending.add(list@.to_multiset()),
    {
        broadcast use vstd::seq_lib::group_to_multiset_ensures;

        let ghost all = list@;
        let ghost mut done = 0int;
        let mut list = list;
        assert(all.skip(0) =~= all);
        assert(all.take(0) =~= Seq::<Node<W>>::empty());
        assert(self@.pending =~= self@.pending.add(Seq::<Node<W>>::empty().to_multiset()));
        while list.len() > 0
            invariant
                0 <= done <= all.len(),
                list@ == all.skip(done),
                arranged(self.time, lists(self.slots@)),
                self@.time == old(self)@.time,
                forall|i: int| 0 <= i < all.len() ==> old(self).time <= (#[trigger] all[i]).expire,
                self@.pending == old(self)@.pending.add(all.take(done).to_multiset()),
            decreases list@.len(),
        {
            let node = list.pop_front().unwrap();
            assert(node == all[done]);
            self.queue_node(node);
            proof {
                assert(all.take(done + 1) =~= all.take(done).push(all[done]));
                lemma_add_insert(old(self)@.pending, all.take(done).to_multiset(), node);
                vstd::seq_lib::to_multiset_build(all.take(done), node);
                done = done + 1;
                assert(list@ =~= all.skip(done));
            }
        }
        assert(all.take(done) =~= all);
    }

    /// Queues a session to wake after the given number of ticks.
    pub fn timeout(&mut self, timeout: u64, session: W)
        requires
            old(self).wf(),
            timeout > 0,
            old(self)@.time + timeout <= u64::MAX,
        ensures
            final(self).wf(),
            final(self)@ == (TimerView {
                time: old(self)@.time,
                pending: old(self)@.pending.insert(
                    Node { expire: (old(self)@.time + timeout) as u64, session },
                ),
            }),
    {
        self.queue_node(Node { expire: self.time + timeout, session });
    }

    /// Moves to the next tick, and returns the nodes that expire with it.
    pub fn tick(&mut self) -> (expired: VecDeque<Node<W>>)
        requires
            old(self).wf(),
            old(self)@.time < u64::MAX,
        ensures
            final(self).wf(),
            final(self)@ == view_at(old(self)@, (old(self)@.time + 1) as u64),
            expired@.to_multiset() == expired_at(old(self)@, (old(self)@.time + 1) as u64),
    {
        broadcast use vstd::seq_lib::group_to_multiset_ensures;

        let ghost time = self.time;
        let ghost slots = lists(self.slots@);
        let ghost pending = self@.pending;
        proof {
            assert forall|slot: int, i: int|
                0 <= slot < slots.len() && 0 <= i < slots[slot].len() implies time < (
            #[trigger] slots[slot][i]).expire by {
                let node = slots[slot][i];
                assert(slots[slot].contains(node));
                lemma_nodes_of_contains(slots, node);
                assert(self@.pending.count(node) > 0);
            }
            lemma_shift_mask((time + 1) as u64);
        }
        self.time = self.time + 1;
        if self.time & TIME_LEAST_MASK == 0 {
            let slot: usize = cascade_slot(self.time);
            let list = self.slots[slot].clear();
            proof {
                let after = lists(self.slots@);
                assert(after =~= slots.update(slot as int, Seq::empty()));
                lemma_arranged_tick(time, self.time, slots, after);
                lemma_nodes_of_update(slots, slot as int, Seq::empty());
                assert(Seq::<Node<W>>::empty().to_multiset() =~= Multiset::<Node<W>>::empty());
                assert(nodes_of(after).add(list@.to_multiset()) =~= pending);
            }
            self.queue_list(list);
        } else {
            proof {
                lemma_arranged_tick(time, self.time, slots, slots);
            }
        }
        let ghost slots = lists(self.slots@);
        assert(nodes_of(slots) == pending);
        let index: usize = (self.time & TIME_LEAST_MASK) as usize;
        let expired = self.slots[index].clear();
        proof {
            let after = lists(self.slots@);
            assert(after =~= slots.update(index as int, Seq::empty()));
            lemma_nodes_of_update(slots, index as int, Seq::empty());
            assert(Seq::<Node<W>>::empty().to_multiset() =~= Multiset::<Node<W>>::empty());
            lemma_expired(self.time, slots, index as int, after, expired@);
            assert(nodes_of(after).add(expired@.to_multiset()) =~= pending);
            lemma_split(old(self)@, self.time, expired@.to_multiset(), nodes_of(after));
        }
        expired
    }

    /// Moves to the given tick, unless it has passed, and returns the nodes that have expired with
    /// it, the earliest first.
    pub fn update(&mut self, time: u64) -> (expired: VecDeque<Node<W>>)
        requires
            old(self).wf(),
        ensures
            final(self).wf(),
            time <= old(self)@.time ==> final(self)@ == old(self)@ && expired@.len() == 0,
            time > old(self)@.time ==> {
                &&& final(self)@ == view_at(old(self)@, time)
                &&& expired@.to_multiset() == expired_at(old(self)@, time)
            },
            forall|i: int, j: int|
                0 <= i <= j < expired@.len() ==> (#[trigger] expired@[i]).expire <= (
                #[trigger] expired@[j]).expire,
    {
        broadcast use vstd::seq_lib::group_to_multiset_ensures;

        let mut expired: VecDeque<Node<W>> = VecDeque::new();
        assert(expired@.to_multiset() =~= Multiset::<Node<W>>::empty());
        assert(self@.pending.add(expired@.to_multiset()) =~= self@.pending);
        while self.time < time
            invariant
                self.wf(),
                old(self).wf(),
                old(self)@.time <= self@.time,
                self@.time <= time || self@ == old(self)@,
                old(self)@.pending == self@.pending.add(expired@.to_multiset()),
                forall|i: int| 0 <= i < expired@.len() ==> (#[trigger] expired@[i]).expire <= self.time,
                self@.time == old(self)@.time ==> expired@.len() == 0 && self@ == old(self)@,
                forall|i: int, j: int|
                    0 <= i <= j < expired@.len() ==> (#[trigger] expired@[i]).expire <= (
                    #[trigger] expired@[j]).expire,
            decreases time - self.time,
        {
            let ghost before = self@;
            let ghost earlier = expired@;
            let mut list = self.tick();
            let ghost now = list@;
            proof {
                assert forall|i: int| 0 <= i < now.len() implies (#[trigger] now[i]).expire
                    == self.time by {
                    assert(now.contains(now[i]));
                    vstd::seq_lib::to_multiset_contains(now, now[i]);
                    assert(before.pending.count(now[i]) > 0);
                }
                assert forall|i: int| 0 <= i < earlier.len() implies (#[trigger]
                earlier[i]).expire < self.time by {}
            }
            expired.append(&mut list);
            proof {
                assert(expired@ =~= earlier + now);
                vstd::seq_lib::lemma_multiset_commutative(earlier, now);
                lemma_join(before, self@.time);
                assert(old(self)@.pending =~= self@.pending.add(expired@.to_multiset()));
            }
        }
        proof {
            assert forall|node: Node<W>| #[trigger]
                expired@.to_multiset().count(node) > 0 implies node.expire <= self.time by {
                assert(expired@.contains(node));
            }
            lemma_split(old(self)@, self.time, expired@.to_multiset(), self@.pending);
        }
        expired
    }
}

/// A session queued for some ticks is not woken by moving to an earlier tick, and is woken by
/// moving to the last of them or to a later one.
pub proof fn law_timeout_wakes_in_time<W>(
    timer: TimerView<W>,
    timeout: u64,
    session: W,
    time: u64,
)
    requires
        timeout > 0,
        timer.time + timeout <= u64::MAX,
    ensures
        ({
            let node = Node { expire: (timer.time + timeout) as u64, session };
            let queued = TimerView { time: timer.time, pending: timer.pending.insert(node) };
            if time < timer.time + timeout {
                expired_at(queued, time).count(node) == 0 && view_at(queued, time).pending.count(
                    node,
                ) == timer.pending.count(node) + 1
            } else {
                expired_at(queued, time).count(node) == timer.pending.count(node) + 1 && view_at(
                    queued,
                    time,
                ).pending.count(node) == 0
            }
        }),
{
}

/// Moving the time in two steps wakes what moving it in one step wakes, and leaves the same
/// sessions waiting.
pub proof fn law_update_in_steps<W>(timer: TimerView<W>, middle: u64, time: u64)
    requires
        middle <= time,
    ensures
        view_at(view_at(timer, middle), time) == view_at(timer, time),
        expired_at(timer, middle).add(expired_at(view_at(timer, middle), time)) == expired_at(
            timer,
            time,
        ),
{
    assert(view_at(view_at(timer, middle), time) =~= view_at(timer, time));
    assert(expired_at(timer, middle).add(expired_at(view_at(timer, middle), time)) =~= expired_at(
        timer,
        time,
    ));
}

/// Nothing that waits is overdue.
pub proof fn law_nothing_overdue<W>(timer: Timer<W>, node: Node<W>)
    requires
        timer.wf(),
        timer@.pending.count(node) > 0,
    ensures
        node.expire > timer@.time,
{
}

/// A timer begins at tick zero, and nothing waits. A session that is queued waits, with the others,
/// for the tick that comes so many ticks from now.
pub proof fn law_timeout<W>(
    new: Timer<W>,
    timer: &mut Timer<W>,
    timeout: u64,
    session: W,
    node: Node<W>,
    time: (u64, u64),
)
    requires
        call_ensures(Timer::<W>::new, (), new),
        call_ensures(Timer::<W>::time, (old(timer),), time.0),
        time.0 + timeout <= u64::MAX,
        call_ensures(Timer::<W>::timeout, (timer, timeout, session), ()),
        call_ensures(Timer::<W>::time, (final(timer),), time.1),
    ensures
        new@.time == 0,
        new@.pending.count(node) == 0,
        time.1 == time.0,
        time.1 == final(timer)@.time,
        node.session == session && node.expire == time.0 + timeout
            ==> final(timer)@.pending.count(node) == old(timer)@.pending.count(node) + 1,
        node.session != session || node.expire != time.0 + timeout
            ==> final(timer)@.pending.count(node) == old(timer)@.pending.count(node),
{
}

/// One tick moves the time by one. Every session that waited for it or for an earlier one comes out
/// as often as it waited, and every other waits on.
pub proof fn law_tick<W>(timer: &mut Timer<W>, expired: VecDeque<Node<W>>, node: Node<W>)
    requires
        old(timer)@.time < u64::MAX,
        call_ensures(Timer::<W>::tick, (timer,), expired),
    ensures
        final(timer)@.time == old(timer)@.time + 1,
        node.expire <= final(timer)@.time ==> {
            &&& expired@.to_multiset().count(node) == old(timer)@.pending.count(node)
            &&& final(timer)@.pending.count(node) == 0
        },
        node.expire > final(timer)@.time ==> {
            &&& expired@.to_multiset().count(node) == 0
            &&& final(timer)@.pending.count(node) == old(timer)@.pending.count(node)
        },
{
}

/// The time never goes back. Where it moves on, every session that waited for a tick up to the new
/// one comes out as often as it waited, earlier ones first, and every other waits on.
pub proof fn law_update<W>(
    timer: &mut Timer<W>,
    time: u64,
    expired: VecDeque<Node<W>>,
    node: Node<W>,
    i: int,
    j: int,
)
    requires
        call_ensures(Timer::<W>::update, (timer, time), expired),
    ensures
        time <= old(timer)@.time ==> {
            &&& final(timer)@.time == old(timer)@.time
            &&& final(timer)@.pending.count(node) == old(timer)@.pending.count(node)
            &&& expired@.len() == 0
        },
        time > old(timer)@.time ==> final(timer)@.time == time,
        time > old(timer)@.time && node.expire <= time ==> {
            &&& expired@.to_multiset().count(node) == old(timer)@.pending.count(node)
            &&& final(timer)@.pending.count(node) == 0
        },
        time > old(timer)@.time && node.expire > time ==> {
            &&& expired@.to_multiset().count(node) == 0
            &&& final(timer)@.pending.count(node) == old(timer)@.pending.count(node)
        },
        0 <= i <= j < expired@.len() ==> expired@[i].expire <= expired@[j].expire,
{
}

} // verus!
