use vstd::prelude::*;
use crate::types::Move;

verus! {

/// The kind of bound a stored score is.
#[derive(Copy, Clone, Debug, PartialEq, Eq, Structural)]
pub enum NodeType {
    Exact,
    Alpha,
    Beta,
    NoEntry,
}

/// The node type a stored code names: 0, 1, 2 for exact, upper and lower
/// bounds, anything else for none.
pub open spec fn node_type_of(v: u8) -> NodeType {
    if v == 0 {
        NodeType::Exact
    } else if v == 1 {
        NodeType::Alpha
    } else if v == 2 {
        NodeType::Beta
    } else {
        NodeType::NoEntry
    }
}

/// The code of a node type.
pub open spec fn node_code(t: NodeType) -> u8 {
    match t {
        NodeType::Exact => 0,
        NodeType::Alpha => 1,
        NodeType::Beta => 2,
        NodeType::NoEntry => 3,
    }
}

impl NodeType {
    pub fn from_u8(v: u8) -> (t: NodeType)
        ensures
            t == node_type_of(v),
    {
        match v {
            0 => NodeType::Exact,
            1 => NodeType::Alpha,
            2 => NodeType::Beta,
            _ => NodeType::NoEntry,
        }
    }

    pub fn to_u8(self) -> (v: u8)
        ensures
            v == node_code(self),
    {
        match self {
            NodeType::Exact => 0,
            NodeType::Alpha => 1,
            NodeType::Beta => 2,
            NodeType::NoEntry => 3,
        }
    }
}

/// One entry of the table as the search reads it.
pub struct TTEntry {
    pub key: u64,
    pub score: i32,
    pub best_move: Move,
    pub depth: u8,
    pub node_type: NodeType,
    pub is_pv: bool,
}

/// The data word of an entry: score in bits 0-31, move in bits 32-47,
/// depth in bits 48-55, node type in bits 56-62, the PV flag in bit 63.
pub open spec fn spec_pack(score: i32, best_move: Move, depth: u8, node_type: NodeType, is_pv: bool) -> u64 {
    ((score as u32) as u64) | ((best_move.0 as u64) << 32u64) | ((depth as u64) << 48u64) | (((node_code(node_type)
        & 0x7F) as u64) << 56u64) | (if is_pv {
        1u64 << 63u64
    } else {
        0u64
    })
}

/// The entry a key and a data word stand for.
pub open spec fn spec_unpack(key: u64, data: u64) -> TTEntry {
    TTEntry {
        key,
        score: (data & 0xFFFFFFFF) as i32,
        best_move: Move(((data >> 32u64) & 0xFFFF) as u16),
        depth: ((data >> 48u64) & 0xFF) as u8,
        node_type: node_type_of(((data >> 56u64) & 0x7F) as u8),
        is_pv: (data & (1u64 << 63u64)) != 0,
    }
}

proof fn pack_facts(score: i32, mv: u16, depth: u8, nt: u8, pv: bool)
    by (bit_vector)
    requires
        nt < 4,
    ensures
        ({
            let data = ((score as u32) as u64) | ((mv as u64) << 32u64) | ((depth as u64) << 48u64) | (((nt & 0x7F)
                as u64) << 56u64) | (if pv {
                1u64 << 63u64
            } else {
                0u64
            });
            &&& (data & 0xFFFFFFFF) as i32 == score
            &&& ((data >> 32u64) & 0xFFFF) as u16 == mv
            &&& ((data >> 48u64) & 0xFF) as u8 == depth
            &&& ((data >> 56u64) & 0x7F) as u8 == nt
            &&& ((data & (1u64 << 63u64)) != 0) == pv
        }),
{
}

/// Reading back a packed entry gives the fields that went in.
pub proof fn lemma_pack_roundtrip(key: u64, score: i32, best_move: Move, depth: u8, node_type: NodeType, is_pv: bool)
    ensures
        spec_unpack(key, spec_pack(score, best_move, depth, node_type, is_pv)) == (TTEntry {
            key,
            score,
            best_move,
            depth,
            node_type,
            is_pv,
        }),
{
    pack_facts(score, best_move.0, depth, node_code(node_type), is_pv);
}

impl TTEntry {
    pub fn empty() -> (e: TTEntry)
        ensures
            e == (TTEntry { key: 0, score: 0, best_move: Move(0), depth: 0, node_type: NodeType::NoEntry, is_pv: false }),
    {
        TTEntry { key: 0, score: 0, best_move: Move(0), depth: 0, node_type: NodeType::NoEntry, is_pv: false }
    }

    fn pack(score: i32, best_move: Move, depth: u8, node_type: NodeType, is_pv: bool) -> (d: u64)
        ensures
            d == spec_pack(score, best_move, depth, node_type, is_pv),
    {
        let sc = (score as u32) as u64;
        let mv = (best_move.0 as u64) << 32u64;
        let dp = (depth as u64) << 48u64;
        let nt = ((node_type.to_u8() & 0x7F) as u64) << 56u64;
        let pv = if is_pv {
            1u64 << 63u64
        } else {
            0
        };
        sc | mv | dp | nt | pv
    }

    fn unpack(key: u64, data: u64) -> (e: TTEntry)
        ensures
            e == spec_unpack(key, data),
    {
        let score = (data & 0xFFFFFFFF) as i32;
        let best_move = Move(((data >> 32u64) & 0xFFFF) as u16);
        let depth = ((data >> 48u64) & 0xFF) as u8;
        let node_type = NodeType::from_u8(((data >> 56u64) & 0x7F) as u8);
        let is_pv = (data & (1u64 << 63u64)) != 0;
        TTEntry { key, score, best_move, depth, node_type, is_pv }
    }
}

/// A table of `mask + 1` slots, each a key word and a data word; a key is
/// kept in the slot its low bits select.
pub struct TranspositionTable {
    pub keys: Vec<u64>,
    pub data: Vec<u64>,
    pub mask: usize,
}

/// The slot of `key` in a table with mask `mask`.
pub open spec fn slot(mask: usize, key: u64) -> int {
    ((key as usize) & mask) as int
}

proof fn lemma_slot_bound(key: u64, mask: usize)
    ensures
        (key as usize) & mask <= mask,
{
    let k = key as usize;
    assert(k & mask <= mask) by (bit_vector);
}

/// The largest power of two not above `n`, and 1 for 0.
pub open spec fn floor_pow2(n: nat) -> nat
    decreases n,
{
    if n < 2 {
        1
    } else {
        2 * floor_pow2(n / 2)
    }
}

/// Number of slots holding an entry among the first `n`: a nonzero key with
/// a node-type byte other than 3.
pub open spec fn used_slots(keys: Seq<u64>, data: Seq<u64>, n: int) -> int
    decreases n,
{
    if n <= 0 {
        0
    } else {
        used_slots(keys, data, n - 1) + (if keys[n - 1] != 0 && (data[n - 1] >> 56u64) & 0xFF != 3 {
            1int
        } else {
            0
        })
    }
}

proof fn lemma_used_slots_bound(keys: Seq<u64>, data: Seq<u64>, n: int)
    requires
        n >= 0,
    ensures
        0 <= used_slots(keys, data, n) <= n,
    decreases n,
{
    if n > 0 {
        lemma_used_slots_bound(keys, data, n - 1);
    }
}

impl TranspositionTable {
    pub open spec fn wf(&self) -> bool {
        &&& self.keys@.len() == self.mask + 1
        &&& self.data@.len() == self.mask + 1
    }

    /// A table of `mb` megabytes: the largest power of two of 16-byte slots
    /// that fits, at least one, every slot empty.
    pub fn new(mb: usize) -> (t: TranspositionTable)
        requires
            mb * 1024 * 1024 <= usize::MAX,
        ensures
            t.wf(),
            t.mask + 1 == floor_pow2((mb * 1024 * 1024 / 16) as nat),
            forall|i: int| 0 <= i <= t.mask ==> t.keys@[i] == 0 && t.data@[i] == 0,
    {
        let desired_entries = (mb * 1024 * 1024) / 16;
        let mut num_entries: usize = 1;
        let mut rest: usize = desired_entries;
        while rest >= 2
            invariant
                num_entries * floor_pow2(rest as nat) == floor_pow2(desired_entries as nat),
                num_entries * rest <= desired_entries,
                num_entries >= 1,
                desired_entries <= usize::MAX / 16,
            decreases rest,
        {
            proof {
                assert(floor_pow2(rest as nat) == 2 * floor_pow2((rest / 2) as nat));
                assert(num_entries * 2 * (rest / 2) <= num_entries * rest) by (nonlinear_arith)
                    requires
                        num_entries >= 1,
                        rest >= 2,
                ;
                assert(num_entries * 2 <= num_entries * rest) by (nonlinear_arith)
                    requires
                        num_entries >= 1,
                        rest >= 2,
                ;
                assert(num_entries * floor_pow2(rest as nat) == (num_entries * 2) * floor_pow2((rest / 2) as nat))
                    by (nonlinear_arith)
                    requires
                        floor_pow2(rest as nat) == 2 * floor_pow2((rest / 2) as nat),
                ;
            }
            num_entries = num_entries * 2;
            rest = rest / 2;
        }
        proof {
            assert(floor_pow2(rest as nat) == 1);
            assert(num_entries == floor_pow2(desired_entries as nat)) by (nonlinear_arith)
                requires
                    num_entries * floor_pow2(rest as nat) == floor_pow2(desired_entries as nat),
                    floor_pow2(rest as nat) == 1,
            ;
            assert(desired_entries as nat == (mb * 1024 * 1024 / 16) as nat);
        }
        let mut keys: Vec<u64> = Vec::with_capacity(num_entries);
        let mut data: Vec<u64> = Vec::with_capacity(num_entries);
        let mut i: usize = 0;
        while i < num_entries
            invariant
                i <= num_entries,
                keys@.len() == i,
                data@.len() == i,
                forall|k: int| 0 <= k < i ==> keys@[k] == 0 && data@[k] == 0,
            decreases num_entries - i,
        {
            keys.push(0);
            data.push(0);
            i = i + 1;
        }
        TranspositionTable { keys, data, mask: num_entries - 1 }
    }

    /// Replaces the table with an empty one of `mb` megabytes.
    pub fn resize(&mut self, mb: usize)
        requires
            mb * 1024 * 1024 <= usize::MAX,
        ensures
            final(self).wf(),
            final(self).mask + 1 == floor_pow2((mb * 1024 * 1024 / 16) as nat),
            forall|i: int| 0 <= i <= final(self).mask ==> final(self).keys@[i] == 0 && final(self).data@[i] == 0,
    {
        *self = TranspositionTable::new(mb);
    }

    /// Empties every slot.
    pub fn clear(&mut self)
        requires
            old(self).wf(),
        ensures
            final(self).wf(),
            final(self).mask == old(self).mask,
            forall|i: int| 0 <= i <= final(self).mask ==> final(self).keys@[i] == 0 && final(self).data@[i] == 0,
    {
        let n = self.keys.len();
        let mut i: usize = 0;
        while i < n
            invariant
                self.wf(),
                n == self.mask + 1,
                self.mask == old(self).mask,
                i <= n,
                forall|k: int| 0 <= k < i ==> self.keys@[k] == 0 && self.data@[k] == 0,
            decreases n - i,
        {
            self.keys.set(i, 0);
            self.data.set(i, 0);
            i = i + 1;
        }
    }

    /// Whether a store of `key` at `depth` takes over a slot holding
    /// `cur_key` and `cur_data`: the slot is empty or holds the same key, the
    /// new search went at least as deep, or the new entry is a PV entry.
    pub open spec fn replaces(cur_key: u64, cur_data: u64, key: u64, depth: u8, is_pv: bool) -> bool {
        cur_key == 0 || cur_key == key || depth >= ((cur_data >> 48u64) & 0xFF) as u8 || is_pv
    }

    /// Stores an entry for `key` in its slot, unless the slot holds another
    /// key searched deeper and the new entry is not a PV entry.
    pub fn store(&mut self, key: u64, depth: u8, score: i32, node_type: NodeType, best_move: Move, is_pv: bool)
        requires
            old(self).wf(),
        ensures
            final(self).wf(),
            final(self).mask == old(self).mask,
            ({
                let i = slot(old(self).mask, key);
                if Self::replaces(old(self).keys@[i], old(self).data@[i], key, depth, is_pv) {
                    &&& final(self).keys@ == old(self).keys@.update(i, key)
                    &&& final(self).data@ == old(self).data@.update(i, spec_pack(score, best_move, depth, node_type, is_pv))
                } else {
                    &&& final(self).keys@ == old(self).keys@
                    &&& final(self).data@ == old(self).data@
                }
            }),
    {
        proof {
            lemma_slot_bound(key, self.mask);
        }
        let index = (key as usize) & self.mask;
        let current_data = self.data[index];
        let current_depth = ((current_data >> 48u64) & 0xFF) as u8;
        let current_key = self.keys[index];
        if current_key == 0 || current_key == key || depth >= current_depth || is_pv {
            let packed_data = TTEntry::pack(score, best_move, depth, node_type, is_pv);
            self.data.set(index, packed_data);
            self.keys.set(index, key);
        }
    }

    /// What the table holds for `key`: the entry of its slot when the slot
    /// holds `key` and a node type other than none.
    pub open spec fn spec_probe(&self, key: u64) -> Option<TTEntry> {
        let i = slot(self.mask, key);
        if self.keys@[i] == key && spec_unpack(key, self.data@[i]).node_type != NodeType::NoEntry {
            Some(spec_unpack(key, self.data@[i]))
        } else {
            None
        }
    }

    pub fn probe(&self, key: u64) -> (r: Option<TTEntry>)
        requires
            self.wf(),
        ensures
            r == self.spec_probe(key),
    {
        proof {
            lemma_slot_bound(key, self.mask);
        }
        let index = (key as usize) & self.mask;
        let stored_key = self.keys[index];
        if stored_key == key {
            let data = self.data[index];
            if self.keys[index] == key {
                let entry = TTEntry::unpack(key, data);
                if entry.node_type != NodeType::NoEntry {
                    return Some(entry);
                }
            }
        }
        None
    }

    /// How full the table is, in permille, judged from its first thousand
    /// slots (or all of them, if fewer).
    pub fn hashfull(&self) -> (r: u32)
        requires
            self.wf(),
        ensures
            ({
                let n = if self.keys@.len() < 1000 { self.keys@.len() as int } else { 1000 };
                r == used_slots(self.keys@, self.data@, n) * 1000 / n
            }),
            r <= 1000,
    {
        let sample_size = if self.keys.len() < 1000 { self.keys.len() } else { 1000 };
        let mut count: usize = 0;
        let mut i: usize = 0;
        while i < sample_size
            invariant
                self.wf(),
                sample_size <= 1000,
                sample_size <= self.keys@.len(),
                i <= sample_size,
                count == used_slots(self.keys@, self.data@, i as int),
                count <= i,
            decreases sample_size - i,
        {
            let key = self.keys[i];
            let data = self.data[i];
            if key != 0 {
                let node_type = (data >> 56u64) & 0xFF;
                if node_type != 3 {
                    count = count + 1;
                }
            }
            i = i + 1;
        }
        proof {
            assert(count * 1000 <= sample_size * 1000) by (nonlinear_arith)
                requires
                    count <= sample_size,
            ;
            assert(count * 1000 / (sample_size as int) <= 1000) by (nonlinear_arith)
                requires
                    count <= sample_size,
                    sample_size >= 1,
            ;
        }
        (count * 1000 / sample_size) as u32
    }
}

/// Storing an entry that takes over its slot and then probing the same key
/// gives back the entry that was stored, unless its node type is none.
pub proof fn lemma_store_then_probe(
    before: TranspositionTable,
    after: TranspositionTable,
    key: u64,
    depth: u8,
    score: i32,
    node_type: NodeType,
    best_move: Move,
    is_pv: bool,
)
    requires
        before.wf(),
        after.mask == before.mask,
        after.keys@ == before.keys@.update(slot(before.mask, key), key),
        after.data@ == before.data@.update(slot(before.mask, key), spec_pack(score, best_move, depth, node_type, is_pv)),
        node_type != NodeType::NoEntry,
    ensures
        after.spec_probe(key) == Some(
            TTEntry { key, score, best_move, depth, node_type, is_pv },
        ),
{
    lemma_slot_bound(key, before.mask);
    lemma_pack_roundtrip(key, score, best_move, depth, node_type, is_pv);
}

} // verus!
