//! XOR distance metric and the bucketed routing table.

use vstd::prelude::*;
use crate::bits::{bit_of, xor_bytes, shared_prefix_len, lemma_bit_of_byte, lemma_prefix_len_is,
    lemma_prefix_len_bounds, lemma_zero_byte_bit, lemma_bit_of_xor};
use crate::node_id::NodeId;

verus! {

/// XOR-based distance between two `NodeId`s.
#[derive(Clone, Copy, Debug)]
pub struct Distance([u8; 20]);

impl View for Distance {
    type V = Seq<u8>;

    closed spec fn view(&self) -> Seq<u8> {
        self.0@
    }
}

impl Distance {
    /// Byte-wise XOR of the two identifiers.
    pub fn between(a: &NodeId, b: &NodeId) -> (r: Self)
        ensures
            r@ == xor_bytes(a@, b@),
    {
        let mut dist = [0u8; 20];
        let mut i: usize = 0;
        while i < 20
            invariant
                i <= 20,
                forall|j: int| 0 <= j < i ==> dist@[j] == (a@[j] ^ b@[j]),
            decreases 20 - i,
        {
            dist[i] = a.0[i] ^ b.0[i];
            i += 1;
        }
        proof {
            assert(dist@ =~= xor_bytes(a@, b@));
        }
        Distance(dist)
    }

    /// Number of leading zero bits, 0 to 160 inclusive; 160 only for the
    /// all-zero distance.
    pub fn count_zeros(&self) -> (r: usize)
        ensures
            r as int == shared_prefix_len(self@),
    {
        let mut m: usize = 0;
        while m < 20
            invariant
                m <= 20,
                forall|t: int| 0 <= t < 8 * m ==> !bit_of(self@, t),
            decreases 20 - m,
        {
            let b = self.0[m];
            if b != 0 {
                let mut j: usize = 0;
                while j < 8
                    invariant
                        j <= 8,
                        m < 20,
                        b == self@[m as int],
                        b != 0,
                        forall|t: int| 0 <= t < 8 * (m as int) + j ==> !bit_of(self@, t),
                        j > 0 ==> b >> ((8 - j) as u8) == 0,
                    decreases 8 - j,
                {
                    let sh: u8 = (7 - j) as u8;
                    if (b >> sh) & 1u8 == 1u8 {
                        proof {
                            lemma_bit_of_byte(self@, m as int, j as int);
                            lemma_prefix_len_is(self@, 8 * (m as int) + j);
                        }
                        return m * 8 + j;
                    }
                    proof {
                        let jb: u8 = j as u8;
                        lemma_bit_of_byte(self@, m as int, j as int);
                        assert(b >> ((7 - jb) as u8) == 0) by (bit_vector)
                            requires
                                jb < 8,
                                (b >> ((7 - jb) as u8)) & 1u8 != 1u8,
                                jb > 0 ==> b >> ((8 - jb) as u8) == 0,
                        ;
                    }
                    j += 1;
                }
                proof {
                    assert(b >> 0u8 == b) by (bit_vector);
                    assert(false);
                }
            }
            proof {
                assert forall|t: int| 8 * m <= t < 8 * (m + 1) implies !bit_of(self@, t) by {
                    let j = t - 8 * (m as int);
                    lemma_bit_of_byte(self@, m as int, j);
                    let sh: u8 = (7 - j) as u8;
                    assert((b >> sh) & 1u8 != 1u8) by (bit_vector)
                        requires
                            b == 0u8,
                    ;
                }
            }
            m += 1;
        }
        proof {
            lemma_prefix_len_is(self@, 160);
        }
        160
    }
}

/// Law: the XOR distance of two 20-byte identifiers is symmetric, its shared
/// prefix length is 160 exactly when the identifiers are equal, and the
/// distance of an identifier to itself is all zero.
pub proof fn lemma_distance_laws(a: Seq<u8>, b: Seq<u8>)
    requires
        a.len() == 20,
        b.len() == 20,
    ensures
        xor_bytes(a, b) == xor_bytes(b, a),
        (shared_prefix_len(xor_bytes(a, b)) == 160) <==> (a == b),
        forall|i: int| 0 <= i < 20 ==> xor_bytes(a, a)[i] == 0u8,
{
    assert forall|i: int| 0 <= i < 20 implies xor_bytes(a, b)[i] == xor_bytes(b, a)[i] by {
        let x = a[i];
        let y = b[i];
        assert(x ^ y == y ^ x) by (bit_vector);
    }
    assert(xor_bytes(a, b) =~= xor_bytes(b, a));
    assert forall|i: int| 0 <= i < 20 implies xor_bytes(a, a)[i] == 0u8 by {
        let x = a[i];
        assert(x ^ x == 0) by (bit_vector);
    }
    let d = xor_bytes(a, b);
    if a == b {
        assert forall|t: int| 0 <= t < 160 implies !bit_of(d, t) by {
            let x = a[t / 8];
            assert(x ^ x == 0) by (bit_vector);
            lemma_zero_byte_bit(d[t / 8], (7 - (t % 8)) as u8);
        }
        lemma_prefix_len_is(d, 160);
    }
    if shared_prefix_len(d) == 160 {
        lemma_prefix_len_bounds(d);
        assert forall|i: int| 0 <= i < 20 implies a[i] == b[i] by {
            lemma_bit_of_byte(d, i, 0);
            lemma_bit_of_byte(d, i, 1);
            lemma_bit_of_byte(d, i, 2);
            lemma_bit_of_byte(d, i, 3);
            lemma_bit_of_byte(d, i, 4);
            lemma_bit_of_byte(d, i, 5);
            lemma_bit_of_byte(d, i, 6);
            lemma_bit_of_byte(d, i, 7);
            assert(!bit_of(d, 8 * i + 0));
            assert(!bit_of(d, 8 * i + 1));
            assert(!bit_of(d, 8 * i + 2));
            assert(!bit_of(d, 8 * i + 3));
            assert(!bit_of(d, 8 * i + 4));
            assert(!bit_of(d, 8 * i + 5));
            assert(!bit_of(d, 8 * i + 6));
            assert(!bit_of(d, 8 * i + 7));
            let x = d[i];
            assert(x == 0) by (bit_vector)
                requires
                    (x >> 7u8) & 1u8 != 1u8,
                    (x >> 6u8) & 1u8 != 1u8,
                    (x >> 5u8) & 1u8 != 1u8,
                    (x >> 4u8) & 1u8 != 1u8,
                    (x >> 3u8) & 1u8 != 1u8,
                    (x >> 2u8) & 1u8 != 1u8,
                    (x >> 1u8) & 1u8 != 1u8,
                    (x >> 0u8) & 1u8 != 1u8,
            ;
            let y = a[i];
            let z = b[i];
            assert(y == z) by (bit_vector)
                requires
                    y ^ z == 0,
            ;
        }
        assert(a =~= b);
    }
}

/// State the engine records for a node occupying a slot.
#[derive(Clone, Copy, Debug, PartialEq, Eq, Structural)]
pub enum NodeState {
    Pinging,
    Good,
}

/// One slot of a bucket.
#[derive(Clone, Copy, Debug)]
pub enum Slot {
    Empty,
    Node(NodeId, NodeState),
}

/// Mathematical value of a slot: the node's bytes and state, if any.
pub ghost enum SlotV {
    Empty,
    Node(Seq<u8>, NodeState),
}

impl View for Slot {
    type V = SlotV;

    open spec fn view(&self) -> SlotV {
        match *self {
            Slot::Empty => SlotV::Empty,
            Slot::Node(id, st) => SlotV::Node(id@, st),
        }
    }
}

impl Slot {
    pub fn is_empty(&self) -> (r: bool)
        ensures
            r == (self@ is Empty),
    {
        match *self {
            Slot::Empty => true,
            Slot::Node(..) => false,
        }
    }
}

/// True iff the slot holds a node whose identifier bytes are `id`.
pub open spec fn slot_id_matches(sv: SlotV, id: Seq<u8>) -> bool {
    sv matches SlotV::Node(nid, _) && nid == id
}

pub open spec fn locate_from(bk: Seq<SlotV>, id: Seq<u8>, i: int) -> Option<int>
    decreases bk.len() - i,
{
    if i < 0 || i >= bk.len() {
        None
    } else if bk[i] is Empty || slot_id_matches(bk[i], id) {
        Some(i)
    } else {
        locate_from(bk, id, i + 1)
    }
}

/// The slot `locate` picks: the first slot that is empty or already holds
/// `id`, if any.
pub open spec fn locate_spec(bk: Seq<SlotV>, id: Seq<u8>) -> Option<int> {
    locate_from(bk, id, 0)
}

/// Shared prefix length between the local identifier and a node's identifier.
pub open spec fn node_prefix(our: Seq<u8>, id: Seq<u8>) -> int {
    shared_prefix_len(xor_bytes(our, id))
}

/// An occupied slot sits in the bucket its shared prefix length selects: the
/// exact bucket index, except that the last bucket is a catch-all for all
/// deeper prefixes.
pub open spec fn slot_placed(our: Seq<u8>, bidx: int, is_last: bool, sv: SlotV) -> bool {
    match sv {
        SlotV::Empty => true,
        SlotV::Node(nid, _) => {
            &&& nid.len() == 20
            &&& if is_last {
                node_prefix(our, nid) >= bidx
            } else {
                node_prefix(our, nid) == bidx
            }
        },
    }
}

pub open spec fn bucket_placed(our: Seq<u8>, bidx: int, is_last: bool, bk: Seq<SlotV>) -> bool {
    forall|s: int| 0 <= s < bk.len() ==> slot_placed(our, bidx, is_last, #[trigger] bk[s])
}

/// No occupied slot follows an empty one.
pub open spec fn dense_ok(bk: Seq<SlotV>) -> bool {
    forall|s1: int, s2: int|
        #![trigger bk[s1], bk[s2]]
        0 <= s1 <= s2 < bk.len() && bk[s1] is Empty ==> bk[s2] is Empty
}

/// No identifier occupies two slots of the bucket.
pub open spec fn no_dup_ids(bk: Seq<SlotV>) -> bool {
    forall|s1: int, s2: int|
        #![trigger bk[s1], bk[s2]]
        0 <= s1 < s2 < bk.len() && bk[s1] is Node && bk[s2] is Node ==> bk[s1]->Node_0
            != bk[s2]->Node_0
}

/// Mathematical value of the routing table: the local identifier and the
/// slots of each bucket.
pub ghost struct TableV {
    pub id: Seq<u8>,
    pub buckets: Seq<Seq<SlotV>>,
}

/// The routing table invariant: the identifier is 20 bytes; there is at least
/// one bucket and at most 161; every bucket has exactly 8 slots, holds only
/// nodes placed by their shared prefix length, is dense, and holds no
/// identifier twice.
pub open spec fn table_wf(t: TableV) -> bool {
    &&& t.id.len() == 20
    &&& 1 <= t.buckets.len() <= 161
    &&& forall|b: int| 0 <= b < t.buckets.len() ==> (#[trigger] t.buckets[b]).len() == 8
    &&& forall|b: int|
        0 <= b < t.buckets.len() ==> bucket_placed(
            t.id,
            b,
            b == t.buckets.len() - 1,
            #[trigger] t.buckets[b],
        )
    &&& forall|b: int| 0 <= b < t.buckets.len() ==> dense_ok(#[trigger] t.buckets[b])
    &&& forall|b: int| 0 <= b < t.buckets.len() ==> no_dup_ids(#[trigger] t.buckets[b])
}

/// Number of slots per bucket.
const K: usize = 8;

/// One more than the largest possible shared prefix length.
const MAX_BUCKETS: usize = 161;

#[derive(Debug, Clone, Copy)]
struct Bucket {
    slots: [Slot; 8],
}

impl View for Bucket {
    type V = Seq<SlotV>;

    closed spec fn view(&self) -> Seq<SlotV> {
        Seq::new(self.slots@.len(), |i: int| self.slots@[i]@)
    }
}

impl Bucket {
    fn new() -> (r: Self)
        ensures
            r@.len() == 8,
            forall|s: int| 0 <= s < 8 ==> r@[s] is Empty,
    {
        Bucket { slots: [Slot::Empty; 8] }
    }

    /// Finds the given identifier, or assigns the first empty slot.
    fn locate(&self, id: &NodeId) -> (r: Option<usize>)
        ensures
            match r {
                Some(i) => locate_spec(self@, id@) == Some(i as int),
                None => locate_spec(self@, id@) is None,
            },
    {
        let mut i: usize = 0;
        while i < K
            invariant
                i <= 8,
                self@.len() == 8,
                locate_spec(self@, id@) == locate_from(self@, id@, i as int),
            decreases 8 - i,
        {
            let found = match self.slots[i] {
                Slot::Empty => true,
                Slot::Node(slot_id, _) => *id == slot_id,
            };
            if found {
                return Some(i);
            }
            i += 1;
        }
        None
    }
}

/// Stores known nodes, bucketing them by shared prefix length with the local
/// identifier.
#[derive(Debug)]
pub struct Table {
    /// Shallowest bucket first; the last bucket is the catch-all for the
    /// deepest known prefixes.
    buckets: Vec<Bucket>,
    /// The local identifier the distance metric is taken against.
    id: NodeId,
}

impl View for Table {
    type V = TableV;

    closed spec fn view(&self) -> TableV {
        TableV { id: self.id@, buckets: Seq::new(self.buckets@.len(), |i: int| self.buckets@[i]@) }
    }
}

/// Position of one slot, as a bucket index and a slot index within it.
#[derive(Clone, Copy, Debug, PartialEq, Eq, Structural)]
pub struct SlotRef {
    pub bucket: usize,
    pub slot: usize,
}

impl Table {
    pub fn new(id: NodeId) -> (t: Table)
        ensures
            t@.id == id@,
            t@.buckets.len() == 1,
            t@.buckets[0].len() == 8,
            forall|s: int| 0 <= s < 8 ==> t@.buckets[0][s] is Empty,
            table_wf(t@),
    {
        let mut buckets = Vec::new();
        buckets.push(Bucket::new());
        Table { buckets, id }
    }

    pub fn our_id(&self) -> (r: &NodeId)
        ensures
            r@ == self@.id,
    {
        &self.id
    }

    /// Reads the slot `r` points at.
    pub fn get_slot(&self, r: SlotRef) -> (s: Slot)
        requires
            (r.bucket as int) < self@.buckets.len(),
            (r.slot as int) < self@.buckets[r.bucket as int].len(),
        ensures
            s@ == self@.buckets[r.bucket as int][r.slot as int],
    {
        self.buckets[r.bucket].slots[r.slot]
    }

    /// Number of buckets currently in the table.
    pub fn bucket_count(&self) -> (n: usize)
        ensures
            n as int == self@.buckets.len(),
    {
        self.buckets.len()
    }
}

/// True iff the slot holds a node whose bit at `bidx` equals the local
/// identifier's bit there, so that a split moves it to the new bucket.
pub open spec fn mover(our: Seq<u8>, bidx: int, sv: SlotV) -> bool {
    match sv {
        SlotV::Empty => false,
        SlotV::Node(nid, _) => bit_of(nid, bidx) == bit_of(our, bidx),
    }
}

/// The occupied slots of `bk`, in order, that a split of bucket `bidx` leaves
/// behind.
pub open spec fn split_stay(our: Seq<u8>, bidx: int, bk: Seq<SlotV>) -> Seq<SlotV>
    decreases bk.len(),
{
    if bk.len() == 0 {
        Seq::empty()
    } else {
        let pre = split_stay(our, bidx, bk.drop_last());
        if bk.last() is Node && !mover(our, bidx, bk.last()) {
            pre.push(bk.last())
        } else {
            pre
        }
    }
}

/// The occupied slots of `bk`, in order, that a split of bucket `bidx` moves
/// into the new bucket.
pub open spec fn split_move(our: Seq<u8>, bidx: int, bk: Seq<SlotV>) -> Seq<SlotV>
    decreases bk.len(),
{
    if bk.len() == 0 {
        Seq::empty()
    } else {
        let pre = split_move(our, bidx, bk.drop_last());
        if bk.last() is Node && mover(our, bidx, bk.last()) {
            pre.push(bk.last())
        } else {
            pre
        }
    }
}

/// Pads a bucket's occupied prefix with empty slots up to 8.
pub open spec fn pad8(s: Seq<SlotV>) -> Seq<SlotV>
    recommends
        s.len() <= 8,
{
    if s.len() >= 8 {
        s
    } else {
        s + Seq::new((8 - s.len()) as nat, |i: int| SlotV::Empty)
    }
}

/// The table after splitting its last bucket: the stayers are compacted in
/// place, the movers fill a new bucket appended at the end.
pub open spec fn split_table(t: TableV) -> TableV {
    let b = t.buckets.len() - 1;
    let old_bk = t.buckets[b];
    TableV {
        id: t.id,
        buckets: t.buckets.update(b, pad8(split_stay(t.id, b, old_bk))).push(
            pad8(split_move(t.id, b, old_bk)),
        ),
    }
}

/// The table after `allocate(id)`: unchanged, unless the prefix length falls
/// beyond the current buckets and the table may still grow, in which case the
/// last bucket is split once.
pub open spec fn alloc_table(t: TableV, id: Seq<u8>) -> TableV {
    if node_prefix(t.id, id) >= t.buckets.len() && t.buckets.len() < 161 {
        split_table(t)
    } else {
        t
    }
}

/// The slot `allocate(id)` picks, as a position into `alloc_table(t, id)`.
pub open spec fn alloc_slot(t: TableV, id: Seq<u8>) -> Option<(int, int)> {
    let p = node_prefix(t.id, id);
    let n = t.buckets.len() as int;
    if p < n {
        match locate_spec(t.buckets[p], id) {
            Some(i) => Some((p, i)),
            None => None,
        }
    } else if n < 161 {
        match locate_spec(split_table(t).buckets[n], id) {
            Some(i) => Some((n, i)),
            None => None,
        }
    } else {
        None
    }
}

proof fn lemma_locate_hits_from(bk: Seq<SlotV>, id: Seq<u8>, i: int, s: int)
    requires
        0 <= i <= s < bk.len(),
        forall|j: int| i <= j < s ==> (#[trigger] bk[j]) is Node && !slot_id_matches(bk[j], id),
        bk[s] is Empty || slot_id_matches(bk[s], id),
    ensures
        locate_from(bk, id, i) == Some(s),
    decreases s - i,
{
    if i < s {
        lemma_locate_hits_from(bk, id, i + 1, s);
    }
}

/// If every slot before `s` holds some other node and slot `s` is empty or
/// holds `id`, `locate` picks `s`.
pub proof fn lemma_locate_hits(bk: Seq<SlotV>, id: Seq<u8>, s: int)
    requires
        0 <= s < bk.len(),
        forall|j: int| 0 <= j < s ==> (#[trigger] bk[j]) is Node && !slot_id_matches(bk[j], id),
        bk[s] is Empty || slot_id_matches(bk[s], id),
    ensures
        locate_spec(bk, id) == Some(s),
{
    lemma_locate_hits_from(bk, id, 0, s);
}

proof fn lemma_locate_prefix_from(bk: Seq<SlotV>, id: Seq<u8>, i: int, s: int)
    requires
        0 <= i <= s,
        locate_from(bk, id, i) == Some(s),
    ensures
        s < bk.len(),
        forall|j: int| i <= j < s ==> (#[trigger] bk[j]) is Node && !slot_id_matches(bk[j], id),
        bk[s] is Empty || slot_id_matches(bk[s], id),
    decreases bk.len() - i,
{
    if i < bk.len() && !(bk[i] is Empty || slot_id_matches(bk[i], id)) {
        lemma_locate_ge(bk, id, i + 1, s);
        lemma_locate_prefix_from(bk, id, i + 1, s);
    }
}

/// What `locate`'s answer means: every earlier slot holds some other node,
/// and the picked slot is empty or holds `id`.
pub proof fn lemma_locate_prefix(bk: Seq<SlotV>, id: Seq<u8>, s: int)
    requires
        locate_spec(bk, id) == Some(s),
    ensures
        0 <= s < bk.len(),
        forall|j: int| 0 <= j < s ==> (#[trigger] bk[j]) is Node && !slot_id_matches(bk[j], id),
        bk[s] is Empty || slot_id_matches(bk[s], id),
{
    if locate_from(bk, id, 0) == Some(s) {
        assert(s >= 0) by {
            lemma_locate_ge(bk, id, 0, s);
        }
    }
    lemma_locate_prefix_from(bk, id, 0, s);
}

proof fn lemma_locate_ge(bk: Seq<SlotV>, id: Seq<u8>, i: int, s: int)
    requires
        locate_from(bk, id, i) == Some(s),
    ensures
        s >= i,
    decreases bk.len() - i,
{
    if i < bk.len() && !(bk[i] is Empty || slot_id_matches(bk[i], id)) {
        lemma_locate_ge(bk, id, i + 1, s);
    }
}

/// Every element of a split half comes from the source bucket: it is an
/// occupied slot of `bk` with the corresponding bit test, and the halves keep
/// at most as many slots as the source has.
proof fn lemma_split_elems(our: Seq<u8>, bidx: int, bk: Seq<SlotV>)
    ensures
        split_stay(our, bidx, bk).len() + split_move(our, bidx, bk).len() <= bk.len(),
        forall|k: int|
            0 <= k < split_stay(our, bidx, bk).len() ==> (#[trigger] split_stay(our, bidx, bk)[k])
                is Node && bk.contains(split_stay(our, bidx, bk)[k]) && !mover(
                our,
                bidx,
                split_stay(our, bidx, bk)[k],
            ),
        forall|k: int|
            0 <= k < split_move(our, bidx, bk).len() ==> (#[trigger] split_move(our, bidx, bk)[k])
                is Node && bk.contains(split_move(our, bidx, bk)[k]) && mover(
                our,
                bidx,
                split_move(our, bidx, bk)[k],
            ),
    decreases bk.len(),
{
    if bk.len() > 0 {
        lemma_split_elems(our, bidx, bk.drop_last());
        assert forall|e: SlotV| bk.drop_last().contains(e) implies bk.contains(e) by {
            let i = choose|i: int| 0 <= i < bk.drop_last().len() && bk.drop_last()[i] == e;
            assert(bk[i] == e);
        }
        assert(bk.contains(bk.last()));
    }
}

/// The slot values of a sequence of slots.
pub open spec fn slots_v(s: Seq<Slot>) -> Seq<SlotV> {
    Seq::new(s.len(), |i: int| s[i]@)
}

/// A split of a bucket without duplicate identifiers yields halves without
/// duplicate identifiers.
proof fn lemma_split_no_dup(our: Seq<u8>, bidx: int, bk: Seq<SlotV>)
    requires
        no_dup_ids(bk),
    ensures
        no_dup_ids(split_stay(our, bidx, bk)),
        no_dup_ids(split_move(our, bidx, bk)),
    decreases bk.len(),
{
    if bk.len() > 0 {
        let pre = bk.drop_last();
        assert(no_dup_ids(pre)) by {
            assert forall|s1: int, s2: int|
                0 <= s1 < s2 < pre.len() && pre[s1] is Node && pre[s2] is Node implies pre[s1]->Node_0
                != pre[s2]->Node_0 by {
                assert(bk[s1] == pre[s1] && bk[s2] == pre[s2]);
            }
        }
        lemma_split_no_dup(our, bidx, pre);
        lemma_split_elems(our, bidx, pre);
        let last = bk.last();
        if last is Node {
            let stay_pre = split_stay(our, bidx, pre);
            let move_pre = split_move(our, bidx, pre);
            assert forall|k: int| 0 <= k < stay_pre.len() implies stay_pre[k]->Node_0
                != last->Node_0 by {
                let i = choose|i: int| 0 <= i < pre.len() && pre[i] == stay_pre[k];
                assert(bk[i] == stay_pre[k]);
                assert(bk[bk.len() - 1] == last);
            }
            assert forall|k: int| 0 <= k < move_pre.len() implies move_pre[k]->Node_0
                != last->Node_0 by {
                let i = choose|i: int| 0 <= i < pre.len() && pre[i] == move_pre[k];
                assert(bk[i] == move_pre[k]);
                assert(bk[bk.len() - 1] == last);
            }
        }
    }
}

impl Table {
    /// Splits the last bucket: nodes whose bit at the old last index equals
    /// the local identifier's bit there move into a new bucket appended at
    /// the end, while the remaining nodes are compacted to the front of the
    /// old bucket.
    #[verifier::loop_isolation(false)]
    #[verifier::rlimit(60)]
    fn spill(&mut self)
        requires
            table_wf(old(self)@),
            old(self)@.buckets.len() < 161,
        ensures
            final(self)@ == split_table(old(self)@),
            table_wf(final(self)@),
    {
        let ghost t0 = old(self)@;
        let n = self.buckets.len();
        let bit_index = n - 1;
        let our_bit = self.id.bit(bit_index);
        let ghost bi = bit_index as int;
        let ghost bk0 = t0.buckets[bi];
        let src_bucket = self.buckets.pop().unwrap();
        proof {
            assert(src_bucket@ == bk0);
            assert(bk0.len() == 8);
        }
        let mut stay = [Slot::Empty; 8];
        let mut dest = [Slot::Empty; 8];
        let mut si: usize = 0;
        let mut di: usize = 0;
        let mut src: usize = 0;
        while src < K
            invariant
                src <= 8,
                si + di <= src,
                si as int == split_stay(t0.id, bi, bk0.take(src as int)).len(),
                di as int == split_move(t0.id, bi, bk0.take(src as int)).len(),
                slots_v(stay@).take(si as int) == split_stay(t0.id, bi, bk0.take(src as int)),
                slots_v(dest@).take(di as int) == split_move(t0.id, bi, bk0.take(src as int)),
                forall|k: int| si as int <= k < 8 ==> slots_v(stay@)[k] is Empty,
                forall|k: int| di as int <= k < 8 ==> slots_v(dest@)[k] is Empty,
            decreases 8 - src,
        {
            let cur = src_bucket.slots[src];
            let ghost pre = bk0.take(src as int);
            let ghost post = bk0.take(src as int + 1);
            proof {
                assert(post.drop_last() =~= pre);
                assert(post.last() == bk0[src as int]);
                assert(bk0[src as int] == cur@);
            }
            match cur {
                Slot::Empty => {
                    proof {
                        assert(split_stay(t0.id, bi, post) == split_stay(t0.id, bi, pre));
                        assert(split_move(t0.id, bi, post) == split_move(t0.id, bi, pre));
                    }
                }
                Slot::Node(nid, _st) => {
                    let ghost stay_old = stay@;
                    let ghost dest_old = dest@;
                    if nid.bit(bit_index) == our_bit {
                        proof {
                            assert(mover(t0.id, bi, cur@));
                            assert(split_move(t0.id, bi, post) == split_move(
                                t0.id,
                                bi,
                                pre,
                            ).push(cur@));
                        }
                        dest[di] = cur;
                        di += 1;
                        proof {
                            assert(slots_v(dest@).take(di as int) =~= split_move(
                                t0.id,
                                bi,
                                post,
                            ));
                            assert forall|k: int| di as int <= k < 8 implies slots_v(
                                dest@,
                            )[k] is Empty by {
                                assert(slots_v(dest_old)[k] is Empty);
                            }
                        }
                    } else {
                        proof {
                            assert(!mover(t0.id, bi, cur@));
                            assert(split_stay(t0.id, bi, post) == split_stay(
                                t0.id,
                                bi,
                                pre,
                            ).push(cur@));
                        }
                        stay[si] = cur;
                        si += 1;
                        proof {
                            assert(slots_v(stay@).take(si as int) =~= split_stay(
                                t0.id,
                                bi,
                                post,
                            ));
                            assert forall|k: int| si as int <= k < 8 implies slots_v(
                                stay@,
                            )[k] is Empty by {
                                assert(slots_v(stay_old)[k] is Empty);
                            }
                        }
                    }
                }
            }
            src += 1;
        }
        let ghost stayv = split_stay(t0.id, bi, bk0);
        let ghost movev = split_move(t0.id, bi, bk0);
        proof {
            assert(bk0.take(8) =~= bk0);
            lemma_split_elems(t0.id, bi, bk0);
            lemma_split_no_dup(t0.id, bi, bk0);
            assert(slots_v(stay@) =~= pad8(stayv));
            assert(slots_v(dest@) =~= pad8(movev));
        }
        self.buckets.push(Bucket { slots: stay });
        self.buckets.push(Bucket { slots: dest });
        proof {
            let t1 = self@;
            assert(t1.buckets.len() == n + 1);
            assert(t1.buckets[bi] == pad8(stayv));
            assert(t1.buckets[n as int] == pad8(movev));
            assert forall|b: int| 0 <= b < bi implies t1.buckets[b] == t0.buckets[b] by {}
            assert(t1.buckets =~= split_table(t0).buckets);
            assert(t1 == split_table(t0));
            // every stayer keeps prefix exactly `bi`
            assert forall|k: int| 0 <= k < stayv.len() implies slot_placed(
                t0.id,
                bi,
                false,
                stayv[k],
            ) by {
                let sv = stayv[k];
                let i = choose|i: int| 0 <= i < bk0.len() && bk0[i] == sv;
                assert(slot_placed(t0.id, bi, true, bk0[i]));
                let nid = sv->Node_0;
                let d = xor_bytes(t0.id, nid);
                lemma_prefix_len_bounds(d);
                lemma_bit_of_xor(t0.id, nid, bi);
                assert(node_prefix(t0.id, nid) == bi);
            }
            // every mover has prefix at least `bi + 1`
            assert forall|k: int| 0 <= k < movev.len() implies slot_placed(
                t0.id,
                bi + 1,
                true,
                movev[k],
            ) by {
                let sv = movev[k];
                let i = choose|i: int| 0 <= i < bk0.len() && bk0[i] == sv;
                assert(slot_placed(t0.id, bi, true, bk0[i]));
                let nid = sv->Node_0;
                let d = xor_bytes(t0.id, nid);
                lemma_prefix_len_bounds(d);
                lemma_bit_of_xor(t0.id, nid, bi);
                assert(node_prefix(t0.id, nid) >= bi + 1);
            }
            assert forall|b: int| 0 <= b < t1.buckets.len() implies {
                &&& (#[trigger] t1.buckets[b]).len() == 8
                &&& bucket_placed(t1.id, b, b == t1.buckets.len() - 1, t1.buckets[b])
                &&& dense_ok(t1.buckets[b])
                &&& no_dup_ids(t1.buckets[b])
            } by {
                if b < bi {
                    assert(t1.buckets[b] == t0.buckets[b]);
                    assert(bucket_placed(t0.id, b, false, t0.buckets[b]));
                } else if b == bi {
                    let bk = t1.buckets[b];
                    assert forall|s: int| 0 <= s < bk.len() implies slot_placed(
                        t1.id,
                        b,
                        false,
                        #[trigger] bk[s],
                    ) by {
                        if s < stayv.len() {
                            assert(bk[s] == stayv[s]);
                        } else {
                            assert(bk[s] is Empty);
                        }
                    }
                    assert forall|s1: int, s2: int|
                        #![trigger bk[s1], bk[s2]]
                        0 <= s1 <= s2 < bk.len() && bk[s1] is Empty implies bk[s2] is Empty by {
                        if s1 < stayv.len() {
                            assert(bk[s1] == stayv[s1]);
                        }
                    }
                    assert(no_dup_ids(bk)) by {
                        assert forall|s1: int, s2: int|
                            #![trigger bk[s1], bk[s2]]
                            0 <= s1 < s2 < bk.len() && bk[s1] is Node && bk[s2]
                                is Node implies bk[s1]->Node_0 != bk[s2]->Node_0 by {
                            assert(s2 < stayv.len() || bk[s2] is Empty);
                            assert(bk[s1] == stayv[s1] && bk[s2] == stayv[s2]);
                        }
                    }
                } else {
                    let bk = t1.buckets[b];
                    assert(b == bi + 1 && b == t1.buckets.len() - 1);
                    assert forall|s: int| 0 <= s < bk.len() implies slot_placed(
                        t1.id,
                        b,
                        true,
                        #[trigger] bk[s],
                    ) by {
                        if s < movev.len() {
                            assert(bk[s] == movev[s]);
                        } else {
                            assert(bk[s] is Empty);
                        }
                    }
                    assert forall|s1: int, s2: int|
                        #![trigger bk[s1], bk[s2]]
                        0 <= s1 <= s2 < bk.len() && bk[s1] is Empty implies bk[s2] is Empty by {
                        if s1 < movev.len() {
                            assert(bk[s1] == movev[s1]);
                        }
                    }
                    assert(no_dup_ids(bk)) by {
                        assert forall|s1: int, s2: int|
                            #![trigger bk[s1], bk[s2]]
                            0 <= s1 < s2 < bk.len() && bk[s1] is Node && bk[s2]
                                is Node implies bk[s1]->Node_0 != bk[s2]->Node_0 by {
                            assert(s2 < movev.len() || bk[s2] is Empty);
                            assert(bk[s1] == movev[s1] && bk[s2] == movev[s2]);
                        }
                    }
                }
            }
            assert(table_wf(t1));
        }
    }

    /// Finds the slot for `node_id`: the slot already holding it, or the
    /// first free slot of its bucket. When the prefix length falls beyond the
    /// current buckets and the table may still grow, the last bucket is split
    /// once and the search retried in the new bucket. Returns nothing when
    /// the target bucket is full of other nodes.
    pub fn allocate(&mut self, node_id: &NodeId) -> (r: Option<SlotRef>)
        requires
            table_wf(old(self)@),
        ensures
            final(self)@ == alloc_table(old(self)@, node_id@),
            table_wf(final(self)@),
            node_prefix(old(self)@.id, node_id@) < old(self)@.buckets.len() ==> final(self)@
                == old(self)@,
            final(self)@.buckets.len() == (if node_prefix(old(self)@.id, node_id@) >= old(
                self,
            )@.buckets.len() && old(self)@.buckets.len() < 161 {
                old(self)@.buckets.len() + 1
            } else {
                old(self)@.buckets.len()
            }),
            match r {
                Some(sr) => {
                    &&& alloc_slot(old(self)@, node_id@) == Some(
                        (sr.bucket as int, sr.slot as int),
                    )
                    &&& (sr.bucket as int) < final(self)@.buckets.len()
                    &&& (sr.slot as int) < 8
                    &&& locate_spec(final(self)@.buckets[sr.bucket as int], node_id@) == Some(
                        sr.slot as int,
                    )
                    &&& (final(self)@.buckets[sr.bucket as int][sr.slot as int] is Empty
                        || slot_id_matches(
                        final(self)@.buckets[sr.bucket as int][sr.slot as int],
                        node_id@,
                    ))
                    &&& if sr.bucket as int == final(self)@.buckets.len() - 1 {
                        node_prefix(final(self)@.id, node_id@) >= sr.bucket as int
                    } else {
                        node_prefix(final(self)@.id, node_id@) == sr.bucket as int
                    }
                },
                None => alloc_slot(old(self)@, node_id@) is None,
            },
    {
        let our = self.id;
        let d = Distance::between(&our, node_id);
        let p = d.count_zeros();
        let n = self.buckets.len();
        if p < n {
            let r = self.buckets[p].locate(node_id);
            match r {
                Some(i) => {
                    proof {
                        lemma_locate_prefix(self@.buckets[p as int], node_id@, i as int);
                    }
                    Some(SlotRef { bucket: p, slot: i })
                },
                None => None,
            }
        } else if n < MAX_BUCKETS {
            self.spill();
            let idx = self.buckets.len() - 1;
            let r = self.buckets[idx].locate(node_id);
            match r {
                Some(i) => {
                    proof {
                        lemma_locate_prefix(self@.buckets[idx as int], node_id@, i as int);
                    }
                    Some(SlotRef { bucket: idx, slot: i })
                },
                None => None,
            }
        } else {
            None
        }
    }

    /// Writes `id` with `state` into the slot `r`, which must be the slot
    /// `allocate(id)` just returned for this table.
    pub fn set_slot(&mut self, r: SlotRef, id: &NodeId, state: NodeState)
        requires
            table_wf(old(self)@),
            (r.bucket as int) < old(self)@.buckets.len(),
            (r.slot as int) < 8,
            locate_spec(old(self)@.buckets[r.bucket as int], id@) == Some(r.slot as int),
            if r.bucket as int == old(self)@.buckets.len() - 1 {
                node_prefix(old(self)@.id, id@) >= r.bucket as int
            } else {
                node_prefix(old(self)@.id, id@) == r.bucket as int
            },
        ensures
            table_wf(final(self)@),
            final(self)@.id == old(self)@.id,
            final(self)@.buckets == old(self)@.buckets.update(
                r.bucket as int,
                old(self)@.buckets[r.bucket as int].update(
                    r.slot as int,
                    SlotV::Node(id@, state),
                ),
            ),
    {
        proof {
            lemma_locate_prefix(old(self)@.buckets[r.bucket as int], id@, r.slot as int);
        }
        let mut bk = self.buckets[r.bucket];
        bk.slots[r.slot] = Slot::Node(*id, state);
        self.buckets[r.bucket] = bk;
        proof {
            let t0 = old(self)@;
            let t1 = self@;
            let b = r.bucket as int;
            let s = r.slot as int;
            let old_bk = t0.buckets[b];
            let new_bk = old_bk.update(s, SlotV::Node(id@, state));
            assert(t1.buckets[b] =~= new_bk);
            assert(t1.buckets =~= t0.buckets.update(b, new_bk));
            let is_last = b == t1.buckets.len() - 1;
            assert(bucket_placed(t0.id, b, is_last, old_bk));
            assert forall|s2: int| 0 <= s2 < new_bk.len() implies slot_placed(
                t1.id,
                b,
                is_last,
                #[trigger] new_bk[s2],
            ) by {
                if s2 != s {
                    assert(new_bk[s2] == old_bk[s2]);
                    assert(slot_placed(t0.id, b, is_last, old_bk[s2]));
                }
            }
            assert(dense_ok(new_bk)) by {
                assert forall|s1: int, s2: int|
                    #![trigger new_bk[s1], new_bk[s2]]
                    0 <= s1 <= s2 < new_bk.len() && new_bk[s1] is Empty implies new_bk[s2]
                    is Empty by {
                    assert(s1 != s);
                    assert(new_bk[s1] == old_bk[s1]);
                    assert(s1 > s);
                    assert(old_bk[s2] is Empty);
                    assert(s2 != s);
                }
            }
            assert(no_dup_ids(new_bk)) by {
                assert forall|s1: int, s2: int|
                    #![trigger new_bk[s1], new_bk[s2]]
                    0 <= s1 < s2 < new_bk.len() && new_bk[s1] is Node && new_bk[s2]
                        is Node implies new_bk[s1]->Node_0 != new_bk[s2]->Node_0 by {
                    if s1 == s {
                        if old_bk[s] is Empty {
                            assert(old_bk[s2] is Empty);
                            assert(false);
                        } else {
                            assert(slot_id_matches(old_bk[s], id@));
                            assert(old_bk[s]->Node_0 != old_bk[s2]->Node_0);
                        }
                    } else if s2 == s {
                        assert(new_bk[s1] == old_bk[s1]);
                        assert(!slot_id_matches(old_bk[s1], id@));
                    } else {
                        assert(new_bk[s1] == old_bk[s1] && new_bk[s2] == old_bk[s2]);
                    }
                }
            }
            assert forall|b2: int| 0 <= b2 < t1.buckets.len() implies {
                &&& (#[trigger] t1.buckets[b2]).len() == 8
                &&& bucket_placed(t1.id, b2, b2 == t1.buckets.len() - 1, t1.buckets[b2])
                &&& dense_ok(t1.buckets[b2])
                &&& no_dup_ids(t1.buckets[b2])
            } by {
                if b2 != b {
                    assert(t1.buckets[b2] == t0.buckets[b2]);
                    assert(bucket_placed(t0.id, b2, b2 == t0.buckets.len() - 1, t0.buckets[b2]));
                }
            }
            assert(table_wf(t1));
        }
    }
}

/// Law: one allocation grows the table by exactly one bucket when the
/// identifier's prefix length reaches beyond the current buckets and the
/// table is not at full depth, and otherwise leaves the bucket count
/// unchanged; the new bucket is appended at the next depth and every bucket
/// but the split one keeps its contents, so no depth is ever skipped.
pub proof fn lemma_table_growth(t: TableV, id: Seq<u8>)
    requires
        table_wf(t),
    ensures
        alloc_table(t, id).buckets.len() == (if node_prefix(t.id, id) >= t.buckets.len()
            && t.buckets.len() < 161 {
            t.buckets.len() + 1
        } else {
            t.buckets.len()
        }),
        forall|b: int|
            0 <= b < t.buckets.len() - 1 ==> alloc_table(t, id).buckets[b] == t.buckets[b],
{
}

/// Law: allocating an identifier the table already holds, at a prefix depth
/// the table has already reached, leaves the table unchanged and picks the
/// very slot that holds the identifier, so a repeated call picks the same
/// slot again and no duplicate is created.
pub proof fn lemma_allocate_idempotent(t: TableV, id: Seq<u8>, b: int, s: int)
    requires
        table_wf(t),
        0 <= b < t.buckets.len(),
        0 <= s < 8,
        slot_id_matches(t.buckets[b][s], id),
        node_prefix(t.id, id) < t.buckets.len(),
    ensures
        alloc_table(t, id) == t,
        alloc_slot(t, id) == Some((b, s)),
        alloc_slot(alloc_table(t, id), id) == alloc_slot(t, id),
{
    let p = node_prefix(t.id, id);
    let n = t.buckets.len() as int;
    assert(bucket_placed(t.id, b, b == n - 1, t.buckets[b]));
    assert(slot_placed(t.id, b, b == n - 1, t.buckets[b][s]));
    assert(b == p);
    assert forall|j: int| 0 <= j < s implies (#[trigger] t.buckets[b][j]) is Node
        && !slot_id_matches(t.buckets[b][j], id) by {
        assert(dense_ok(t.buckets[b]));
        assert(no_dup_ids(t.buckets[b]));
        if t.buckets[b][j] is Empty {
            assert(t.buckets[b][s] is Empty);
        }
    }
    lemma_locate_hits(t.buckets[b], id, s);
}

} // verus!
