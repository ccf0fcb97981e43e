//! Device paths and the order in which disks are searched.

use vstd::prelude::*;
use vstd::seq_lib::{lemma_multiset_commutative, to_multiset_build};
use vstd::string::StringExecFns;

verus! {

/// The text of a device path whose nodes render as `parts`: the parts in
/// order, each after a `/` once something has been written (a part may be
/// empty, as the end node's is).
pub open spec fn path_text(parts: Seq<Seq<char>>) -> Seq<char>
    decreases parts.len(),
{
    if parts.len() == 0 {
        Seq::empty()
    } else {
        let before = path_text(parts.drop_last());
        let sep = if before.len() > 0 { seq!['/'] } else { Seq::<char>::empty() };
        before + sep + parts.last()
    }
}

/// Joins the renderings of a device path's nodes into its text, as
/// `path_text` says.
pub fn device_path_text(parts: &Vec<String>) -> (r: String)
    ensures
        r@ == path_text(parts@.map_values(|p: String| p@)),
{
    let mut out = String::new();
    let mut i: usize = 0;
    while i < parts.len()
        invariant
            i <= parts@.len(),
            out@ == path_text(parts@.subrange(0, i as int).map_values(|p: String| p@)),
        decreases parts@.len() - i,
    {
        let ghost done = parts@.subrange(0, i as int).map_values(|p: String| p@);
        let ghost next = parts@.subrange(0, i as int + 1).map_values(|p: String| p@);
        proof {
            assert(next.drop_last() =~= done);
            assert(next.last() == parts@[i as int]@);
        }
        if out.as_str().unicode_len() > 0 {
            proof {
                reveal_strlit("/");
            }
            out.append("/");
        }
        out.append(parts[i].as_str());
        i = i + 1;
    }
    assert(parts@.subrange(0, parts@.len() as int) =~= parts@);
    out
}

/// How two device paths relate.
#[derive(Debug, Clone, Copy, PartialEq, Eq, Structural)]
pub enum DevicePathRelation {
    /// The same path.
    This,
    /// The first is a prefix of the second; the count is the first's
    /// number of nodes.
    Parent(usize),
    /// The second is a prefix of the first; the count is the second's
    /// number of nodes.
    Child(usize),
    /// The paths diverge.
    Unrelated,
}

/// A device-path node: its type and subtype.
#[derive(Debug, Clone, Copy, PartialEq, Eq, Structural)]
pub struct PathNode {
    pub device_type: u8,
    pub sub_type: u8,
}

/// The relation of two paths given as node lists.
pub open spec fn path_relation(a: Seq<PathNode>, b: Seq<PathNode>) -> DevicePathRelation {
    let n = if a.len() < b.len() { a.len() } else { b.len() };
    if exists|i: int| 0 <= i < n && a[i] != b[i] {
        DevicePathRelation::Unrelated
    } else if a.len() == b.len() {
        DevicePathRelation::This
    } else if a.len() < b.len() {
        DevicePathRelation::Parent(a.len() as usize)
    } else {
        DevicePathRelation::Child(b.len() as usize)
    }
}

/// Swapping the paths swaps parent and child and keeps the other
/// relations.
pub proof fn law_relation_swaps(a: Seq<PathNode>, b: Seq<PathNode>)
    ensures
        path_relation(b, a) == match path_relation(a, b) {
            DevicePathRelation::Parent(n) => DevicePathRelation::Child(n),
            DevicePathRelation::Child(n) => DevicePathRelation::Parent(n),
            other => other,
        },
{
    let n = if a.len() < b.len() { a.len() } else { b.len() };
    if exists|i: int| 0 <= i < n && a[i] != b[i] {
        let i = choose|i: int| 0 <= i < n && a[i] != b[i];
        assert(b[i] != a[i]);
    }
}

/// Relates two device paths node by node.
pub fn device_path_relation(a_path: &[PathNode], b_path: &[PathNode]) -> (r: DevicePathRelation)
    ensures
        r == path_relation(a_path@, b_path@),
{
    let mut i: usize = 0;
    loop
        invariant
            i <= a_path@.len(),
            i <= b_path@.len(),
            forall|x: int| 0 <= x < i ==> a_path@[x] == b_path@[x],
        decreases a_path@.len() - i,
    {
        let a_done = i >= a_path.len();
        let b_done = i >= b_path.len();
        if a_done && b_done {
            return DevicePathRelation::This;
        } else if a_done {
            return DevicePathRelation::Parent(i);
        } else if b_done {
            return DevicePathRelation::Child(i);
        }
        let a_node = a_path[i];
        let b_node = b_path[i];
        if a_node.device_type != b_node.device_type || a_node.sub_type != b_node.sub_type {
            return DevicePathRelation::Unrelated;
        }
        i = i + 1;
    }
}

/// The bytes a serialized device path takes: node lengths added up to and
/// including the end node (type 0x7F, subtype 0xFF) or a node shorter than
/// 4 bytes; `None` when a node header lies outside `s`.
pub open spec fn path_len_from(s: Seq<u8>, cur: int) -> Option<int>
    decreases s.len() - cur,
{
    if cur < 0 || cur + 4 > s.len() {
        None
    } else {
        let length = s[cur + 2] + s[cur + 3] * 256;
        if (s[cur] == 0x7Fu8 && s[cur + 1] == 0xFFu8) || length < 4 {
            Some(length)
        } else if cur + length + 4 > s.len() {
            None
        } else {
            match path_len_from(s, cur + length) {
                Some(rest) => Some(length + rest),
                None => None,
            }
        }
    }
}

/// Length of the serialized device path at the start of `bytes`.
pub fn device_path_len(bytes: &[u8]) -> (r: Option<usize>)
    requires
        bytes@.len() + 0x10000 <= usize::MAX,
    ensures
        r matches Some(n) ==> path_len_from(bytes@, 0) == Some(n as int),
        r is None ==> path_len_from(bytes@, 0) is None,
{
    let mut len: usize = 0;
    let mut cur: usize = 0;
    loop
        invariant
            bytes@.len() + 0x10000 <= usize::MAX,
            len == cur,
            cur <= bytes@.len(),
            path_len_from(bytes@, 0) == match path_len_from(bytes@, cur as int) {
                Some(rest) => Some(len + rest),
                None => None::<int>,
            },
        decreases bytes@.len() - cur,
    {
        if cur + 4 > bytes.len() {
            return None;
        }
        let type_code = bytes[cur];
        let subtype = bytes[cur + 1];
        let length = (bytes[cur + 3] as usize) * 256 + (bytes[cur + 2] as usize);
        if (type_code == 0x7F && subtype == 0xFF) || length < 4 {
            return Some(len + length);
        }
        if cur + length + 4 > bytes.len() {
            return None;
        }
        len = len + length;
        cur = cur + length;
    }
}

/// Partition offset of a block device: 0 for a partition, 2 MiB (past the
/// partition table) for a whole disk.
pub fn partition_offset(is_partition: bool) -> (r: u64)
    ensures
        r == if is_partition { 0u64 } else { 0x20_0000u64 },
{
    if is_partition {
        0
    } else {
        0x20_0000
    }
}

/// Whether a live image carries a GPT ("EFI PART" at byte 512).
pub open spec fn has_gpt(b: Seq<u8>) -> bool {
    b.len() > 520 && b[512] == 0x45u8 && b[513] == 0x46u8 && b[514] == 0x49u8 && b[515] == 0x20u8
        && b[516] == 0x50u8 && b[517] == 0x41u8 && b[518] == 0x52u8 && b[519] == 0x54u8
}

/// Partition offset of a live image: 2 MiB when it carries a GPT, else 0.
pub fn live_image_partition_offset(buffer: &[u8]) -> (r: u64)
    ensures
        r == if has_gpt(buffer@) { 0x20_0000u64 } else { 0u64 },
{
    if buffer.len() > 520 && buffer[512] == 0x45 && buffer[513] == 0x46 && buffer[514] == 0x49
        && buffer[515] == 0x20 && buffer[516] == 0x50 && buffer[517] == 0x41 && buffer[518] == 0x52
        && buffer[519] == 0x54 {
        0x20_0000
    } else {
        0
    }
}

/// The search order of disks: those on the boot device (whose path has the
/// boot partition's path below it) first, then the others, each group in
/// firmware order. `relations[i]` relates disk `i` to the boot partition.
pub open spec fn boot_first(relations: Seq<DevicePathRelation>) -> Seq<usize> {
    Seq::new(relations.len(), |i: int| i as usize).filter(
        |i: usize| relations[i as int] is Parent,
    ) + Seq::new(relations.len(), |i: int| i as usize).filter(
        |i: usize| !(relations[i as int] is Parent),
    )
}

/// Orders the disks for the search.
pub fn disk_priority_order(relations: &[DevicePathRelation]) -> (r: Vec<usize>)
    ensures
        r@ == boot_first(relations@),
{
    let ghost idx = Seq::new(relations@.len(), |i: int| i as usize);
    let ghost is_boot = |i: usize| relations@[i as int] is Parent;
    let ghost not_boot = |i: usize| !(relations@[i as int] is Parent);
    let mut boot: Vec<usize> = Vec::new();
    let mut other: Vec<usize> = Vec::new();
    let mut i: usize = 0;
    while i < relations.len()
        invariant
            i <= relations@.len(),
            idx == Seq::new(relations@.len(), |i: int| i as usize),
            is_boot == (|i: usize| relations@[i as int] is Parent),
            not_boot == (|i: usize| !(relations@[i as int] is Parent)),
            boot@ == idx.subrange(0, i as int).filter(is_boot),
            other@ == idx.subrange(0, i as int).filter(not_boot),
        decreases relations@.len() - i,
    {
        proof {
            let s = idx.subrange(0, i as int + 1);
            assert(s.drop_last() =~= idx.subrange(0, i as int));
            assert(s.last() == i);
            idx.subrange(0, i as int).lemma_filter_push(i, is_boot);
            idx.subrange(0, i as int).lemma_filter_push(i, not_boot);
            assert(idx.subrange(0, i as int).push(i) =~= s);
        }
        if let DevicePathRelation::Parent(_) = relations[i] {
            boot.push(i);
        } else {
            other.push(i);
        }
        i = i + 1;
    }
    assert(idx.subrange(0, relations@.len() as int) =~= idx);
    boot.append(&mut other);
    boot
}

/// Splitting a sequence by a predicate and its negation and putting the
/// parts back to back keeps every element, as often as before.
proof fn lemma_split_keeps_all(s: Seq<usize>, f: spec_fn(usize) -> bool, g: spec_fn(usize) -> bool)
    requires
        forall|x: usize| #[trigger] g(x) == !f(x),
    ensures
        (s.filter(f) + s.filter(g)).to_multiset() =~= s.to_multiset(),
    decreases s.len(),
{
    broadcast use vstd::seq_lib::group_to_multiset_ensures;

    lemma_multiset_commutative(s.filter(f), s.filter(g));
    if s.len() == 0 {
        assert(s.filter(f) =~= Seq::<usize>::empty());
        assert(s.filter(g) =~= Seq::<usize>::empty());
        assert(s.filter(f) + s.filter(g) =~= s);
    } else {
        let t = s.drop_last();
        let x = s.last();
        assert(t.push(x) =~= s);
        lemma_split_keeps_all(t, f, g);
        lemma_multiset_commutative(t.filter(f), t.filter(g));
        t.lemma_filter_push(x, f);
        t.lemma_filter_push(x, g);
        to_multiset_build(t, x);
        to_multiset_build(t.filter(f), x);
        to_multiset_build(t.filter(g), x);
    }
}

/// The search order holds every disk exactly once.
pub proof fn law_priority_is_permutation(relations: Seq<DevicePathRelation>)
    ensures
        boot_first(relations).to_multiset() =~= Seq::new(relations.len(), |i: int| i as usize).to_multiset(),
{
    let idx = Seq::new(relations.len(), |i: int| i as usize);
    let f = |i: usize| relations[i as int] is Parent;
    let g = |i: usize| !(relations[i as int] is Parent);
    lemma_split_keeps_all(idx, f, g);
}

} // verus!
