//! Block headers, the header store and ancestry along parent links.
//!
//! The header backend of the node is represented by [`HeaderStore`], a
//! by-hash lookup table of headers.  Ancestry is defined by following
//! `parent_hash` links through the store, and the backwards walk used by the
//! finality target selector is verified against that definition.

use vstd::prelude::*;

verus! {

/// A block number: an unsigned integer with saturating subtraction.
pub type BlockNumber = u32;

/// An opaque fixed-width block identifier.
pub type BlockHash = u64;

/// An opaque fixed-width identifier of a parachain candidate.
pub type CandidateHash = u64;

/// A block header: the fields the two subsystems read.
#[derive(Clone, Copy, PartialEq, Eq, Structural, Debug)]
pub struct Header {
    pub parent_hash: BlockHash,
    pub number: BlockNumber,
    pub state_root: BlockHash,
}

/// The hash of a header.
///
/// A stand-in digest: the protocol relies only on a header's hash being a
/// deterministic function of the header, which this mixing of the fields is.
pub open spec fn spec_header_hash(h: Header) -> BlockHash {
    h.parent_hash ^ ((h.number as u64) << 32u64) ^ h.state_root
}

/// Computes the hash of a header; the same header always hashes the same.
pub fn header_hash(h: &Header) -> (r: BlockHash)
    ensures
        r == spec_header_hash(*h),
{
    h.parent_hash ^ ((h.number as u64) << 32u64) ^ h.state_root
}

/// What a lookup of `hash` in the entries returns: the first header recorded
/// under that hash.
pub open spec fn lookup(entries: Seq<(BlockHash, Header)>, hash: BlockHash) -> Option<Header>
    decreases entries.len(),
{
    if entries.len() == 0 {
        None
    } else if entries.first().0 == hash {
        Some(entries.first().1)
    } else {
        lookup(entries.drop_first(), hash)
    }
}

/// The block number recorded in the store for `hash`, if any.
pub open spec fn number_of(entries: Seq<(BlockHash, Header)>, hash: BlockHash) -> Option<
    BlockNumber,
> {
    match lookup(entries, hash) {
        Some(h) => Some(h.number),
        None => None,
    }
}

/// `anc` is reached from `desc` by at most `k` parent links.
pub open spec fn ancestor_within(
    entries: Seq<(BlockHash, Header)>,
    desc: BlockHash,
    anc: BlockHash,
    k: nat,
) -> bool
    decreases k,
{
    desc == anc || (k > 0 && match lookup(entries, desc) {
        Some(h) => ancestor_within(entries, h.parent_hash, anc, (k - 1) as nat),
        None => false,
    })
}

/// `anc` lies on the parent chain of `desc` (or equals it).
pub open spec fn is_ancestor(
    entries: Seq<(BlockHash, Header)>,
    anc: BlockHash,
    desc: BlockHash,
) -> bool {
    exists|k: nat| ancestor_within(entries, desc, anc, k)
}

/// A well-formed store: every recorded parent sits at a strictly smaller
/// block number than its child.
pub open spec fn store_wf(entries: Seq<(BlockHash, Header)>) -> bool {
    forall|h: BlockHash|
        match #[trigger] lookup(entries, h) {
            Some(hd) => match lookup(entries, hd.parent_hash) {
                Some(p) => p.number < hd.number,
                None => true,
            },
            None => true,
        }
}

/// Reaching a block within `j` links also reaches it within any `k >= j`.
pub proof fn lemma_ancestor_within_widen(
    entries: Seq<(BlockHash, Header)>,
    desc: BlockHash,
    anc: BlockHash,
    j: nat,
    k: nat,
)
    requires
        ancestor_within(entries, desc, anc, j),
        j <= k,
    ensures
        ancestor_within(entries, desc, anc, k),
    decreases j,
{
    if desc != anc {
        let h = lookup(entries, desc).unwrap();
        lemma_ancestor_within_widen(entries, h.parent_hash, anc, (j - 1) as nat, (k - 1) as nat);
    }
}

/// Parent-link reachability composes.
pub proof fn lemma_ancestor_within_trans(
    entries: Seq<(BlockHash, Header)>,
    a: BlockHash,
    b: BlockHash,
    c: BlockHash,
    j: nat,
    k: nat,
)
    requires
        ancestor_within(entries, a, b, j),
        ancestor_within(entries, b, c, k),
    ensures
        ancestor_within(entries, a, c, j + k),
    decreases j,
{
    if a == b {
        lemma_ancestor_within_widen(entries, b, c, k, j + k);
    } else {
        let h = lookup(entries, a).unwrap();
        lemma_ancestor_within_trans(entries, h.parent_hash, b, c, (j - 1) as nat, k);
    }
}

/// In a well-formed store a strict ancestor sits at a strictly smaller
/// number.
pub proof fn lemma_ancestor_number(
    entries: Seq<(BlockHash, Header)>,
    desc: BlockHash,
    anc: BlockHash,
    k: nat,
)
    requires
        store_wf(entries),
        ancestor_within(entries, desc, anc, k),
        lookup(entries, desc) is Some,
        lookup(entries, anc) is Some,
    ensures
        desc == anc || lookup(entries, anc).unwrap().number < lookup(
            entries,
            desc,
        ).unwrap().number,
    decreases k,
{
    if desc != anc {
        let hd = lookup(entries, desc).unwrap();
        let p = hd.parent_hash;
        if p == anc {
            assert(lookup(entries, p).unwrap().number < hd.number);
        } else {
            assert(ancestor_within(entries, p, anc, (k - 1) as nat));
            assert(lookup(entries, p) is Some) by {
                assert(p != anc && ancestor_within(entries, p, anc, (k - 1) as nat));
            }
            lemma_ancestor_number(entries, p, anc, (k - 1) as nat);
            assert(lookup(entries, p).unwrap().number < hd.number);
        }
    }
}

/// Two ancestors of one block are comparable: in a well-formed store the one
/// with the smaller (or equal) number is an ancestor of the other.
pub proof fn lemma_chain_comparable(
    entries: Seq<(BlockHash, Header)>,
    leaf: BlockHash,
    a: BlockHash,
    b: BlockHash,
    j: nat,
    k: nat,
)
    requires
        store_wf(entries),
        ancestor_within(entries, leaf, a, j),
        ancestor_within(entries, leaf, b, k),
        lookup(entries, a) is Some,
        lookup(entries, b) is Some,
        lookup(entries, b).unwrap().number <= lookup(entries, a).unwrap().number,
    ensures
        is_ancestor(entries, b, a),
    decreases j,
{
    if leaf == a {
        assert(ancestor_within(entries, a, b, k));
    } else if leaf == b {
        lemma_ancestor_number(entries, leaf, a, j);
        assert(a == leaf);
        assert(ancestor_within(entries, a, b, 0));
    } else {
        let h = lookup(entries, leaf).unwrap();
        assert(ancestor_within(entries, h.parent_hash, a, (j - 1) as nat));
        assert(ancestor_within(entries, h.parent_hash, b, (k - 1) as nat));
        lemma_chain_comparable(entries, h.parent_hash, a, b, (j - 1) as nat, (k - 1) as nat);
    }
}

/// A lookup succeeds exactly when some entry carries the hash as its key.
pub proof fn lemma_lookup_key(entries: Seq<(BlockHash, Header)>, hash: BlockHash)
    ensures
        lookup(entries, hash) is Some <==> exists|i: int|
            0 <= i < entries.len() && entries[i].0 == hash,
    decreases entries.len(),
{
    if entries.len() > 0 {
        if entries.first().0 == hash {
            assert(entries[0].0 == hash);
        } else {
            lemma_lookup_key(entries.drop_first(), hash);
            if lookup(entries, hash) is Some {
                let i = choose|i: int|
                    0 <= i < entries.drop_first().len() && entries.drop_first()[i].0 == hash;
                assert(entries[i + 1].0 == hash);
            } else {
                assert forall|i: int| 0 <= i < entries.len() implies entries[i].0 != hash by {
                    if i > 0 {
                        assert(entries.drop_first()[i - 1] == entries[i]);
                    }
                }
            }
        }
    }
}

/// Ancestry composes: an ancestor of an ancestor is an ancestor.
pub proof fn lemma_is_ancestor_trans(
    entries: Seq<(BlockHash, Header)>,
    x: BlockHash,
    y: BlockHash,
    z: BlockHash,
)
    requires
        is_ancestor(entries, x, y),
        is_ancestor(entries, y, z),
    ensures
        is_ancestor(entries, x, z),
{
    let j = choose|j: nat| ancestor_within(entries, y, x, j);
    let k = choose|k: nat| ancestor_within(entries, z, y, k);
    lemma_ancestor_within_trans(entries, z, y, x, k, j);
}

/// Two ancestors of one block are comparable: the one with the smaller (or
/// equal) number is an ancestor of the other.
pub proof fn lemma_is_ancestor_comparable(
    entries: Seq<(BlockHash, Header)>,
    leaf: BlockHash,
    a: BlockHash,
    b: BlockHash,
)
    requires
        store_wf(entries),
        is_ancestor(entries, a, leaf),
        is_ancestor(entries, b, leaf),
        lookup(entries, a) is Some,
        lookup(entries, b) is Some,
        lookup(entries, b).unwrap().number <= lookup(entries, a).unwrap().number,
    ensures
        is_ancestor(entries, b, a),
{
    let j = choose|j: nat| ancestor_within(entries, leaf, a, j);
    let k = choose|k: nat| ancestor_within(entries, leaf, b, k);
    lemma_chain_comparable(entries, leaf, a, b, j, k);
}

/// The hash reached by walking backwards along parent links from a block
/// until the block at height `target` is met; `None` when a header is
/// missing on the way or the chain is malformed (a parent not below its
/// child, or the walk stepping past `target`).
pub open spec fn spec_walk(
    entries: Seq<(BlockHash, Header)>,
    cur: BlockHash,
    cur_header: Header,
    target: BlockNumber,
) -> Option<BlockHash>
    decreases cur_header.number,
{
    if cur_header.number == target {
        Some(cur)
    } else if cur_header.number < target {
        None
    } else {
        match lookup(entries, cur_header.parent_hash) {
            Some(p) => if p.number < cur_header.number {
                spec_walk(entries, cur_header.parent_hash, p, target)
            } else {
                None
            },
            None => None,
        }
    }
}

/// The header backend: a by-hash lookup table of block headers.
///
/// The real backend of a node stores headers durably; the two operations the
/// selector uses are lookups of a header and of a number by hash, and those
/// are what this table provides.
pub struct HeaderStore {
    pub entries: Vec<(BlockHash, Header)>,
}

impl View for HeaderStore {
    type V = Seq<(BlockHash, Header)>;

    open spec fn view(&self) -> Seq<(BlockHash, Header)> {
        self.entries@
    }
}

impl HeaderStore {
    /// An empty store.
    pub fn new() -> (r: HeaderStore)
        ensures
            r@ == Seq::<(BlockHash, Header)>::empty(),
    {
        HeaderStore { entries: Vec::new() }
    }

    /// Records a header under a hash.
    pub fn insert(&mut self, hash: BlockHash, header: Header)
        ensures
            final(self)@ == old(self)@.push((hash, header)),
    {
        self.entries.push((hash, header));
    }

    /// Looks a header up by hash.
    pub fn get_header(&self, hash: BlockHash) -> (r: Option<Header>)
        ensures
            r == lookup(self@, hash),
    {
        let n = self.entries.len();
        let mut i: usize = 0;
        assert(self@.skip(0) =~= self@);
        while i < n
            invariant
                0 <= i <= n,
                n == self@.len(),
                lookup(self@, hash) == lookup(self@.skip(i as int), hash),
            decreases n - i,
        {
            let (h, hd) = self.entries[i];
            if h == hash {
                assert(self@.skip(i as int).first() == self@[i as int]);
                return Some(hd);
            }
            assert(self@.skip(i as int).drop_first() =~= self@.skip(i as int + 1));
            i = i + 1;
        }
        assert(self@.skip(n as int).len() == 0);
        None
    }

    /// Walks backwards from `start_hash` along `parent_hash` links until the
    /// block at height `target_number` is reached, in `O(height difference)`
    /// lookups; `None` when a header is missing on the way or the chain is
    /// malformed.
    pub fn walk_backwards_to_target_block(
        &self,
        target_number: BlockNumber,
        start_hash: BlockHash,
        start_header: &Header,
    ) -> (r: Option<(BlockHash, BlockNumber)>)
        requires
            lookup(self@, start_hash) == Some(*start_header),
            target_number <= start_header.number,
        ensures
            match r {
                Some(p) => {
                    &&& spec_walk(self@, start_hash, *start_header, target_number) == Some(p.0)
                    &&& p.1 == target_number
                    &&& number_of(self@, p.0) == Some(target_number)
                    &&& ancestor_within(
                        self@,
                        start_hash,
                        p.0,
                        (start_header.number - target_number) as nat,
                    )
                },
                None => spec_walk(self@, start_hash, *start_header, target_number) is None,
            },
    {
        let mut cur_hash = start_hash;
        let mut cur_header = *start_header;
        while cur_header.number > target_number
            invariant
                lookup(self@, cur_hash) == Some(cur_header),
                target_number <= cur_header.number,
                cur_header.number <= start_header.number,
                ancestor_within(
                    self@,
                    start_hash,
                    cur_hash,
                    (start_header.number - cur_header.number) as nat,
                ),
                spec_walk(self@, start_hash, *start_header, target_number) == spec_walk(
                    self@,
                    cur_hash,
                    cur_header,
                    target_number,
                ),
            decreases cur_header.number,
        {
            match self.get_header(cur_header.parent_hash) {
                Some(parent) => {
                    if parent.number >= cur_header.number {
                        return None;
                    }
                    if parent.number < target_number {
                        proof {
                            assert(spec_walk(
                                self@,
                                cur_header.parent_hash,
                                parent,
                                target_number,
                            ) is None);
                            assert(spec_walk(self@, cur_hash, cur_header, target_number) is None);
                        }
                        return None;
                    }
                    proof {
                        let j = (start_header.number - cur_header.number) as nat;
                        assert(ancestor_within(self@, cur_header.parent_hash, cur_header.parent_hash, 0));
                        assert(ancestor_within(self@, cur_hash, cur_header.parent_hash, 1));
                        lemma_ancestor_within_trans(
                            self@,
                            start_hash,
                            cur_hash,
                            cur_header.parent_hash,
                            j,
                            1,
                        );
                        lemma_ancestor_within_widen(
                            self@,
                            start_hash,
                            cur_header.parent_hash,
                            j + 1,
                            (start_header.number - parent.number) as nat,
                        );
                    }
                    cur_hash = cur_header.parent_hash;
                    cur_header = parent;
                },
                None => {
                    return None;
                },
            }
        }
        Some((cur_hash, cur_header.number))
    }

    /// A duplicate of the store with the same entries.
    pub fn duplicate(&self) -> (r: HeaderStore)
        ensures
            r@ == self@,
    {
        let n = self.entries.len();
        let mut entries: Vec<(BlockHash, Header)> = Vec::new();
        let mut i: usize = 0;
        while i < n
            invariant
                0 <= i <= n,
                n == self@.len(),
                entries@ == self@.take(i as int),
            decreases n - i,
        {
            entries.push(self.entries[i]);
            assert(self@.take(i as int).push(self@[i as int]) =~= self@.take(i as int + 1));
            i = i + 1;
        }
        assert(self@.take(n as int) =~= self@);
        HeaderStore { entries }
    }
}

} // verus!
