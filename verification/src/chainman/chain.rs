//! The headers this node knows, the one it follows as the tip, and the
//! walks over them that the chain manager makes.
use vstd::prelude::*;
use crate::packets::blockheader::{BlockHeaderOwned, BlockHeaderBorrowed, BlockHeaderModel, spec_target, spec_work, spec_hash_meets_target};
use crate::util::genesis::{genesis_header, spec_is_genesis};
use crate::util::u256::lemma_le_value_zero;
use crate::util::u256::{spec_le_value, u256_modulus, u256_checked_add, u256_lt};
use crate::types::blockheaderwithnumber::BlockHeaderWithNumber;
use crate::packets::getheaders::GetHeadersOwned;
use crate::packets::payload::PayloadToSend;
use crate::util::merkle::{hash_eq, spec_hashes_view};
use crate::util::pow::{DIFFICULTY_ADJUSTMENT_INTERVAL, POW_TARGET_TIMESPAN, calculate_next_work_required, spec_next_work_required,
    law_slow_interval_keeps_easiest_bits, law_fast_interval_quarters_easiest_target};

verus! {

broadcast use vstd::seq_lib::group_seq_properties;

/// Whether `known` holds a header with hash `h`.
pub open spec fn spec_has(known: Seq<BlockHeaderWithNumber>, h: Seq<u8>) -> bool {
    exists|i: int| 0 <= i < known.len() && (#[trigger] known[i]).header.hash@ == h
}

/// Where in `known` a header with hash `h` is, when there is one.
pub open spec fn spec_lookup_index(known: Seq<BlockHeaderWithNumber>, h: Seq<u8>) -> int {
    choose|i: int| 0 <= i < known.len() && (#[trigger] known[i]).header.hash@ == h
}

/// The header of `known` with hash `h`, if there is one.
pub open spec fn spec_lookup(known: Seq<BlockHeaderWithNumber>, h: Seq<u8>) -> Option<BlockHeaderWithNumber> {
    if spec_has(known, h) {
        Some(known[spec_lookup_index(known, h)])
    } else {
        None
    }
}

/// No two headers of `known` share a hash.
pub open spec fn spec_unique(known: Seq<BlockHeaderWithNumber>) -> bool {
    forall|i: int, j: int|
        0 <= i < known.len() && 0 <= j < known.len() && (#[trigger] known[i]).header.hash@ == (#[trigger] known[j]).header.hash@
            ==> i == j
}

/// The headers of `known` link up: each one above the genesis height has
/// its parent known, one height below it; no height is the largest `u64`.
pub open spec fn spec_linked(known: Seq<BlockHeaderWithNumber>) -> bool {
    &&& forall|i: int| 0 <= i < known.len() && (#[trigger] known[i]).number > 0 ==> spec_has(known, known[i].header.parent@)
    &&& forall|i: int, j: int|
        0 <= i < known.len() && 0 <= j < known.len() && known[i].number > 0
            && (#[trigger] known[j]).header.hash@ == (#[trigger] known[i]).header.parent@
            ==> known[j].number + 1 == known[i].number
    &&& forall|i: int| 0 <= i < known.len() ==> (#[trigger] known[i]).number < u64::MAX
}

/// `e` is one of the headers of `known`.
pub open spec fn spec_in(known: Seq<BlockHeaderWithNumber>, e: BlockHeaderWithNumber) -> bool {
    exists|i: int| 0 <= i < known.len() && known[i] == e
}

/// The ancestor of `e` at `height` (`e` itself when it is not above it),
/// walking parent links through `known`.
pub open spec fn spec_ancestor(known: Seq<BlockHeaderWithNumber>, e: BlockHeaderWithNumber, height: u64) -> Option<BlockHeaderWithNumber>
    decreases e.number,
{
    if e.number <= height {
        Some(e)
    } else {
        match spec_lookup(known, e.header.parent@) {
            Some(p) => if p.number < e.number {
                spec_ancestor(known, p, height)
            } else {
                None
            },
            None => None,
        }
    }
}

/// The headers a block explorer knows, and the one it follows as the tip.
pub struct Chain {
    pub top_header: BlockHeaderWithNumber,
    pub known_headers: Vec<BlockHeaderWithNumber>,
    pub most_work_chain: Vec<[u8; 32]>,
}

/// The hashes a list holds, as a set.
pub open spec fn spec_hash_set(v: Seq<[u8; 32]>) -> Set<Seq<u8>> {
    Set::new(|h: Seq<u8>| exists|i: int| 0 <= i < v.len() && (#[trigger] v[i])@ == h)
}

/// The blocks leaving and joining the most-work chain.
pub struct HeaderApplicationResult {
    pub removed_blocks: Vec<[u8; 32]>,
    pub added_blocks: Vec<[u8; 32]>,
}

impl Chain {
    /// The known headers.
    pub open spec fn known(&self) -> Seq<BlockHeaderWithNumber> {
        self.known_headers@
    }

    /// The chain's invariant: hashes are unique, headers link up, and the
    /// tip is one of the known headers.
    pub open spec fn wf(&self) -> bool {
        &&& spec_unique(self.known())
        &&& spec_linked(self.known())
        &&& spec_in(self.known(), self.top_header)
    }
}

/// Looking a header up by a hash it has gives it.
pub proof fn lemma_lookup_index(known: Seq<BlockHeaderWithNumber>, i: int)
    requires
        spec_unique(known),
        0 <= i < known.len(),
    ensures
        spec_lookup(known, known[i].header.hash@) == Some(known[i]),
{
    let h = known[i].header.hash@;
    assert(spec_has(known, h));
    let j = spec_lookup_index(known, h);
    assert(known[j].header.hash@ == known[i].header.hash@);
}

/// A header found by hash is one of the known headers, with that hash.
pub proof fn lemma_lookup_found(known: Seq<BlockHeaderWithNumber>, h: Seq<u8>)
    requires
        spec_has(known, h),
    ensures
        spec_lookup(known, h) matches Some(e) && spec_in(known, e) && e.header.hash@ == h,
{
    let j = spec_lookup_index(known, h);
    assert(0 <= j < known.len() && known[j].header.hash@ == h);
    assert(spec_lookup(known, h) == Some(known[j]));
    assert(spec_in(known, known[j]));
}

/// Under the invariant, every known header has an ancestor at every height
/// up to its own, and that ancestor is known and at that height.
pub proof fn lemma_ancestor_exists(known: Seq<BlockHeaderWithNumber>, e: BlockHeaderWithNumber, height: u64)
    requires
        spec_unique(known),
        spec_linked(known),
        spec_in(known, e),
    ensures
        spec_ancestor(known, e, height) matches Some(a) && spec_in(known, a)
            && a.number == (if e.number <= height { e.number } else { height }),
    decreases e.number,
{
    if e.number > height {
        let i = choose|i: int| 0 <= i < known.len() && known[i] == e;
        assert(known[i].number > 0);
        assert(spec_has(known, e.header.parent@));
        lemma_lookup_found(known, e.header.parent@);
        let p = spec_lookup(known, e.header.parent@).unwrap();
        let j = choose|j: int| 0 <= j < known.len() && known[j] == p;
        assert(known[j].header.hash@ == known[i].header.parent@);
        assert(p.number + 1 == e.number);
        lemma_ancestor_exists(known, p, height);
    }
}

impl Chain {
    /// Where the header with hash `h` is in `known_headers`.
    pub fn find(&self, h: &[u8; 32]) -> (r: Option<usize>)
        ensures
            match r {
                Some(i) => i < self.known().len() && self.known()[i as int].header.hash@ == h@,
                None => !spec_has(self.known(), h@),
            },
    {
        let mut i: usize = 0;
        while i < self.known_headers.len()
            invariant
                i <= self.known().len(),
                forall|j: int| 0 <= j < i ==> (#[trigger] self.known()[j]).header.hash@ != h@,
            decreases self.known().len() - i,
        {
            if hash_eq(&self.known_headers[i].header.hash, h) {
                return Some(i);
            }
            i = i + 1;
        }
        None
    }

    /// The known header with hash `h`.
    pub fn lookup(&self, h: &[u8; 32]) -> (r: Option<BlockHeaderWithNumber>)
        requires
            spec_unique(self.known()),
        ensures
            r == spec_lookup(self.known(), h@),
    {
        match self.find(h) {
            Some(i) => {
                proof {
                    lemma_lookup_index(self.known(), i as int);
                }
                Some(self.known_headers[i])
            },
            None => None,
        }
    }

    /// The ancestor of `header` at `height`, or `header` itself when it is
    /// not above that height. Above it, the walk starts at `header`'s
    /// parent, so `header` itself need not be known; it fails when the
    /// parent is not known.
    pub fn get_ancestor(&self, header: &BlockHeaderWithNumber, height: u64) -> (r: Option<BlockHeaderWithNumber>)
        requires
            self.wf(),
        ensures
            r == spec_ancestor_from(self.known(), *header, height),
            header.number <= height ==> r == Some(*header),
            header.number > height ==> (r is Some <==> spec_has(self.known(), header.header.parent@)),
            r matches Some(a) ==> a == *header || spec_in(self.known(), a),
            spec_in(self.known(), *header) ==> (r matches Some(a) && spec_in(self.known(), a)
                && a.number == (if header.number <= height { header.number } else { height })),
    {
        proof {
            if spec_in(self.known(), *header) {
                lemma_ancestor_from_known(self.known(), *header, height);
                lemma_ancestor_exists(self.known(), *header, height);
            }
        }
        if header.number <= height {
            return Some(*header);
        }
        let mut top = match self.lookup(&header.header.parent) {
            Some(p) => p,
            None => return None,
        };
        proof {
            lemma_lookup_found(self.known(), header.header.parent@);
            lemma_ancestor_exists(self.known(), top, height);
        }
        while top.number > height
            invariant
                self.wf(),
                spec_in(self.known(), top),
                spec_ancestor_from(self.known(), *header, height) == spec_ancestor(self.known(), top, height),
            decreases top.number,
        {
            proof {
                lemma_ancestor_exists(self.known(), top, height);
            }
            match self.lookup(&top.header.parent) {
                Some(next) => {
                    proof {
                        lemma_lookup_found(self.known(), top.header.parent@);
                        let i = choose|i: int| 0 <= i < self.known().len() && self.known()[i] == top;
                        let j = choose|j: int| 0 <= j < self.known().len() && self.known()[j] == next;
                        assert(self.known()[j].header.hash@ == self.known()[i].header.parent@);
                    }
                    top = next;
                },
                None => {
                    return None;
                },
            }
        }
        Some(top)
    }

    /// The bits the header after `header` must carry: the same bits, except
    /// after the last block of an adjustment interval, where they follow
    /// from how long the interval took, which needs the interval's first
    /// header.
    pub fn get_next_bits_required(&self, header: &BlockHeaderWithNumber) -> (r: u32)
        requires
            self.wf(),
            header.number < u64::MAX,
            (header.number + 1) % (DIFFICULTY_ADJUSTMENT_INTERVAL as int) == 0 ==>
                spec_ancestor_from(self.known(), *header, (header.number - (DIFFICULTY_ADJUSTMENT_INTERVAL - 1)) as u64) is Some,
        ensures
            r == spec_next_bits(self.known(), *header),
    {
        if (header.number + 1) % DIFFICULTY_ADJUSTMENT_INTERVAL != 0 {
            return header.header.bits;
        }
        let first_height = header.number - (DIFFICULTY_ADJUSTMENT_INTERVAL - 1);
        let first_header = self.get_ancestor(header, first_height).unwrap();
        calculate_next_work_required(header.header.timestamp, first_header.header.timestamp, header.header.bits)
    }
}

/// The ancestor of `e` at `height` (`e` itself when it is not above it):
/// above it, the walk goes on from `e`'s parent in `known`.
pub open spec fn spec_ancestor_from(known: Seq<BlockHeaderWithNumber>, e: BlockHeaderWithNumber, height: u64) -> Option<BlockHeaderWithNumber> {
    if e.number <= height {
        Some(e)
    } else {
        match spec_lookup(known, e.header.parent@) {
            Some(p) => spec_ancestor(known, p, height),
            None => None,
        }
    }
}

/// For a known header, starting the walk at its parent finds the same ancestor.
pub proof fn lemma_ancestor_from_known(known: Seq<BlockHeaderWithNumber>, e: BlockHeaderWithNumber, height: u64)
    requires
        spec_unique(known),
        spec_linked(known),
        spec_in(known, e),
    ensures
        spec_ancestor_from(known, e, height) == spec_ancestor(known, e, height),
{
    if e.number > height {
        lemma_parent_step(known, e);
    }
}

/// The bits the header after `e` must carry.
pub open spec fn spec_next_bits(known: Seq<BlockHeaderWithNumber>, e: BlockHeaderWithNumber) -> u32 {
    if (e.number + 1) % (DIFFICULTY_ADJUSTMENT_INTERVAL as int) != 0 {
        e.header.bits
    } else {
        let first = spec_ancestor_from(known, e, (e.number - (DIFFICULTY_ADJUSTMENT_INTERVAL - 1)) as u64).unwrap();
        spec_next_work_required(e.header.timestamp, first.header.timestamp, e.header.bits)
    }
}

/// Away from the end of an adjustment interval, the next header carries the
/// same bits as `e`.
pub proof fn law_bits_kept_within_interval(known: Seq<BlockHeaderWithNumber>, e: BlockHeaderWithNumber)
    requires
        (e.number + 1) % (DIFFICULTY_ADJUSTMENT_INTERVAL as int) != 0,
    ensures
        spec_next_bits(known, e) == e.header.bits,
{
}

/// At the end of an adjustment interval whose last block `e` came at least
/// two weeks after its first (the ancestor `2015` blocks below it), at the
/// easiest bits, the next header must carry the easiest bits again: blocks
/// that came slower than meant never make the target harder.
pub proof fn law_retarget_after_slow_interval(known: Seq<BlockHeaderWithNumber>, e: BlockHeaderWithNumber)
    requires
        spec_unique(known),
        spec_linked(known),
        spec_in(known, e),
        (e.number + 1) % (DIFFICULTY_ADJUSTMENT_INTERVAL as int) == 0,
        e.header.bits == 0x1d00ffff,
        spec_ancestor(known, e, (e.number - (DIFFICULTY_ADJUSTMENT_INTERVAL - 1)) as u64) matches Some(first)
            && e.header.timestamp as int - first.header.timestamp as int >= POW_TARGET_TIMESPAN,
    ensures
        spec_next_bits(known, e) == 0x1d00ffff,
{
    let h = (e.number - (DIFFICULTY_ADJUSTMENT_INTERVAL - 1)) as u64;
    lemma_ancestor_from_known(known, e, h);
    let first = spec_ancestor(known, e, h).unwrap();
    law_slow_interval_keeps_easiest_bits(e.header.timestamp, first.header.timestamp);
}

/// At the end of an adjustment interval whose last block `e` came at most
/// half a week after its first (the ancestor `2015` blocks below it), at the
/// easiest bits, the next header must carry bits four times harder,
/// `0x1c3fffc0`, and no harder.
pub proof fn law_retarget_after_fast_interval(known: Seq<BlockHeaderWithNumber>, e: BlockHeaderWithNumber)
    requires
        spec_unique(known),
        spec_linked(known),
        spec_in(known, e),
        (e.number + 1) % (DIFFICULTY_ADJUSTMENT_INTERVAL as int) == 0,
        e.header.bits == 0x1d00ffff,
        spec_ancestor(known, e, (e.number - (DIFFICULTY_ADJUSTMENT_INTERVAL - 1)) as u64) matches Some(first)
            && e.header.timestamp as int - first.header.timestamp as int <= POW_TARGET_TIMESPAN / 4,
    ensures
        spec_next_bits(known, e) == 0x1c3fffc0,
{
    let h = (e.number - (DIFFICULTY_ADJUSTMENT_INTERVAL - 1)) as u64;
    lemma_ancestor_from_known(known, e, h);
    let first = spec_ancestor(known, e, h).unwrap();
    law_fast_interval_quarters_easiest_target(e.header.timestamp, first.header.timestamp);
}

/// How many blocks are downloaded below and including `e`: blocks are
/// applied in order, so the first header found fetched, walking down from
/// `e`, is the last downloaded one.
pub open spec fn spec_downloaded(known: Seq<BlockHeaderWithNumber>, e: BlockHeaderWithNumber) -> u64
    decreases e.number,
{
    if e.fetched_full {
        (e.number + 1) as u64
    } else if e.number == 0 {
        0
    } else {
        match spec_lookup(known, e.header.parent@) {
            Some(p) => if p.number < e.number {
                spec_downloaded(known, p)
            } else {
                0
            },
            None => 0,
        }
    }
}

/// The hash of the highest downloaded block at or below `e`.
pub open spec fn spec_top_downloaded(known: Seq<BlockHeaderWithNumber>, e: BlockHeaderWithNumber) -> Option<Seq<u8>>
    decreases e.number,
{
    if e.fetched_full {
        Some(e.header.hash@)
    } else if e.number == 0 {
        None
    } else {
        match spec_lookup(known, e.header.parent@) {
            Some(p) => if p.number < e.number {
                spec_top_downloaded(known, p)
            } else {
                None
            },
            None => None,
        }
    }
}

/// The blocks to download to reach `e`, lowest first, and the height of the
/// first: `e`, then its ancestors down to the first one already downloaded
/// (which is left out) or down to the genesis header.
pub open spec fn spec_download_path(known: Seq<BlockHeaderWithNumber>, e: BlockHeaderWithNumber) -> (Seq<Seq<u8>>, u64)
    decreases e.number,
{
    if e.number == 0 {
        (seq![e.header.hash@], e.number)
    } else {
        match spec_lookup(known, e.header.parent@) {
            Some(p) => if p.number < e.number && !p.fetched_full {
                let (path, first) = spec_download_path(known, p);
                (path.push(e.header.hash@), first)
            } else {
                (seq![e.header.hash@], e.number)
            },
            None => (seq![e.header.hash@], e.number),
        }
    }
}

/// The parent of a known header above the genesis height is known and one below it.
proof fn lemma_parent_step(known: Seq<BlockHeaderWithNumber>, e: BlockHeaderWithNumber)
    requires
        spec_unique(known),
        spec_linked(known),
        spec_in(known, e),
        e.number > 0,
    ensures
        spec_lookup(known, e.header.parent@) matches Some(p) && spec_in(known, p) && p.number + 1 == e.number
            && p.header.hash@ == e.header.parent@,
{
    let i = choose|i: int| 0 <= i < known.len() && known[i] == e;
    assert(known[i].number > 0);
    lemma_lookup_found(known, e.header.parent@);
    let p = spec_lookup(known, e.header.parent@).unwrap();
    let j = choose|j: int| 0 <= j < known.len() && known[j] == p;
    assert(known[j].header.hash@ == known[i].header.parent@);
}

/// The list `v` in the opposite order.
fn reversed(v: &Vec<[u8; 32]>) -> (r: Vec<[u8; 32]>)
    ensures
        r@ == v@.reverse(),
{
    let mut out: Vec<[u8; 32]> = Vec::new();
    let mut i: usize = v.len();
    while i > 0
        invariant
            i <= v@.len(),
            out@ == v@.subrange(i as int, v@.len() as int).reverse(),
        decreases i,
    {
        i = i - 1;
        out.push(v[i]);
        assert(out@ =~= v@.subrange(i as int, v@.len() as int).reverse());
    }
    assert(v@.subrange(0, v@.len() as int) =~= v@);
    out
}

impl Chain {
    /// How many blocks of the followed chain are downloaded.
    pub fn calculate_downloaded_blocks(&self) -> (r: u64)
        requires
            self.wf(),
        ensures
            r == spec_downloaded(self.known(), self.top_header),
    {
        let mut last = self.top_header;
        loop
            invariant
                self.wf(),
                spec_in(self.known(), last),
                spec_downloaded(self.known(), self.top_header) == spec_downloaded(self.known(), last),
            decreases last.number,
        {
            if last.fetched_full {
                proof {
                    let i = choose|i: int| 0 <= i < self.known().len() && self.known()[i] == last;
                    assert(self.known()[i].number < u64::MAX);
                }
                return last.number + 1;
            }
            if last.number == 0 {
                return 0;
            }
            proof {
                lemma_parent_step(self.known(), last);
            }
            last = self.lookup(&last.header.parent).unwrap();
        }
    }

    /// The hash of the highest downloaded block of the followed chain.
    pub fn get_top_downloaded_block_hash(&self) -> (r: Option<[u8; 32]>)
        requires
            self.wf(),
        ensures
            match r {
                Some(h) => spec_top_downloaded(self.known(), self.top_header) == Some(h@),
                None => spec_top_downloaded(self.known(), self.top_header) is None,
            },
    {
        let mut last = self.top_header;
        loop
            invariant
                self.wf(),
                spec_in(self.known(), last),
                spec_top_downloaded(self.known(), self.top_header) == spec_top_downloaded(self.known(), last),
            decreases last.number,
        {
            if last.fetched_full {
                return Some(last.header.hash);
            }
            if last.number == 0 {
                return None;
            }
            proof {
                lemma_parent_step(self.known(), last);
            }
            last = self.lookup(&last.header.parent).unwrap();
        }
    }

    /// The blocks to download, lowest first, with the height of the first;
    /// `None` when `downloaded` blocks already reach past the tip.
    pub fn get_block_hashes_to_download(&self, downloaded: u64) -> (r: Option<(Vec<[u8; 32]>, u64)>)
        requires
            self.wf(),
        ensures
            downloaded > self.top_header.number ==> r is None,
            downloaded <= self.top_header.number ==> (r matches Some((v, first))
                && (spec_hashes_view(v@), first) == spec_download_path(self.known(), self.top_header)),
    {
        if downloaded > self.top_header.number {
            return None;
        }
        let ghost target = spec_download_path(self.known(), self.top_header);
        let mut all: Vec<[u8; 32]> = Vec::new();
        let mut c = self.top_header;
        let mut last_added: u64 = 0;
        loop
            invariant_except_break
                target.1 == spec_download_path(self.known(), c).1,
                target.0 == spec_download_path(self.known(), c).0 + spec_hashes_view(all@).reverse(),
            invariant
                self.wf(),
                spec_in(self.known(), c),
            ensures
                target.0 == spec_hashes_view(all@).reverse(),
                target.1 == last_added,
            decreases c.number,
        {
            let ghost prev = spec_hashes_view(all@);
            all.push(c.header.hash);
            assert(spec_hashes_view(all@) =~= prev.push(c.header.hash@));
            assert(spec_hashes_view(all@).reverse() =~= seq![c.header.hash@] + prev.reverse());
            if c.number == 0 {
                last_added = c.number;
                break;
            }
            proof {
                lemma_parent_step(self.known(), c);
            }
            let p = self.lookup(&c.header.parent).unwrap();
            if p.fetched_full {
                last_added = c.number;
                break;
            }
            assert(spec_download_path(self.known(), c).0 =~= spec_download_path(self.known(), p).0.push(c.header.hash@));
            assert(spec_download_path(self.known(), p).0.push(c.header.hash@) + prev.reverse()
                =~= spec_download_path(self.known(), p).0 + (seq![c.header.hash@] + prev.reverse()));
            c = p;
        }
        let out = reversed(&all);
        assert(spec_hashes_view(out@) =~= spec_hashes_view(all@).reverse());
        Some((out, last_added))
    }
}

/// Why a header was not applied.
#[derive(Debug, Clone, Copy, PartialEq, Eq)]
pub enum ChainError {
    /// Its parent is not known.
    MissingParent,
    /// Its bits are not the ones its parent calls for.
    InvalidDifficultyTransition { expected: u32, got: u32 },
    /// Its bits give a target of zero, which no work can meet.
    ZeroTarget,
    /// The work of its chain does not fit in 256 bits.
    WorkOverflow,
    /// Its height would be the largest `u64`.
    HeightOverflow,
}

/// Walking down from `a` on the new branch and `b` on the old one until
/// they meet: the hashes of the new branch passed on the way, highest
/// first. The higher cursor steps down first; at equal heights the new
/// branch's header is recorded and both step down.
pub open spec fn spec_fork_walk(known: Seq<BlockHeaderWithNumber>, a: BlockHeaderWithNumber, b: BlockHeaderWithNumber) -> Seq<Seq<u8>>
    decreases a.number + b.number,
{
    if a.header.hash@ == b.header.hash@ {
        Seq::empty()
    } else if a.number < b.number {
        match spec_lookup(known, b.header.parent@) {
            Some(pb) => if pb.number < b.number {
                spec_fork_walk(known, a, pb)
            } else {
                Seq::empty()
            },
            None => Seq::empty(),
        }
    } else if a.number == 0 {
        seq![a.header.hash@]
    } else {
        match spec_lookup(known, a.header.parent@) {
            Some(pa) => if pa.number < a.number {
                seq![a.header.hash@] + spec_fork_walk(known, pa, b)
            } else {
                seq![a.header.hash@]
            },
            None => seq![a.header.hash@],
        }
    }
}

/// `n` is the entry a header gets under parent `p`: one height above it,
/// not downloaded, with the parent's total work plus its own.
pub open spec fn spec_child_entry(n: BlockHeaderWithNumber, header: BlockHeaderOwned, p: BlockHeaderWithNumber) -> bool {
    &&& n.header == header
    &&& n.number == p.number + 1
    &&& !n.fetched_full
    &&& spec_le_value(n.total_work@) == spec_le_value(p.total_work@) + spec_work(header.bits)
}

/// Why `header` cannot be applied to a chain knowing `known`: `None` when it
/// is already known or can be added. Its parent must be known, it must carry
/// the bits its parent calls for, those bits must give a target above zero,
/// and its chain's work and height must stay in range.
pub open spec fn spec_header_error(known: Seq<BlockHeaderWithNumber>, header: BlockHeaderModel) -> Option<ChainError> {
    if spec_has(known, header.hash) {
        None
    } else if !spec_has(known, header.parent) {
        Some(ChainError::MissingParent)
    } else {
        let p = spec_lookup(known, header.parent).unwrap();
        let expected = spec_next_bits(known, p);
        if expected != header.bits {
            Some(ChainError::InvalidDifficultyTransition { expected, got: header.bits })
        } else if spec_target(header.bits) == 0 {
            Some(ChainError::ZeroTarget)
        } else if spec_le_value(p.total_work@) + spec_work(header.bits) >= u256_modulus() {
            Some(ChainError::WorkOverflow)
        } else if p.number + 1 == u64::MAX {
            Some(ChainError::HeightOverflow)
        } else {
            None
        }
    }
}

impl Chain {
    /// Adds `header` to the known headers and moves the tip to it when its
    /// chain has more work than the tip's. Already known headers are ignored.
    /// Returns the blocks to download and apply, lowest first: none while
    /// syncing headers or when the tip stays; the new tip when it extends
    /// the old one; on a fork, the new branch from just above the last
    /// block it shares with the old one. On an error nothing changes.
    pub fn validate_and_apply_header_inner(&mut self, header: BlockHeaderOwned, is_headersync: bool) -> (r: Result<Option<Vec<[u8; 32]>>, ChainError>)
        requires
            old(self).wf(),
        ensures
            final(self).wf(),
            final(self).most_work_chain == old(self).most_work_chain,
            old(self).known().is_prefix_of(final(self).known()),
            spec_le_value(final(self).top_header.total_work@) >= spec_le_value(old(self).top_header.total_work@),
            r is Ok ==> spec_has(final(self).known(), header.hash@),
            is_headersync ==> !(r matches Ok(Some(_))),
            final(self).known() == old(self).known() || (final(self).known() == old(self).known().push(final(self).known().last())
                && final(self).known().last().header == header),
            ({
                let k = old(self).known();
                let t = old(self).top_header;
                let kf = final(self).known();
                let tf = final(self).top_header;
                match spec_header_error(k, header@) {
                    Some(e) => r == Err::<Option<Vec<[u8; 32]>>, ChainError>(e) && kf == k && tf == t,
                    None => if spec_has(k, header.hash@) {
                        r == Ok::<Option<Vec<[u8; 32]>>, ChainError>(None) && kf == k && tf == t
                    } else {
                        let p = spec_lookup(k, header.parent@).unwrap();
                        let n = kf.last();
                        &&& kf == k.push(n)
                        &&& spec_child_entry(n, header, p)
                        &&& if spec_le_value(n.total_work@) <= spec_le_value(t.total_work@) {
                            r == Ok::<Option<Vec<[u8; 32]>>, ChainError>(None) && tf == t
                        } else if is_headersync {
                            r == Ok::<Option<Vec<[u8; 32]>>, ChainError>(None) && tf == n
                        } else if header.parent@ == t.header.hash@ {
                            &&& tf == n
                            &&& r matches Ok(Some(v)) && spec_hashes_view(v@) == seq![header.hash@]
                        } else {
                            &&& tf == n
                            &&& r matches Ok(Some(v))
                                && spec_hashes_view(v@) == (seq![header.hash@] + spec_fork_walk(kf, p, t)).reverse()
                        }
                    },
                }
            }),
    {
        let ghost k = self.known();
        if self.find(&header.hash).is_some() {
            return Ok(None);
        }
        let parent = match self.lookup(&header.parent) {
            Some(p) => p,
            None => return Err(ChainError::MissingParent),
        };
        proof {
            lemma_lookup_found(k, header.parent@);
            let pi = choose|pi: int| 0 <= pi < k.len() && k[pi] == parent;
            assert(k[pi].number < u64::MAX);
            lemma_ancestor_from_known(k, parent, (parent.number - (DIFFICULTY_ADJUSTMENT_INTERVAL - 1)) as u64);
            lemma_ancestor_exists(k, parent, (parent.number - (DIFFICULTY_ADJUSTMENT_INTERVAL - 1)) as u64);
        }
        let expected_bits = self.get_next_bits_required(&parent);
        if expected_bits != header.bits {
            return Err(ChainError::InvalidDifficultyTransition { expected: expected_bits, got: header.bits });
        }
        if !target_positive(header.bits) {
            return Err(ChainError::ZeroTarget);
        }
        let work = header.get_work();
        let new_total_work = match u256_checked_add(&parent.total_work, &work) {
            Some(w) => w,
            None => return Err(ChainError::WorkOverflow),
        };
        if parent.number + 1 == u64::MAX {
            return Err(ChainError::HeightOverflow);
        }
        let new_header = BlockHeaderWithNumber {
            header,
            number: parent.number + 1,
            fetched_full: false,
            total_work: new_total_work,
        };
        self.known_headers.push(new_header);
        proof {
            lemma_push_child(k, new_header, parent);
            lemma_in_push(k, new_header, self.top_header);
        }
        assert(self.known() == k.push(new_header));
        if !u256_lt(&self.top_header.total_work, &new_header.total_work) {
            return Ok(None);
        }
        if is_headersync {
            self.top_header = new_header;
            return Ok(None);
        }
        if hash_eq(&new_header.header.parent, &self.top_header.header.hash) {
            self.top_header = new_header;
            let mut v: Vec<[u8; 32]> = Vec::new();
            v.push(new_header.header.hash);
            assert(spec_hashes_view(v@) =~= seq![header.hash@]);
            return Ok(Some(v));
        }
        let old_top = self.top_header;
        self.top_header = new_header;
        let path = self.fork_path(new_header, parent, old_top);
        Ok(Some(path))
    }

    /// The blocks of the branch ending in `new_header`, lowest first, from
    /// just above the last block it shares with the branch ending in `old_top`.
    fn fork_path(&self, new_header: BlockHeaderWithNumber, parent: BlockHeaderWithNumber, old_top: BlockHeaderWithNumber) -> (r: Vec<[u8; 32]>)
        requires
            self.wf(),
            spec_in(self.known(), parent),
            spec_in(self.known(), old_top),
        ensures
            spec_hashes_view(r@) == (seq![new_header.header.hash@] + spec_fork_walk(self.known(), parent, old_top)).reverse(),
    {
        let ghost whole = seq![new_header.header.hash@] + spec_fork_walk(self.known(), parent, old_top);
        let mut visited: Vec<[u8; 32]> = Vec::new();
        visited.push(new_header.header.hash);
        assert(spec_hashes_view(visited@) =~= seq![new_header.header.hash@]);
        let mut a = parent;
        let mut b = old_top;
        loop
            invariant_except_break
                whole == spec_hashes_view(visited@) + spec_fork_walk(self.known(), a, b),
            invariant
                self.wf(),
                spec_in(self.known(), a),
                spec_in(self.known(), b),
            ensures
                whole == spec_hashes_view(visited@),
            decreases a.number + b.number,
        {
            let ghost before = spec_hashes_view(visited@);
            if hash_eq(&a.header.hash, &b.header.hash) {
                assert(before + Seq::<Seq<u8>>::empty() =~= before);
                break;
            }
            if a.number < b.number {
                proof {
                    lemma_parent_step(self.known(), b);
                }
                b = self.lookup(&b.header.parent).unwrap();
            } else {
                visited.push(a.header.hash);
                assert(spec_hashes_view(visited@) =~= before.push(a.header.hash@));
                if a.number == 0 {
                    assert(before + seq![a.header.hash@] =~= before.push(a.header.hash@));
                    break;
                }
                proof {
                    lemma_parent_step(self.known(), a);
                }
                let pa = self.lookup(&a.header.parent).unwrap();
                assert(before + (seq![a.header.hash@] + spec_fork_walk(self.known(), pa, b))
                    =~= before.push(a.header.hash@) + spec_fork_walk(self.known(), pa, b));
                a = pa;
            }
        }
        let out = reversed(&visited);
        assert(spec_hashes_view(out@) =~= spec_hashes_view(visited@).reverse());
        out
    }
}

/// A header pushed under a known parent, with a hash not yet known, keeps
/// the headers unique and linked.
proof fn lemma_push_child(known: Seq<BlockHeaderWithNumber>, n: BlockHeaderWithNumber, p: BlockHeaderWithNumber)
    requires
        spec_unique(known),
        spec_linked(known),
        !spec_has(known, n.header.hash@),
        spec_lookup(known, n.header.parent@) == Some(p),
        spec_in(known, p),
        n.number == p.number + 1,
        n.number < u64::MAX,
    ensures
        spec_unique(known.push(n)),
        spec_linked(known.push(n)),
        forall|h: Seq<u8>| spec_has(known, h) ==> spec_has(known.push(n), h),
        forall|h: Seq<u8>| #[trigger] spec_has(known, h) ==> spec_lookup(known.push(n), h) == spec_lookup(known, h),
{
    let k2 = known.push(n);
    assert forall|h: Seq<u8>| spec_has(known, h) implies spec_has(k2, h) by {
        let i = choose|i: int| 0 <= i < known.len() && (#[trigger] known[i]).header.hash@ == h;
        assert(k2[i] == known[i]);
    }
    assert forall|i: int, j: int|
        0 <= i < k2.len() && 0 <= j < k2.len() && (#[trigger] k2[i]).header.hash@ == (#[trigger] k2[j]).header.hash@
        implies i == j by {
        if i < known.len() && j < known.len() {
            assert(known[i] == k2[i] && known[j] == k2[j]);
        } else if i < known.len() {
            assert(known[i].header.hash@ == n.header.hash@);
        } else if j < known.len() {
            assert(known[j].header.hash@ == n.header.hash@);
        }
    }
    assert forall|h: Seq<u8>| #[trigger] spec_has(known, h) implies spec_lookup(k2, h) == spec_lookup(known, h) by {
        let i = spec_lookup_index(known, h);
        assert(known[i] == k2[i]);
        lemma_lookup_index(known, i);
        lemma_lookup_index(k2, i);
    }
    assert forall|i: int| 0 <= i < k2.len() && (#[trigger] k2[i]).number > 0 implies spec_has(k2, k2[i].header.parent@) by {
        if i < known.len() {
            assert(known[i] == k2[i]);
        } else {
            lemma_lookup_found(known, n.header.parent@);
        }
    }
    assert forall|i: int, j: int|
        0 <= i < k2.len() && 0 <= j < k2.len() && k2[i].number > 0
            && (#[trigger] k2[j]).header.hash@ == (#[trigger] k2[i]).header.parent@
        implies k2[j].number + 1 == k2[i].number by {
        if i < known.len() && j < known.len() {
            assert(known[i] == k2[i] && known[j] == k2[j]);
        } else if i < known.len() {
            assert(known[i] == k2[i]);
            assert(spec_has(known, known[i].header.parent@));
            let jj = choose|jj: int| 0 <= jj < known.len() && (#[trigger] known[jj]).header.hash@ == known[i].header.parent@;
            assert(known[jj].header.hash@ == n.header.hash@);
        } else if j < known.len() {
            assert(known[j] == k2[j]);
            lemma_lookup_found(known, n.header.parent@);
            let pi = choose|pi: int| 0 <= pi < known.len() && known[pi] == p;
            assert(spec_lookup_index(known, n.header.parent@) == spec_lookup_index(known, n.header.parent@));
            let li = spec_lookup_index(known, n.header.parent@);
            assert(known[li].header.hash@ == known[j].header.hash@);
            assert(li == j);
        } else {
            assert(n.header.parent@ == n.header.hash@);
            lemma_lookup_found(known, n.header.parent@);
            assert(spec_has(known, n.header.hash@));
        }
    }
    assert forall|i: int| 0 <= i < k2.len() implies (#[trigger] k2[i]).number < u64::MAX by {
        if i < known.len() {
            assert(known[i] == k2[i]);
        }
    }
}

/// A header pushed onto `known` leaves every known header known.
proof fn lemma_in_push(known: Seq<BlockHeaderWithNumber>, n: BlockHeaderWithNumber, e: BlockHeaderWithNumber)
    requires
        spec_in(known, e),
    ensures
        spec_in(known.push(n), e),
        spec_in(known.push(n), n),
{
    let i = choose|i: int| 0 <= i < known.len() && known[i] == e;
    assert(known.push(n)[i] == e);
    assert(known.push(n)[known.len() as int] == n);
}

/// A header known in a list stays known in any list that starts with it.
pub proof fn lemma_has_prefix(a: Seq<BlockHeaderWithNumber>, b: Seq<BlockHeaderWithNumber>, h: Seq<u8>)
    requires
        a.is_prefix_of(b),
        spec_has(a, h),
    ensures
        spec_has(b, h),
{
    let i = choose|i: int| 0 <= i < a.len() && (#[trigger] a[i]).header.hash@ == h;
    assert(b[i] == a[i]);
}

/// `h` is one of the first `n` of `headers`.
pub open spec fn spec_among_first(h: BlockHeaderModel, headers: Seq<BlockHeaderBorrowed>, n: int) -> bool {
    exists|j: int| 0 <= j < n && (#[trigger] headers[j])@ == h
}

/// Every header added past `base` came from the first `i` of `headers`; so
/// it stays after one more header, `headers[i]`, adds at most itself.
proof fn lemma_added_from_headers(base: int, before: Seq<BlockHeaderWithNumber>, after: Seq<BlockHeaderWithNumber>, headers: Seq<BlockHeaderBorrowed>, i: int)
    requires
        0 <= base,
        0 <= i < headers.len(),
        after == before || (after == before.push(after.last()) && after.last().header@ == headers[i]@),
        forall|m: int| base <= m < before.len() ==> spec_among_first((#[trigger] before[m]).header@, headers, i),
    ensures
        forall|m: int| base <= m < after.len() ==> spec_among_first((#[trigger] after[m]).header@, headers, i + 1),
{
    assert forall|m: int| base <= m < after.len() implies spec_among_first((#[trigger] after[m]).header@, headers, i + 1) by {
        if m < before.len() {
            if after != before {
                let x = after.last();
                assert(before.push(x)[m] == before[m]);
            }
            assert(after[m] == before[m]);
            assert(spec_among_first(before[m].header@, headers, i));
            let j = choose|j: int| 0 <= j < i && (#[trigger] headers[j])@ == before[m].header@;
            assert(0 <= j < i + 1 && headers[j]@ == after[m].header@);
        } else {
            assert(headers[i]@ == after[m].header@);
        }
    }
}

impl Chain {
    /// Applies headers received while syncing headers, in order, stopping
    /// at the first one that cannot be applied: that header's error comes
    /// back, and the chain keeps what the headers before it added.
    pub fn validate_and_apply_headers(&mut self, headers: &[BlockHeaderBorrowed]) -> (r: Result<(), ChainError>)
        requires
            old(self).wf(),
        ensures
            final(self).wf(),
            old(self).known().is_prefix_of(final(self).known()),
            spec_le_value(final(self).top_header.total_work@) >= spec_le_value(old(self).top_header.total_work@),
            r is Ok <==> forall|i: int| 0 <= i < headers@.len() ==> spec_has(final(self).known(), (#[trigger] headers@[i]).hash@),
            r is Ok ==> forall|m: int| old(self).known().len() <= m < final(self).known().len() ==>
                spec_among_first((#[trigger] final(self).known()[m]).header@, headers@, headers@.len() as int),
            r matches Err(e) ==> exists|i: int| #![trigger headers@[i]] {
                &&& 0 <= i < headers@.len()
                &&& forall|j: int| 0 <= j < i ==> spec_has(final(self).known(), (#[trigger] headers@[j]).hash@)
                &&& spec_header_error(final(self).known(), headers@[i]@) == Some(e)
                &&& forall|m: int| old(self).known().len() <= m < final(self).known().len() ==>
                    spec_among_first((#[trigger] final(self).known()[m]).header@, headers@, i)
            },
    {
        let mut i: usize = 0;
        while i < headers.len()
            invariant
                i <= headers@.len(),
                self.wf(),
                old(self).known().is_prefix_of(self.known()),
                spec_le_value(self.top_header.total_work@) >= spec_le_value(old(self).top_header.total_work@),
                forall|j: int| 0 <= j < i ==> spec_has(self.known(), (#[trigger] headers@[j]).hash@),
                forall|m: int| old(self).known().len() <= m < self.known().len() ==>
                    spec_among_first((#[trigger] self.known()[m]).header@, headers@, i as int),
            decreases headers@.len() - i,
        {
            let ghost before = self.known();
            let h = BlockHeaderOwned::from(headers[i]);
            match self.validate_and_apply_header_inner(h, true) {
                Ok(_) => {},
                Err(e) => {
                    assert(!spec_has(self.known(), headers@[i as int].hash@));
                    assert(spec_header_error(self.known(), headers@[i as int]@) == Some(e));
                    return Err(e);
                },
            }
            proof {
                assert forall|j: int| 0 <= j < i + 1 implies spec_has(self.known(), (#[trigger] headers@[j]).hash@) by {
                    if j < i {
                        lemma_has_prefix(before, self.known(), headers@[j].hash@);
                    }
                }
                lemma_added_from_headers(old(self).known().len() as int, before, self.known(), headers@, i as int);
            }
            i = i + 1;
        }
        Ok(())
    }
}

impl Default for Chain {
    /// A chain that knows only the genesis header and follows it.
    fn default() -> (r: Self)
        ensures
            r.wf(),
            r.known().len() == 1,
            r.known()[0] == r.top_header,
            r.top_header.number == 0,
            !r.top_header.fetched_full,
            spec_is_genesis(r.top_header.header),
            spec_le_value(r.top_header.total_work@) == spec_work(r.top_header.header.bits),
            spec_hash_set(r.most_work_chain@) == set![r.top_header.header.hash@],
    {
        let header = genesis_header();
        let genesis = BlockHeaderWithNumber { header, number: 0, fetched_full: false, total_work: header.get_work() };
        let mut known: Vec<BlockHeaderWithNumber> = Vec::new();
        known.push(genesis);
        let mut most_work_chain: Vec<[u8; 32]> = Vec::new();
        most_work_chain.push(header.hash);
        let c = Chain { top_header: genesis, known_headers: known, most_work_chain };
        assert(c.known()[0] == genesis);
        assert(spec_in(c.known(), genesis));
        assert(c.most_work_chain@[0]@ == header.hash@);
        assert forall|h: Seq<u8>| spec_hash_set(c.most_work_chain@).contains(h) <==> set![header.hash@].contains(h) by {
            if set![header.hash@].contains(h) {
                assert(c.most_work_chain@[0]@ == h);
            }
        }
        assert(spec_hash_set(c.most_work_chain@) =~= set![header.hash@]);
        c
    }
}

/// The hash of the tip.
pub fn get_top_header_hash(chain: &Chain) -> (r: [u8; 32])
    ensures
        r == chain.top_header.header.hash,
{
    chain.top_header.header.hash
}

/// The known header with hash `hash`.
pub fn get_header_by_hash(chain: &Chain, hash: [u8; 32]) -> (r: Option<BlockHeaderWithNumber>)
    requires
        chain.wf(),
    ensures
        r == spec_lookup(chain.known(), hash@),
{
    chain.lookup(&hash)
}

/// The hash of the block at height `number` of the followed chain: the
/// tip's ancestor at that height; `None` above the tip.
pub fn get_hash_by_number(chain: &Chain, number: u64) -> (r: Option<[u8; 32]>)
    requires
        chain.wf(),
    ensures
        number > chain.top_header.number ==> r is None,
        number <= chain.top_header.number ==> (r matches Some(h)
            && spec_ancestor(chain.known(), chain.top_header, number) matches Some(a)
            && h@ == a.header.hash@ && a.number == number),
{
    if number > chain.top_header.number {
        return None;
    }
    proof {
        lemma_ancestor_from_known(chain.known(), chain.top_header, number);
        lemma_ancestor_exists(chain.known(), chain.top_header, number);
    }
    let a = chain.get_ancestor(&chain.top_header, number).unwrap();
    Some(a.header.hash)
}

/// Headers must be synced first when the tip is more than a day older than `now`.
pub fn need_ihd(chain: &Chain, now: u64) -> (r: bool)
    ensures
        r == (now as int - chain.top_header.header.timestamp as int > 24 * 3600),
{
    let top_header_time = chain.top_header.header.timestamp as u64;
    now > top_header_time && now - top_header_time > 24 * 3600
}

/// Drops every copy of `h` from `v`.
fn remove_hash(v: &mut Vec<[u8; 32]>, h: &[u8; 32])
    ensures
        spec_hash_set(final(v)@) == spec_hash_set(old(v)@).remove(h@),
{
    let ghost start = v@;
    let mut kept: Vec<[u8; 32]> = Vec::new();
    let mut i: usize = 0;
    while i < v.len()
        invariant
            v@ == start,
            i <= start.len(),
            forall|x: Seq<u8>| spec_hash_set(kept@).contains(x)
                <==> (x != h@ && exists|j: int| 0 <= j < i && (#[trigger] start[j])@ == x),
        decreases start.len() - i,
    {
        let ghost before = kept@;
        if !hash_eq(&v[i], h) {
            kept.push(v[i]);
            assert forall|x: Seq<u8>| spec_hash_set(kept@).contains(x)
                <==> (x != h@ && exists|j: int| 0 <= j < i + 1 && (#[trigger] start[j])@ == x) by {
                if spec_hash_set(kept@).contains(x) {
                    let k = choose|k: int| 0 <= k < kept@.len() && (#[trigger] kept@[k])@ == x;
                    if k < before.len() {
                        assert(kept@[k] == before[k]);
                        assert(spec_hash_set(before).contains(x));
                    }
                }
                if x != h@ && exists|j: int| 0 <= j < i + 1 && (#[trigger] start[j])@ == x {
                    let j = choose|j: int| 0 <= j < i + 1 && (#[trigger] start[j])@ == x;
                    if j < i {
                        assert(spec_hash_set(before).contains(x));
                        let k = choose|k: int| 0 <= k < before.len() && (#[trigger] before[k])@ == x;
                        assert(kept@[k] == before[k]);
                    } else {
                        assert(kept@[before.len() as int] == start[j]);
                    }
                }
            }
        } else {
            assert forall|x: Seq<u8>| spec_hash_set(kept@).contains(x)
                <==> (x != h@ && exists|j: int| 0 <= j < i + 1 && (#[trigger] start[j])@ == x) by {
                if x != h@ && exists|j: int| 0 <= j < i + 1 && (#[trigger] start[j])@ == x {
                    let j = choose|j: int| 0 <= j < i + 1 && (#[trigger] start[j])@ == x;
                    assert(j < i);
                }
            }
        }
        i = i + 1;
    }
    *v = kept;
    assert(spec_hash_set(v@) =~= spec_hash_set(start).remove(h@));
}

/// Adds `h` to `v` unless it is there already.
fn insert_hash(v: &mut Vec<[u8; 32]>, h: &[u8; 32])
    ensures
        spec_hash_set(final(v)@) == spec_hash_set(old(v)@).insert(h@),
{
    let ghost start = v@;
    let mut i: usize = 0;
    while i < v.len()
        invariant
            v@ == start,
            i <= start.len(),
            forall|j: int| 0 <= j < i ==> (#[trigger] start[j])@ != h@,
        decreases start.len() - i,
    {
        if hash_eq(&v[i], h) {
            assert(spec_hash_set(start).contains(h@));
            assert(spec_hash_set(start) =~= spec_hash_set(start).insert(h@));
            return;
        }
        i = i + 1;
    }
    v.push(*h);
    assert forall|x: Seq<u8>| spec_hash_set(v@).contains(x) <==> spec_hash_set(start).insert(h@).contains(x) by {
        if spec_hash_set(v@).contains(x) {
            let k = choose|k: int| 0 <= k < v@.len() && (#[trigger] v@[k])@ == x;
            if k < start.len() {
                assert(v@[k] == start[k]);
            }
        }
        if spec_hash_set(start).contains(x) {
            let k = choose|k: int| 0 <= k < start.len() && (#[trigger] start[k])@ == x;
            assert(v@[k] == start[k]);
        }
        if x == h@ {
            assert(v@[start.len() as int]@ == x);
        }
    }
    assert(spec_hash_set(v@) =~= spec_hash_set(start).insert(h@));
}

impl Chain {
    /// Takes blocks off the most-work chain, then adds blocks to it.
    pub fn update_most_work_chain(&mut self, result: &HeaderApplicationResult)
        ensures
            final(self).top_header == old(self).top_header,
            final(self).known_headers@ == old(self).known_headers@,
            spec_hash_set(final(self).most_work_chain@) == spec_hash_set(old(self).most_work_chain@)
                .difference(spec_hash_set(result.removed_blocks@)).union(spec_hash_set(result.added_blocks@)),
    {
        let ghost start = spec_hash_set(self.most_work_chain@);
        let mut i: usize = 0;
        while i < result.removed_blocks.len()
            invariant
                i <= result.removed_blocks@.len(),
                self.top_header == old(self).top_header,
                self.known_headers@ == old(self).known_headers@,
                spec_hash_set(self.most_work_chain@) == start.difference(spec_hash_set(result.removed_blocks@.take(i as int))),
            decreases result.removed_blocks@.len() - i,
        {
            remove_hash(&mut self.most_work_chain, &result.removed_blocks[i]);
            proof {
                let r = result.removed_blocks@;
                assert forall|x: Seq<u8>| spec_hash_set(r.take(i + 1)).contains(x)
                    <==> spec_hash_set(r.take(i as int)).insert(r[i as int]@).contains(x) by {
                    if spec_hash_set(r.take(i + 1)).contains(x) {
                        let k = choose|k: int| 0 <= k < r.take(i + 1).len() && (#[trigger] r.take(i + 1)[k])@ == x;
                        if k < i {
                            assert(r.take(i as int)[k] == r.take(i + 1)[k]);
                        }
                    }
                    if spec_hash_set(r.take(i as int)).contains(x) {
                        let k = choose|k: int| 0 <= k < r.take(i as int).len() && (#[trigger] r.take(i as int)[k])@ == x;
                        assert(r.take(i as int)[k] == r.take(i + 1)[k]);
                    }
                    if x == r[i as int]@ {
                        assert(r.take(i + 1)[i as int] == r[i as int]);
                    }
                }
                assert(spec_hash_set(r.take(i + 1)) =~= spec_hash_set(r.take(i as int)).insert(r[i as int]@));
                assert(start.difference(spec_hash_set(r.take(i + 1)))
                    =~= start.difference(spec_hash_set(r.take(i as int))).remove(r[i as int]@));
            }
            i = i + 1;
        }
        assert(result.removed_blocks@.take(i as int) =~= result.removed_blocks@);
        let ghost middle = spec_hash_set(self.most_work_chain@);
        let mut j: usize = 0;
        while j < result.added_blocks.len()
            invariant
                j <= result.added_blocks@.len(),
                self.top_header == old(self).top_header,
                self.known_headers@ == old(self).known_headers@,
                spec_hash_set(self.most_work_chain@) == middle.union(spec_hash_set(result.added_blocks@.take(j as int))),
            decreases result.added_blocks@.len() - j,
        {
            insert_hash(&mut self.most_work_chain, &result.added_blocks[j]);
            proof {
                let a = result.added_blocks@;
                assert forall|x: Seq<u8>| spec_hash_set(a.take(j + 1)).contains(x)
                    <==> spec_hash_set(a.take(j as int)).insert(a[j as int]@).contains(x) by {
                    if spec_hash_set(a.take(j + 1)).contains(x) {
                        let k = choose|k: int| 0 <= k < a.take(j + 1).len() && (#[trigger] a.take(j + 1)[k])@ == x;
                        if k < j {
                            assert(a.take(j as int)[k] == a.take(j + 1)[k]);
                        }
                    }
                    if spec_hash_set(a.take(j as int)).contains(x) {
                        let k = choose|k: int| 0 <= k < a.take(j as int).len() && (#[trigger] a.take(j as int)[k])@ == x;
                        assert(a.take(j as int)[k] == a.take(j + 1)[k]);
                    }
                    if x == a[j as int]@ {
                        assert(a.take(j + 1)[j as int] == a[j as int]);
                    }
                }
                assert(spec_hash_set(a.take(j + 1)) =~= spec_hash_set(a.take(j as int)).insert(a[j as int]@));
                assert(middle.union(spec_hash_set(a.take(j + 1)))
                    =~= middle.union(spec_hash_set(a.take(j as int))).insert(a[j as int]@));
            }
            j = j + 1;
        }
        assert(result.added_blocks@.take(j as int) =~= result.added_blocks@);
    }
}

/// `e`, marked downloaded when its hash is in `s`.
pub open spec fn spec_marked(e: BlockHeaderWithNumber, s: Set<Seq<u8>>) -> BlockHeaderWithNumber {
    BlockHeaderWithNumber { fetched_full: e.fetched_full || s.contains(e.header.hash@), ..e }
}

/// Two lists of headers that differ only in which blocks are downloaded
/// agree on uniqueness, linking and lookups by hash.
proof fn lemma_same_shape(a: Seq<BlockHeaderWithNumber>, b: Seq<BlockHeaderWithNumber>)
    requires
        a.len() == b.len(),
        forall|i: int| 0 <= i < a.len() ==> (#[trigger] a[i]).header == b[i].header && a[i].number == b[i].number,
    ensures
        spec_unique(a) ==> spec_unique(b),
        spec_linked(a) ==> spec_linked(b),
        forall|h: Seq<u8>| spec_has(a, h) == spec_has(b, h),
{
    assert forall|h: Seq<u8>| spec_has(a, h) == spec_has(b, h) by {
        if spec_has(a, h) {
            let i = choose|i: int| 0 <= i < a.len() && (#[trigger] a[i]).header.hash@ == h;
            assert(b[i].header == a[i].header);
        }
        if spec_has(b, h) {
            let i = choose|i: int| 0 <= i < b.len() && (#[trigger] b[i]).header.hash@ == h;
            assert(b[i].header == a[i].header);
        }
    }
    if spec_unique(a) {
        assert forall|i: int, j: int|
            0 <= i < b.len() && 0 <= j < b.len() && (#[trigger] b[i]).header.hash@ == (#[trigger] b[j]).header.hash@
            implies i == j by {
            assert(a[i].header == b[i].header && a[j].header == b[j].header);
        }
    }
    if spec_linked(a) {
        assert forall|i: int| 0 <= i < b.len() && (#[trigger] b[i]).number > 0 implies spec_has(b, b[i].header.parent@) by {
            assert(a[i].header == b[i].header && a[i].number == b[i].number);
        }
        assert forall|i: int, j: int|
            0 <= i < b.len() && 0 <= j < b.len() && b[i].number > 0
                && (#[trigger] b[j]).header.hash@ == (#[trigger] b[i]).header.parent@
            implies b[j].number + 1 == b[i].number by {
            assert(a[i].header == b[i].header && a[i].number == b[i].number);
            assert(a[j].header == b[j].header && a[j].number == b[j].number);
        }
        assert forall|i: int| 0 <= i < b.len() implies (#[trigger] b[i]).number < u64::MAX by {
            assert(a[i].number == b[i].number);
        }
    }
}

impl Chain {
    /// Marks the blocks with these hashes as downloaded, keeps the tip in
    /// step, and returns how many blocks of the followed chain are now
    /// downloaded.
    pub fn mark_as_downloaded(&mut self, blocks: &[[u8; 32]]) -> (r: u64)
        requires
            old(self).wf(),
            forall|j: int| 0 <= j < blocks@.len() ==> spec_has(old(self).known(), (#[trigger] blocks@[j])@),
        ensures
            final(self).wf(),
            final(self).known().len() == old(self).known().len(),
            forall|i: int| 0 <= i < old(self).known().len() ==> (#[trigger] final(self).known()[i])
                == spec_marked(old(self).known()[i], spec_hash_set(blocks@)),
            final(self).top_header == spec_marked(old(self).top_header, spec_hash_set(blocks@)),
            final(self).most_work_chain == old(self).most_work_chain,
            r == spec_downloaded(final(self).known(), final(self).top_header),
    {
        let ghost start = self.known();
        let mut j: usize = 0;
        while j < blocks.len()
            invariant
                j <= blocks@.len(),
                self.known().len() == start.len(),
                self.top_header == old(self).top_header,
                self.most_work_chain == old(self).most_work_chain,
                start == old(self).known(),
                spec_unique(start),
                forall|k: int| 0 <= k < blocks@.len() ==> spec_has(start, (#[trigger] blocks@[k])@),
                forall|i: int| 0 <= i < start.len() ==> (#[trigger] self.known()[i])
                    == spec_marked(start[i], spec_hash_set(blocks@.take(j as int))),
            decreases blocks@.len() - j,
        {
            proof {
                lemma_same_shape(start, self.known());
            }
            let i = self.find(&blocks[j]).unwrap();
            let mut e = self.known_headers[i];
            e.fetched_full = true;
            self.known_headers.set(i, e);
            proof {
                let b = blocks@;
                assert forall|x: Seq<u8>| spec_hash_set(b.take(j + 1)).contains(x)
                    <==> spec_hash_set(b.take(j as int)).insert(b[j as int]@).contains(x) by {
                    if spec_hash_set(b.take(j + 1)).contains(x) {
                        let k = choose|k: int| 0 <= k < b.take(j + 1).len() && (#[trigger] b.take(j + 1)[k])@ == x;
                        if k < j {
                            assert(b.take(j as int)[k] == b.take(j + 1)[k]);
                        }
                    }
                    if spec_hash_set(b.take(j as int)).contains(x) {
                        let k = choose|k: int| 0 <= k < b.take(j as int).len() && (#[trigger] b.take(j as int)[k])@ == x;
                        assert(b.take(j as int)[k] == b.take(j + 1)[k]);
                    }
                    if x == b[j as int]@ {
                        assert(b.take(j + 1)[j as int] == b[j as int]);
                    }
                }
                assert(spec_hash_set(b.take(j + 1)) =~= spec_hash_set(b.take(j as int)).insert(b[j as int]@));
                assert forall|ii: int| 0 <= ii < start.len() implies (#[trigger] self.known()[ii])
                    == spec_marked(start[ii], spec_hash_set(b.take(j + 1))) by {
                    if ii != i {
                        if start[ii].header.hash@ == b[j as int]@ {
                            assert(start[i as int].header.hash@ == b[j as int]@);
                        }
                    }
                }
            }
            j = j + 1;
        }
        assert(blocks@.take(j as int) =~= blocks@);
        proof {
            lemma_same_shape(start, self.known());
        }
        let k = self.find(&self.top_header.header.hash).unwrap();
        proof {
            let t = choose|t: int| 0 <= t < start.len() && start[t] == old(self).top_header;
            assert(start[t].header.hash@ == start[k as int].header.hash@);
        }
        self.top_header.fetched_full = self.known_headers[k].fetched_full;
        proof {
            assert(self.known()[k as int] == self.top_header);
            assert(spec_in(self.known(), self.top_header));
        }
        self.calculate_downloaded_blocks()
    }
}

/// The protocol version put in the requests this node sends.
pub const PROTOCOL_VERSION: u32 = 70016;

/// `2^e`.
pub open spec fn spec_pow2(e: nat) -> nat
    decreases e,
{
    if e == 0 {
        1
    } else {
        2 * spec_pow2((e - 1) as nat)
    }
}

/// The height of entry `i` of the block locator of a tip at height `n`
/// before it stops at zero: the tip and the nine below it, then steps that
/// double each time (2, 4, 8, ...).
pub open spec fn spec_locator_raw_height(n: int, i: int) -> int {
    if i <= 9 {
        n - i
    } else {
        n - 7 - spec_pow2((i - 8) as nat)
    }
}

/// The height of entry `i` of the block locator of a tip at height `n`,
/// never below the genesis height.
pub open spec fn spec_locator_height(n: int, i: int) -> int {
    if spec_locator_raw_height(n, i) < 0 { 0 } else { spec_locator_raw_height(n, i) }
}

/// How far below entry `i - 1` entry `i` lies, before stopping at zero.
pub open spec fn spec_locator_step(i: int) -> int {
    if i <= 9 { 1 } else { spec_pow2((i - 9) as nat) as int }
}

proof fn lemma_locator_step(n: int, i: int)
    requires
        0 <= i,
    ensures
        spec_locator_raw_height(n, i + 1) == spec_locator_raw_height(n, i) - spec_locator_step(i + 1),
        spec_locator_step(i + 1) >= 1,
        i >= 9 ==> spec_locator_step(i + 1) == 2 * spec_locator_step(i),
        i < 9 ==> spec_locator_step(i + 1) == 1,
{
    reveal_with_fuel(spec_pow2, 3);
    if i >= 10 {
        assert(spec_pow2((i + 1 - 8) as nat) == 2 * spec_pow2((i - 8) as nat));
        assert(spec_pow2((i + 1 - 9) as nat) == 2 * spec_pow2((i - 9) as nat));
        lemma_pow2_positive((i - 8) as nat);
    }
}

proof fn lemma_pow2_positive(e: nat)
    ensures
        spec_pow2(e) >= 1,
    decreases e,
{
    if e > 0 {
        lemma_pow2_positive((e - 1) as nat);
    }
}

/// The ancestor at `h2` of the ancestor at `h1` of a known header is its
/// ancestor at `h2`, for `h2` not above `h1`.
proof fn lemma_ancestor_of_ancestor(known: Seq<BlockHeaderWithNumber>, e: BlockHeaderWithNumber, h1: u64, h2: u64)
    requires
        spec_unique(known),
        spec_linked(known),
        spec_in(known, e),
        h2 <= h1 <= e.number,
    ensures
        spec_ancestor(known, spec_ancestor(known, e, h1).unwrap(), h2) == spec_ancestor(known, e, h2),
    decreases e.number,
{
    if e.number > h1 {
        lemma_parent_step(known, e);
        let p = spec_lookup(known, e.header.parent@).unwrap();
        lemma_ancestor_of_ancestor(known, p, h1, h2);
    }
}

/// The block locator of the chain ending in `top`: the hashes of its
/// ancestors at the locator heights, down to and including the genesis
/// height.
pub open spec fn spec_is_block_locator(known: Seq<BlockHeaderWithNumber>, top: BlockHeaderWithNumber, loc: Seq<Seq<u8>>) -> bool {
    let n = top.number as int;
    &&& loc.len() >= 1
    &&& spec_locator_height(n, loc.len() - 1) == 0
    &&& forall|i: int| 0 <= i < loc.len() - 1 ==> spec_locator_height(n, i) > 0
    &&& forall|i: int| 0 <= i < loc.len() ==> #[trigger] loc[i]
        == spec_ancestor(known, top, spec_locator_height(n, i) as u64).unwrap().header.hash@
}

impl Chain {
    /// A `getheaders` whose block locator lets a peer find where its chain
    /// and the followed one part.
    #[verifier::spinoff_prover]
    #[verifier::rlimit(30)]
    pub fn build_get_headers(&self) -> (r: PayloadToSend)
        requires
            self.wf(),
        ensures
            r matches PayloadToSend::GetHeaders(g) && g.version == PROTOCOL_VERSION
                && g.hash_stop@ == Seq::new(32, |i: int| 0u8)
                && spec_is_block_locator(self.known(), self.top_header, spec_hashes_view(g.block_locator@)),
    {
        proof {
            vstd::array::axiom_spec_array_fill_for_copy_type::<u8, 32>(0u8);
        }
        let hash_stop = [0u8; 32];
        assert(hash_stop@ =~= Seq::new(32, |i: int| 0u8));
        let ghost top = self.top_header;
        let ghost n = top.number as int;
        let mut block_locator: Vec<[u8; 32]> = Vec::new();
        let mut step: u64 = 1;
        let mut current = self.top_header;
        block_locator.push(current.header.hash);
        proof {
            lemma_ancestor_exists(self.known(), top, top.number);
        }
        assert(spec_hashes_view(block_locator@) =~= seq![current.header.hash@]);
        while current.number > 0
            invariant
                self.wf(),
                top == self.top_header,
                n == top.number,
                spec_in(self.known(), top),
                block_locator@.len() >= 1,
                spec_in(self.known(), current),
                current == spec_ancestor(self.known(), top, spec_locator_height(n, block_locator@.len() - 1) as u64).unwrap(),
                current.number == spec_locator_height(n, block_locator@.len() - 1),
                forall|j: int| 0 <= j < block_locator@.len() - 1 ==> spec_locator_height(n, j) > 0,
                forall|j: int| 0 <= j < block_locator@.len() ==> #[trigger] spec_hashes_view(block_locator@)[j]
                    == spec_ancestor(self.known(), top, spec_locator_height(n, j) as u64).unwrap().header.hash@,
                current.number > 0 ==> step as int == spec_locator_step(block_locator@.len() - 1),
                current.number > 0 ==> spec_locator_raw_height(n, block_locator@.len() - 1) == current.number,
            decreases current.number,
        {
            let ghost i = block_locator@.len() - 1;
            let ghost before = spec_hashes_view(block_locator@);
            proof {
                lemma_locator_step(n, i);
            }
            if block_locator.len() >= 10 {
                step = if step <= u64::MAX / 2 { step * 2 } else { u64::MAX };
            }
            let ghost want = spec_locator_step(i + 1);
            assert(step as int == want || (step == u64::MAX && want > u64::MAX));
            if step > current.number {
                step = current.number;
            }
            let h = current.number - step;
            assert(h == spec_locator_height(n, i + 1));
            proof {
                lemma_ancestor_from_known(self.known(), current, h);
                lemma_ancestor_of_ancestor(self.known(), top, current.number, h);
                lemma_ancestor_exists(self.known(), current, h);
            }
            let next = self.get_ancestor(&current, h).unwrap();
            block_locator.push(next.header.hash);
            assert(spec_hashes_view(block_locator@) =~= before.push(next.header.hash@));
            current = next;
        }
        let ghost loc = spec_hashes_view(block_locator@);
        assert(spec_is_block_locator(self.known(), top, loc));
        PayloadToSend::GetHeaders(GetHeadersOwned { version: PROTOCOL_VERSION, block_locator, hash_stop })
    }
}

/// Whether the target of `bits` is above zero.
fn target_positive(bits: u32) -> (r: bool)
    ensures
        r == (spec_target(bits) > 0),
{
    let t = crate::util::compact::u256_from_compact(bits);
    let mut i: usize = 0;
    while i < 32
        invariant
            i <= 32,
            t@ == crate::util::compact::spec_compact_target_bytes(bits),
            forall|j: int| 0 <= j < i ==> t@[j] == 0,
        decreases 32 - i,
    {
        if t[i] != 0 {
            proof {
                lemma_le_value_zero(t@);
            }
            return true;
        }
        i = i + 1;
    }
    proof {
        lemma_le_value_zero(t@);
    }
    false
}

impl Chain {
    /// Loads a stored header (stored headers come lowest first). A known
    /// one only takes the stored download flag. A new one is placed under
    /// its known parent with the parent's total work plus its own, and
    /// becomes the tip when that is more work than the tip's. A header
    /// whose parent is not known, whose height is not one above its
    /// parent's, whose target is zero or whose work does not fit is left
    /// out. Returns whether the header was taken.
    pub fn load_header(&mut self, header: BlockHeaderOwned, number: u64, fetched_full: bool) -> (r: bool)
        requires
            old(self).wf(),
        ensures
            final(self).wf(),
            final(self).most_work_chain == old(self).most_work_chain,
            ({
                let k = old(self).known();
                let t = old(self).top_header;
                let kf = final(self).known();
                let tf = final(self).top_header;
                if spec_has(k, header.hash@) {
                    let i = spec_lookup_index(k, header.hash@);
                    &&& r
                    &&& kf == k.update(i, BlockHeaderWithNumber { fetched_full, ..k[i] })
                    &&& tf == (if t.header.hash@ == header.hash@ { kf[i] } else { t })
                } else if !spec_has(k, header.parent@) {
                    !r && kf == k && tf == t
                } else {
                    let p = spec_lookup(k, header.parent@).unwrap();
                    if number != p.number + 1 || number == u64::MAX || !(spec_target(header.bits) > 0)
                        || spec_le_value(p.total_work@) + spec_work(header.bits) >= u256_modulus() {
                        !r && kf == k && tf == t
                    } else {
                        let n = kf.last();
                        &&& r
                        &&& kf == k.push(n)
                        &&& n.header == header && n.number == number && n.fetched_full == fetched_full
                        &&& spec_le_value(n.total_work@) == spec_le_value(p.total_work@) + spec_work(header.bits)
                        &&& tf == (if spec_le_value(n.total_work@) > spec_le_value(t.total_work@) { n } else { t })
                    }
                }
            }),
    {
        let ghost k = self.known();
        match self.find(&header.hash) {
            Some(i) => {
                let mut e = self.known_headers[i];
                e.fetched_full = fetched_full;
                self.known_headers.set(i, e);
                proof {
                    lemma_lookup_index(k, i as int);
                    assert(spec_lookup_index(k, header.hash@) == i) by {
                        let j = spec_lookup_index(k, header.hash@);
                        assert(k[j].header.hash@ == k[i as int].header.hash@);
                    }
                    lemma_same_shape(k, self.known());
                }
                if hash_eq(&self.top_header.header.hash, &header.hash) {
                    self.top_header = e;
                    assert(spec_in(self.known(), self.top_header)) by {
                        assert(self.known()[i as int] == e);
                    }
                } else {
                    proof {
                        let t = choose|t: int| 0 <= t < k.len() && k[t] == self.top_header;
                        assert(t != i);
                        assert(self.known()[t] == self.top_header);
                    }
                }
                return true;
            },
            None => {},
        }
        let parent = match self.lookup(&header.parent) {
            Some(p) => p,
            None => return false,
        };
        proof {
            lemma_lookup_found(k, header.parent@);
        }
        if number != parent.number + 1 || number == u64::MAX || !target_positive(header.bits) {
            return false;
        }
        let work = header.get_work();
        let total_work = match u256_checked_add(&parent.total_work, &work) {
            Some(w) => w,
            None => return false,
        };
        let new_header = BlockHeaderWithNumber { header, number, fetched_full, total_work };
        self.known_headers.push(new_header);
        proof {
            lemma_push_child(k, new_header, parent);
            lemma_in_push(k, new_header, self.top_header);
        }
        if u256_lt(&self.top_header.total_work, &new_header.total_work) {
            self.top_header = new_header;
        }
        true
    }
}

/// The statistics look back this many seconds from the tip: fifteen days.
pub const STATS_WINDOW_SECS: u32 = 1296000;

/// Walking down from `e`: `e`, then each parent while it is not older than
/// `cutoff`, stopping at a header whose parent is the all-zero hash.
pub open spec fn spec_relevant(known: Seq<BlockHeaderWithNumber>, e: BlockHeaderWithNumber, cutoff: int) -> Seq<BlockHeaderWithNumber>
    decreases e.number,
{
    if e.header.parent@ == Seq::new(32, |i: int| 0u8) {
        seq![e]
    } else {
        match spec_lookup(known, e.header.parent@) {
            Some(p) => if p.number < e.number && p.header.timestamp >= cutoff {
                seq![e] + spec_relevant(known, p, cutoff)
            } else {
                seq![e]
            },
            None => seq![e],
        }
    }
}

impl Chain {
    /// The blocks the statistics cover, newest first: the block `top` and
    /// its ancestors back to fifteen days before it. Returns their hashes,
    /// their timestamps and the top's timestamp.
    pub fn relevant_blocks(&self, top: &[u8; 32]) -> (r: (Vec<[u8; 32]>, Vec<u32>, u32))
        requires
            self.wf(),
            spec_has(self.known(), top@),
            spec_lookup(self.known(), top@).unwrap().header.timestamp >= STATS_WINDOW_SECS,
        ensures
            ({
                let t = spec_lookup(self.known(), top@).unwrap();
                let rel = spec_relevant(self.known(), t, t.header.timestamp - STATS_WINDOW_SECS);
                &&& r.2 == t.header.timestamp
                &&& spec_hashes_view(r.0@) == rel.map_values(|e: BlockHeaderWithNumber| e.header.hash@)
                &&& r.1@ == rel.map_values(|e: BlockHeaderWithNumber| e.header.timestamp)
            }),
    {
        proof {
            vstd::array::axiom_spec_array_fill_for_copy_type::<u8, 32>(0u8);
            lemma_lookup_found(self.known(), top@);
        }
        let zero = [0u8; 32];
        assert(zero@ =~= Seq::new(32, |i: int| 0u8));
        let top_header = self.lookup(top).unwrap();
        let now = top_header.header.timestamp;
        let cutoff = now - STATS_WINDOW_SECS;
        let ghost rel = spec_relevant(self.known(), top_header, cutoff as int);
        let mut hashes: Vec<[u8; 32]> = Vec::new();
        let mut timestamps: Vec<u32> = Vec::new();
        let mut last = top_header;
        loop
            invariant_except_break
                rel.map_values(|e: BlockHeaderWithNumber| e.header.hash@)
                    == spec_hashes_view(hashes@) + spec_relevant(self.known(), last, cutoff as int).map_values(|e: BlockHeaderWithNumber| e.header.hash@),
                rel.map_values(|e: BlockHeaderWithNumber| e.header.timestamp)
                    == timestamps@ + spec_relevant(self.known(), last, cutoff as int).map_values(|e: BlockHeaderWithNumber| e.header.timestamp),
            invariant
                self.wf(),
                spec_in(self.known(), last),
                zero@ == Seq::new(32, |i: int| 0u8),
            ensures
                rel.map_values(|e: BlockHeaderWithNumber| e.header.hash@) == spec_hashes_view(hashes@),
                rel.map_values(|e: BlockHeaderWithNumber| e.header.timestamp) == timestamps@,
            decreases last.number,
        {
            let ghost hv = spec_hashes_view(hashes@);
            let ghost tv = timestamps@;
            let ghost here = spec_relevant(self.known(), last, cutoff as int);
            hashes.push(last.header.hash);
            timestamps.push(last.header.timestamp);
            assert(spec_hashes_view(hashes@) =~= hv.push(last.header.hash@));
            if hash_eq(&last.header.parent, &zero) {
                assert(here =~= seq![last]);
                assert(hv + here.map_values(|e: BlockHeaderWithNumber| e.header.hash@) =~= spec_hashes_view(hashes@));
                assert(tv + here.map_values(|e: BlockHeaderWithNumber| e.header.timestamp) =~= timestamps@);
                break;
            }
            let next = match self.lookup(&last.header.parent) {
                Some(p) => p,
                None => {
                    assert(here =~= seq![last]);
                    assert(hv + here.map_values(|e: BlockHeaderWithNumber| e.header.hash@) =~= spec_hashes_view(hashes@));
                    assert(tv + here.map_values(|e: BlockHeaderWithNumber| e.header.timestamp) =~= timestamps@);
                    break;
                },
            };
            proof {
                lemma_lookup_found(self.known(), last.header.parent@);
            }
            if next.number >= last.number || next.header.timestamp < cutoff {
                assert(here =~= seq![last]);
                assert(hv + here.map_values(|e: BlockHeaderWithNumber| e.header.hash@) =~= spec_hashes_view(hashes@));
                assert(tv + here.map_values(|e: BlockHeaderWithNumber| e.header.timestamp) =~= timestamps@);
                break;
            }
            let ghost rest = spec_relevant(self.known(), next, cutoff as int);
            assert(here =~= seq![last] + rest);
            assert(hv + here.map_values(|e: BlockHeaderWithNumber| e.header.hash@)
                =~= spec_hashes_view(hashes@) + rest.map_values(|e: BlockHeaderWithNumber| e.header.hash@));
            assert(tv + here.map_values(|e: BlockHeaderWithNumber| e.header.timestamp)
                =~= timestamps@ + rest.map_values(|e: BlockHeaderWithNumber| e.header.timestamp));
            last = next;
        }
        (hashes, timestamps, now)
    }
}

/// Grouping blocks (newest first) into days: the day boundary starts at
/// the start of `now`'s day; the first block older than the boundary closes
/// the day with the blocks since the last boundary, and the boundary moves
/// back one day. State after the first `i` blocks: boundary, start of the
/// open group, closed groups as (day, first block, end).
pub open spec fn spec_day_state(ts: Seq<u32>, now: u32, i: int) -> (int, int, Seq<(int, int, int)>)
    decreases i,
{
    if i <= 0 {
        ((now - now % 86400) as int, 0, Seq::empty())
    } else {
        let (cutoff, boundary, groups) = spec_day_state(ts, now, i - 1);
        if (ts[i - 1] as int) < cutoff {
            (cutoff - 86400, i - 1, groups.push((cutoff, boundary, i - 1)))
        } else {
            (cutoff, boundary, groups)
        }
    }
}

/// The cutoff is always a whole day, not below zero, and the groups and
/// their boundary stay within the blocks seen.
proof fn lemma_day_state_bounds(ts: Seq<u32>, now: u32, i: int)
    requires
        0 <= i <= ts.len(),
    ensures
        spec_day_state(ts, now, i).0 % 86400 == 0,
        0 <= spec_day_state(ts, now, i).0 <= now,
        0 <= spec_day_state(ts, now, i).1 <= i,
        spec_day_state(ts, now, i).2.len() <= i,
    decreases i,
{
    if i > 0 {
        lemma_day_state_bounds(ts, now, i - 1);
        let c = spec_day_state(ts, now, i - 1).0;
        if (ts[i - 1] as int) < c {
            assert(c >= 86400) by (nonlinear_arith)
                requires c % 86400 == 0, c > 0;
            assert((c - 86400) % 86400 == 0) by (nonlinear_arith)
                requires c % 86400 == 0, c >= 86400;
        }
    } else {
        assert((now - now % 86400) % 86400 == 0) by (nonlinear_arith);
    }
}

/// What holds after `i` blocks are grouped: the days closed so far, the
/// open day's start and first block, as the grouping keeps them.
proof fn lemma_day_state_partition(ts: Seq<u32>, now: u32, i: int)
    requires
        0 <= i <= ts.len(),
    ensures
        ({
            let (c, b, g) = spec_day_state(ts, now, i);
            let base = (now - now % 86400) as int;
            &&& c == base - 86400 * g.len()
            &&& g.len() == 0 ==> b == 0
            &&& g.len() > 0 ==> b == g.last().2
            &&& 0 <= b <= i
            &&& b < i || g.len() == 0 || b == i
            &&& g.len() > 0 ==> g[0].1 == 0
            &&& forall|k: int| 0 <= k < g.len() - 1 ==> #[trigger] g[k + 1].1 == g[k].2
            &&& forall|k: int| 0 <= k < g.len() ==> g[k].1 <= #[trigger] g[k].2 < i
            &&& forall|k: int| 0 <= k < g.len() ==> #[trigger] g[k].0 == base - 86400 * k
            &&& forall|k: int| 0 <= k < g.len() ==> (ts[#[trigger] g[k].2] as int) < g[k].0
            &&& forall|k: int, j: int| #![trigger g[k], ts[j]] 0 <= k < g.len() && g[k].1 < j < g[k].2 ==> ts[j] as int >= g[k].0
            &&& forall|j: int| b <= j < i && (j > b || g.len() == 0) ==> ts[j] as int >= c
        }),
    decreases i,
{
    if i > 0 {
        lemma_day_state_partition(ts, now, i - 1);
        let (c, b, g) = spec_day_state(ts, now, i - 1);
        if (ts[i - 1] as int) < c {
            let g2 = g.push((c, b, i - 1));
            assert(spec_day_state(ts, now, i) == (c - 86400, i - 1, g2));
            assert forall|k: int| 0 <= k < g2.len() - 1 implies #[trigger] g2[k + 1].1 == g2[k].2 by {
                if k < g.len() - 1 {
                    assert(g2[k + 1] == g[k + 1] && g2[k] == g[k]);
                } else {
                    assert(g2[k] == g[k]);
                }
            }
            assert forall|k: int| 0 <= k < g2.len() implies g2[k].1 <= #[trigger] g2[k].2 < i by {
                if k < g.len() {
                    assert(g2[k] == g[k]);
                }
            }
            assert forall|k: int| 0 <= k < g2.len() implies #[trigger] g2[k].0 == (now - now % 86400) as int - 86400 * k by {
                if k < g.len() {
                    assert(g2[k] == g[k]);
                }
            }
            assert forall|k: int| 0 <= k < g2.len() implies (ts[#[trigger] g2[k].2] as int) < g2[k].0 by {
                if k < g.len() {
                    assert(g2[k] == g[k]);
                }
            }
            assert forall|k: int, j: int| #![trigger g2[k], ts[j]] 0 <= k < g2.len() && g2[k].1 < j < g2[k].2 implies ts[j] as int >= g2[k].0 by {
                if k < g.len() {
                    assert(g2[k] == g[k]);
                }
            }
            if g.len() > 0 {
                assert(g2[0] == g[0]);
            }
        } else {
            assert(spec_day_state(ts, now, i) == (c, b, g));
        }
    }
}

/// The days are cut one after another, newest first: each starts a day
/// (86400 s) before the one before it, the first at the day `now` falls in.
/// Each day's blocks start where the newer day's ended (the first day's at
/// block 0), so no block counts for two days; each day ends at the first
/// block older than its start, and the blocks strictly inside it are not
/// older than its start.
pub proof fn law_day_groups_partition(ts: Seq<u32>, now: u32)
    ensures
        ({
            let g = spec_day_state(ts, now, ts.len() as int).2;
            &&& g.len() > 0 ==> g[0].1 == 0
            &&& forall|k: int| 0 <= k < g.len() - 1 ==> #[trigger] g[k + 1].1 == g[k].2
            &&& forall|k: int| 0 <= k < g.len() ==> g[k].1 <= #[trigger] g[k].2 < ts.len()
            &&& forall|k: int| 0 <= k < g.len() ==> #[trigger] g[k].0 == (now - now % 86400) as int - 86400 * k
            &&& forall|k: int| 0 <= k < g.len() ==> (ts[#[trigger] g[k].2] as int) < g[k].0
            &&& forall|k: int, j: int| #![trigger g[k], ts[j]] 0 <= k < g.len() && g[k].1 < j < g[k].2 ==> ts[j] as int >= g[k].0
        }),
{
    lemma_day_state_partition(ts, now, ts.len() as int);
}

/// The days the statistics add up, newest first: each as its start and the
/// range of blocks (newest first, timestamps `timestamps`) it holds.
pub fn day_groups(timestamps: &[u32], now: u32) -> (r: Vec<(u32, usize, usize)>)
    ensures
        r@.map_values(|g: (u32, usize, usize)| (g.0 as int, g.1 as int, g.2 as int))
            == spec_day_state(timestamps@, now, timestamps@.len() as int).2,
{
    let mut cutoff: u32 = now - now % 86400;
    let mut boundary: usize = 0;
    let mut out: Vec<(u32, usize, usize)> = Vec::new();
    let mut i: usize = 0;
    while i < timestamps.len()
        invariant
            i <= timestamps@.len(),
            (cutoff as int, boundary as int, out@.map_values(|g: (u32, usize, usize)| (g.0 as int, g.1 as int, g.2 as int)))
                == spec_day_state(timestamps@, now, i as int),
        decreases timestamps@.len() - i,
    {
        proof {
            lemma_day_state_bounds(timestamps@, now, i as int);
            lemma_day_state_bounds(timestamps@, now, i as int + 1);
        }
        if timestamps[i] < cutoff {
            let ghost prev = out@.map_values(|g: (u32, usize, usize)| (g.0 as int, g.1 as int, g.2 as int));
            out.push((cutoff, boundary, i));
            assert(out@.map_values(|g: (u32, usize, usize)| (g.0 as int, g.1 as int, g.2 as int))
                =~= prev.push((cutoff as int, boundary as int, i as int)));
            cutoff = cutoff - 86400;
            boundary = i;
        }
        i = i + 1;
    }
    out
}

impl Chain {
    /// What the statistics of the chain ending in `top` are made of: the
    /// blocks they cover (newest first, back to fifteen days before `top`)
    /// and those blocks grouped by day, each day as its start and the range
    /// of blocks it holds. The sums over each day are left to the caller.
    pub fn stats_days(&self, top: &[u8; 32]) -> (r: (Vec<[u8; 32]>, Vec<(u32, usize, usize)>))
        requires
            self.wf(),
            spec_has(self.known(), top@),
            spec_lookup(self.known(), top@).unwrap().header.timestamp >= STATS_WINDOW_SECS,
        ensures
            ({
                let t = spec_lookup(self.known(), top@).unwrap();
                let rel = spec_relevant(self.known(), t, t.header.timestamp - STATS_WINDOW_SECS);
                let stamps = rel.map_values(|e: BlockHeaderWithNumber| e.header.timestamp);
                &&& spec_hashes_view(r.0@) == rel.map_values(|e: BlockHeaderWithNumber| e.header.hash@)
                &&& r.1@.map_values(|g: (u32, usize, usize)| (g.0 as int, g.1 as int, g.2 as int))
                    == spec_day_state(stamps, t.header.timestamp, stamps.len() as int).2
            }),
    {
        let (hashes, timestamps, now) = self.relevant_blocks(top);
        let groups = day_groups(timestamps.as_slice(), now);
        (hashes, groups)
    }
}

} // verus!
