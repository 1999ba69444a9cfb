//! Which pool mined each block, found by matching the coinbase against
//! each pool's patterns, and the pools' shares of the recent blocks.
use vstd::prelude::*;
use vstd::string::StringExecFns;

pub mod incremental;

verus! {

broadcast use vstd::seq_lib::group_seq_properties;

/// Blocks this many seconds older than the newest count as recent: two weeks.
pub const MINER_PERCENTAGE_OVER_LAST_SECONDS: u64 = 1209600;

#[verifier::external_type_specification]
#[verifier::external_body]
pub struct ExRegex(regex::bytes::Regex);

#[verifier::external_type_specification]
#[verifier::external_body]
pub struct ExRegexError(regex::Error);

/// Whether the regular expression `pattern` matches somewhere in `haystack`.
pub uninterp spec fn spec_regex_is_match(pattern: Seq<char>, haystack: Seq<u8>) -> bool;

/// Whether `pattern` compiles: valid syntax, within the default size limit.
pub uninterp spec fn spec_regex_compiles(pattern: Seq<char>) -> bool;

/// A compiled pattern, with the text it was compiled from.
pub struct CompiledRegex {
    source: String,
    regex: regex::bytes::Regex,
}

impl View for CompiledRegex {
    type V = Seq<char>;

    closed spec fn view(&self) -> Seq<char> {
        self.source@
    }
}

/// Calls `regex::bytes::Regex::new` on `source` and keeps `source` beside
/// what it compiled; its errors are passed on. Whether it compiles depends
/// on the pattern alone.
#[verifier::external_body]
fn compile_regex(source: String) -> (r: Result<CompiledRegex, regex::Error>)
    ensures
        r is Ok <==> spec_regex_compiles(source@),
        r matches Ok(c) ==> c@ == source@,
{
    match regex::bytes::Regex::new(&source) {
        Ok(regex) => Ok(CompiledRegex { source, regex }),
        Err(e) => Err(e),
    }
}

/// Calls `regex::bytes::Regex::is_match` with the pattern compiled from
/// `re`'s text: whether it matches somewhere in `haystack`, which depends
/// on that text and the haystack alone.
#[verifier::external_body]
fn regex_is_match(re: &CompiledRegex, haystack: &[u8]) -> (r: bool)
    ensures
        r == spec_regex_is_match(re@, haystack@),
{
    re.regex.is_match(haystack)
}

/// What `String::from_utf8_lossy` makes of `bytes`: their text, each
/// invalid sequence replaced by U+FFFD.
pub uninterp spec fn spec_utf8_lossy(bytes: Seq<u8>) -> Seq<char>;

/// Calls `String::from_utf8_lossy` and takes an owned copy. The text
/// depends on the bytes alone; what it is is left to the name.
#[verifier::external_body]
fn lossy_string(bytes: &[u8]) -> (r: String)
    ensures
        r@ == spec_utf8_lossy(bytes@),
{
    String::from_utf8_lossy(bytes).to_string()
}

/// A pool as configured: its shown name, an icon, and its patterns.
pub struct Miner {
    pub display_name: String,
    pub icon: Option<String>,
    pub regexes: Vec<String>,
}

/// A pool with its patterns compiled.
pub struct MinerRules {
    pub id: String,
    pub display_name: String,
    pub regexes: Vec<CompiledRegex>,
}

/// Why a pool configuration was refused.
#[derive(Debug, Clone, Copy, PartialEq, Eq)]
pub enum MinersError {
    InvalidRegex,
}

/// A pattern made case-insensitive: `(?i)` in front of it.
pub open spec fn spec_case_insensitive(pattern: Seq<char>) -> Seq<char> {
    seq!['(', '?', 'i', ')'] + pattern
}

/// Compiles every pool's patterns, made case-insensitive, keeping the
/// pools' order; fails when one does not compile.
pub fn compile_regexes(rules: &Vec<(String, Miner)>) -> (r: Result<Vec<MinerRules>, MinersError>)
    ensures
        r is Ok <==> forall|i: int, j: int| 0 <= i < rules@.len() && 0 <= j < rules@[i].1.regexes@.len()
            ==> spec_regex_compiles(spec_case_insensitive(#[trigger] rules@[i].1.regexes@[j]@)),
        r matches Ok(v) ==> {
            &&& v@.len() == rules@.len()
            &&& forall|i: int| 0 <= i < v@.len() ==> {
                &&& (#[trigger] v@[i]).id@ == rules@[i].0@
                &&& v@[i].display_name@ == rules@[i].1.display_name@
                &&& v@[i].regexes@.len() == rules@[i].1.regexes@.len()
                &&& forall|j: int| 0 <= j < v@[i].regexes@.len()
                    ==> (#[trigger] v@[i].regexes@[j])@ == spec_case_insensitive(rules@[i].1.regexes@[j]@)
            }
        },
{
    let mut result: Vec<MinerRules> = Vec::new();
    let mut i: usize = 0;
    while i < rules.len()
        invariant
            i <= rules@.len(),
            result@.len() == i,
            forall|a: int, b: int| 0 <= a < i && 0 <= b < rules@[a].1.regexes@.len()
                ==> spec_regex_compiles(spec_case_insensitive(#[trigger] rules@[a].1.regexes@[b]@)),
            forall|k: int| 0 <= k < i ==> {
                &&& (#[trigger] result@[k]).id@ == rules@[k].0@
                &&& result@[k].display_name@ == rules@[k].1.display_name@
                &&& result@[k].regexes@.len() == rules@[k].1.regexes@.len()
                &&& forall|j: int| 0 <= j < result@[k].regexes@.len()
                    ==> (#[trigger] result@[k].regexes@[j])@ == spec_case_insensitive(rules@[k].1.regexes@[j]@)
            },
        decreases rules@.len() - i,
    {
        let miner = &rules[i].1;
        let mut compiled: Vec<CompiledRegex> = Vec::new();
        let mut j: usize = 0;
        while j < miner.regexes.len()
            invariant
                j <= miner.regexes@.len(),
                i < rules@.len(),
                miner == &rules@[i as int].1,
                compiled@.len() == j,
                forall|b: int| 0 <= b < j ==> spec_regex_compiles(spec_case_insensitive(#[trigger] miner.regexes@[b]@)),
                forall|k: int| 0 <= k < j ==> (#[trigger] compiled@[k])@ == spec_case_insensitive(miner.regexes@[k]@),
            decreases miner.regexes@.len() - j,
        {
            let mut source = String::from_str("(?i)");
            proof {
                reveal_strlit("(?i)");
            }
            source.append(miner.regexes[j].as_str());
            assert(source@ =~= spec_case_insensitive(miner.regexes@[j as int]@));
            let ghost src = source@;
            let c = match compile_regex(source) {
                Ok(c) => c,
                Err(_) => {
                    assert(!spec_regex_compiles(src));
                    assert(rules@[i as int].1.regexes@[j as int]@ == miner.regexes@[j as int]@);
                    return Err(MinersError::InvalidRegex);
                },
            };
            assert(spec_regex_compiles(src));
            compiled.push(c);
            j = j + 1;
        }
        result.push(MinerRules { id: rules[i].0.clone(), display_name: miner.display_name.clone(), regexes: compiled });
        i = i + 1;
    }
    Ok(result)
}

/// Whether one of `res` matches `coinbase`.
pub open spec fn spec_any_match(res: Seq<CompiledRegex>, coinbase: Seq<u8>) -> bool {
    exists|j: int| 0 <= j < res.len() && spec_regex_is_match((#[trigger] res[j])@, coinbase)
}

/// The first pool, in order, with a pattern that matches `coinbase`.
pub open spec fn spec_first_match(rules: Seq<MinerRules>, coinbase: Seq<u8>) -> Option<int>
    decreases rules.len(),
{
    if rules.len() == 0 {
        None
    } else {
        match spec_first_match(rules.drop_last(), coinbase) {
            Some(i) => Some(i),
            None => if spec_any_match(rules.last().regexes@, coinbase) {
                Some(rules.len() - 1)
            } else {
                None
            },
        }
    }
}

/// The first pool, in order, with a pattern that matches `coinbase`.
pub fn miner_for_coinbase(rules: &Vec<MinerRules>, coinbase: &[u8]) -> (r: Option<usize>)
    ensures
        match r {
            Some(i) => spec_first_match(rules@, coinbase@) == Some(i as int),
            None => spec_first_match(rules@, coinbase@) is None,
        },
{
    let mut i: usize = 0;
    while i < rules.len()
        invariant
            i <= rules@.len(),
            spec_first_match(rules@.take(i as int), coinbase@) is None,
        decreases rules@.len() - i,
    {
        let res = &rules[i].regexes;
        let mut j: usize = 0;
        let mut found = false;
        while j < res.len()
            invariant
                j <= res@.len(),
                found == exists|k: int| 0 <= k < j && spec_regex_is_match((#[trigger] res@[k])@, coinbase@),
            decreases res@.len() - j,
        {
            if regex_is_match(&res[j], coinbase) {
                found = true;
            }
            j = j + 1;
        }
        assert(rules@.take(i + 1).drop_last() =~= rules@.take(i as int));
        if found {
            proof {
                lemma_first_match_prefix(rules@, i as int + 1, coinbase@);
            }
            return Some(i);
        }
        i = i + 1;
    }
    assert(rules@.take(i as int) =~= rules@);
    None
}

pub proof fn lemma_first_match_range(rules: Seq<MinerRules>, coinbase: Seq<u8>)
    ensures
        spec_first_match(rules, coinbase) matches Some(i) ==> 0 <= i < rules.len(),
    decreases rules.len(),
{
    if rules.len() > 0 {
        lemma_first_match_range(rules.drop_last(), coinbase);
    }
}

/// A match found among the first pools is the first match among all.
proof fn lemma_first_match_prefix(rules: Seq<MinerRules>, n: int, coinbase: Seq<u8>)
    requires
        0 <= n <= rules.len(),
        spec_first_match(rules.take(n), coinbase) is Some,
    ensures
        spec_first_match(rules, coinbase) == spec_first_match(rules.take(n), coinbase),
    decreases rules.len() - n,
{
    if n < rules.len() {
        assert(rules.take(n + 1).drop_last() =~= rules.take(n));
        lemma_first_match_prefix(rules, n + 1, coinbase);
    } else {
        assert(rules.take(n) =~= rules);
    }
}

/// A block of the followed chain, with the bytes of its coinbase script.
pub struct ChainBlock {
    pub hash: [u8; 32],
    pub number: u64,
    pub timestamp: u64,
    pub coinbase: Vec<u8>,
}

/// A recent block as the pools page shows it.
pub struct RecentBlock {
    pub hash: [u8; 32],
    pub number: u64,
    pub coinbase_ascii: String,
    pub miner_id: String,
    pub miner_name: String,
    pub timestamp: u64,
}

/// What the pools page is made from: who mined each block, each pool's
/// blocks, the recent blocks and each pool's count of them (the unknown
/// pool first, then the configured ones in order), and the page as last
/// serialised.
pub struct Miners {
    pub rules_regexes: Vec<MinerRules>,
    pub block_miners: Vec<([u8; 32], String)>,
    pub blocks_mined_by_miners: Vec<(String, Vec<[u8; 32]>)>,
    pub recent_blocks_mined_by_miners_counts: Vec<(String, u64)>,
    pub recent_blocks: Vec<RecentBlock>,
    pub page_data: String,
}

/// The id of the pool for blocks no pattern matches.
pub open spec fn spec_unknown_id() -> Seq<char> {
    seq!['u', 'n', 'k', 'n', 'o', 'w', 'n']
}

/// The shown name of the pool for blocks no pattern matches.
pub open spec fn spec_unknown_name() -> Seq<char> {
    seq!['U', 'N', 'K', 'N', 'O', 'W', 'N']
}

/// The slot of a pool in the per-pool lists: 0 for the unknown pool, then
/// one past the pool's place in the configuration.
pub open spec fn spec_slot(rules: Seq<MinerRules>, coinbase: Seq<u8>) -> int {
    match spec_first_match(rules, coinbase) {
        Some(i) => i + 1,
        None => 0,
    }
}

/// The id of the pool in slot `k`.
pub open spec fn spec_slot_id(rules: Seq<MinerRules>, k: int) -> Seq<char> {
    if k == 0 { spec_unknown_id() } else { rules[k - 1].id@ }
}

/// The shown name of the pool in slot `k`.
pub open spec fn spec_slot_name(rules: Seq<MinerRules>, k: int) -> Seq<char> {
    if k == 0 { spec_unknown_name() } else { rules[k - 1].display_name@ }
}

/// The hashes of the blocks mined by the pool in slot `k`, in order.
pub open spec fn spec_blocks_of(rules: Seq<MinerRules>, blocks: Seq<ChainBlock>, k: int) -> Seq<Seq<u8>>
    decreases blocks.len(),
{
    if blocks.len() == 0 {
        Seq::empty()
    } else {
        let rest = spec_blocks_of(rules, blocks.drop_last(), k);
        if spec_slot(rules, blocks.last().coinbase@) == k { rest.push(blocks.last().hash@) } else { rest }
    }
}

/// How many recent blocks (timestamp not before `after`) the pool in slot `k` mined.
pub open spec fn spec_recent_count(rules: Seq<MinerRules>, blocks: Seq<ChainBlock>, after: u64, k: int) -> nat
    decreases blocks.len(),
{
    if blocks.len() == 0 {
        0
    } else {
        let rest = spec_recent_count(rules, blocks.drop_last(), after, k);
        if blocks.last().timestamp >= after && spec_slot(rules, blocks.last().coinbase@) == k { rest + 1 } else { rest }
    }
}

/// The recent blocks, in order, each with its hash, number, pool slot,
/// timestamp and coinbase bytes.
pub open spec fn spec_recent(rules: Seq<MinerRules>, blocks: Seq<ChainBlock>, after: u64) -> Seq<(Seq<u8>, u64, int, u64, Seq<u8>)>
    decreases blocks.len(),
{
    if blocks.len() == 0 {
        Seq::empty()
    } else {
        let rest = spec_recent(rules, blocks.drop_last(), after);
        let b = blocks.last();
        if b.timestamp >= after { rest.push((b.hash@, b.number, spec_slot(rules, b.coinbase@), b.timestamp, b.coinbase@)) } else { rest }
    }
}

/// When blocks stop counting as recent: two weeks before the newest block,
/// or before `now` when there is none.
pub open spec fn spec_recent_after(blocks: Seq<ChainBlock>, now: u64) -> u64 {
    let last = if blocks.len() > 0 { blocks.last().timestamp } else { now };
    (last - MINER_PERCENTAGE_OVER_LAST_SECONDS) as u64
}

/// The id of the unknown pool.
fn unknown_id() -> (r: String)
    ensures
        r@ == spec_unknown_id(),
{
    proof {
        reveal_strlit("unknown");
    }
    String::from_str("unknown")
}

/// The shown name of the unknown pool.
fn unknown_name() -> (r: String)
    ensures
        r@ == spec_unknown_name(),
{
    proof {
        reveal_strlit("UNKNOWN");
    }
    String::from_str("UNKNOWN")
}

/// `m` holds the statistics of `blocks` (oldest first) under `rules`: who
/// mined each block, each pool's blocks, each pool's count of recent blocks,
/// and the recent blocks as the pools page shows them.
pub open spec fn spec_stats_of(m: Miners, rules: Seq<MinerRules>, blocks: Seq<ChainBlock>, now: u64) -> bool {
    let after = spec_recent_after(blocks, now);
    let recent = spec_recent(rules, blocks, after);
    &&& m.block_miners@.len() == blocks.len()
    &&& forall|i: int| 0 <= i < blocks.len() ==> (#[trigger] m.block_miners@[i]).0 == blocks[i].hash
        && m.block_miners@[i].1@ == spec_slot_id(rules, spec_slot(rules, blocks[i].coinbase@))
    &&& m.blocks_mined_by_miners@.len() == rules.len() + 1
    &&& forall|k: int| 0 <= k <= rules.len() ==> (#[trigger] m.blocks_mined_by_miners@[k]).0@ == spec_slot_id(rules, k)
        && crate::util::merkle::spec_hashes_view(m.blocks_mined_by_miners@[k].1@) == spec_blocks_of(rules, blocks, k)
    &&& m.recent_blocks_mined_by_miners_counts@.len() == rules.len() + 1
    &&& forall|k: int| 0 <= k <= rules.len() ==> (#[trigger] m.recent_blocks_mined_by_miners_counts@[k]).0@ == spec_slot_id(rules, k)
        && m.recent_blocks_mined_by_miners_counts@[k].1 == spec_recent_count(rules, blocks, after, k)
    &&& m.recent_blocks@.len() == recent.len()
    &&& forall|i: int| 0 <= i < recent.len() ==> {
        let rb = #[trigger] m.recent_blocks@[i];
        &&& rb.hash@ == recent[i].0
        &&& rb.number == recent[i].1
        &&& rb.miner_id@ == spec_slot_id(rules, recent[i].2)
        &&& rb.miner_name@ == spec_slot_name(rules, recent[i].2)
        &&& rb.timestamp == recent[i].3
        &&& rb.coinbase_ascii@ == spec_utf8_lossy(recent[i].4)
    }
}

/// The pools page before any statistics: no recent blocks, no shares.
pub open spec fn spec_empty_page() -> Seq<char> {
    "{\"recentBlocks\":[],\"recentShares\":[]}"@
}

/// The pools page before any statistics.
fn empty_page() -> (r: String)
    ensures
        r@ == spec_empty_page(),
{
    String::from_str("{\"recentBlocks\":[],\"recentShares\":[]}")
}

/// The shown name of the pool with id `id`.
pub open spec fn spec_pool_name(rules: Seq<MinerRules>, id: Seq<char>) -> Seq<char> {
    if id == spec_unknown_id() { spec_unknown_name() } else { spec_display_name_of(rules, id) }
}

/// The pools with a recent block among `counts`, in order: id, shown name, count.
pub open spec fn spec_share_counts(rules: Seq<MinerRules>, counts: Seq<(String, u64)>) -> Seq<(Seq<char>, Seq<char>, u64)>
    decreases counts.len(),
{
    if counts.len() == 0 {
        Seq::empty()
    } else {
        let rest = spec_share_counts(rules, counts.drop_last());
        let c = counts.last();
        if c.1 != 0 { rest.push((c.0@, spec_pool_name(rules, c.0@), c.1)) } else { rest }
    }
}

/// The views of a list of shares.
pub open spec fn spec_share_view(v: Seq<(String, String, u64)>) -> Seq<(Seq<char>, Seq<char>, u64)> {
    v.map_values(|t: (String, String, u64)| (t.0@, t.1@, t.2))
}

impl Miners {
    /// Pool statistics for `rules`, before any block is seen.
    pub fn new(rules_regexes: Vec<MinerRules>) -> (r: Miners)
        ensures
            r.rules_regexes@ == rules_regexes@,
            r.block_miners@.len() == 0,
            r.recent_blocks@.len() == 0,
            r.page_data@ == spec_empty_page(),
    {
        Miners {
            rules_regexes,
            block_miners: Vec::new(),
            blocks_mined_by_miners: Vec::new(),
            recent_blocks_mined_by_miners_counts: Vec::new(),
            recent_blocks: Vec::new(),
            page_data: empty_page(),
        }
    }

    /// Keeps `page` as the pools page, serialised from the recent blocks
    /// and shares after the statistics changed.
    pub fn set_page_data(&mut self, page: String)
        ensures
            final(self).page_data@ == page@,
            final(self).rules_regexes@ == old(self).rules_regexes@,
            final(self).block_miners@ == old(self).block_miners@,
            final(self).blocks_mined_by_miners@ == old(self).blocks_mined_by_miners@,
            final(self).recent_blocks_mined_by_miners_counts@ == old(self).recent_blocks_mined_by_miners_counts@,
            final(self).recent_blocks@ == old(self).recent_blocks@,
    {
        self.page_data = page;
    }

    /// The pools with recent blocks, in slot order, each with its id, its
    /// shown name and how many recent blocks it mined; its share of the
    /// recent blocks is that count over their number.
    pub fn recent_share_counts(&self) -> (r: Vec<(String, String, u64)>)
        ensures
            spec_share_view(r@) == spec_share_counts(self.rules_regexes@, self.recent_blocks_mined_by_miners_counts@),
    {
        let ghost counts = self.recent_blocks_mined_by_miners_counts@;
        let mut out: Vec<(String, String, u64)> = Vec::new();
        let mut k: usize = 0;
        while k < self.recent_blocks_mined_by_miners_counts.len()
            invariant
                k <= counts.len(),
                counts == self.recent_blocks_mined_by_miners_counts@,
                spec_share_view(out@) == spec_share_counts(self.rules_regexes@, counts.take(k as int)),
            decreases counts.len() - k,
        {
            assert(counts.take(k + 1).drop_last() =~= counts.take(k as int));
            assert(counts.take(k + 1).last() == counts[k as int]);
            let mined = self.recent_blocks_mined_by_miners_counts[k].1;
            if mined != 0 {
                let id = self.recent_blocks_mined_by_miners_counts[k].0.clone();
                let unknown = unknown_id();
                let name = if id == unknown {
                    unknown_name()
                } else {
                    self.display_name_of(&id)
                };
                let ghost before = out@;
                out.push((id, name, mined));
                assert(spec_share_view(out@) =~= spec_share_view(before).push((counts[k as int].0@,
                    spec_pool_name(self.rules_regexes@, counts[k as int].0@), mined)));
            }
            k = k + 1;
        }
        assert(counts.take(k as int) =~= counts);
        out
    }

    /// The id of the pool in slot `k`.
    fn slot_id(&self, k: usize) -> (r: String)
        requires
            k <= self.rules_regexes@.len(),
        ensures
            r@ == spec_slot_id(self.rules_regexes@, k as int),
    {
        if k == 0 { unknown_id() } else { self.rules_regexes[k - 1].id.clone() }
    }

    /// The shown name of the pool in slot `k`.
    fn slot_name(&self, k: usize) -> (r: String)
        requires
            k <= self.rules_regexes@.len(),
        ensures
            r@ == spec_slot_name(self.rules_regexes@, k as int),
    {
        if k == 0 { unknown_name() } else { self.rules_regexes[k - 1].display_name.clone() }
    }

    /// Recomputes everything from the blocks of the followed chain, oldest
    /// first: who mined each block, each pool's blocks, the recent blocks and
    /// each pool's count of them.
    pub fn recalculate_full_miner_stats(&mut self, blocks: &Vec<ChainBlock>, now: u64)
        requires
            blocks@.len() > 0 ==> blocks@.last().timestamp >= MINER_PERCENTAGE_OVER_LAST_SECONDS,
            blocks@.len() == 0 ==> now >= MINER_PERCENTAGE_OVER_LAST_SECONDS,
            old(self).rules_regexes@.len() < usize::MAX,
        ensures
            final(self).rules_regexes@ == old(self).rules_regexes@,
            final(self).page_data == old(self).page_data,
            spec_stats_of(*final(self), old(self).rules_regexes@, blocks@, now),
    {
        let ghost rules = self.rules_regexes@;
        let n_slots = self.rules_regexes.len() + 1;
        let last_timestamp = if blocks.len() > 0 { blocks[blocks.len() - 1].timestamp } else { now };
        let recent_after = last_timestamp - MINER_PERCENTAGE_OVER_LAST_SECONDS;
        assert(recent_after == spec_recent_after(blocks@, now));
        let mut mined: Vec<(String, Vec<[u8; 32]>)> = Vec::new();
        let mut counts: Vec<(String, u64)> = Vec::new();
        let mut k: usize = 0;
        while k < n_slots
            invariant
                rules == self.rules_regexes@,
                n_slots == rules.len() + 1,
                k <= n_slots,
                mined@.len() == k && counts@.len() == k,
                forall|j: int| 0 <= j < k ==> (#[trigger] mined@[j]).0@ == spec_slot_id(rules, j) && mined@[j].1@.len() == 0,
                forall|j: int| 0 <= j < k ==> (#[trigger] counts@[j]).0@ == spec_slot_id(rules, j) && counts@[j].1 == 0,
            decreases n_slots - k,
        {
            mined.push((self.slot_id(k), Vec::new()));
            counts.push((self.slot_id(k), 0));
            k = k + 1;
        }
        let mut block_miners: Vec<([u8; 32], String)> = Vec::new();
        let mut recent_blocks: Vec<RecentBlock> = Vec::new();
        let mut i: usize = 0;
        while i < blocks.len()
            invariant
                rules == self.rules_regexes@,
                rules.len() < usize::MAX,
                n_slots == rules.len() + 1,
                i <= blocks@.len(),
                recent_after == spec_recent_after(blocks@, now),
                block_miners@.len() == i,
                forall|j: int| 0 <= j < i ==> (#[trigger] block_miners@[j]).0 == blocks@[j].hash
                    && block_miners@[j].1@ == spec_slot_id(rules, spec_slot(rules, blocks@[j].coinbase@)),
                mined@.len() == n_slots && counts@.len() == n_slots,
                forall|j: int| 0 <= j < n_slots ==> (#[trigger] mined@[j]).0@ == spec_slot_id(rules, j)
                    && crate::util::merkle::spec_hashes_view(mined@[j].1@) == spec_blocks_of(rules, blocks@.take(i as int), j),
                forall|j: int| 0 <= j < n_slots ==> (#[trigger] counts@[j]).0@ == spec_slot_id(rules, j)
                    && counts@[j].1 == spec_recent_count(rules, blocks@.take(i as int), recent_after, j)
                    && counts@[j].1 <= i,
                recent_blocks@.len() == spec_recent(rules, blocks@.take(i as int), recent_after).len(),
                forall|j: int| 0 <= j < recent_blocks@.len() ==> {
                    let rb = #[trigger] recent_blocks@[j];
                    let m = spec_recent(rules, blocks@.take(i as int), recent_after)[j];
                    &&& rb.hash@ == m.0
                    &&& rb.number == m.1
                    &&& rb.miner_id@ == spec_slot_id(rules, m.2)
                    &&& rb.miner_name@ == spec_slot_name(rules, m.2)
                    &&& rb.timestamp == m.3
                    &&& rb.coinbase_ascii@ == spec_utf8_lossy(m.4)
                },
            decreases blocks@.len() - i,
        {
            let b = &blocks[i];
            let ghost prefix = blocks@.take(i as int);
            let ghost next = blocks@.take(i + 1);
            assert(next.drop_last() =~= prefix);
            assert(next.last() == blocks@[i as int]);
            proof {
                lemma_first_match_range(rules, b.coinbase@);
            }
            let slot: usize = match miner_for_coinbase(&self.rules_regexes, b.coinbase.as_slice()) {
                Some(r) => r + 1,
                None => 0,
            };
            assert(slot == spec_slot(rules, b.coinbase@));
            block_miners.push((b.hash, self.slot_id(slot)));
            let (id, mut hashes) = mined.remove(slot);
            let ghost old_hashes = hashes@;
            hashes.push(b.hash);
            mined.insert(slot, (id, hashes));
            proof {
                assert forall|j: int| 0 <= j < n_slots implies (#[trigger] mined@[j]).0@ == spec_slot_id(rules, j)
                    && crate::util::merkle::spec_hashes_view(mined@[j].1@) == spec_blocks_of(rules, next, j) by {
                    if j == slot {
                        assert(crate::util::merkle::spec_hashes_view(mined@[j].1@)
                            =~= crate::util::merkle::spec_hashes_view(old_hashes).push(b.hash@));
                    }
                }
            }
            if b.timestamp >= recent_after {
                let (cid, c) = counts.remove(slot);
                counts.insert(slot, (cid, c + 1));
                let ghost before = recent_blocks@;
                recent_blocks.push(RecentBlock {
                    hash: b.hash,
                    number: b.number,
                    coinbase_ascii: lossy_string(b.coinbase.as_slice()),
                    miner_id: self.slot_id(slot),
                    miner_name: self.slot_name(slot),
                    timestamp: b.timestamp,
                });
                proof {
                    let m = spec_recent(rules, next, recent_after);
                    assert(m == spec_recent(rules, prefix, recent_after).push((b.hash@, b.number, slot as int, b.timestamp, b.coinbase@)));
                    assert forall|j: int| 0 <= j < recent_blocks@.len() implies {
                        let rb = #[trigger] recent_blocks@[j];
                        let mm = m[j];
                        &&& rb.hash@ == mm.0
                        &&& rb.number == mm.1
                        &&& rb.miner_id@ == spec_slot_id(rules, mm.2)
                        &&& rb.miner_name@ == spec_slot_name(rules, mm.2)
                        &&& rb.timestamp == mm.3
                        &&& rb.coinbase_ascii@ == spec_utf8_lossy(mm.4)
                    } by {
                        if j < before.len() {
                            assert(recent_blocks@[j] == before[j]);
                        }
                    }
                }
            } else {
                proof {
                    assert(spec_recent(rules, next, recent_after) == spec_recent(rules, prefix, recent_after));
                }
            }
            proof {
                assert forall|j: int| 0 <= j < n_slots implies (#[trigger] counts@[j]).0@ == spec_slot_id(rules, j)
                    && counts@[j].1 == spec_recent_count(rules, next, recent_after, j)
                    && counts@[j].1 <= i + 1 by {
                }
            }
            i = i + 1;
        }
        assert(blocks@.take(i as int) =~= blocks@);
        self.block_miners = block_miners;
        self.blocks_mined_by_miners = mined;
        self.recent_blocks_mined_by_miners_counts = counts;
        self.recent_blocks = recent_blocks;
    }
}

/// The pools page as last serialised.
pub fn get_page_data(miners: &Miners) -> (r: String)
    ensures
        r@ == miners.page_data@,
{
    miners.page_data.clone()
}

/// After the headers are loaded, everything is computed from the chain.
pub fn callback_after_headers_loaded(miners: &mut Miners, blocks: &Vec<ChainBlock>, now: u64)
    requires
        blocks@.len() > 0 ==> blocks@.last().timestamp >= MINER_PERCENTAGE_OVER_LAST_SECONDS,
        blocks@.len() == 0 ==> now >= MINER_PERCENTAGE_OVER_LAST_SECONDS,
        old(miners).rules_regexes@.len() < usize::MAX,
    ensures
        final(miners).rules_regexes@ == old(miners).rules_regexes@,
        final(miners).page_data == old(miners).page_data,
        spec_stats_of(*final(miners), old(miners).rules_regexes@, blocks@, now),
{
    miners.recalculate_full_miner_stats(blocks, now);
}

/// After a reorganisation, everything is computed again from the chain.
pub fn callback_chain_reorg(miners: &mut Miners, blocks: &Vec<ChainBlock>, now: u64)
    requires
        blocks@.len() > 0 ==> blocks@.last().timestamp >= MINER_PERCENTAGE_OVER_LAST_SECONDS,
        blocks@.len() == 0 ==> now >= MINER_PERCENTAGE_OVER_LAST_SECONDS,
        old(miners).rules_regexes@.len() < usize::MAX,
    ensures
        final(miners).rules_regexes@ == old(miners).rules_regexes@,
        final(miners).page_data == old(miners).page_data,
        spec_stats_of(*final(miners), old(miners).rules_regexes@, blocks@, now),
{
    miners.recalculate_full_miner_stats(blocks, now);
}

/// How many blocks at the front of `recent` are older than `after`.
pub open spec fn spec_stale_prefix(recent: Seq<RecentBlock>, after: u64) -> int
    decreases recent.len(),
{
    if recent.len() == 0 || recent[0].timestamp >= after {
        0
    } else {
        1 + spec_stale_prefix(recent.drop_first(), after)
    }
}

/// The first slot whose id is `id`.
pub open spec fn spec_id_slot(ids: Seq<Seq<char>>, id: Seq<char>) -> Option<int>
    decreases ids.len(),
{
    if ids.len() == 0 {
        None
    } else {
        match spec_id_slot(ids.drop_last(), id) {
            Some(k) => Some(k),
            None => if ids.last() == id { Some(ids.len() - 1) } else { None },
        }
    }
}

/// How many of `blocks` the id lookup puts in slot `k`.
pub open spec fn spec_popped_in_slot(ids: Seq<Seq<char>>, blocks: Seq<RecentBlock>, k: int) -> nat
    decreases blocks.len(),
{
    if blocks.len() == 0 {
        0
    } else {
        spec_popped_in_slot(ids, blocks.drop_last(), k) + if spec_id_slot(ids, blocks.last().miner_id@) == Some(k) { 1nat } else { 0 }
    }
}

/// The ids of the per-pool counts.
pub open spec fn spec_count_ids(counts: Seq<(String, u64)>) -> Seq<Seq<char>> {
    counts.map_values(|c: (String, u64)| c.0@)
}

/// The first slot whose id is `id`.
fn id_slot(counts: &Vec<(String, u64)>, id: &String) -> (r: Option<usize>)
    ensures
        match r {
            Some(k) => spec_id_slot(spec_count_ids(counts@), id@) == Some(k as int),
            None => spec_id_slot(spec_count_ids(counts@), id@) is None,
        },
{
    let ghost ids = spec_count_ids(counts@);
    let mut k: usize = 0;
    while k < counts.len()
        invariant
            k <= counts@.len(),
            ids == spec_count_ids(counts@),
            spec_id_slot(ids.take(k as int), id@) is None,
        decreases counts@.len() - k,
    {
        assert(ids.take(k + 1).drop_last() =~= ids.take(k as int));
        if counts[k].0 == *id {
            proof {
                lemma_id_slot_prefix(ids, k + 1, id@);
            }
            return Some(k);
        }
        k = k + 1;
    }
    assert(ids.take(k as int) =~= ids);
    None
}

proof fn lemma_id_slot_prefix(ids: Seq<Seq<char>>, n: int, id: Seq<char>)
    requires
        0 <= n <= ids.len(),
        spec_id_slot(ids.take(n), id) is Some,
    ensures
        spec_id_slot(ids, id) == spec_id_slot(ids.take(n), id),
    decreases ids.len() - n,
{
    if n < ids.len() {
        assert(ids.take(n + 1).drop_last() =~= ids.take(n));
        lemma_id_slot_prefix(ids, n + 1, id);
    } else {
        assert(ids.take(n) =~= ids);
    }
}

proof fn lemma_id_slot_range(ids: Seq<Seq<char>>, id: Seq<char>)
    ensures
        spec_id_slot(ids, id) matches Some(k) ==> 0 <= k < ids.len(),
    decreases ids.len(),
{
    if ids.len() > 0 {
        lemma_id_slot_range(ids.drop_last(), id);
    }
}

/// `f` is `o` after `callback_chain_extended` with `blocks`: the blocks
/// no longer recent leave the front of the recent list and their pools'
/// counts, and each new block is attributed and, when recent, added.
pub open spec fn spec_chain_extended(o: Miners, f: Miners, blocks: Seq<ChainBlock>) -> bool {
    let rules = o.rules_regexes@;
    let after = spec_recent_after(blocks, 0);
    let old_recent = o.recent_blocks@;
    let p = spec_stale_prefix(old_recent, after);
    let added = spec_recent(rules, blocks, after);
    let ids = spec_count_ids(o.recent_blocks_mined_by_miners_counts@);
    &&& f.rules_regexes@ == rules
    &&& f.page_data == o.page_data
    &&& f.block_miners@.len() == o.block_miners@.len() + blocks.len()
    &&& f.block_miners@.subrange(0, o.block_miners@.len() as int) == o.block_miners@
    &&& forall|i: int| 0 <= i < blocks.len() ==> {
        let e = #[trigger] f.block_miners@[o.block_miners@.len() + i];
        e.0 == blocks[i].hash && e.1@ == spec_slot_id(rules, spec_slot(rules, blocks[i].coinbase@))
    }
    &&& f.blocks_mined_by_miners@.len() == rules.len() + 1
    &&& forall|k: int| 0 <= k <= rules.len() ==> (#[trigger] f.blocks_mined_by_miners@[k]).0
            == o.blocks_mined_by_miners@[k].0
        && crate::util::merkle::spec_hashes_view(f.blocks_mined_by_miners@[k].1@)
            == crate::util::merkle::spec_hashes_view(o.blocks_mined_by_miners@[k].1@) + spec_blocks_of(rules, blocks, k)
    &&& f.recent_blocks@.len() == old_recent.len() - p + added.len()
    &&& f.recent_blocks@.subrange(0, old_recent.len() - p) == old_recent.skip(p)
    &&& forall|i: int| 0 <= i < added.len() ==> {
        let rb = #[trigger] f.recent_blocks@[old_recent.len() - p + i];
        &&& rb.hash@ == added[i].0
        &&& rb.number == added[i].1
        &&& rb.miner_id@ == spec_slot_id(rules, added[i].2)
        &&& rb.miner_name@ == spec_slot_name(rules, added[i].2)
        &&& rb.timestamp == added[i].3
        &&& rb.coinbase_ascii@ == spec_utf8_lossy(added[i].4)
    }
    &&& f.recent_blocks_mined_by_miners_counts@.len() == rules.len() + 1
    &&& forall|k: int| 0 <= k <= rules.len() ==> {
        let c = o.recent_blocks_mined_by_miners_counts@[k].1 as int;
        let m = spec_popped_in_slot(ids, old_recent.take(p), k) as int;
        &&& (#[trigger] f.recent_blocks_mined_by_miners_counts@[k]).0
            == o.recent_blocks_mined_by_miners_counts@[k].0
        &&& f.recent_blocks_mined_by_miners_counts@[k].1
            == (if c >= m { c - m } else { 0 }) + spec_recent_count(rules, blocks, after, k)
    }
}

impl Miners {
    /// Takes blocks that extended the chain, oldest first: blocks no longer
    /// recent (two weeks before the newest) leave the recent list and their
    /// pools' counts (found by id, never below zero); then each new block
    /// is attributed to its pool, and the recent ones are added.
    #[verifier::spinoff_prover]
    pub fn callback_chain_extended(&mut self, blocks: &Vec<ChainBlock>)
        requires
            blocks@.len() > 0,
            blocks@.last().timestamp >= MINER_PERCENTAGE_OVER_LAST_SECONDS,
            old(self).rules_regexes@.len() < usize::MAX,
            old(self).recent_blocks_mined_by_miners_counts@.len() == old(self).rules_regexes@.len() + 1,
            old(self).blocks_mined_by_miners@.len() == old(self).rules_regexes@.len() + 1,
            forall|k: int| 0 <= k < old(self).recent_blocks_mined_by_miners_counts@.len()
                ==> (#[trigger] old(self).recent_blocks_mined_by_miners_counts@[k]).1 <= u64::MAX - blocks@.len(),
        ensures
            spec_chain_extended(*old(self), *final(self), blocks@),
    {
        let ghost rules = self.rules_regexes@;
        let ghost old_recent = self.recent_blocks@;
        let ghost ids = spec_count_ids(self.recent_blocks_mined_by_miners_counts@);
        let ghost c0 = self.recent_blocks_mined_by_miners_counts@;
        let last_timestamp = blocks[blocks.len() - 1].timestamp;
        let recent_after = last_timestamp - MINER_PERCENTAGE_OVER_LAST_SECONDS;
        assert(recent_after == spec_recent_after(blocks@, 0));
        let n_slots = self.rules_regexes.len() + 1;
        // drop the blocks that are no longer recent
        let mut p: usize = 0;
        while p < self.recent_blocks.len() && self.recent_blocks[p].timestamp < recent_after
            invariant
                p <= old_recent.len(),
                self.recent_blocks@ == old_recent,
                self.rules_regexes@ == old(self).rules_regexes@,
                self.rules_regexes@ == rules,
                self.block_miners@ == old(self).block_miners@,
                self.blocks_mined_by_miners@ == old(self).blocks_mined_by_miners@,
                self.page_data == old(self).page_data,
                c0 == old(self).recent_blocks_mined_by_miners_counts@,
                c0.len() == rules.len() + 1,
                forall|k: int| 0 <= k < c0.len() ==> (#[trigger] c0[k]).1 <= u64::MAX - blocks@.len(),
                spec_stale_prefix(old_recent, recent_after) == p + spec_stale_prefix(old_recent.skip(p as int), recent_after),
                self.recent_blocks_mined_by_miners_counts@.len() == c0.len(),
                ids == spec_count_ids(self.recent_blocks_mined_by_miners_counts@),
                forall|k: int| 0 <= k < c0.len() ==> {
                    let c = c0[k].1 as int;
                    let m = spec_popped_in_slot(ids, old_recent.take(p as int), k) as int;
                    &&& (#[trigger] self.recent_blocks_mined_by_miners_counts@[k]).0 == c0[k].0
                    &&& self.recent_blocks_mined_by_miners_counts@[k].1 == (if c >= m { c - m } else { 0 })
                },
            decreases old_recent.len() - p,
        {
            assert(old_recent.skip(p as int).drop_first() =~= old_recent.skip(p + 1));
            assert(old_recent.take(p + 1).drop_last() =~= old_recent.take(p as int));
            let ghost before = self.recent_blocks_mined_by_miners_counts@;
            let slot = id_slot(&self.recent_blocks_mined_by_miners_counts, &self.recent_blocks[p].miner_id);
            match slot {
                Some(k) => {
                    proof {
                        lemma_id_slot_range(ids, old_recent[p as int].miner_id@);
                    }
                    let (id, c) = self.recent_blocks_mined_by_miners_counts.remove(k);
                    let c2 = if c > 0 { c - 1 } else { 0 };
                    self.recent_blocks_mined_by_miners_counts.insert(k, (id, c2));
                    assert(spec_count_ids(self.recent_blocks_mined_by_miners_counts@) =~= ids);
                    proof {
                        assert forall|j: int| 0 <= j < c0.len() implies {
                            let c = c0[j].1 as int;
                            let m = spec_popped_in_slot(ids, old_recent.take(p + 1), j) as int;
                            &&& (#[trigger] self.recent_blocks_mined_by_miners_counts@[j]).0 == c0[j].0
                            &&& self.recent_blocks_mined_by_miners_counts@[j].1 == (if c >= m { c - m } else { 0 })
                        } by {
                            assert(old_recent.take(p + 1).last() == old_recent[p as int]);
                            if j != k {
                                assert(self.recent_blocks_mined_by_miners_counts@[j] == before[j]);
                            }
                        }
                    }
                },
                None => {
                    proof {
                        assert forall|j: int| 0 <= j < c0.len() implies {
                            let c = c0[j].1 as int;
                            let m = spec_popped_in_slot(ids, old_recent.take(p + 1), j) as int;
                            &&& (#[trigger] self.recent_blocks_mined_by_miners_counts@[j]).0 == c0[j].0
                            &&& self.recent_blocks_mined_by_miners_counts@[j].1 == (if c >= m { c - m } else { 0 })
                        } by {
                            assert(old_recent.take(p + 1).last() == old_recent[p as int]);
                        }
                    }
                },
            }
            p = p + 1;
        }
        let ghost pp = p as int;
        assert(spec_stale_prefix(old_recent.skip(pp), recent_after) == 0);
        let mut kept: Vec<RecentBlock> = Vec::new();
        let mut old_list: Vec<RecentBlock> = Vec::new();
        std::mem::swap(&mut old_list, &mut self.recent_blocks);
        let mut q: usize = 0;
        let mut rest = old_list;
        // keep the ones after the stale prefix, in order
        while rest.len() > p
            invariant
                p as int == pp,
                rest@.len() >= p,
                old_recent == rest@ + kept@.reverse(),
            decreases rest@.len(),
        {
            let ghost r0 = rest@;
            let ghost k0 = kept@;
            let x = rest.pop().unwrap();
            kept.push(x);
            assert(r0 == rest@.push(x));
            assert(kept@.reverse() =~= seq![x] + k0.reverse());
            assert(old_recent =~= rest@ + kept@.reverse());
        }
        let mut recent: Vec<RecentBlock> = Vec::new();
        while kept.len() > 0
            invariant
                old_recent.skip(pp) == recent@ + kept@.reverse(),
            decreases kept@.len(),
        {
            let ghost k0 = kept@;
            let x = kept.pop().unwrap();
            assert(k0 == kept@.push(x));
            assert(k0.reverse() =~= seq![x] + kept@.reverse());
            recent.push(x);
            assert(recent@ + kept@.reverse() =~= old_recent.skip(pp));
        }
        assert(recent@ =~= old_recent.skip(pp));
        self.recent_blocks = recent;
        let ghost base_recent = self.recent_blocks@;
        let ghost base_counts = self.recent_blocks_mined_by_miners_counts@;
        let ghost base_mined = self.blocks_mined_by_miners@;
        let ghost base_miners = self.block_miners@;
        let mut i: usize = 0;
        while i < blocks.len()
            invariant
                rules == self.rules_regexes@,
                self.page_data == old(self).page_data,
                rules.len() < usize::MAX,
                n_slots == rules.len() + 1,
                i <= blocks@.len(),
                recent_after == spec_recent_after(blocks@, 0),
                self.block_miners@.len() == base_miners.len() + i,
                self.block_miners@.subrange(0, base_miners.len() as int) == base_miners,
                forall|j: int| 0 <= j < i ==> {
                    let e = #[trigger] self.block_miners@[base_miners.len() + j];
                    e.0 == blocks@[j].hash && e.1@ == spec_slot_id(rules, spec_slot(rules, blocks@[j].coinbase@))
                },
                self.blocks_mined_by_miners@.len() == n_slots,
                base_mined.len() == n_slots,
                forall|k: int| 0 <= k < n_slots ==> (#[trigger] self.blocks_mined_by_miners@[k]).0 == base_mined[k].0
                    && crate::util::merkle::spec_hashes_view(self.blocks_mined_by_miners@[k].1@)
                        == crate::util::merkle::spec_hashes_view(base_mined[k].1@) + spec_blocks_of(rules, blocks@.take(i as int), k),
                self.recent_blocks_mined_by_miners_counts@.len() == n_slots,
                base_counts.len() == n_slots,
                forall|k: int| 0 <= k < n_slots ==> (#[trigger] base_counts[k]).1 <= c0[k].1,
                c0.len() == n_slots,
                forall|k: int| 0 <= k < n_slots ==> (#[trigger] c0[k]).1 <= u64::MAX - blocks@.len(),
                forall|k: int| 0 <= k < n_slots ==> (#[trigger] self.recent_blocks_mined_by_miners_counts@[k]).0 == base_counts[k].0
                    && self.recent_blocks_mined_by_miners_counts@[k].1
                        == base_counts[k].1 + spec_recent_count(rules, blocks@.take(i as int), recent_after, k)
                    && spec_recent_count(rules, blocks@.take(i as int), recent_after, k) <= i,
                self.recent_blocks@.len() == base_recent.len() + spec_recent(rules, blocks@.take(i as int), recent_after).len(),
                self.recent_blocks@.subrange(0, base_recent.len() as int) == base_recent,
                forall|j: int| 0 <= j < spec_recent(rules, blocks@.take(i as int), recent_after).len() ==> {
                    let rb = #[trigger] self.recent_blocks@[base_recent.len() + j];
                    let m = spec_recent(rules, blocks@.take(i as int), recent_after)[j];
                    &&& rb.hash@ == m.0
                    &&& rb.number == m.1
                    &&& rb.miner_id@ == spec_slot_id(rules, m.2)
                    &&& rb.miner_name@ == spec_slot_name(rules, m.2)
                    &&& rb.timestamp == m.3
                    &&& rb.coinbase_ascii@ == spec_utf8_lossy(m.4)
                },
            decreases blocks@.len() - i,
        {
            let b = &blocks[i];
            let ghost prefix = blocks@.take(i as int);
            let ghost next = blocks@.take(i + 1);
            assert(next.drop_last() =~= prefix);
            assert(next.last() == blocks@[i as int]);
            proof {
                lemma_first_match_range(rules, b.coinbase@);
            }
            let slot: usize = match miner_for_coinbase(&self.rules_regexes, b.coinbase.as_slice()) {
                Some(r) => r + 1,
                None => 0,
            };
            assert(slot == spec_slot(rules, b.coinbase@));
            let ghost bm_before = self.block_miners@;
            self.block_miners.push((b.hash, self.slot_id(slot)));
            assert(self.block_miners@.subrange(0, base_miners.len() as int) =~= bm_before.subrange(0, base_miners.len() as int));
            let (id, mut hashes) = self.blocks_mined_by_miners.remove(slot);
            let ghost old_hashes = hashes@;
            hashes.push(b.hash);
            self.blocks_mined_by_miners.insert(slot, (id, hashes));
            proof {
                assert forall|k: int| 0 <= k < n_slots implies (#[trigger] self.blocks_mined_by_miners@[k]).0 == base_mined[k].0
                    && crate::util::merkle::spec_hashes_view(self.blocks_mined_by_miners@[k].1@)
                        == crate::util::merkle::spec_hashes_view(base_mined[k].1@) + spec_blocks_of(rules, next, k) by {
                    if k == slot {
                        assert(crate::util::merkle::spec_hashes_view(self.blocks_mined_by_miners@[k].1@)
                            =~= crate::util::merkle::spec_hashes_view(old_hashes).push(b.hash@));
                        assert(crate::util::merkle::spec_hashes_view(base_mined[k].1@) + spec_blocks_of(rules, next, k)
                            =~= (crate::util::merkle::spec_hashes_view(base_mined[k].1@) + spec_blocks_of(rules, prefix, k)).push(b.hash@));
                    }
                }
            }
            if b.timestamp >= recent_after {
                let (cid, c) = self.recent_blocks_mined_by_miners_counts.remove(slot);
                self.recent_blocks_mined_by_miners_counts.insert(slot, (cid, c + 1));
                let ghost before = self.recent_blocks@;
                let rb = RecentBlock {
                    hash: b.hash,
                    number: b.number,
                    coinbase_ascii: lossy_string(b.coinbase.as_slice()),
                    miner_id: self.slot_id(slot),
                    miner_name: self.slot_name(slot),
                    timestamp: b.timestamp,
                };
                self.recent_blocks.push(rb);
                proof {
                    let m = spec_recent(rules, next, recent_after);
                    assert(m == spec_recent(rules, prefix, recent_after).push((b.hash@, b.number, slot as int, b.timestamp, b.coinbase@)));
                    assert(self.recent_blocks@.subrange(0, base_recent.len() as int) =~= before.subrange(0, base_recent.len() as int));
                    assert forall|j: int| 0 <= j < m.len() implies {
                        let rb = #[trigger] self.recent_blocks@[base_recent.len() + j];
                        let mm = m[j];
                        &&& rb.hash@ == mm.0
                        &&& rb.number == mm.1
                        &&& rb.miner_id@ == spec_slot_id(rules, mm.2)
                        &&& rb.miner_name@ == spec_slot_name(rules, mm.2)
                        &&& rb.timestamp == mm.3
                        &&& rb.coinbase_ascii@ == spec_utf8_lossy(mm.4)
                    } by {
                        if j < m.len() - 1 {
                            assert(self.recent_blocks@[base_recent.len() + j] == before[base_recent.len() + j]);
                        }
                    }
                }
            } else {
                proof {
                    assert(spec_recent(rules, next, recent_after) == spec_recent(rules, prefix, recent_after));
                }
            }
            i = i + 1;
        }
        assert(blocks@.take(i as int) =~= blocks@);
    }
}

/// Where `hash` was last recorded in `block_miners`.
pub open spec fn spec_last_block_miner(bm: Seq<([u8; 32], String)>, hash: Seq<u8>) -> Option<int>
    decreases bm.len(),
{
    if bm.len() == 0 {
        None
    } else if bm.last().0@ == hash {
        Some(bm.len() - 1)
    } else {
        spec_last_block_miner(bm.drop_last(), hash)
    }
}

proof fn lemma_last_block_miner_range(bm: Seq<([u8; 32], String)>, hash: Seq<u8>)
    ensures
        spec_last_block_miner(bm, hash) matches Some(i) ==> 0 <= i < bm.len() && bm[i].0@ == hash,
    decreases bm.len(),
{
    if bm.len() > 0 {
        lemma_last_block_miner_range(bm.drop_last(), hash);
    }
}

/// The shown name of the first pool with id `id`; empty when none has it.
pub open spec fn spec_display_name_of(rules: Seq<MinerRules>, id: Seq<char>) -> Seq<char>
    decreases rules.len(),
{
    if rules.len() == 0 {
        Seq::empty()
    } else {
        let earlier = spec_first_rule_with_id(rules.drop_last(), id);
        if earlier is Some {
            rules[earlier.unwrap()].display_name@
        } else if rules.last().id@ == id {
            rules.last().display_name@
        } else {
            Seq::empty()
        }
    }
}

/// The first pool with id `id`.
pub open spec fn spec_first_rule_with_id(rules: Seq<MinerRules>, id: Seq<char>) -> Option<int>
    decreases rules.len(),
{
    if rules.len() == 0 {
        None
    } else {
        match spec_first_rule_with_id(rules.drop_last(), id) {
            Some(k) => Some(k),
            None => if rules.last().id@ == id { Some(rules.len() - 1) } else { None },
        }
    }
}

proof fn lemma_display_name_prefix(rules: Seq<MinerRules>, n: int, id: Seq<char>)
    requires
        1 <= n <= rules.len(),
        rules[n - 1].id@ == id,
        forall|j: int| 0 <= j < n - 1 ==> rules[j].id@ != id,
    ensures
        spec_display_name_of(rules, id) == rules[n - 1].display_name@,
        spec_first_rule_with_id(rules, id) == Some(n - 1),
    decreases rules.len(),
{
    lemma_first_rule_none(rules.take(n - 1), id);
    assert(rules.take(n).drop_last() =~= rules.take(n - 1));
    if n < rules.len() {
        lemma_display_name_prefix(rules.drop_last(), n, id);
        assert(rules.drop_last()[n - 1] == rules[n - 1]);
    } else {
        assert(rules.drop_last() =~= rules.take(n - 1));
    }
}

proof fn lemma_first_rule_none(rules: Seq<MinerRules>, id: Seq<char>)
    requires
        forall|j: int| 0 <= j < rules.len() ==> rules[j].id@ != id,
    ensures
        spec_first_rule_with_id(rules, id) is None,
    decreases rules.len(),
{
    if rules.len() > 0 {
        lemma_first_rule_none(rules.drop_last(), id);
    }
}

impl Miners {
    /// Who mined the block `hash`: the pool's id and shown name, how many
    /// recent blocks it mined and how many recent blocks there are (the
    /// share is the first over the second). `None` for a block not seen.
    pub fn get_miner_for_block_and_share(&self, hash: &[u8; 32]) -> (r: Option<(String, String, u64, usize)>)
        ensures
            match spec_last_block_miner(self.block_miners@, hash@) {
                None => r is None,
                Some(i) => {
                    let id = self.block_miners@[i].1@;
                    r matches Some((rid, name, mined, total)) && rid@ == id && total == self.recent_blocks@.len()
                        && name@ == (if id == spec_unknown_id() { spec_unknown_name() } else { spec_display_name_of(self.rules_regexes@, id) })
                        && mined == (match spec_id_slot(spec_count_ids(self.recent_blocks_mined_by_miners_counts@), id) {
                            Some(k) => self.recent_blocks_mined_by_miners_counts@[k].1,
                            None => 0,
                        })
                },
            },
    {
        let mut i = self.block_miners.len();
        while i > 0
            invariant
                i <= self.block_miners@.len(),
                spec_last_block_miner(self.block_miners@, hash@) == spec_last_block_miner(self.block_miners@.take(i as int), hash@),
            decreases i,
        {
            assert(self.block_miners@.take(i as int).drop_last() =~= self.block_miners@.take(i - 1));
            if crate::util::merkle::hash_eq(&self.block_miners[i - 1].0, hash) {
                let id = self.block_miners[i - 1].1.clone();
                let mined = match id_slot(&self.recent_blocks_mined_by_miners_counts, &id) {
                    Some(k) => {
                        proof {
                            lemma_id_slot_range(spec_count_ids(self.recent_blocks_mined_by_miners_counts@), id@);
                        }
                        self.recent_blocks_mined_by_miners_counts[k].1
                    },
                    None => 0,
                };
                let unknown = unknown_id();
                let name = if id == unknown {
                    unknown_name()
                } else {
                    self.display_name_of(&id)
                };
                return Some((id, name, mined, self.recent_blocks.len()));
            }
            i = i - 1;
        }
        assert(self.block_miners@.take(0) =~= Seq::<([u8; 32], String)>::empty());
        None
    }

    /// The shown name of the first pool with id `id` (empty when none has it).
    fn display_name_of(&self, id: &String) -> (r: String)
        ensures
            r@ == spec_display_name_of(self.rules_regexes@, id@),
    {
        let mut k: usize = 0;
        while k < self.rules_regexes.len()
            invariant
                k <= self.rules_regexes@.len(),
                spec_display_name_of(self.rules_regexes@.take(k as int), id@) == Seq::<char>::empty()
                    && forall|j: int| 0 <= j < k ==> self.rules_regexes@[j].id@ != id@,
            decreases self.rules_regexes@.len() - k,
        {
            assert(self.rules_regexes@.take(k + 1).drop_last() =~= self.rules_regexes@.take(k as int));
            if self.rules_regexes[k].id == *id {
                proof {
                    lemma_display_name_prefix(self.rules_regexes@, k as int + 1, id@);
                }
                return self.rules_regexes[k].display_name.clone();
            }
            proof {
                lemma_first_rule_none(self.rules_regexes@.take(k as int), id@);
                assert(self.rules_regexes@.take(k + 1).last() == self.rules_regexes@[k as int]);
            }
            k = k + 1;
        }
        assert(self.rules_regexes@.take(k as int) =~= self.rules_regexes@);
        String::new()
    }
}

} // verus!
