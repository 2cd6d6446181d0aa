//! The decision core of the tip-following synchronizer.
//!
//! The synchronizer asks peers for hashes that extend the best chain, keeps a
//! set of prospective tips (a tip hash and the hash expected to follow it),
//! and schedules block downloads with a bounded lookahead. Every network and
//! state query is made by the caller; this module takes their answers as plain
//! values and decides what happens next.

use vstd::prelude::*;
use crate::types::{BlockHash, contains_block_hash};

verus! {

/// Number of peers asked in parallel for each tip query.
pub const FANOUT: usize = 4;

/// Cap on pending download and verify tasks: twice the largest checkpoint gap.
pub const LOOKAHEAD_LIMIT: usize = 4000;

/// How long a single block download may take, in seconds.
pub const BLOCK_TIMEOUT_SECS: u64 = 6;

/// Cool-down before a sync restart, in seconds.
pub const SYNC_RESTART_TIMEOUT_SECS: u64 = 20;

/// How many times a block download is retried.
pub const BLOCK_DOWNLOAD_RETRIES: usize = 3;

/// A chain tip together with the hash that peers said comes after it.
#[derive(Clone, Copy, Debug, PartialEq, Eq, Structural, Hash)]
pub struct CheckedTip {
    pub tip: BlockHash,
    pub expected_next: BlockHash,
}

/// What the outer sync loop does next.
#[derive(Clone, Copy, Debug, PartialEq, Eq, Structural)]
pub enum SyncAction {
    /// No prospective tips remain: sleep, then start a new round.
    WaitAndRestart,
    /// Too many tasks are pending: wait for one of them to finish.
    AwaitPending,
    /// Ask peers to extend the prospective tips.
    ExtendTips,
}

/// What to do after a download and verify task has finished.
#[derive(Clone, Copy, Debug, PartialEq, Eq, Structural)]
pub enum TaskDecision {
    /// Keep going with the current round.
    Continue,
    /// Drop all in-flight work, sleep, then start a new round.
    Restart,
}

/// `s` without its last element (empty stays empty).
pub open spec fn without_last(s: Seq<BlockHash>) -> Seq<BlockHash> {
    if s.len() == 0 {
        s
    } else {
        s.drop_last()
    }
}

/// The tip formed by the final pair of `unknown`.
pub open spec fn tip_of_pair(unknown: Seq<BlockHash>) -> CheckedTip
    recommends
        unknown.len() >= 2,
{
    CheckedTip { tip: unknown[unknown.len() - 2], expected_next: unknown[unknown.len() - 1] }
}

/// The hashes of a locator response that are not yet in the state: the
/// response without its last hash, from the first unknown hash onwards.
pub open spec fn obtained_unknown(hashes: Seq<BlockHash>, first_unknown: Option<usize>) -> Seq<
    BlockHash,
> {
    match first_unknown {
        Some(i) => without_last(hashes).subrange(i as int, without_last(hashes).len() as int),
        None => Seq::empty(),
    }
}

/// The hashes of a response to a tip-extension request that extend `expected_next`,
/// without the last one; `None` when the response does not extend it.
pub open spec fn extended_unknown(hashes: Seq<BlockHash>, expected_next: BlockHash) -> Option<
    Seq<BlockHash>,
> {
    if hashes.len() >= 1 && hashes[0] == expected_next {
        let rest = hashes.subrange(1, hashes.len() as int);
        if rest.len() == 0 {
            None
        } else {
            Some(rest.drop_last())
        }
    } else if hashes.len() >= 2 && hashes[1] == expected_next {
        let rest = hashes.subrange(2, hashes.len() as int);
        if rest.len() == 0 {
            None
        } else {
            Some(rest.drop_last())
        }
    } else {
        None
    }
}

/// Appending an element that is absent keeps a sequence free of repeats.
pub proof fn lemma_push_no_duplicates<A>(s: Seq<A>, x: A)
    requires
        s.no_duplicates(),
        !s.contains(x),
    ensures
        s.push(x).no_duplicates(),
{
    assert forall|i: int, j: int| 0 <= i < s.len() + 1 && 0 <= j < s.len() + 1 && i != j implies s.push(x)[i] != s.push(x)[j] by {
        if i == s.len() {
            assert(s[j] == s.push(x)[j]);
        } else if j == s.len() {
            assert(s[i] == s.push(x)[i]);
        }
    }
}

/// Membership after appending one element.
pub proof fn lemma_push_contains<A>(s: Seq<A>, x: A)
    ensures
        forall|y: A| #[trigger] s.push(x).contains(y) <==> (s.contains(y) || y == x),
{
    assert forall|y: A| #[trigger] s.push(x).contains(y) <==> (s.contains(y) || y == x) by {
        if s.push(x).contains(y) {
            let k = choose|k: int| 0 <= k < s.push(x).len() && s.push(x)[k] == y;
            if k < s.len() {
                assert(s[k] == y);
            }
        }
        if s.contains(y) {
            let k = choose|k: int| 0 <= k < s.len() && s[k] == y;
            assert(s.push(x)[k] == y);
        }
        if y == x {
            assert(s.push(x)[s.len() as int] == y);
        }
    }
}

/// `acc` followed by each hash of `more` that is not already present, in order.
pub open spec fn extend_unique(acc: Seq<BlockHash>, more: Seq<BlockHash>) -> Seq<BlockHash>
    decreases more.len(),
{
    if more.len() == 0 {
        acc
    } else {
        let a = extend_unique(acc, more.drop_last());
        if a.contains(more.last()) {
            a
        } else {
            a.push(more.last())
        }
    }
}

/// What `extend_unique` holds: exactly the elements of both sequences.
pub proof fn lemma_extend_unique_contains(acc: Seq<BlockHash>, more: Seq<BlockHash>)
    ensures
        forall|h: BlockHash| #[trigger] extend_unique(acc, more).contains(h) <==> (acc.contains(h) || more.contains(h)),
    decreases more.len(),
{
    if more.len() > 0 {
        let d = more.drop_last();
        lemma_extend_unique_contains(acc, d);
        let a = extend_unique(acc, d);
        lemma_push_contains(a, more.last());
        lemma_push_contains(d, more.last());
        assert(d.push(more.last()) =~= more);
    }
}

/// How one batch of `unknown` hashes changes the tips and the download set.
/// With fewer than two hashes nothing changes. Otherwise every hash joins the
/// download set; and when the final hash was not queued before, the tip formed by
/// the final pair is added (`added`), replacing every tip whose expected next
/// hash is among `unknown`.
pub open spec fn accepted(
    old_tips: Seq<CheckedTip>,
    new_tips: Seq<CheckedTip>,
    old_downloads: Seq<BlockHash>,
    new_downloads: Seq<BlockHash>,
    unknown: Seq<BlockHash>,
    added: bool,
) -> bool {
    &&& added == (unknown.len() >= 2 && !old_downloads.contains(tip_of_pair(unknown).expected_next))
    &&& unknown.len() < 2 ==> new_downloads == old_downloads
    &&& unknown.len() >= 2 ==> new_downloads == extend_unique(old_downloads, unknown)
    &&& unknown.len() >= 2 ==> new_downloads.len() >= old_downloads.len()
        && new_downloads.subrange(0, old_downloads.len() as int) == old_downloads
        && forall|h: BlockHash| #[trigger]
            new_downloads.contains(h) <==> (old_downloads.contains(h) || unknown.contains(h))
    &&& !added ==> new_tips == old_tips
    &&& added ==> forall|t: CheckedTip| #[trigger]
        new_tips.contains(t) <==> ((old_tips.contains(t) && !unknown.contains(t.expected_next)) || t
            == tip_of_pair(unknown))
}

/// The set of hashes queued for download in one round of tip requests.
/// Each hash appears once, in the order it was first added.
pub struct DownloadSet {
    hashes: Vec<BlockHash>,
}

impl View for DownloadSet {
    type V = Seq<BlockHash>;

    closed spec fn view(&self) -> Seq<BlockHash> {
        self.hashes@
    }
}

impl DownloadSet {
    /// The set holds no repeated hash.
    pub open spec fn wf(&self) -> bool {
        self@.no_duplicates()
    }

    /// An empty download set.
    pub fn new() -> (r: Self)
        ensures
            r.wf(),
            r@ == Seq::<BlockHash>::empty(),
    {
        DownloadSet { hashes: Vec::new() }
    }

    /// Returns whether `hash` is queued.
    pub fn contains(&self, hash: BlockHash) -> (r: bool)
        ensures
            r == self@.contains(hash),
    {
        contains_block_hash(&self.hashes, hash)
    }

    /// Number of queued hashes.
    pub fn len(&self) -> (r: usize)
        ensures
            r == self@.len(),
    {
        self.hashes.len()
    }

    /// Adds each hash of `more` that is not queued yet, keeping the order.
    pub fn extend(&mut self, more: &Vec<BlockHash>)
        requires
            old(self).wf(),
        ensures
            final(self).wf(),
            final(self)@ == extend_unique(old(self)@, more@),
            final(self)@.len() >= old(self)@.len(),
            final(self)@.subrange(0, old(self)@.len() as int) == old(self)@,
            forall|h: BlockHash| final(self)@.contains(h) <==> (old(self)@.contains(h) || more@.contains(h)),
    {
        let ghost start = self.hashes@;
        let mut i: usize = 0;
        assert(more@.subrange(0, 0) =~= Seq::<BlockHash>::empty());
        while i < more.len()
            invariant
                i <= more.len(),
                self.hashes@.no_duplicates(),
                self.hashes@.len() >= start.len(),
                self.hashes@.subrange(0, start.len() as int) == start,
                self.hashes@ == extend_unique(start, more@.subrange(0, i as int)),
            decreases more.len() - i,
        {
            let h = more[i];
            let ghost before = self.hashes@;
            if !contains_block_hash(&self.hashes, h) {
                self.hashes.push(h);
                assert(self.hashes@.subrange(0, start.len() as int) =~= before.subrange(0, start.len() as int));
                proof {
                    lemma_push_no_duplicates(before, h);
                }
            }
            let ghost a = more@.subrange(0, i as int);
            let ghost b = more@.subrange(0, i + 1);
            assert(b.drop_last() =~= a);
            assert(b.last() == h);
            i = i + 1;
        }
        assert(more@.subrange(0, i as int) =~= more@);
        proof {
            lemma_extend_unique_contains(start, more@);
        }
    }

    /// The queued hashes, in the order they were first added.
    pub fn hashes(&self) -> (r: Vec<BlockHash>)
        ensures
            r@ == self@,
            self.wf() ==> r@.no_duplicates(),
    {
        self.hashes.clone()
    }
}

/// The decision state of the synchronizer: the genesis hash it bootstraps
/// from, the prospective tips, and how many download and verify tasks are in
/// flight.
pub struct Syncer {
    genesis_hash: BlockHash,
    prospective_tips: Vec<CheckedTip>,
    pending_blocks: usize,
}

impl Syncer {
    /// The configured genesis hash.
    pub closed spec fn genesis(&self) -> BlockHash {
        self.genesis_hash
    }

    /// The prospective tips.
    pub closed spec fn tips(&self) -> Seq<CheckedTip> {
        self.prospective_tips@
    }

    /// Number of download and verify tasks in flight.
    pub closed spec fn pending(&self) -> nat {
        self.pending_blocks as nat
    }

    /// No prospective tip is held twice.
    pub open spec fn wf(&self) -> bool {
        self.tips().no_duplicates()
    }

    /// A synchronizer with no tips and no pending work.
    pub fn new(genesis_hash: BlockHash) -> (r: Self)
        ensures
            r.wf(),
            r.genesis() == genesis_hash,
            r.tips() == Seq::<CheckedTip>::empty(),
            r.pending() == 0,
    {
        Syncer { genesis_hash, prospective_tips: Vec::new(), pending_blocks: 0 }
    }

    /// The configured genesis hash.
    pub fn genesis_hash(&self) -> (r: BlockHash)
        ensures
            r == self.genesis(),
    {
        self.genesis_hash
    }

    /// A copy of the prospective tips.
    pub fn prospective_tips(&self) -> (r: Vec<CheckedTip>)
        ensures
            r@ == self.tips(),
            self.wf() ==> r@.no_duplicates(),
    {
        self.prospective_tips.clone()
    }

    /// Number of download and verify tasks in flight.
    pub fn pending_blocks(&self) -> (r: usize)
        ensures
            r == self.pending(),
    {
        self.pending_blocks
    }

    /// Drops every prospective tip and forgets every in-flight task.
    pub fn restart(&mut self)
        ensures
            final(self).wf(),
            final(self).genesis() == old(self).genesis(),
            final(self).tips() == Seq::<CheckedTip>::empty(),
            final(self).pending() == 0,
    {
        self.prospective_tips = Vec::new();
        self.pending_blocks = 0;
    }

    /// What the outer loop does next: restart when the tips are exhausted,
    /// wait for a task while more than `LOOKAHEAD_LIMIT` are pending, and
    /// otherwise extend the tips.
    pub fn next_action(&self) -> (r: SyncAction)
        ensures
            r == (if self.tips().len() == 0 {
                SyncAction::WaitAndRestart
            } else if self.pending() > LOOKAHEAD_LIMIT {
                SyncAction::AwaitPending
            } else {
                SyncAction::ExtendTips
            }),
    {
        if self.prospective_tips.len() == 0 {
            SyncAction::WaitAndRestart
        } else if self.pending_blocks > LOOKAHEAD_LIMIT {
            SyncAction::AwaitPending
        } else {
            SyncAction::ExtendTips
        }
    }

    /// Records that one more download and verify task was spawned.
    pub fn block_requested(&mut self)
        requires
            old(self).pending() < usize::MAX,
        ensures
            final(self).wf() == old(self).wf(),
            final(self).genesis() == old(self).genesis(),
            final(self).tips() == old(self).tips(),
            final(self).pending() == old(self).pending() + 1,
    {
        self.pending_blocks = self.pending_blocks + 1;
    }

    /// Records that a task finished. A failed task whose block is not in the
    /// state restarts the sync, dropping all tips and in-flight work; a
    /// success, or a failure for a block that another path already verified,
    /// lets the round go on.
    pub fn task_finished(&mut self, failed: bool, block_in_state: bool) -> (r: TaskDecision)
        requires
            old(self).pending() > 0,
        ensures
            final(self).genesis() == old(self).genesis(),
            r == (if failed && !block_in_state {
                TaskDecision::Restart
            } else {
                TaskDecision::Continue
            }),
            r == TaskDecision::Restart ==> final(self).wf() && final(self).tips()
                == Seq::<CheckedTip>::empty() && final(self).pending() == 0,
            r == TaskDecision::Continue ==> final(self).wf() == old(self).wf() && final(self).tips()
                == old(self).tips() && final(self).pending() == old(self).pending() - 1,
    {
        if failed && !block_in_state {
            self.restart();
            TaskDecision::Restart
        } else {
            self.pending_blocks = self.pending_blocks - 1;
            TaskDecision::Continue
        }
    }

    /// Moves the prospective tips out, leaving none.
    pub fn take_tips(&mut self) -> (r: Vec<CheckedTip>)
        ensures
            r@ == old(self).tips(),
            final(self).wf(),
            final(self).genesis() == old(self).genesis(),
            final(self).pending() == old(self).pending(),
            final(self).tips() == Seq::<CheckedTip>::empty(),
    {
        let mut tips = Vec::new();
        std::mem::swap(&mut tips, &mut self.prospective_tips);
        tips
    }
    /// Takes a batch of hashes unknown to the state, in chain order: forms a
    /// tip from its final pair, and queues the hashes for download.
    pub fn accept_unknown_hashes(&mut self, downloads: &mut DownloadSet, unknown: &Vec<BlockHash>) -> (added: bool)
        requires
            old(self).wf(),
            old(downloads).wf(),
        ensures
            final(self).wf(),
            final(downloads).wf(),
            final(self).genesis() == old(self).genesis(),
            final(self).pending() == old(self).pending(),
            accepted(old(self).tips(), final(self).tips(), old(downloads)@, final(downloads)@, unknown@, added),
    {
        let n = unknown.len();
        if n < 2 {
            return false;
        }
        let new_tip = CheckedTip { tip: unknown[n - 2], expected_next: unknown[n - 1] };
        assert(new_tip == tip_of_pair(unknown@));
        let added = !downloads.contains(new_tip.expected_next);
        if added {
            let ghost tips = self.prospective_tips@;
            let mut kept: Vec<CheckedTip> = Vec::new();
            let mut i: usize = 0;
            while i < self.prospective_tips.len()
                invariant
                    i <= tips.len(),
                    self.prospective_tips@ == tips,
                    tips.no_duplicates(),
                    kept@.no_duplicates(),
                    forall|t: CheckedTip| #[trigger] kept@.contains(t) <==> (tips.subrange(0, i as int).contains(t) && !unknown@.contains(t.expected_next)),
                decreases tips.len() - i,
            {
                let t = self.prospective_tips[i];
                let ghost pa = tips.subrange(0, i as int);
                let ghost pb = tips.subrange(0, i + 1);
                assert(pb =~= pa.push(t));
                assert(!pa.contains(t)) by {
                    if pa.contains(t) {
                        let j = choose|j: int| 0 <= j < pa.len() && pa[j] == t;
                        assert(tips[j] == tips[i as int]);
                    }
                }
                proof {
                lemma_push_contains(pa, t);
            }
                let ghost before = kept@;
                if !contains_block_hash(unknown, t.expected_next) {
                    assert(!before.contains(t));
                    proof {
                        lemma_push_no_duplicates(before, t);
                    }
                    kept.push(t);
                    proof {
                lemma_push_contains(before, t);
            }
                }
                assert forall|x: CheckedTip| #[trigger] kept@.contains(x) <==> (pb.contains(x) && !unknown@.contains(x.expected_next)) by {
                    assert(before.contains(x) <==> (pa.contains(x) && !unknown@.contains(x.expected_next)));
                }
                i = i + 1;
            }
            assert(tips.subrange(0, tips.len() as int) =~= tips);
            assert(unknown@.contains(new_tip.expected_next)) by {
                assert(unknown@[n - 1] == new_tip.expected_next);
            }
            let ghost before = kept@;
            assert(!before.contains(new_tip));
            proof {
                lemma_push_no_duplicates(before, new_tip);
            }
            kept.push(new_tip);
            proof {
                lemma_push_contains(before, new_tip);
            }
            assert forall|x: CheckedTip| #[trigger] kept@.contains(x) <==> ((tips.contains(x) && !unknown@.contains(x.expected_next)) || x == new_tip) by {
                assert(before.contains(x) <==> (tips.contains(x) && !unknown@.contains(x.expected_next)));
            }
            self.prospective_tips = kept;
        }
        downloads.extend(unknown);
        added
    }

    /// The hashes of a locator response that may be asked of the state: all
    /// but the last, which peers sometimes append unrelated to the chain.
    pub fn obtain_response_candidates(hashes: &Vec<BlockHash>) -> (r: Vec<BlockHash>)
        ensures
            r@ == without_last(hashes@),
    {
        let mut r: Vec<BlockHash> = Vec::new();
        if hashes.len() == 0 {
            assert(r@ =~= hashes@);
            return r;
        }
        let mut i: usize = 0;
        while i + 1 < hashes.len()
            invariant
                hashes.len() >= 1,
                i + 1 <= hashes.len(),
                r@ == hashes@.subrange(0, i as int),
            decreases hashes.len() - i,
        {
            r.push(hashes[i]);
            assert(r@ =~= hashes@.subrange(0, i + 1));
            i = i + 1;
        }
        assert(r@ =~= hashes@.drop_last());
        r
    }

    /// Takes one peer's answer to a locator request. `first_unknown` is the
    /// index, among the candidates of `obtain_response_candidates`, of the
    /// first hash the state does not hold, or `None` when it holds them all.
    pub fn accept_obtained_response(
        &mut self,
        downloads: &mut DownloadSet,
        hashes: &Vec<BlockHash>,
        first_unknown: Option<usize>,
    ) -> (added: bool)
        requires
            old(self).wf(),
            old(downloads).wf(),
            first_unknown matches Some(i) ==> i < without_last(hashes@).len(),
        ensures
            final(self).wf(),
            final(downloads).wf(),
            final(self).genesis() == old(self).genesis(),
            final(self).pending() == old(self).pending(),
            accepted(
                old(self).tips(),
                final(self).tips(),
                old(downloads)@,
                final(downloads)@,
                obtained_unknown(hashes@, first_unknown),
                added,
            ),
    {
        let candidates = Self::obtain_response_candidates(hashes);
        let mut unknown: Vec<BlockHash> = Vec::new();
        match first_unknown {
            Some(start) => {
                let mut i: usize = start;
                while i < candidates.len()
                    invariant
                        start <= i <= candidates.len(),
                        unknown@ == candidates@.subrange(start as int, i as int),
                    decreases candidates.len() - i,
                {
                    unknown.push(candidates[i]);
                    assert(unknown@ =~= candidates@.subrange(start as int, i + 1));
                    i = i + 1;
                }
            },
            None => {},
        }
        assert(unknown@ =~= obtained_unknown(hashes@, first_unknown));
        self.accept_unknown_hashes(downloads, &unknown)
    }

    /// The hashes of a peer's answer to a request that extends `expected_next`:
    /// what follows `expected_next` when it comes first or second, without the
    /// last hash; `None` when the answer does not extend it.
    pub fn extend_response_unknown(hashes: &Vec<BlockHash>, expected_next: BlockHash) -> (r: Option<Vec<BlockHash>>)
        ensures
            match r {
                Some(v) => extended_unknown(hashes@, expected_next) == Some(v@),
                None => extended_unknown(hashes@, expected_next) is None,
            },
    {
        let n = hashes.len();
        let start: usize = if n >= 1 && hashes[0] == expected_next {
            1
        } else if n >= 2 && hashes[1] == expected_next {
            2
        } else {
            return None;
        };
        if start >= n {
            return None;
        }
        let mut r: Vec<BlockHash> = Vec::new();
        let mut i: usize = start;
        while i + 1 < n
            invariant
                n == hashes.len(),
                start <= i < n,
                r@ == hashes@.subrange(start as int, i as int),
            decreases n - i,
        {
            r.push(hashes[i]);
            assert(r@ =~= hashes@.subrange(start as int, i + 1));
            i = i + 1;
        }
        assert(r@ =~= hashes@.subrange(start as int, n as int).drop_last());
        Some(r)
    }

    /// Takes one peer's answer to a request that extends `tip`.
    pub fn accept_extended_response(
        &mut self,
        downloads: &mut DownloadSet,
        tip: CheckedTip,
        hashes: &Vec<BlockHash>,
    ) -> (added: bool)
        requires
            old(self).wf(),
            old(downloads).wf(),
        ensures
            final(self).wf(),
            final(downloads).wf(),
            final(self).genesis() == old(self).genesis(),
            final(self).pending() == old(self).pending(),
            match extended_unknown(hashes@, tip.expected_next) {
                Some(u) => accepted(old(self).tips(), final(self).tips(), old(downloads)@, final(downloads)@, u, added),
                None => !added && final(self).tips() == old(self).tips() && final(downloads)@ == old(downloads)@,
            },
    {
        match Self::extend_response_unknown(hashes, tip.expected_next) {
            Some(unknown) => self.accept_unknown_hashes(downloads, &unknown),
            None => false,
        }
    }
}

} // verus!
