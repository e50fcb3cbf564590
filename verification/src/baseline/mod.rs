//! The behavioral profile of an agent.

pub mod builder;
pub mod laws;
pub mod learning;
pub mod run;

use vstd::prelude::*;
use vstd::string::*;

use crate::dict::{Dict, Duplicate, Key, ParamKeys, Pool};
use crate::number::Decimal;
use crate::text::{occurs, split_at_first, split_once, law_split_undoes_join};
use crate::time::{representable, Timestamp};

verus! {

/// A pair of consecutive tool calls. Written as `first->second`.
#[derive(Debug, PartialEq, Eq, Hash)]
pub struct Bigram {
    pub first: String,
    pub second: String,
}

impl View for Bigram {
    type V = (Seq<char>, Seq<char>);

    open spec fn view(&self) -> (Seq<char>, Seq<char>) {
        (self.first@, self.second@)
    }
}

impl Key for Bigram {
    fn same(&self, other: &Self) -> (r: bool) {
        self.first == other.first && self.second == other.second
    }

    fn copy(&self) -> (r: Self) {
        Bigram { first: self.first.clone(), second: self.second.clone() }
    }
}

impl Clone for Bigram {
    fn clone(&self) -> (r: Self)
        ensures
            r@ == self@,
    {
        self.copy()
    }
}

/// How a pair of tool calls is written.
pub open spec fn bigram_text(bigram: (Seq<char>, Seq<char>)) -> Seq<char> {
    bigram.0 + "->"@ + bigram.1
}

impl Bigram {
    /// The pair of `first` and `second`.
    pub fn new(first: &str, second: &str) -> (r: Self)
        ensures
            r@ == (first@, second@),
    {
        Bigram { first: first.to_owned(), second: second.to_owned() }
    }

    /// The pair as text.
    pub fn to_string(&self) -> (r: String)
        ensures
            r@ == bigram_text(self@),
    {
        self.first.clone().concat("->").concat(self.second.as_str())
    }

    /// The pair that a text writes: what stands before and behind its first
    /// arrow. None where there is no arrow.
    pub fn parse(text: &str) -> (r: Option<Bigram>)
        ensures
            crate::order::opt_view(r) == split_at_first(text@, "->"@),
    {
        match split_once(text, "->") {
            Some((first, second)) => Some(Bigram { first, second }),
            None => None,
        }
    }
}

/// A pair whose first tool name holds no arrow is read back as it was written.
pub proof fn law_bigram_roundtrip(bigram: (Seq<char>, Seq<char>))
    requires
        !occurs(bigram.0, "->"@),
    ensures
        split_at_first(bigram_text(bigram), "->"@) == Some(bigram),
{
    reveal_strlit("->");
    law_split_undoes_join(bigram.0, "->"@, bigram.1);
}

/// One observation that a statistic takes in.
#[derive(Debug, Clone, Copy, PartialEq, Eq, Structural)]
pub enum Sample {
    /// A data volume in bytes.
    Bytes(u64),
    /// The time from one call to the next, in milliseconds. It stands for the
    /// rate of calls per minute that it makes.
    IntervalMs(u64),
}

/// Streaming mean and variance by Welford's online algorithm.
///
/// `mean` and `m2`, the sum of squares of differences from the mean, are those of
/// the samples that have been folded in. The samples in `pending` are counted but
/// wait to be folded in, in their order, by whoever reckons with real numbers.
#[derive(Debug)]
pub struct StreamingStats {
    pub count: u64,
    pub mean: Decimal,
    pub m2: Decimal,
    pub pending: Vec<Sample>,
}

/// The model of a `StreamingStats`.
#[verifier::ext_equal]
pub struct StatsView {
    pub count: u64,
    pub mean: Seq<char>,
    pub m2: Seq<char>,
    pub pending: Seq<Sample>,
}

impl View for StreamingStats {
    type V = StatsView;

    open spec fn view(&self) -> StatsView {
        StatsView { count: self.count, mean: self.mean@, m2: self.m2@, pending: self.pending@ }
    }
}

impl StatsView {
    /// A statistic of nothing.
    pub open spec fn fresh() -> StatsView {
        StatsView { count: 0, mean: "0"@, m2: "0"@, pending: Seq::empty() }
    }

    /// The statistic with one more sample.
    pub open spec fn updated(self, sample: Sample) -> StatsView {
        StatsView { count: (self.count + 1) as u64, pending: self.pending.push(sample), ..self }
    }

    /// The statistic with its pending samples folded in.
    pub open spec fn settled(self, mean: Seq<char>, m2: Seq<char>) -> StatsView {
        StatsView { count: self.count, mean, m2, pending: Seq::empty() }
    }

    /// Every pending sample has been counted.
    pub open spec fn wf(self) -> bool {
        self.pending.len() <= self.count
    }
}

impl StreamingStats {
    /// A statistic of nothing.
    pub fn new() -> (r: Self)
        ensures
            r@ == StatsView::fresh(),
            r@.wf(),
    {
        StreamingStats {
            count: 0,
            mean: Decimal::new("0"),
            m2: Decimal::new("0"),
            pending: Vec::new(),
        }
    }

    /// Takes one more sample in.
    pub fn update(&mut self, sample: Sample)
        requires
            old(self).count < u64::MAX,
        ensures
            final(self)@ == old(self)@.updated(sample),
            old(self)@.wf() ==> final(self)@.wf(),
    {
        self.count = self.count + 1;
        self.pending.push(sample);
    }

    /// Takes the mean and the sum of squares that the pending samples lead to, and
    /// lets those samples go.
    pub fn settle(&mut self, mean: Decimal, m2: Decimal)
        ensures
            final(self)@ == old(self)@.settled(mean@, m2@),
            final(self)@.wf(),
    {
        self.mean = mean;
        self.m2 = m2;
        self.pending = Vec::new();
    }
}

impl Default for StreamingStats {
    fn default() -> (r: Self)
        ensures
            r@ == StatsView::fresh(),
    {
        StreamingStats::new()
    }
}

impl Clone for StreamingStats {
    fn clone(&self) -> (r: Self)
        ensures
            r@ == self@,
    {
        let mut pending: Vec<Sample> = Vec::new();
        let mut i: usize = 0;
        while i < self.pending.len()
            invariant
                i <= self.pending.len(),
                pending@ == self.pending@.take(i as int),
            decreases self.pending.len() - i,
        {
            pending.push(self.pending[i]);
            proof {
                assert(self.pending@.take(i + 1) =~= self.pending@.take(i as int).push(
                    self.pending@[i as int],
                ));
            }
            i = i + 1;
        }
        proof {
            assert(self.pending@.take(self.pending@.len() as int) =~= self.pending@);
        }
        StreamingStats {
            count: self.count,
            mean: self.mean.clone(),
            m2: self.m2.clone(),
            pending,
        }
    }
}

impl Duplicate for StreamingStats {
    fn duplicate(&self) -> (r: Self) {
        self.clone()
    }
}

/// The sum of a row of counters.
pub open spec fn total(counts: Seq<u64>) -> nat
    decreases counts.len(),
{
    if counts.len() == 0 {
        0
    } else {
        total(counts.drop_last()) + counts.last() as nat
    }
}

/// What is known of one tool.
#[derive(Debug)]
pub struct ToolStats {
    pub call_count: u64,
    pub first_seen: Timestamp,
    pub last_seen: Timestamp,
    /// Known parameter key combinations.
    pub param_key_sets: Pool<ParamKeys>,
}

/// The model of a `ToolStats`.
#[verifier::ext_equal]
pub struct ToolStatsView {
    pub call_count: u64,
    pub first_seen: Timestamp,
    pub last_seen: Timestamp,
    pub param_key_sets: Set<Seq<Seq<char>>>,
}

impl View for ToolStats {
    type V = ToolStatsView;

    open spec fn view(&self) -> ToolStatsView {
        ToolStatsView {
            call_count: self.call_count,
            first_seen: self.first_seen,
            last_seen: self.last_seen,
            param_key_sets: self.param_key_sets@,
        }
    }
}

impl Clone for ToolStats {
    fn clone(&self) -> (r: Self)
        ensures
            r@ == self@,
    {
        ToolStats {
            call_count: self.call_count,
            first_seen: self.first_seen,
            last_seen: self.last_seen,
            param_key_sets: self.param_key_sets.copy(),
        }
    }
}

impl Duplicate for ToolStats {
    fn duplicate(&self) -> (r: Self) {
        self.clone()
    }
}

/// Behavioral profile built from historical events.
#[derive(Debug)]
pub struct Baseline {
    pub agent_id: String,
    pub session_count: u64,
    pub event_count: u64,
    /// Per-tool usage frequency and stats.
    pub tool_stats: Dict<String, ToolStats>,
    /// Bigrams of consecutive tool calls.
    pub bigrams: Dict<Bigram, u64>,
    /// Resources the agent has accessed.
    pub known_resources: Pool<String>,
    /// Data volume statistics per tool.
    pub volume_stats: Dict<String, StreamingStats>,
    /// Hourly activity distribution (0-23).
    pub hourly_distribution: [u64; 24],
    /// Tool call rate (calls per minute).
    pub rate_stats: StreamingStats,
    pub first_seen: Timestamp,
    pub last_updated: Timestamp,
    /// Per-session high-water mark for deduplication.
    /// Maps session_id to the last processed sequence_position.
    pub processed_through: Dict<String, u32>,
}

/// The model of a `Baseline`.
#[verifier::ext_equal]
pub struct BaselineView {
    pub agent_id: Seq<char>,
    pub session_count: u64,
    pub event_count: u64,
    pub tool_stats: Map<Seq<char>, ToolStatsView>,
    pub bigrams: Map<(Seq<char>, Seq<char>), u64>,
    pub known_resources: Set<Seq<char>>,
    pub volume_stats: Map<Seq<char>, StatsView>,
    pub hourly_distribution: Seq<u64>,
    pub rate_stats: StatsView,
    pub first_seen: Timestamp,
    pub last_updated: Timestamp,
    pub processed_through: Map<Seq<char>, u32>,
}

impl View for Baseline {
    type V = BaselineView;

    open spec fn view(&self) -> BaselineView {
        BaselineView {
            agent_id: self.agent_id@,
            session_count: self.session_count,
            event_count: self.event_count,
            tool_stats: self.tool_stats@,
            bigrams: self.bigrams@,
            known_resources: self.known_resources@,
            volume_stats: self.volume_stats@,
            hourly_distribution: self.hourly_distribution@,
            rate_stats: self.rate_stats@,
            first_seen: self.first_seen,
            last_updated: self.last_updated,
            processed_through: self.processed_through@,
        }
    }
}

impl BaselineView {
    /// The profile of an agent of which nothing has been seen, as of `now`.
    pub open spec fn fresh(agent_id: Seq<char>, now: Timestamp) -> BaselineView {
        BaselineView {
            agent_id,
            session_count: 0,
            event_count: 0,
            tool_stats: Map::empty(),
            bigrams: Map::empty(),
            known_resources: Set::empty(),
            volume_stats: Map::empty(),
            hourly_distribution: Seq::new(24, |i: int| 0u64),
            rate_stats: StatsView::fresh(),
            first_seen: now,
            last_updated: now,
            processed_through: Map::empty(),
        }
    }
}

impl Clone for Baseline {
    fn clone(&self) -> (r: Self)
        ensures
            r@ == self@,
            r.tool_stats.keys() == self.tool_stats.keys(),
            r.bigrams.keys() == self.bigrams.keys(),
    {
        Baseline {
            agent_id: self.agent_id.clone(),
            session_count: self.session_count,
            event_count: self.event_count,
            tool_stats: self.tool_stats.copy(),
            bigrams: self.bigrams.copy(),
            known_resources: self.known_resources.copy(),
            volume_stats: self.volume_stats.copy(),
            hourly_distribution: self.hourly_distribution,
            rate_stats: self.rate_stats.clone(),
            first_seen: self.first_seen,
            last_updated: self.last_updated,
            processed_through: self.processed_through.copy(),
        }
    }
}

impl Baseline {
    /// The profile of an agent of which nothing has been seen. It is dated by
    /// the clock.
    pub fn new(agent_id: &str) -> (r: Self)
        ensures
            r@ == BaselineView::fresh(agent_id@, r.first_seen),
            representable(r.first_seen.unix_seconds(), r.first_seen.subsec_nanos()),
    {
        Baseline::new_at(agent_id, Timestamp::now())
    }

    /// The profile of an agent of which nothing has been seen, as of `now`.
    pub fn new_at(agent_id: &str, now: Timestamp) -> (r: Self)
        ensures
            r@ == BaselineView::fresh(agent_id@, now),
            r.tool_stats.keys() == Seq::<Seq<char>>::empty(),
            r.bigrams.keys() == Seq::<(Seq<char>, Seq<char>)>::empty(),
    {
        Baseline {
            agent_id: agent_id.to_owned(),
            session_count: 0,
            event_count: 0,
            tool_stats: Dict::new(),
            bigrams: Dict::new(),
            known_resources: Pool::new(),
            volume_stats: Dict::new(),
            hourly_distribution: [0; 24],
            rate_stats: StreamingStats::new(),
            first_seen: now,
            last_updated: now,
            processed_through: Dict::new(),
        }
    }
}

} // verus!
