//! Telemetry: what each turn cost.

use vstd::prelude::*;

verus! {

/// The tokens that one reply was billed for.
#[derive(Debug, Clone, Copy)]
pub struct Usage {
    pub input_tokens: u32,
    pub cache_creation_input_tokens: u32,
    pub cache_read_input_tokens: u32,
    pub output_tokens: u32,
}

/// Per-move telemetry. The growth curve of `total_input` across moves is the
/// thing the tail-state-block pattern exists to keep flat.
#[derive(Debug, Clone, Copy)]
pub struct TurnStat {
    pub move_number: u32,
    pub messages: usize,
    pub api_calls: usize,
    pub rejections: usize,
    pub input_tokens: u32,
    pub cache_creation: u32,
    pub cache_read: u32,
    pub output_tokens: u32,
}

impl Default for TurnStat {
    fn default() -> (r: TurnStat)
        ensures
            r == TurnStat::zero(),
    {
        TurnStat {
            move_number: 0,
            messages: 0,
            api_calls: 0,
            rejections: 0,
            input_tokens: 0,
            cache_creation: 0,
            cache_read: 0,
            output_tokens: 0,
        }
    }
}

impl TurnStat {
    /// Nothing counted yet.
    pub open spec fn zero() -> TurnStat {
        TurnStat {
            move_number: 0,
            messages: 0,
            api_calls: 0,
            rejections: 0,
            input_tokens: 0,
            cache_creation: 0,
            cache_read: 0,
            output_tokens: 0,
        }
    }

    /// Every prompt token billed.
    pub open spec fn billed(self) -> nat {
        (self.input_tokens + self.cache_creation + self.cache_read) as nat
    }

    /// Every prompt token billed this move, cached or not. `input_tokens`
    /// alone reads as about 2 on a cached prefix and is useless for sizing.
    pub fn total_input(&self) -> (r: u32)
        requires
            self.billed() <= u32::MAX,
        ensures
            r == self.billed(),
    {
        self.input_tokens + self.cache_creation + self.cache_read
    }

    /// The tokens of one more reply still fit into the counters.
    pub open spec fn has_room_for(self, u: Usage) -> bool {
        &&& self.input_tokens + u.input_tokens <= u32::MAX
        &&& self.cache_creation + u.cache_creation_input_tokens <= u32::MAX
        &&& self.cache_read + u.cache_read_input_tokens <= u32::MAX
        &&& self.output_tokens + u.output_tokens <= u32::MAX
    }

    /// With the tokens of one more reply.
    pub open spec fn plus(self, u: Usage) -> TurnStat {
        TurnStat {
            input_tokens: (self.input_tokens + u.input_tokens) as u32,
            cache_creation: (self.cache_creation + u.cache_creation_input_tokens) as u32,
            cache_read: (self.cache_read + u.cache_read_input_tokens) as u32,
            output_tokens: (self.output_tokens + u.output_tokens) as u32,
            ..self
        }
    }
}

/// Add the tokens of one more reply.
pub fn accumulate(stat: &mut TurnStat, u: &Usage)
    requires
        old(stat).has_room_for(*u),
    ensures
        *final(stat) == old(stat).plus(*u),
{
    stat.input_tokens = stat.input_tokens + u.input_tokens;
    stat.cache_creation = stat.cache_creation + u.cache_creation_input_tokens;
    stat.cache_read = stat.cache_read + u.cache_read_input_tokens;
    stat.output_tokens = stat.output_tokens + u.output_tokens;
}

/// Telemetry of a whole game.
#[derive(Debug, Clone)]
pub struct Stats {
    pub turns: Vec<TurnStat>,
    pub rejections: usize,
    pub no_tool_call: usize,
    pub forced_passes: usize,
    pub notes_updates: usize,
}

/// What the telemetry of a game says.
#[verifier::ext_equal]
pub struct StatsView {
    pub turns: Seq<TurnStat>,
    pub rejections: nat,
    pub no_tool_call: nat,
    pub forced_passes: nat,
    pub notes_updates: nat,
}

impl View for Stats {
    type V = StatsView;

    open spec fn view(&self) -> StatsView {
        StatsView {
            turns: self.turns@,
            rejections: self.rejections as nat,
            no_tool_call: self.no_tool_call as nat,
            forced_passes: self.forced_passes as nat,
            notes_updates: self.notes_updates as nat,
        }
    }
}

impl Default for Stats {
    fn default() -> (r: Stats)
        ensures
            r@ == StatsView::zero(),
    {
        Stats {
            turns: Vec::new(),
            rejections: 0,
            no_tool_call: 0,
            forced_passes: 0,
            notes_updates: 0,
        }
    }
}

impl StatsView {
    /// Nothing counted yet.
    pub open spec fn zero() -> StatsView {
        StatsView {
            turns: Seq::empty(),
            rejections: 0,
            no_tool_call: 0,
            forced_passes: 0,
            notes_updates: 0,
        }
    }
}

/// The replies that the turns took, all told.
pub open spec fn calls_of(turns: Seq<TurnStat>) -> nat
    decreases turns.len(),
{
    if turns.len() == 0 {
        0
    } else {
        calls_of(turns.drop_last()) + turns.last().api_calls as nat
    }
}

/// The prompt tokens that were served from the cache, all told.
pub open spec fn cached_of(turns: Seq<TurnStat>) -> nat
    decreases turns.len(),
{
    if turns.len() == 0 {
        0
    } else {
        cached_of(turns.drop_last()) + turns.last().cache_read as nat
    }
}

/// The prompt tokens that were billed, all told.
pub open spec fn billed_of(turns: Seq<TurnStat>) -> nat
    decreases turns.len(),
{
    if turns.len() == 0 {
        0
    } else {
        billed_of(turns.drop_last()) + turns.last().billed()
    }
}

pub proof fn lemma_sums_grow(turns: Seq<TurnStat>, n: int)
    requires
        0 <= n <= turns.len(),
    ensures
        calls_of(turns.take(n)) <= calls_of(turns),
        cached_of(turns.take(n)) <= cached_of(turns),
        billed_of(turns.take(n)) <= billed_of(turns),
    decreases turns.len(),
{
    if n == turns.len() {
        assert(turns.take(n) =~= turns);
    } else {
        lemma_sums_grow(turns.drop_last(), n);
        assert(turns.drop_last().take(n) =~= turns.take(n));
    }
}

/// Of the prompt tokens that are billed, no more come from the cache.
pub proof fn law_cached_tokens_are_billed(turns: Seq<TurnStat>)
    ensures
        cached_of(turns) <= billed_of(turns),
    decreases turns.len(),
{
    if turns.len() > 0 {
        law_cached_tokens_are_billed(turns.drop_last());
    }
}

impl Stats {
    /// How many turns were taken.
    pub fn total_moves(&self) -> (r: usize)
        ensures
            r == self@.turns.len(),
    {
        self.turns.len()
    }

    /// How many replies they took.
    pub fn total_api_calls(&self) -> (r: usize)
        requires
            calls_of(self@.turns) <= usize::MAX,
        ensures
            r == calls_of(self@.turns),
    {
        let ghost turns = self.turns@;
        let mut sum: usize = 0;
        let mut i: usize = 0;
        while i < self.turns.len()
            invariant
                turns == self.turns@,
                calls_of(turns) <= usize::MAX,
                i <= turns.len(),
                sum == calls_of(turns.take(i as int)),
            decreases turns.len() - i,
        {
            proof {
                lemma_sums_grow(turns, i + 1);
                assert(turns.take(i + 1).drop_last() =~= turns.take(i as int));
            }
            sum = sum + self.turns[i].api_calls;
            i += 1;
        }
        assert(turns.take(i as int) =~= turns);
        sum
    }

    /// How many prompt tokens came from the cache, and how many were billed.
    pub fn prompt_tokens(&self) -> (r: (u32, u32))
        requires
            billed_of(self@.turns) <= u32::MAX,
        ensures
            r.0 == cached_of(self@.turns),
            r.1 == billed_of(self@.turns),
    {
        let ghost turns = self.turns@;
        let mut cached: u32 = 0;
        let mut billed: u32 = 0;
        let mut i: usize = 0;
        while i < self.turns.len()
            invariant
                turns == self.turns@,
                billed_of(turns) <= u32::MAX,
                i <= turns.len(),
                cached == cached_of(turns.take(i as int)),
                billed == billed_of(turns.take(i as int)),
            decreases turns.len() - i,
        {
            proof {
                lemma_sums_grow(turns, i + 1);
                law_cached_tokens_are_billed(turns);
                assert(turns.take(i + 1).drop_last() =~= turns.take(i as int));
            }
            cached = cached + self.turns[i].cache_read;
            billed = billed + self.turns[i].total_input();
            i += 1;
        }
        assert(turns.take(i as int) =~= turns);
        (cached, billed)
    }
}

} // verus!
