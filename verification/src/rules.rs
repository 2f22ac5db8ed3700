//! The numbers that all nodes of one chain agree on.

use vstd::prelude::*;

verus! {

/// How many blocks ahead, counted in rounds of replacement, a validator who
/// is about to leave can no longer lead.
pub const EXIT_ROUNDS: usize = 5;

/// Seconds of silence after which the next shard takes over.
pub const USURP_TIME: u64 = 3600;

/// The port that nodes talk to each other on.
pub const DEFAULT_PORT: u16 = 8334;

/// The port that outsiders are served on.
pub const OUTSIDER_PORT: u16 = 8335;

/// Seconds between two reports of the number of friends.
pub const REPORT_TIME: u64 = 5;

/// Blocks after which leaders who were overthrown get another chance.
pub const FORGIVE_TIME: u64 = 128;

/// The parameters of the chain.
#[derive(Clone, Copy)]
pub struct ChainRules {
    /// seats in a committee
    pub validators: usize,
    /// places in the queues of those who come and those who go
    pub queue_length: usize,
    /// seats that change hands with each block
    pub replace_rate: usize,
    /// a leader needs more signatures than this
    pub signing_cutoff: usize,
    /// an output carries less than two to this power
    pub split_bits: u32,
}

impl ChainRules {
    /// The rules make sense: there is a seat to fill, the exit window can be
    /// counted, and an output carries something but not too much.
    pub open spec fn wf(&self) -> bool {
        &&& self.validators > 0
        &&& self.replace_rate * EXIT_ROUNDS <= usize::MAX
        &&& 0 < self.split_bits < 64
    }

    /// Whether the rules make sense.
    pub fn is_wf(&self) -> (r: bool)
        ensures
            r == self.wf(),
    {
        self.validators > 0 && self.replace_rate <= usize::MAX / EXIT_ROUNDS && 0 < self.split_bits
            && self.split_bits < 64
    }

    /// The length of the exit window.
    pub open spec fn exit_time_spec(&self) -> int {
        self.replace_rate * EXIT_ROUNDS
    }

    /// The length of the exit window: a member whose exit is this near can no
    /// longer lead.
    pub fn exit_time(&self) -> (r: usize)
        requires
            self.wf(),
        ensures
            r == self.exit_time_spec(),
    {
        self.replace_rate * EXIT_ROUNDS
    }
}

/// Whoever leaves within the next five blocks can no longer lead.
pub proof fn the_exit_window_is_five_blocks(rules: ChainRules)
    ensures
        rules.exit_time_spec() == 5 * rules.replace_rate,
{
}

} // verus!
