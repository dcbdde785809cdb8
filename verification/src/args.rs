//! The run configuration: which answer source to use, the play
//! flags, the word-list and state files, with the conflict rule and
//! the merge of values read from a configuration file.

use vstd::prelude::*;

verus! {

/// One run's configuration.
pub struct Args {
    pub word: Option<String>,
    pub random: bool,
    pub difficult: bool,
    pub stats: bool,
    pub day: Option<usize>,
    pub seed: Option<u64>,
    pub final_set: Option<String>,
    pub acceptable_set: Option<String>,
    pub state: Option<String>,
    pub config: Option<String>,
}

/// A fixed answer word clashes with random mode and with the
/// random-mode day and seed choices.
pub open spec fn spec_conflicts(a: &Args) -> bool {
    (a.random && a.word is Some) || (a.word is Some && (a.day is Some || a.seed is Some))
}

impl Args {
    /// Whether the configuration contradicts itself.
    pub fn have_conflicts(&self) -> (r: bool)
        ensures
            r == spec_conflicts(self),
    {
        if self.random && self.word.is_some() {
            return true;
        }
        if self.word.is_some() {
            if self.day.is_some() || self.seed.is_some() {
                return true;
            }
        }
        false
    }

    /// Fill every value the command line left unset from the
    /// configuration file: set options and true flags win over the
    /// file's values.
    pub fn update(&mut self, from_json: Args)
        ensures
            final(self).word == if old(self).word is Some {
                old(self).word
            } else {
                from_json.word
            },
            final(self).random == (old(self).random || from_json.random),
            final(self).difficult == (old(self).difficult || from_json.difficult),
            final(self).stats == (old(self).stats || from_json.stats),
            final(self).day == if old(self).day is Some {
                old(self).day
            } else {
                from_json.day
            },
            final(self).seed == if old(self).seed is Some {
                old(self).seed
            } else {
                from_json.seed
            },
            final(self).final_set == if old(self).final_set is Some {
                old(self).final_set
            } else {
                from_json.final_set
            },
            final(self).acceptable_set == if old(self).acceptable_set is Some {
                old(self).acceptable_set
            } else {
                from_json.acceptable_set
            },
            final(self).state == if old(self).state is Some {
                old(self).state
            } else {
                from_json.state
            },
            final(self).config == if old(self).config is Some {
                old(self).config
            } else {
                from_json.config
            },
    {
        let Args {
            word: f_word,
            random: f_random,
            difficult: f_difficult,
            stats: f_stats,
            day: f_day,
            seed: f_seed,
            final_set: f_final_set,
            acceptable_set: f_acceptable_set,
            state: f_state,
            config: f_config,
        } = from_json;
        if self.word.is_none() {
            self.word = f_word;
        }
        if !self.random {
            self.random = f_random;
        }
        if !self.difficult {
            self.difficult = f_difficult;
        }
        if !self.stats {
            self.stats = f_stats;
        }
        if self.day.is_none() {
            self.day = f_day;
        }
        if self.seed.is_none() {
            self.seed = f_seed;
        }
        if self.final_set.is_none() {
            self.final_set = f_final_set;
        }
        if self.acceptable_set.is_none() {
            self.acceptable_set = f_acceptable_set;
        }
        if self.state.is_none() {
            self.state = f_state;
        }
        if self.config.is_none() {
            self.config = f_config;
        }
    }
}

} // verus!
