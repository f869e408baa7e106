//! A single lesson: its difficulty, success criteria and environment.
use vstd::prelude::*;
use crate::text::{decimal, hundredths_text, push_decimal, push_hundredths};

verus! {

/// The threshold a new lesson is passed with: `0.7`.
pub const DEFAULT_SUCCESS_THRESHOLD: i64 = 700_000_000_000;

/// The attempts a new lesson allows.
pub const DEFAULT_MAX_ATTEMPTS: usize = 10;

/// A single lesson in the curriculum with difficulty, config, and success
/// criteria. Difficulty and threshold are fixed-point values.
#[derive(Debug, Clone)]
pub struct Lesson {
    /// Lesson index in the curriculum.
    pub index: usize,
    /// Difficulty level (0.0 to 1.0 typically).
    pub difficulty: i64,
    /// Score threshold to consider the lesson passed.
    pub success_threshold: i64,
    /// Maximum attempts before giving up or moving on.
    pub max_attempts: usize,
    /// Arbitrary environment configuration as key-value pairs.
    pub env_config: Vec<(String, String)>,
    /// Human-readable description.
    pub description: String,
}

/// The description a new lesson gets: `Lesson {index} (difficulty {d:.2})`.
pub open spec fn lesson_description(index: nat, difficulty: int) -> Seq<char> {
    "Lesson "@ + decimal(index) + " (difficulty "@ + hundredths_text(difficulty) + ")"@
}

/// Whether `l` is the lesson that `Lesson::new(index, difficulty)` builds.
pub open spec fn is_new_lesson(l: Lesson, index: usize, difficulty: i64) -> bool {
    &&& l.index == index
    &&& l.difficulty == difficulty
    &&& l.success_threshold == DEFAULT_SUCCESS_THRESHOLD
    &&& l.max_attempts == DEFAULT_MAX_ATTEMPTS
    &&& l.env_config@.len() == 0
    &&& l.description@ == lesson_description(index as nat, difficulty as int)
}

/// The value of the first entry whose key is `key`.
pub open spec fn lookup(pairs: Seq<(String, String)>, key: Seq<char>) -> Option<Seq<char>>
    decreases pairs.len(),
{
    if pairs.len() == 0 {
        None
    } else if pairs[0].0@ == key {
        Some(pairs[0].1@)
    } else {
        lookup(pairs.drop_first(), key)
    }
}

impl Lesson {
    /// Create a new lesson with the given index and difficulty.
    pub fn new(index: usize, difficulty: i64) -> (r: Self)
        ensures
            is_new_lesson(r, index, difficulty),
    {
        let mut description = String::new();
        description.append("Lesson ");
        push_decimal(&mut description, index as u128);
        description.append(" (difficulty ");
        push_hundredths(&mut description, difficulty);
        description.append(")");
        Lesson {
            index,
            difficulty,
            success_threshold: DEFAULT_SUCCESS_THRESHOLD,
            max_attempts: DEFAULT_MAX_ATTEMPTS,
            env_config: Vec::new(),
            description,
        }
    }

    /// Set the success threshold.
    pub fn with_success_threshold(self, threshold: i64) -> (r: Self)
        ensures
            r == (Lesson { success_threshold: threshold, ..self }),
    {
        let mut l = self;
        l.success_threshold = threshold;
        l
    }

    /// Set maximum attempts.
    pub fn with_max_attempts(self, max: usize) -> (r: Self)
        ensures
            r == (Lesson { max_attempts: max, ..self }),
    {
        let mut l = self;
        l.max_attempts = max;
        l
    }

    /// Add an environment config entry.
    pub fn with_env_config(self, key: &str, value: &str) -> (r: Self)
        ensures
            r == (Lesson { env_config: r.env_config, ..self }),
            r.env_config@.len() == self.env_config@.len() + 1,
            r.env_config@.drop_last() == self.env_config@,
            r.env_config@.last().0@ == key@,
            r.env_config@.last().1@ == value@,
    {
        let mut l = self;
        l.env_config.push((String::from_str(key), String::from_str(value)));
        l
    }

    /// Set the description.
    pub fn with_description(self, desc: &str) -> (r: Self)
        ensures
            r == (Lesson { description: r.description, ..self }),
            r.description@ == desc@,
    {
        let mut l = self;
        l.description = String::from_str(desc);
        l
    }

    /// Get an environment config value by key: the value of the first entry
    /// with that key.
    pub fn env(&self, key: &str) -> (r: Option<&str>)
        ensures
            r is Some <==> lookup(self.env_config@, key@) is Some,
            r matches Some(v) ==> lookup(self.env_config@, key@) == Some(v@),
    {
        let wanted = String::from_str(key);
        let n = self.env_config.len();
        let mut i: usize = 0;
        proof {
            assert(self.env_config@.skip(0) =~= self.env_config@);
        }
        while i < n
            invariant
                n == self.env_config@.len(),
                0 <= i <= n,
                wanted@ == key@,
                lookup(self.env_config@, key@) == lookup(self.env_config@.skip(i as int), key@),
            decreases n - i,
        {
            proof {
                assert(self.env_config@.skip(i as int)[0] == self.env_config@[i as int]);
                assert(self.env_config@.skip(i as int).drop_first() =~= self.env_config@.skip(i + 1));
            }
            if self.env_config[i].0 == wanted {
                return Some(self.env_config[i].1.as_str());
            }
            i = i + 1;
        }
        proof {
            assert(self.env_config@.skip(n as int).len() == 0);
        }
        None
    }

    /// Check if a score meets the success threshold.
    pub fn is_passed(&self, score: i64) -> (r: bool)
        ensures
            r == (score >= self.success_threshold),
    {
        score >= self.success_threshold
    }
}

/// Reading a key back after adding it gives what was added, as long as the
/// lesson had no entry for that key yet.
pub proof fn lemma_env_reads_back(pairs: Seq<(String, String)>, entry: (String, String))
    requires
        lookup(pairs, entry.0@) is None,
    ensures
        lookup(pairs.push(entry), entry.0@) == Some(entry.1@),
    decreases pairs.len(),
{
    if pairs.len() > 0 {
        assert(pairs.push(entry)[0] == pairs[0]);
        assert(pairs.push(entry).drop_first() =~= pairs.drop_first().push(entry));
        lemma_env_reads_back(pairs.drop_first(), entry);
    } else {
        assert(pairs.push(entry)[0] == entry);
    }
}

/// Adding an entry never changes what an existing key reads: the first entry
/// for a key wins.
pub proof fn lemma_env_first_entry_wins(pairs: Seq<(String, String)>, entry: (String, String), key: Seq<char>)
    requires
        lookup(pairs, key) is Some,
    ensures
        lookup(pairs.push(entry), key) == lookup(pairs, key),
    decreases pairs.len(),
{
    assert(pairs.push(entry)[0] == pairs[0]);
    if pairs[0].0@ != key {
        assert(pairs.push(entry).drop_first() =~= pairs.drop_first().push(entry));
        lemma_env_first_entry_wins(pairs.drop_first(), entry, key);
    }
}

/// Adding an entry for another key does not change what a key reads.
pub proof fn lemma_env_other_key(pairs: Seq<(String, String)>, entry: (String, String), key: Seq<char>)
    requires
        entry.0@ != key,
    ensures
        lookup(pairs.push(entry), key) == lookup(pairs, key),
    decreases pairs.len(),
{
    if pairs.len() > 0 {
        assert(pairs.push(entry)[0] == pairs[0]);
        if pairs[0].0@ != key {
            assert(pairs.push(entry).drop_first() =~= pairs.drop_first().push(entry));
            lemma_env_other_key(pairs.drop_first(), entry, key);
        }
    } else {
        assert(pairs.push(entry)[0] == entry);
        assert(pairs.push(entry).drop_first() =~= pairs);
        assert(lookup(pairs, key) is None);
    }
}

} // verus!
