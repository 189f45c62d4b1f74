//! A cache of static scores, keyed by position.

use vstd::prelude::*;
use std::collections::HashMap;
use crate::chess_type::ScoreType;
use crate::game::ChessGame;

verus! {

broadcast use vstd::std_specs::hash::group_hash_axioms;

/// A position together with its static score.
#[derive(Clone, Copy)]
pub struct CachedScore {
    pub game: ChessGame,
    pub score: ScoreType,
}

/// The positions of one digest: the first that came, kept in place, and
/// those that came after it.
pub struct Bucket {
    pub first: CachedScore,
    pub rest: Vec<CachedScore>,
}

impl Bucket {
    /// The entries of the bucket, in the order in which they came.
    pub open spec fn entries(&self) -> Seq<CachedScore> {
        seq![self.first] + self.rest@
    }
}

/// Scores of positions already evaluated. Positions are spread over
/// buckets by a 64-bit digest of their eight words, and a bucket is searched
/// for the position itself, so that two positions never share a score.
pub struct ScoreCache {
    buckets: HashMap<u64, Bucket>,
}

/// The digest `h` with the word `w` mixed into it: `h` times a fixed odd
/// number, plus `w`, both in 64-bit arithmetic that wraps round.
pub open spec fn mix(h: u64, w: u64) -> u64 {
    h.wrapping_mul(0x9e37_79b9_7f4a_7c15u64).wrapping_add(w)
}

/// The digest of a position: its eight words mixed one into the other, from
/// `whites` to `flags`, and the high bits of the result folded into the low
/// ones.
pub open spec fn digest_of(game: ChessGame) -> u64 {
    let h = mix(
        mix(
            mix(
                mix(mix(mix(mix(game.whites, game.pawns), game.bishops), game.knights), game.rooks),
                game.queens,
            ),
            game.kings,
        ),
        game.flags,
    );
    h ^ (h >> 29)
}

/// A 64-bit digest of the eight words of a position.
fn digest(game: &ChessGame) -> (r: u64)
    ensures
        r == digest_of(*game),
{
    let k: u64 = 0x9e37_79b9_7f4a_7c15;
    let mut h: u64 = game.whites;
    h = h.wrapping_mul(k).wrapping_add(game.pawns);
    h = h.wrapping_mul(k).wrapping_add(game.bishops);
    h = h.wrapping_mul(k).wrapping_add(game.knights);
    h = h.wrapping_mul(k).wrapping_add(game.rooks);
    h = h.wrapping_mul(k).wrapping_add(game.queens);
    h = h.wrapping_mul(k).wrapping_add(game.kings);
    h = h.wrapping_mul(k).wrapping_add(game.flags);
    h ^ (h >> 29)
}

/// Every entry of the bucket holds the score of its position.
pub open spec fn bucket_sound(bucket: Seq<CachedScore>) -> bool {
    forall|i: int|
        0 <= i < bucket.len() ==> (#[trigger] bucket[i]).score == bucket[i].game.score_spec()
}

/// Every entry of the bucket holds a position whose digest is `key`.
pub open spec fn bucket_placed(bucket: Seq<CachedScore>, key: u64) -> bool {
    forall|i: int| 0 <= i < bucket.len() ==> digest_of((#[trigger] bucket[i]).game) == key
}

/// The bucket has an entry for the position.
pub open spec fn bucket_holds(bucket: Seq<CachedScore>, game: ChessGame) -> bool {
    exists|i: int| 0 <= i < bucket.len() && (#[trigger] bucket[i]).game == game
}

/// The score of the entry of the bucket that holds the position, if one
/// does.
fn find(bucket: &Bucket, game: &ChessGame) -> (r: Option<ScoreType>)
    requires
        bucket_sound(bucket.entries()),
    ensures
        r is Some == bucket_holds(bucket.entries(), *game),
        r is Some ==> r->0 == game.score_spec(),
{
    if bucket.first.game == *game {
        assert(bucket.entries()[0] == bucket.first);
        return Some(bucket.first.score);
    }
    let mut i: usize = 0;
    while i < bucket.rest.len()
        invariant
            i <= bucket.rest@.len(),
            bucket.first.game != *game,
            bucket_sound(bucket.entries()),
            forall|j: int| 0 <= j < i ==> (#[trigger] bucket.rest@[j]).game != *game,
        decreases bucket.rest@.len() - i,
    {
        if bucket.rest[i].game == *game {
            assert(bucket.entries()[i + 1] == bucket.rest@[i as int]);
            return Some(bucket.rest[i].score);
        }
        i = i + 1;
    }
    assert forall|j: int| 0 <= j < bucket.entries().len() implies (#[trigger] bucket.entries()[j]).game
        != *game by {
        if j > 0 {
            assert(bucket.entries()[j] == bucket.rest@[j - 1]);
        }
    }
    None
}

impl ScoreCache {
    /// Every score that the cache holds is the score of its position, and
    /// every position sits in the bucket of its digest.
    pub closed spec fn sound(&self) -> bool {
        forall|k: u64| #[trigger]
            self.buckets@.contains_key(k) ==> bucket_sound(self.buckets@[k].entries())
                && bucket_placed(self.buckets@[k].entries(), k)
    }

    /// The cache holds a score for the position: the bucket of the digest of
    /// the position has an entry for it.
    pub closed spec fn holds(&self, game: ChessGame) -> bool {
        &&& self.buckets@.contains_key(digest_of(game))
        &&& bucket_holds(self.buckets@[digest_of(game)].entries(), game)
    }

    /// An empty cache.
    pub fn new() -> (c: ScoreCache)
        ensures
            c.sound(),
            forall|g: ChessGame| !c.holds(g),
    {
        ScoreCache { buckets: HashMap::new() }
    }

    /// The score of the position: the one that the cache holds, or else the
    /// one computed now and kept for the next time.
    pub fn entry_or_compute(&mut self, game: &ChessGame) -> (s: ScoreType)
        requires
            old(self).sound(),
            game.pawns_inside(),
        ensures
            final(self).sound(),
            s == game.score_spec(),
            forall|g: ChessGame| #[trigger] final(self).holds(g) == (old(self).holds(g) || g == *game),
    {
        let key = digest(game);
        let present = match self.buckets.get(&key) {
            Some(bucket) => {
                if let Some(s) = find(bucket, game) {
                    return s;
                }
                true
            },
            None => false,
        };
        let score = game.score();
        let entry = CachedScore { game: *game, score };
        let ghost before: Seq<CachedScore>;
        let ghost after: Seq<CachedScore>;
        let taken = if present {
            self.buckets.remove(&key)
        } else {
            None
        };
        match taken {
            Some(mut bucket) => {
                proof {
                    before = bucket.entries();
                }
                bucket.rest.push(entry);
                proof {
                    after = bucket.entries();
                    assert(after =~= before.push(entry));
                }
                self.buckets.insert(key, bucket);
            },
            None => {
                let bucket = Bucket { first: entry, rest: Vec::new() };
                proof {
                    before = Seq::empty();
                    after = bucket.entries();
                    assert(after =~= before.push(entry));
                }
                self.buckets.insert(key, bucket);
            },
        }
        proof {
            assert(self.buckets@[key].entries() == after);
            assert(after[before.len() as int] == entry);
            assert(bucket_holds(after, *game));
            assert forall|g: ChessGame| #[trigger] self.holds(g) == (old(self).holds(g) || g
                == *game) by {
                let k = digest_of(g);
                if k == key {
                    if old(self).holds(g) {
                        let i = choose|i: int|
                            0 <= i < before.len() && (#[trigger] before[i]).game == g;
                        assert(after[i].game == g);
                    }
                    if self.holds(g) && g != *game {
                        let i = choose|i: int|
                            0 <= i < after.len() && (#[trigger] after[i]).game == g;
                        assert(before[i].game == g);
                    }
                } else {
                    assert(self.buckets@.contains_key(k) == old(self).buckets@.contains_key(k));
                }
            }
        }
        score
    }
}

} // verus!
