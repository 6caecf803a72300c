//! The television wall's clip handling: which files are clips, how the clips
//! are dealt across the sets, and how large one decoded frame is.

use rand::seq::SliceRandom;
use vstd::prelude::*;
use vstd::multiset::Multiset;

use crate::text::{ascii_lower_code, chars_of, lower_matches, range_lower_matches};

verus! {

/// Bytes in one RGBA8 frame of a `tile`-sized slot.
pub fn frame_bytes(tile: (u32, u32)) -> (r: usize)
    requires
        tile.0 * tile.1 * 4 <= usize::MAX,
    ensures
        r == tile.0 * tile.1 * 4,
{
    tile.0 as usize * tile.1 as usize * 4
}

/// Whether a file extension names something `ffmpeg` is likely to be handed
/// here. Case-insensitive.
pub open spec fn clip_extension(ext: Seq<char>) -> bool {
    ||| lower_matches(ext, "mp4"@)
    ||| lower_matches(ext, "mkv"@)
    ||| lower_matches(ext, "mov"@)
    ||| lower_matches(ext, "avi"@)
    ||| lower_matches(ext, "webm"@)
    ||| lower_matches(ext, "m4v"@)
    ||| lower_matches(ext, "mpg"@)
    ||| lower_matches(ext, "mpeg"@)
}

/// The clip extensions are exactly mp4, mkv, mov, avi, webm, m4v, mpg and
/// mpeg, in any ASCII case.
pub proof fn lemma_clip_extensions(ext: Seq<char>)
    ensures
        lower_matches(ext, seq!['m', 'p', '4']) ==> clip_extension(ext),
        lower_matches(ext, seq!['m', 'k', 'v']) ==> clip_extension(ext),
        lower_matches(ext, seq!['m', 'o', 'v']) ==> clip_extension(ext),
        lower_matches(ext, seq!['a', 'v', 'i']) ==> clip_extension(ext),
        lower_matches(ext, seq!['w', 'e', 'b', 'm']) ==> clip_extension(ext),
        lower_matches(ext, seq!['m', '4', 'v']) ==> clip_extension(ext),
        lower_matches(ext, seq!['m', 'p', 'g']) ==> clip_extension(ext),
        lower_matches(ext, seq!['m', 'p', 'e', 'g']) ==> clip_extension(ext),
        clip_extension(ext) ==> {
            ||| lower_matches(ext, seq!['m', 'p', '4'])
            ||| lower_matches(ext, seq!['m', 'k', 'v'])
            ||| lower_matches(ext, seq!['m', 'o', 'v'])
            ||| lower_matches(ext, seq!['a', 'v', 'i'])
            ||| lower_matches(ext, seq!['w', 'e', 'b', 'm'])
            ||| lower_matches(ext, seq!['m', '4', 'v'])
            ||| lower_matches(ext, seq!['m', 'p', 'g'])
            ||| lower_matches(ext, seq!['m', 'p', 'e', 'g'])
        },
{
    reveal_strlit("mp4");
    reveal_strlit("mkv");
    reveal_strlit("mov");
    reveal_strlit("avi");
    reveal_strlit("webm");
    reveal_strlit("m4v");
    reveal_strlit("mpg");
    reveal_strlit("mpeg");
    assert("mp4"@ =~= seq!['m', 'p', '4']);
    assert("mkv"@ =~= seq!['m', 'k', 'v']);
    assert("mov"@ =~= seq!['m', 'o', 'v']);
    assert("avi"@ =~= seq!['a', 'v', 'i']);
    assert("webm"@ =~= seq!['w', 'e', 'b', 'm']);
    assert("m4v"@ =~= seq!['m', '4', 'v']);
    assert("mpg"@ =~= seq!['m', 'p', 'g']);
    assert("mpeg"@ =~= seq!['m', 'p', 'e', 'g']);
}

/// Upper-case letters read as their lower-case forms: an extension spelt in
/// capitals is a clip exactly when its lower-case spelling is.
pub proof fn lemma_clip_extension_ignores_case(ext: Seq<char>, lower: Seq<char>)
    requires
        ext.len() == lower.len(),
        forall|k: int| 0 <= k < ext.len() ==> ascii_lower_code(#[trigger] ext[k]) == ascii_lower_code(lower[k]),
    ensures
        clip_extension(ext) == clip_extension(lower),
{
    lemma_lower_matches_alike(ext, lower, "mp4"@);
    lemma_lower_matches_alike(ext, lower, "mkv"@);
    lemma_lower_matches_alike(ext, lower, "mov"@);
    lemma_lower_matches_alike(ext, lower, "avi"@);
    lemma_lower_matches_alike(ext, lower, "webm"@);
    lemma_lower_matches_alike(ext, lower, "m4v"@);
    lemma_lower_matches_alike(ext, lower, "mpg"@);
    lemma_lower_matches_alike(ext, lower, "mpeg"@);
}

proof fn lemma_lower_matches_alike(ext: Seq<char>, lower: Seq<char>, lit: Seq<char>)
    requires
        ext.len() == lower.len(),
        forall|k: int| 0 <= k < ext.len() ==> ascii_lower_code(#[trigger] ext[k]) == ascii_lower_code(lower[k]),
    ensures
        lower_matches(ext, lit) == lower_matches(lower, lit),
{
    if lower_matches(ext, lit) {
        assert forall|k: int| 0 <= k < lower.len() implies ascii_lower_code(#[trigger] lower[k])
            == lit[k] as u32 by {
            assert(ascii_lower_code(ext[k]) == ascii_lower_code(lower[k]));
        }
    }
    if lower_matches(lower, lit) {
        assert forall|k: int| 0 <= k < ext.len() implies ascii_lower_code(#[trigger] ext[k])
            == lit[k] as u32 by {
            assert(ascii_lower_code(lower[k]) == lit[k] as u32);
        }
    }
}

/// Whether `ext` is a clip's extension.
pub fn is_clip_extension(ext: &str) -> (r: bool)
    ensures
        r == clip_extension(ext@),
{
    let v = chars_of(ext);
    let n = v.len();
    assert(v@.subrange(0, n as int) =~= v@);
    range_lower_matches(&v, 0, n, "mp4") || range_lower_matches(&v, 0, n, "mkv")
        || range_lower_matches(&v, 0, n, "mov") || range_lower_matches(&v, 0, n, "avi")
        || range_lower_matches(&v, 0, n, "webm") || range_lower_matches(&v, 0, n, "m4v")
        || range_lower_matches(&v, 0, n, "mpg") || range_lower_matches(&v, 0, n, "mpeg")
}

/// How many of `len` clips dealt round-robin onto `slots` sets land on set `j`.
pub open spec fn dealt_count(len: int, slots: int, j: int) -> int {
    if j >= len {
        0
    } else {
        (len - j + slots - 1) / slots
    }
}

proof fn lemma_dealt_in_range(n: int, s: int, j: int, t: int)
    requires
        0 <= j < n,
        s > 0,
        0 <= t < dealt_count(n, s, j),
    ensures
        j + t * s < n,
{
    let l = n - j;
    let c = (l + s - 1) / s;
    let r = (l + s - 1) % s;
    assert(l + s - 1 == c * s + r && 0 <= r < s) by (nonlinear_arith)
        requires c == (l + s - 1) / s, r == (l + s - 1) % s, s > 0;
    assert(t * s <= (c - 1) * s) by (nonlinear_arith)
        requires t <= c - 1, s > 0;
    assert((c - 1) * s == c * s - s) by (nonlinear_arith);
}

/// Clips dealt round-robin onto `slots` sets, keeping only the sets that got
/// something: set `j` plays clips `j`, `j + slots`, `j + 2 * slots`, ...
pub open spec fn dealt(clips: Seq<String>, slots: int) -> Seq<Seq<String>> {
    let sets = if slots < clips.len() {
        slots
    } else {
        clips.len() as int
    };
    Seq::new(
        sets as nat,
        |j: int|
            Seq::new(
                dealt_count(clips.len() as int, slots, j) as nat,
                |t: int| clips[j + t * slots],
            ),
    )
}

/// Deal clips round-robin onto `slots` sets, in the order given. Sets that
/// would get nothing are left out rather than doubling up.
pub fn deal(clips: &Vec<String>, slots: usize) -> (r: Vec<Vec<String>>)
    requires
        slots > 0,
        clips@.len() + slots <= usize::MAX,
    ensures
        r@.len() == dealt(clips@, slots as int).len(),
        forall|j: int| 0 <= j < r@.len() ==> (#[trigger] r@[j])@ == dealt(clips@, slots as int)[j],
{
    let n = clips.len();
    let sets = if slots < n {
        slots
    } else {
        n
    };
    let mut out: Vec<Vec<String>> = Vec::new();
    let mut j: usize = 0;
    while j < sets
        invariant
            j <= sets,
            sets == (if slots < n { slots } else { n }),
            n == clips@.len(),
            slots > 0,
            n + slots <= usize::MAX,
            out@.len() == j,
            forall|q: int| 0 <= q < j ==> (#[trigger] out@[q])@ == dealt(clips@, slots as int)[q],
        decreases sets - j,
    {
        let mut playlist: Vec<String> = Vec::new();
        let count: usize = (n - j + slots - 1) / slots;
        assert(count == dealt_count(n as int, slots as int, j as int));
        let mut t: usize = 0;
        let mut i: usize = j;
        while t < count
            invariant
                j < sets,
                sets <= n,
                n == clips@.len(),
                slots > 0,
                n + slots <= usize::MAX,
                count == dealt_count(n as int, slots as int, j as int),
                t <= count,
                t < count ==> i == j + t * slots,
                playlist@.len() == t,
                forall|q: int| 0 <= q < t ==> #[trigger] playlist@[q] == clips@[j + q * slots],
            decreases count - t,
        {
            proof {
                lemma_dealt_in_range(n as int, slots as int, j as int, t as int);
            }
            playlist.push(clips[i].clone());
            proof {
                assert(i + slots == j + (t + 1) * slots) by (nonlinear_arith)
                    requires i == j + t * slots;
            }
            t = t + 1;
            if t < count {
                proof {
                    lemma_dealt_in_range(n as int, slots as int, j as int, t as int);
                }
                i = i + slots;
            }
        }
        proof {
            assert(playlist@ =~= dealt(clips@, slots as int)[j as int]);
        }
        out.push(playlist);
        j = j + 1;
    }
    out
}

/// Shuffle the clips in place with the thread's random generator.
///
/// Calls `rand::seq::SliceRandom::shuffle` with `rand::rng()`. Claimed: the
/// result holds the same clips, each as many times as before — the shuffle
/// only swaps. Which order comes out is chance and is not stated.
#[verifier::external_body]
fn shuffle_clips(clips: &mut Vec<String>)
    ensures
        final(clips)@.len() == old(clips)@.len(),
        final(clips)@.to_multiset() == old(clips)@.to_multiset(),
{
    clips.shuffle(&mut rand::rng());
}

/// Deal the clips onto `slots` sets in a random order, so two televisions do
/// not run the same programme in the same order every night.
///
/// Whatever order the shuffle produced, every clip lands on exactly one set,
/// and the sets are dealt round-robin from that order.
pub fn shuffled_playlists(clips: Vec<String>, slots: usize) -> (r: Vec<Vec<String>>)
    requires
        slots > 0,
        clips@.len() + slots <= usize::MAX,
    ensures
        exists|order: Seq<String>|
            #![trigger dealt(order, slots as int)]
            order.to_multiset() == clips@.to_multiset() && order.len() == clips@.len()
                && r@.len() == dealt(order, slots as int).len() && forall|j: int|
                0 <= j < r@.len() ==> (#[trigger] r@[j])@ == dealt(order, slots as int)[j],
{
    let mut shuffled = clips;
    shuffle_clips(&mut shuffled);
    let r = deal(&shuffled, slots);
    assert(dealt(shuffled@, slots as int).len() == r@.len());
    r
}

} // verus!
