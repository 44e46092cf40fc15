//! The decisions of camera control: the open-state check, retry with
//! exponential back-off, reconnection polling after a reset, and the choice
//! of pixel formats among those a camera offers.
//!
//! The camera driver calls themselves stay with the caller, which runs the
//! loops and hands the outcome of each call to these functions.

use vstd::prelude::*;
use vstd::arithmetic::power::lemma_pow0;
use vstd::arithmetic::power2::{lemma_pow2_strictly_increases, lemma_pow2_unfold, pow2};
use vstd::string::StringExecFns;

use crate::error::CameraError;
use crate::text::{dec, push_decimal};

verus! {

// ───────────────────────── open state ─────────────────────────

/// `Ok` when the camera is open, `DeviceNotOpen` otherwise.
pub fn ensure_open(is_open: bool) -> (r: Result<(), CameraError>)
    ensures
        is_open ==> r is Ok,
        !is_open ==> r matches Err(CameraError::DeviceNotOpen),
{
    if is_open {
        Ok(())
    } else {
        Err(CameraError::DeviceNotOpen)
    }
}

// ───────────────────────── retry with back-off ─────────────────────────

/// The wait after failed attempt `attempt` (counted from 0): `base × 2^attempt` ms,
/// doubling with every failure.
pub open spec fn backoff_ms(base: u64, attempt: nat) -> nat {
    base as nat * pow2(attempt)
}

/// What to do after an attempt failed.
#[derive(Debug, PartialEq, Eq, Structural)]
pub enum RetryStep {
    /// Wait `delay_ms` milliseconds; then reset the camera when `reset` is
    /// set; then try again.
    Retry { delay_ms: u64, reset: bool },
    /// Stop and report the error of the failed attempt.
    GiveUp,
}

/// The wait in milliseconds after failed attempt `attempt`.
pub fn backoff_delay_ms(base: u64, attempt: usize) -> (d: u64)
    requires
        backoff_ms(base, attempt as nat) <= u64::MAX,
    ensures
        d == backoff_ms(base, attempt as nat),
{
    if base == 0 {
        assert(base as nat * pow2(attempt as nat) == 0) by (nonlinear_arith)
            requires
                base == 0,
        ;
        return 0;
    }
    let mut d: u64 = base;
    let mut i: usize = 0;
    proof {
        lemma_pow0(2);
        assert(pow2(0) == 1);
        assert(base as nat * pow2(0) == base as nat) by (nonlinear_arith)
            requires
                pow2(0) == 1,
        ;
    }
    while i < attempt
        invariant
            i <= attempt,
            base > 0,
            d == backoff_ms(base, i as nat),
            backoff_ms(base, attempt as nat) <= u64::MAX,
        decreases attempt - i,
    {
        proof {
            let next: nat = (i + 1) as nat;
            lemma_pow2_unfold(next);
            if next < attempt {
                lemma_pow2_strictly_increases(next, attempt as nat);
            }
            assert(base as nat * pow2(next) <= base as nat * pow2(attempt as nat)) by (nonlinear_arith)
                requires
                    pow2(next) <= pow2(attempt as nat),
            ;
            assert(base as nat * pow2(next) == 2 * (base as nat * pow2(i as nat))) by (nonlinear_arith)
                requires
                    pow2(next) == 2 * pow2(i as nat),
            ;
        }
        d = d * 2;
        i = i + 1;
    }
    d
}

/// The decision after attempt `attempt` (counted from 0) of at most
/// `max_retries + 1` attempts failed: retry while attempts remain, waiting
/// `base × 2^attempt` ms and, when `reset_on_retry` is set, resetting
/// the camera before every retry but the first; give up after the last attempt.
pub fn retry_after_failure(
    attempt: usize,
    max_retries: usize,
    delay_base_ms: u64,
    reset_on_retry: bool,
) -> (step: RetryStep)
    requires
        attempt <= max_retries,
        attempt < max_retries ==> backoff_ms(delay_base_ms, attempt as nat) <= u64::MAX,
    ensures
        attempt < max_retries ==> step == (RetryStep::Retry {
            delay_ms: backoff_ms(delay_base_ms, attempt as nat) as u64,
            reset: reset_on_retry && attempt > 0,
        }),
        attempt == max_retries ==> step == RetryStep::GiveUp,
{
    if attempt < max_retries {
        let delay_ms = backoff_delay_ms(delay_base_ms, attempt);
        RetryStep::Retry { delay_ms, reset: reset_on_retry && attempt > 0 }
    } else {
        RetryStep::GiveUp
    }
}

/// Law: the back-off doubles from one failed attempt to the next, without bound.
pub proof fn law_backoff_doubles(base: u64, attempt: nat)
    ensures
        backoff_ms(base, attempt + 1) == 2 * backoff_ms(base, attempt),
{
    lemma_pow2_unfold(attempt + 1);
    assert(base as nat * (2 * pow2(attempt)) == 2 * (base as nat * pow2(attempt)))
        by (nonlinear_arith);
}

// ───────────────────────── reconnection after a reset ─────────────────────────

/// What to do while waiting for a camera to come back after a reset.
#[derive(Debug)]
pub enum ResetStep {
    /// Wait, then try to connect again.
    Attempt,
    /// The camera is connected again; reopen it.
    Reconnected,
    /// Stop polling with this error.
    GiveUp(CameraError),
}

/// The number of connection attempts after a reset: twice the retry count.
pub fn reset_poll_limit(max_retries: usize) -> (n: usize)
    requires
        2 * max_retries <= usize::MAX,
    ensures
        n == 2 * max_retries,
{
    max_retries * 2
}

/// The decision after `attempts_done` connection attempts, the last of which
/// connected when `connected` is set: reconnected; another attempt while
/// fewer than `limit` were made; else `ReconnectFailed(limit)`.
pub fn reset_step(attempts_done: usize, limit: usize, connected: bool) -> (step: ResetStep)
    ensures
        connected ==> step is Reconnected,
        !connected && attempts_done < limit ==> step is Attempt,
        !connected && attempts_done >= limit ==> (step matches ResetStep::GiveUp(
            CameraError::ReconnectFailed(n),
        ) && n == limit),
{
    if connected {
        ResetStep::Reconnected
    } else if attempts_done < limit {
        ResetStep::Attempt
    } else {
        ResetStep::GiveUp(CameraError::ReconnectFailed(limit))
    }
}

// ───────────────────────── pixel format choice ─────────────────────────

/// The character views of a list of names.
pub open spec fn name_views(names: Seq<String>) -> Seq<Seq<char>> {
    names.map_values(|s: String| s@)
}

/// The first candidate that is among the available names.
pub open spec fn first_available(available: Seq<Seq<char>>, candidates: Seq<Seq<char>>) -> Option<
    Seq<char>,
>
    decreases candidates.len(),
{
    if candidates.len() == 0 {
        None
    } else if available.contains(candidates[0]) {
        Some(candidates[0])
    } else {
        first_available(available, candidates.drop_first())
    }
}

/// The RGB8 format names in order of preference.
pub open spec fn rgb_candidates() -> Seq<Seq<char>> {
    seq!["RGB8Packed"@, "RGB8"@, "BGR8"@]
}

/// The Bayer tags tried for RAW formats, in order of preference.
pub open spec fn raw_tags() -> Seq<Seq<char>> {
    seq!["BayerGB"@, "BayerGR"@, "BayerRG"@, "BayerBG"@]
}

/// The RAW format names tried for one tag: the tag and the bit depth, then,
/// for depths that are not a multiple of 8, the same with `Packed` appended.
pub open spec fn raw_names_for(tag: Seq<char>, bit: u32) -> Seq<Seq<char>> {
    if bit % 8 != 0 {
        seq![tag + dec(bit as nat), tag + dec(bit as nat) + "Packed"@]
    } else {
        seq![tag + dec(bit as nat)]
    }
}

/// All RAW format names tried, tag by tag.
pub open spec fn raw_candidates(bit: u32) -> Seq<Seq<char>> {
    raw_names_for(raw_tags()[0], bit) + raw_names_for(raw_tags()[1], bit) + raw_names_for(
        raw_tags()[2],
        bit,
    ) + raw_names_for(raw_tags()[3], bit)
}

/// Whether `name` is one of the available names.
fn offered(available: &Vec<String>, name: &String) -> (r: bool)
    ensures
        r == name_views(available@).contains(name@),
{
    let mut i: usize = 0;
    while i < available.len()
        invariant
            i <= available@.len(),
            forall|k: int| 0 <= k < i ==> available@[k]@ != name@,
        decreases available@.len() - i,
    {
        if available[i] == *name {
            assert(name_views(available@)[i as int] == name@);
            return true;
        }
        i = i + 1;
    }
    assert forall|k: int| 0 <= k < name_views(available@).len() implies name_views(
        available@,
    )[k] != name@ by {
        assert(name_views(available@)[k] == available@[k]@);
    }
    false
}

/// The first of `candidates` that is available.
fn pick_first(available: &Vec<String>, candidates: Vec<String>) -> (r: Option<String>)
    ensures
        r matches Some(s) ==> first_available(name_views(available@), name_views(candidates@))
            == Some(s@),
        r is None ==> first_available(name_views(available@), name_views(candidates@)) is None,
{
    let mut i: usize = 0;
    assert(name_views(candidates@).skip(0) =~= name_views(candidates@));
    while i < candidates.len()
        invariant
            i <= candidates@.len(),
            first_available(name_views(available@), name_views(candidates@)) == first_available(
                name_views(available@),
                name_views(candidates@).skip(i as int),
            ),
        decreases candidates@.len() - i,
    {
        let ghost rest = name_views(candidates@).skip(i as int);
        assert(rest[0] == candidates@[i as int]@);
        assert(rest.drop_first() =~= name_views(candidates@).skip(i + 1));
        if offered(available, &candidates[i]) {
            return Some(candidates[i].clone());
        }
        i = i + 1;
    }
    assert(name_views(candidates@).skip(i as int) =~= Seq::<Seq<char>>::empty());
    None
}

/// The RGB8 format to select: the first of `RGB8Packed`, `RGB8`, `BGR8`
/// that the camera offers, or `UnsupportedPixelFormat`.
pub fn select_rgb_format(available: &Vec<String>) -> (r: Result<String, CameraError>)
    ensures
        first_available(name_views(available@), rgb_candidates()) matches Some(n) ==> (
        r matches Ok(s) && s@ == n),
        first_available(name_views(available@), rgb_candidates()) is None ==> (r matches Err(
            CameraError::UnsupportedPixelFormat(m),
        ) && m@ == "no RGB8 format available"@),
{
    let candidates = vec![
        String::from_str("RGB8Packed"),
        String::from_str("RGB8"),
        String::from_str("BGR8"),
    ];
    assert(name_views(candidates@) =~= rgb_candidates());
    match pick_first(available, candidates) {
        Some(s) => Ok(s),
        None => Err(CameraError::UnsupportedPixelFormat(String::from_str("no RGB8 format available"))),
    }
}

/// The RAW Bayer format to select for a bit depth: for the tags `BayerGB`,
/// `BayerGR`, `BayerRG`, `BayerBG` in turn, the name with the depth, then,
/// for depths that are not a multiple of 8, the same with `Packed`; the
/// first the camera offers, or `UnsupportedPixelFormat`.
pub fn select_raw_format(available: &Vec<String>, bit: u32) -> (r: Result<String, CameraError>)
    ensures
        first_available(name_views(available@), raw_candidates(bit)) matches Some(n) ==> (
        r matches Ok(s) && s@ == n),
        first_available(name_views(available@), raw_candidates(bit)) is None ==> (r matches Err(
            CameraError::UnsupportedPixelFormat(m),
        ) && m@ == "no Bayer "@ + dec(bit as nat) + "bit format available"@),
{
    let tags = vec![
        String::from_str("BayerGB"),
        String::from_str("BayerGR"),
        String::from_str("BayerRG"),
        String::from_str("BayerBG"),
    ];
    let mut candidates: Vec<String> = Vec::new();
    let mut t: usize = 0;
    while t < tags.len()
        invariant
            tags@.len() == 4,
            forall|k: int| 0 <= k < 4 ==> #[trigger] tags@[k]@ == raw_tags()[k],
            t <= 4,
            name_views(candidates@) == names_up_to(bit, t as nat),
        decreases 4 - t,
    {
        let mut name = tags[t].clone();
        push_decimal(&mut name, bit as u64);
        let ghost before = name_views(candidates@);
        candidates.push(name.clone());
        if bit % 8 != 0 {
            let mut packed = name;
            packed.append("Packed");
            candidates.push(packed);
        }
        assert(name_views(candidates@) =~= before + raw_names_for(raw_tags()[t as int], bit));
        t = t + 1;
    }
    assert(names_up_to(bit, 4) =~= raw_candidates(bit)) by {
        assert(names_up_to(bit, 0) =~= Seq::<Seq<char>>::empty());
        assert(names_up_to(bit, 1) =~= raw_names_for(raw_tags()[0], bit));
        assert(names_up_to(bit, 2) =~= raw_names_for(raw_tags()[0], bit) + raw_names_for(
            raw_tags()[1],
            bit,
        ));
        assert(names_up_to(bit, 3) =~= raw_names_for(raw_tags()[0], bit) + raw_names_for(
            raw_tags()[1],
            bit,
        ) + raw_names_for(raw_tags()[2], bit));
    }
    match pick_first(available, candidates) {
        Some(s) => Ok(s),
        None => {
            let mut m = String::from_str("no Bayer ");
            push_decimal(&mut m, bit as u64);
            m.append("bit format available");
            Err(CameraError::UnsupportedPixelFormat(m))
        },
    }
}

/// Law: the RGB8 format chosen is `RGB8Packed` when the camera offers it,
/// else `RGB8` when offered, else `BGR8` when offered; with none of the three
/// there is no choice.
pub proof fn law_rgb_format_preference(available: Seq<Seq<char>>)
    ensures
        first_available(available, rgb_candidates()) == (if available.contains("RGB8Packed"@) {
            Some("RGB8Packed"@)
        } else if available.contains("RGB8"@) {
            Some("RGB8"@)
        } else if available.contains("BGR8"@) {
            Some("BGR8"@)
        } else {
            None
        }),
{
    let c = rgb_candidates();
    assert(c.drop_first() =~= seq!["RGB8"@, "BGR8"@]);
    assert(c.drop_first().drop_first() =~= seq!["BGR8"@]);
    assert(c.drop_first().drop_first().drop_first() =~= Seq::<Seq<char>>::empty());
    reveal_with_fuel(first_available, 4);
}

/// The RAW name chosen for one Bayer tag: the tag with the depth when the
/// camera offers it; else, for a depth that is not a multiple of 8, the same
/// with `Packed` appended when offered.
pub open spec fn raw_choice(available: Seq<Seq<char>>, tag: Seq<char>, bit: u32) -> Option<
    Seq<char>,
> {
    let plain = tag + dec(bit as nat);
    if available.contains(plain) {
        Some(plain)
    } else if bit % 8 != 0 && available.contains(plain + "Packed"@) {
        Some(plain + "Packed"@)
    } else {
        None
    }
}

/// Law: the RAW format chosen for a depth goes tag by tag through `BayerGB`,
/// `BayerGR`, `BayerRG`, `BayerBG`; the first tag with an offered name decides,
/// and for it the plain name is preferred to the packed one.
pub proof fn law_raw_format_preference(available: Seq<Seq<char>>, bit: u32)
    ensures
        first_available(available, raw_candidates(bit)) == (if raw_choice(
            available,
            "BayerGB"@,
            bit,
        ) is Some {
            raw_choice(available, "BayerGB"@, bit)
        } else if raw_choice(available, "BayerGR"@, bit) is Some {
            raw_choice(available, "BayerGR"@, bit)
        } else if raw_choice(available, "BayerRG"@, bit) is Some {
            raw_choice(available, "BayerRG"@, bit)
        } else {
            raw_choice(available, "BayerBG"@, bit)
        }),
{
    let n0 = raw_names_for(raw_tags()[0], bit);
    let n1 = raw_names_for(raw_tags()[1], bit);
    let n2 = raw_names_for(raw_tags()[2], bit);
    let n3 = raw_names_for(raw_tags()[3], bit);
    lemma_first_available_concat(available, n0 + n1 + n2, n3);
    lemma_first_available_concat(available, n0 + n1, n2);
    lemma_first_available_concat(available, n0, n1);
    lemma_first_available_tag(available, raw_tags()[0], bit);
    lemma_first_available_tag(available, raw_tags()[1], bit);
    lemma_first_available_tag(available, raw_tags()[2], bit);
    lemma_first_available_tag(available, raw_tags()[3], bit);
}

/// The first available of two lists laid end to end: the first available of
/// the first list, else that of the second.
proof fn lemma_first_available_concat(available: Seq<Seq<char>>, a: Seq<Seq<char>>, b: Seq<Seq<char>>)
    ensures
        first_available(available, a + b) == (if first_available(available, a) is Some {
            first_available(available, a)
        } else {
            first_available(available, b)
        }),
    decreases a.len(),
{
    if a.len() == 0 {
        assert(a + b =~= b);
    } else {
        assert((a + b)[0] == a[0]);
        assert((a + b).drop_first() =~= a.drop_first() + b);
        lemma_first_available_concat(available, a.drop_first(), b);
    }
}

/// The first available RAW name of one tag is the tag's choice.
proof fn lemma_first_available_tag(available: Seq<Seq<char>>, tag: Seq<char>, bit: u32)
    ensures
        first_available(available, raw_names_for(tag, bit)) == raw_choice(available, tag, bit),
{
    let names = raw_names_for(tag, bit);
    if bit % 8 != 0 {
        assert(names.drop_first() =~= seq![tag + dec(bit as nat) + "Packed"@]);
        assert(names.drop_first().drop_first() =~= Seq::<Seq<char>>::empty());
    } else {
        assert(names.drop_first() =~= Seq::<Seq<char>>::empty());
    }
    reveal_with_fuel(first_available, 3);
}

/// The RAW names of the first `t` tags.
pub open spec fn names_up_to(bit: u32, t: nat) -> Seq<Seq<char>>
    decreases t,
{
    if t == 0 {
        Seq::<Seq<char>>::empty()
    } else {
        names_up_to(bit, (t - 1) as nat) + raw_names_for(raw_tags()[t - 1], bit)
    }
}

} // verus!
