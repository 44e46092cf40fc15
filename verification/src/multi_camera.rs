//! The decisions of multi-camera operation: collecting the frames of all
//! cameras, telling healthy cameras from failed ones, and reporting errors of
//! batch operations.
//!
//! The caller keeps the cameras ordered by identifier, runs the camera calls
//! (in parallel where it wants) and hands their outcomes here in that order.
//! The error type `E` is the caller's: outcomes carry its errors unchanged.

use vstd::prelude::*;

use crate::error::CameraError;
use crate::frame::Frame;

verus! {

/// Outcomes of one operation per camera, in identifier order.
pub type Outcomes<T, E> = Vec<(String, Result<T, E>)>;

/// The frames of all cameras with their identifiers, in the given order, or
/// the error of the first camera (in that order) whose acquisition failed.
pub fn merge_frame_results<E>(results: Outcomes<Frame, E>) -> (r: Result<Vec<(String, Frame)>, E>)
    ensures
        r is Err <==> exists|i: int| 0 <= i < results@.len() && #[trigger] results@[i].1 is Err,
        r matches Err(e) ==> exists|i: int|
            0 <= i < results@.len() && results@[i].1 == Err::<Frame, E>(e) && forall|j: int|
                0 <= j < i ==> #[trigger] results@[j].1 is Ok,
        r matches Ok(v) ==> v@.len() == results@.len() && forall|i: int|
            0 <= i < v@.len() ==> #[trigger] v@[i].0 == results@[i].0 && results@[i].1 == Ok::<
                Frame,
                E,
            >(v@[i].1),
{
    let ghost orig = results@;
    let mut rest = results;
    let mut frames: Vec<(String, Frame)> = Vec::new();
    while rest.len() > 0
        invariant
            orig == results@,
            frames@.len() + rest@.len() == orig.len(),
            rest@ == orig.skip(frames@.len() as int),
            forall|i: int|
                0 <= i < frames@.len() ==> #[trigger] frames@[i].0 == orig[i].0 && orig[i].1 == Ok::<
                    Frame,
                    E,
                >(frames@[i].1),
        decreases rest@.len(),
    {
        let ghost k = frames@.len() as int;
        let (id, res) = rest.remove(0);
        assert(orig[k] == (id, res));
        assert(rest@ =~= orig.skip(k + 1));
        match res {
            Ok(f) => {
                frames.push((id, f));
            },
            Err(e) => {
                assert forall|j: int| 0 <= j < k implies #[trigger] orig[j].1 is Ok by {
                    assert(frames@[j].0 == orig[j].0);
                }
                assert(orig[k].1 == Err::<Frame, E>(e));
                assert(orig[k].1 is Err);
                return Err(e);
            },
        }
    }
    assert forall|i: int| 0 <= i < orig.len() implies !(#[trigger] orig[i].1 is Err) by {
        assert(frames@[i].0 == orig[i].0);
    }
    Ok(frames)
}

/// The outcomes of a first acquisition round split into the frames of the
/// cameras that delivered one and the identifiers of those that failed, both
/// in the given order.
pub fn split_first_round<E>(results: Outcomes<Frame, E>) -> (r: (Vec<(String, Frame)>, Vec<String>))
    ensures
        r.0@ == delivered(results@),
        r.1@ == failed_ids(results@),
{
    let ghost orig = results@;
    let mut rest = results;
    let total = rest.len();
    let mut frames: Vec<(String, Frame)> = Vec::new();
    let mut failed: Vec<String> = Vec::new();
    let mut k: usize = 0;
    while rest.len() > 0
        invariant
            total == orig.len(),
            k + rest@.len() == orig.len(),
            rest@ == orig.skip(k as int),
            frames@ == delivered(orig.take(k as int)),
            failed@ == failed_ids(orig.take(k as int)),
        decreases rest@.len(),
    {
        let (id, res) = rest.remove(0);
        assert(orig[k as int] == (id, res));
        assert(rest@ =~= orig.skip(k + 1));
        assert(orig.take(k + 1).drop_last() =~= orig.take(k as int));
        match res {
            Ok(f) => {
                frames.push((id, f));
            },
            Err(_) => {
                failed.push(id);
            },
        }
        k = k + 1;
    }
    assert(orig.take(k as int) =~= orig);
    (frames, failed)
}

/// What came of the second try of a camera that failed the first round.
pub enum Recovery<E> {
    /// Resetting the camera failed; it is left out.
    ResetFailed(E),
    /// The camera was reset and asked for a frame once more, with this outcome.
    Retried(Result<Frame, E>),
}

/// The frames after the second try of the failed camera `id`: unchanged when
/// its reset failed, with its frame added when the retry delivered one, and
/// the retry's error (which ends the round) when it failed again.
pub fn recover_step<E>(frames: Vec<(String, Frame)>, id: String, outcome: Recovery<E>) -> (r: Result<
    Vec<(String, Frame)>,
    E,
>)
    ensures
        outcome is ResetFailed ==> (r matches Ok(v) && v@ == frames@),
        outcome matches Recovery::Retried(Ok(f)) ==> (r matches Ok(v) && v@ == frames@.push((id, f))),
        outcome matches Recovery::Retried(Err(e)) ==> r == Err::<Vec<(String, Frame)>, E>(e),
{
    match outcome {
        Recovery::ResetFailed(_) => Ok(frames),
        Recovery::Retried(Ok(f)) => {
            let mut frames = frames;
            frames.push((id, f));
            Ok(frames)
        },
        Recovery::Retried(Err(e)) => Err(e),
    }
}

/// The frames of the outcomes that delivered one, in order.
pub open spec fn delivered<E>(rs: Seq<(String, Result<Frame, E>)>) -> Seq<(String, Frame)>
    decreases rs.len(),
{
    if rs.len() == 0 {
        Seq::empty()
    } else {
        let p = rs.last();
        match p.1 {
            Ok(f) => delivered(rs.drop_last()).push((p.0, f)),
            Err(_) => delivered(rs.drop_last()),
        }
    }
}

/// The identifiers of the outcomes that failed, in order.
pub open spec fn failed_ids<E>(rs: Seq<(String, Result<Frame, E>)>) -> Seq<String>
    decreases rs.len(),
{
    if rs.len() == 0 {
        Seq::empty()
    } else {
        let p = rs.last();
        match p.1 {
            Ok(_) => failed_ids(rs.drop_last()),
            Err(_) => failed_ids(rs.drop_last()).push(p.0),
        }
    }
}

/// The frame of an outcome that delivered one, with its identifier.
pub open spec fn frame_of<E>(p: (String, Result<Frame, E>)) -> Option<(String, Frame)> {
    match p.1 {
        Ok(f) => Some((p.0, f)),
        Err(_) => None,
    }
}

/// The identifier of an outcome that failed.
pub open spec fn failure_of<E>(p: (String, Result<Frame, E>)) -> Option<String> {
    match p.1 {
        Ok(_) => None,
        Err(_) => Some(p.0),
    }
}

/// Law: the first round accounts for every camera exactly once. The frames
/// kept are those of the successful outcomes, each with its identifier and in
/// the given order; the identifiers to retry are those of the failed outcomes,
/// in order; and the two together are as many as the outcomes.
pub proof fn law_first_round_partition<E>(rs: Seq<(String, Result<Frame, E>)>)
    ensures
        delivered(rs) == rs.filter_map(|p: (String, Result<Frame, E>)| frame_of(p)),
        failed_ids(rs) == rs.filter_map(|p: (String, Result<Frame, E>)| failure_of(p)),
        delivered(rs).len() + failed_ids(rs).len() == rs.len(),
    decreases rs.len(),
{
    if rs.len() > 0 {
        let init = rs.drop_last();
        law_first_round_partition(init);
        let p = rs.last();
        match p.1 {
            Ok(f) => {
                assert(delivered(init).push((p.0, f)) =~= init.filter_map(
                    |p: (String, Result<Frame, E>)| frame_of(p),
                ) + seq![(p.0, f)]);
            },
            Err(_) => {
                assert(failed_ids(init).push(p.0) =~= init.filter_map(
                    |p: (String, Result<Frame, E>)| failure_of(p),
                ) + seq![p.0]);
            },
        }
    }
}

/// The identifiers whose check gave `ok`, in order.
pub open spec fn ids_with(rs: Seq<(String, bool)>, ok: bool) -> Seq<String>
    decreases rs.len(),
{
    if rs.len() == 0 {
        Seq::empty()
    } else if rs.last().1 == ok {
        ids_with(rs.drop_last(), ok).push(rs.last().0)
    } else {
        ids_with(rs.drop_last(), ok)
    }
}

/// Health check results split into `(healthy, unhealthy)` identifiers, in order.
pub fn partition_health(results: Vec<(String, bool)>) -> (r: (Vec<String>, Vec<String>))
    ensures
        r.0@ == ids_with(results@, true),
        r.1@ == ids_with(results@, false),
{
    let ghost orig = results@;
    let mut rest = results;
    let total = rest.len();
    let mut healthy: Vec<String> = Vec::new();
    let mut unhealthy: Vec<String> = Vec::new();
    let mut k: usize = 0;
    while rest.len() > 0
        invariant
            total == orig.len(),
            k + rest@.len() == orig.len(),
            rest@ == orig.skip(k as int),
            healthy@ == ids_with(orig.take(k as int), true),
            unhealthy@ == ids_with(orig.take(k as int), false),
        decreases rest@.len(),
    {
        let (id, ok) = rest.remove(0);
        assert(orig[k as int] == (id, ok));
        assert(rest@ =~= orig.skip(k + 1));
        assert(orig.take(k + 1).drop_last() =~= orig.take(k as int));
        if ok {
            healthy.push(id);
        } else {
            unhealthy.push(id);
        }
        k = k + 1;
    }
    assert(orig.take(k as int) =~= orig);
    (healthy, unhealthy)
}

/// The error of a batch operation: the last error among the outcomes, or `Ok`.
pub open spec fn last_error<E>(rs: Seq<Result<(), E>>) -> Option<E>
    decreases rs.len(),
{
    if rs.len() == 0 {
        None
    } else {
        match rs.last() {
            Err(e) => Some(e),
            Ok(_) => last_error(rs.drop_last()),
        }
    }
}

/// The result of a batch operation over all cameras that goes on after
/// failures: the last error, or `Ok` when every camera succeeded.
pub fn batch_result<E>(results: Vec<Result<(), E>>) -> (r: Result<(), E>)
    ensures
        last_error(results@) matches Some(e) ==> r == Err::<(), E>(e),
        last_error(results@) is None ==> r is Ok,
{
    let ghost orig = results@;
    let mut rest = results;
    let total = rest.len();
    let mut last: Option<E> = None;
    let mut k: usize = 0;
    while rest.len() > 0
        invariant
            total == orig.len(),
            k + rest@.len() == orig.len(),
            rest@ == orig.skip(k as int),
            last == last_error(orig.take(k as int)),
        decreases rest@.len(),
    {
        let res = rest.remove(0);
        assert(orig[k as int] == res);
        assert(rest@ =~= orig.skip(k + 1));
        assert(orig.take(k + 1).drop_last() =~= orig.take(k as int));
        match res {
            Err(e) => {
                last = Some(e);
            },
            Ok(_) => {},
        }
        k = k + 1;
    }
    assert(orig.take(k as int) =~= orig);
    match last {
        Some(e) => Err(e),
        None => Ok(()),
    }
}

/// `NoCameraFound` when discovery found no camera, `Ok` otherwise.
pub fn check_discovered(ids: &Vec<String>) -> (r: Result<(), CameraError>)
    ensures
        ids@.len() == 0 ==> r matches Err(CameraError::NoCameraFound),
        ids@.len() > 0 ==> r is Ok,
{
    if ids.len() == 0 {
        Err(CameraError::NoCameraFound)
    } else {
        Ok(())
    }
}

} // verus!
