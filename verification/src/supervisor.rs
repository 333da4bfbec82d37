//! The operations that the host shell calls: write, status, restart, and the
//! teardown at exit.
//!
//! Each operation is split at the point where the operating system has to
//! act. The functions here decide what is to be done and what the registry
//! holds afterwards; the caller writes, kills, waits and spawns.

use vstd::prelude::*;
use vstd::string::*;
use crate::error::SupervisorError;
use crate::forward::LINE_FEED;
use crate::registry::Registry;

verus! {

/// The bytes that a write of `text` sends: the text in UTF-8, then one line
/// feed.
pub open spec fn framed(text: Seq<char>) -> Seq<u8> {
    vstd::utf8::encode_utf8(text).push(LINE_FEED)
}

/// The bytes to send for `text`.
pub fn frame_line(text: &str) -> (r: Vec<u8>)
    ensures
        r@ == framed(text@),
{
    let mut bytes = text.as_bytes_vec();
    bytes.push(LINE_FEED);
    bytes
}

/// Whether the bridge counts as alive: a handle is registered.
pub fn status<H>(registry: &Registry<H>) -> (alive: bool)
    ensures
        alive == (registry@ is Some),
{
    registry.is_alive()
}

/// Prepares a write of `text`: the handle whose input is to be written and
/// the bytes to write and flush. With an empty registry the write fails with
/// `NoProcess`; the registry is read only.
pub fn write_request<'a, H>(registry: &'a Registry<H>, text: &str) -> (r: Result<
    (&'a H, Vec<u8>),
    SupervisorError,
>)
    ensures
        registry@ is None <==> r is Err,
        r is Err ==> r == Err::<(&'a H, Vec<u8>), SupervisorError>(SupervisorError::NoProcess),
        r matches Ok(request) ==> registry@ == Some(*request.0) && request.1@ == framed(text@),
{
    match registry.current() {
        Some(handle) => Ok((handle, frame_line(text))),
        None => Err(SupervisorError::NoProcess),
    }
}

/// The handle that a slot holds, as a sequence of none or one.
pub open spec fn held<H>(slot: Option<H>) -> Seq<H> {
    match slot {
        Some(handle) => seq![handle],
        None => Seq::empty(),
    }
}

/// The handle that a spawn produced, if it succeeded.
pub open spec fn produced<H>(spawned: Result<H, SupervisorError>) -> Option<H> {
    match spawned {
        Ok(handle) => Some(handle),
        Err(_) => None,
    }
}

/// One restart, on the slot and the handles retired so far: what the slot
/// held is retired, and the slot then holds what the spawn produced.
pub open spec fn restarted<H>(state: (Option<H>, Seq<H>), spawned: Option<H>) -> (
    Option<H>,
    Seq<H>,
) {
    (spawned, state.1 + held(state.0))
}

/// A series of restarts with the given spawn outcomes.
pub open spec fn restarted_all<H>(state: (Option<H>, Seq<H>), outcomes: Seq<Option<H>>) -> (
    Option<H>,
    Seq<H>,
)
    decreases outcomes.len(),
{
    if outcomes.len() == 0 {
        state
    } else {
        restarted(restarted_all(state, outcomes.drop_last()), outcomes.last())
    }
}

/// The handles that a series of spawns produced, in order.
pub open spec fn all_produced<H>(outcomes: Seq<Option<H>>) -> Seq<H>
    decreases outcomes.len(),
{
    if outcomes.len() == 0 {
        Seq::empty()
    } else {
        all_produced(outcomes.drop_last()) + held(outcomes.last())
    }
}

/// After any series of restarts the slot holds exactly what the last spawn
/// produced: the new handle after a success, nothing after a failure, never
/// a handle of an earlier process. No handle is lost: what the slot held at
/// first and every handle that a spawn produced is either retired, in the
/// order in which it came, or is the one that the slot holds.
pub proof fn lemma_restarts_keep_one<H>(slot: Option<H>, outcomes: Seq<Option<H>>)
    ensures
        outcomes.len() > 0 ==> restarted_all((slot, Seq::empty()), outcomes).0 == outcomes.last(),
        restarted_all((slot, Seq::empty()), outcomes).1 + held(
            restarted_all((slot, Seq::empty()), outcomes).0,
        ) == held(slot) + all_produced(outcomes),
    decreases outcomes.len(),
{
    let start = (slot, Seq::<H>::empty());
    if outcomes.len() == 0 {
        assert(start.1 + held(slot) =~= held(slot) + all_produced(outcomes));
    } else {
        let earlier = outcomes.drop_last();
        lemma_restarts_keep_one(slot, earlier);
        let before = restarted_all(start, earlier);
        assert((before.1 + held(before.0)) + held(outcomes.last()) =~= held(slot) + (all_produced(
            earlier,
        ) + held(outcomes.last())));
    }
}

/// First half of a restart: empties the registry and returns the old handle,
/// which the caller terminates and waits for before it spawns anew. Until
/// the second half the bridge counts as not alive.
pub fn begin_restart<H>(registry: &mut Registry<H>) -> (retired: Option<H>)
    ensures
        final(registry)@ is None,
        retired == old(registry)@,
{
    registry.take()
}

/// Second half of a restart: installs the newly spawned handle, or leaves
/// the registry empty and passes the spawn failure on.
pub fn finish_restart<H>(registry: &mut Registry<H>, spawned: Result<H, SupervisorError>) -> (r:
    Result<(), SupervisorError>)
    ensures
        final(registry)@ == produced(spawned),
        spawned is Ok <==> r is Ok,
        spawned matches Err(e) ==> r == Err::<(), SupervisorError>(e),
{
    match spawned {
        Ok(handle) => {
            registry.install(handle);
            Ok(())
        },
        Err(e) => {
            registry.take();
            Err(e)
        },
    }
}

/// What a teardown makes of a slot: the slot afterwards, which is empty, and
/// the handle handed out for termination, which is what the slot held.
pub open spec fn torn_down<H>(slot: Option<H>) -> (Option<H>, Option<H>) {
    (None, slot)
}

/// Teardown is idempotent: on an empty slot it changes nothing and hands out
/// nothing, so a second teardown after a first has no effect.
pub proof fn lemma_shutdown_idempotent<H>(slot: Option<H>)
    ensures
        torn_down::<H>(None) == (None::<H>, None::<H>),
        torn_down(torn_down(slot).0) == (torn_down(slot).0, None::<H>),
{
}

/// Teardown at exit: empties the registry and returns the handle, which the
/// caller kills and waits for, ignoring errors. On an empty registry this
/// does nothing and returns nothing.
pub fn shutdown<H>(registry: &mut Registry<H>) -> (last: Option<H>)
    ensures
        (final(registry)@, last) == torn_down(old(registry)@),
{
    registry.take()
}

} // verus!
