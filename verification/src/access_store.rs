//! Stored pairing state: the shared pairing token, the device registry and the blocklist.

use crate::devices::{Device, DeviceEntry};
use crate::{devices, text};
use vstd::prelude::*;

verus! {

/// Name of the pairing-state file in the data directory.
pub const FILENAME: &'static str = "vlx-web-access.json";

/// Pairing state as it is stored.
pub struct PersistedAccess {
    /// Shared admission token embedded in pairing links.
    pub pairing_token: String,
    /// Blocked device identifiers.
    pub blocked_devices: Vec<String>,
    /// Display registry of the devices that clients reported.
    pub devices: Vec<DeviceEntry>,
}

/// Stored pairing state by its texts.
#[verifier::ext_equal]
pub struct Access {
    pub pairing_token: Seq<char>,
    pub blocked_devices: Seq<Seq<char>>,
    pub devices: Seq<Device>,
}

/// A list of texts by their characters.
pub open spec fn texts_view(texts: Seq<String>) -> Seq<Seq<char>> {
    texts.map_values(|s: String| s@)
}

impl View for PersistedAccess {
    type V = Access;

    open spec fn view(&self) -> Access {
        Access {
            pairing_token: self.pairing_token@,
            blocked_devices: texts_view(self.blocked_devices@),
            devices: devices::devices_view(self.devices@),
        }
    }
}

/// Optional pairing state by its texts.
pub open spec fn stored_view(stored: Option<PersistedAccess>) -> Option<Access> {
    match stored {
        Some(access) => Some(access@),
        None => None,
    }
}

/// What a file that holds this gives back: all of it, unless its token is blank.
pub open spec fn loaded(disk: Option<Access>) -> Option<Access> {
    match disk {
        Some(access) if !text::blank(access.pairing_token) => Some(access),
        _ => None,
    }
}

/// Accept stored pairing state; nothing when there is none or its token is blank. Callers then
/// create a fresh token and store it.
pub fn load(stored: Option<PersistedAccess>) -> (r: Option<PersistedAccess>)
    ensures
        r == match stored {
            Some(access) if !text::blank(access.pairing_token@) => Some(access),
            _ => None,
        },
        stored_view(r) == loaded(stored_view(stored)),
{
    match stored {
        Some(access) => {
            proof {
                text::lemma_trimmed(access.pairing_token@);
            }
            if access.pairing_token.as_str().trim().is_empty() {
                None
            } else {
                Some(access)
            }
        },
        None => None,
    }
}

/// Name of the file that is written before it replaces the pairing-state file.
pub fn temp_file_name() -> (r: String)
    ensures
        r@ == FILENAME@ + ".tmp"@,
{
    let mut name = FILENAME.to_owned();
    name.append(".tmp");
    name
}

/// What to do next to store pairing state.
pub enum SaveStep {
    /// Turn the state into text.
    Serialize,
    /// Write the text to the temporary file, readable by its owner alone from the moment it is
    /// created.
    WriteTemp,
    /// Rename the temporary file over the pairing-state file.
    Replace,
    /// Report this result.
    Finished(Result<(), String>),
}

/// A step of storing, with its texts by their characters.
pub enum Step {
    Serialize,
    WriteTemp,
    Replace,
    Finished(Result<(), Seq<char>>),
}

impl View for SaveStep {
    type V = Step;

    open spec fn view(&self) -> Step {
        match self {
            SaveStep::Serialize => Step::Serialize,
            SaveStep::WriteTemp => Step::WriteTemp,
            SaveStep::Replace => Step::Replace,
            SaveStep::Finished(Ok(_)) => Step::Finished(Ok(())),
            SaveStep::Finished(Err(text)) => Step::Finished(Err(text@)),
        }
    }
}

/// The outcome of a step, its error by the text's characters.
pub open spec fn outcome_view(outcome: Result<(), String>) -> Result<(), Seq<char>> {
    match outcome {
        Ok(_) => Ok(()),
        Err(e) => Err(e@),
    }
}

/// The step after `step` came out as `outcome`: each success leads to the next step, and each
/// failure ends the sequence with a text that says which step failed.
pub open spec fn next_step(step: Step, outcome: Result<(), Seq<char>>) -> Step {
    match (step, outcome) {
        (Step::Serialize, Ok(_)) => Step::WriteTemp,
        (Step::Serialize, Err(e)) => Step::Finished(
            Err("failed to serialize remote-access state: "@ + e),
        ),
        (Step::WriteTemp, Ok(_)) => Step::Replace,
        (Step::WriteTemp, Err(e)) => Step::Finished(
            Err("failed to write remote-access state: "@ + e),
        ),
        (Step::Replace, Ok(_)) => Step::Finished(Ok(())),
        (Step::Replace, Err(e)) => Step::Finished(
            Err("failed to persist remote-access state: "@ + e),
        ),
        (Step::Finished(r), _) => Step::Finished(r),
    }
}

fn failed(prefix: &str, e: String) -> (r: SaveStep)
    ensures
        r@ == Step::Finished(Err(prefix@ + e@)),
{
    let mut text = prefix.to_owned();
    text.append(e.as_str());
    SaveStep::Finished(Err(text))
}

/// Decide how storing goes on once `step` came out as `outcome`.
pub fn save(step: SaveStep, outcome: Result<(), String>) -> (r: SaveStep)
    ensures
        r@ == next_step(step@, outcome_view(outcome)),
{
    match step {
        SaveStep::Serialize => match outcome {
            Ok(_) => SaveStep::WriteTemp,
            Err(e) => failed("failed to serialize remote-access state: ", e),
        },
        SaveStep::WriteTemp => match outcome {
            Ok(_) => SaveStep::Replace,
            Err(e) => failed("failed to write remote-access state: ", e),
        },
        SaveStep::Replace => match outcome {
            Ok(_) => SaveStep::Finished(Ok(())),
            Err(e) => failed("failed to persist remote-access state: ", e),
        },
        SaveStep::Finished(r) => SaveStep::Finished(r),
    }
}

/// A step that fails ends the sequence with a text that names the step and ends with the reason,
/// and the step that comes next depends on the one that succeeded alone. What was reported is not
/// taken back.
pub proof fn law_failures_say_which_step_and_why(
    e: Seq<char>,
    reported: Result<(), Seq<char>>,
    outcome: Result<(), Seq<char>>,
)
    ensures
        next_step(Step::Serialize, Ok(())) is WriteTemp,
        next_step(Step::WriteTemp, Ok(())) is Replace,
        next_step(Step::Replace, Ok(())) == Step::Finished(Ok(())),
        next_step(Step::Serialize, Err(e)) == Step::Finished(
            Err("failed to serialize remote-access state: "@ + e),
        ),
        next_step(Step::WriteTemp, Err(e)) == Step::Finished(
            Err("failed to write remote-access state: "@ + e),
        ),
        next_step(Step::Replace, Err(e)) == Step::Finished(
            Err("failed to persist remote-access state: "@ + e),
        ),
        next_step(Step::Finished(reported), outcome) == Step::Finished(reported),
{
}

/// What a file gives back is what it holds, all of it, exactly when its token is not blank.
pub proof fn law_loading_changes_nothing(access: Access)
    ensures
        loaded(Some(access)) is Some <==> !text::blank(access.pairing_token),
        loaded(Some(access)) matches Some(r) ==> r == access,
        loaded(None) is None,
{
}

/// The step that is reached after these outcomes, from the start.
pub open spec fn after(outcomes: Seq<Result<(), Seq<char>>>) -> Step
    decreases outcomes.len(),
{
    if outcomes.len() == 0 {
        Step::Serialize
    } else {
        next_step(after(outcomes.drop_last()), outcomes.last())
    }
}

/// The pairing-state file is replaced only once its new contents have been serialized and written
/// in full to the temporary file, and success is reported only after the replacement.
pub proof fn law_replace_only_after_complete_write(outcomes: Seq<Result<(), Seq<char>>>)
    ensures
        after(outcomes) is Replace <==> outcomes.len() == 2 && outcomes[0] is Ok
            && outcomes[1] is Ok,
        after(outcomes) == Step::Finished(Ok(())) <==> outcomes.len() >= 3 && outcomes[0] is Ok
            && outcomes[1] is Ok && outcomes[2] is Ok,
    decreases outcomes.len(),
{
    reveal_with_fuel(after, 4);
    if outcomes.len() > 3 {
        law_replace_only_after_complete_write(outcomes.drop_last());
        lemma_finished_after_three(outcomes.drop_last());
    }
}

/// From the third outcome on, storing is finished.
proof fn lemma_finished_after_three(outcomes: Seq<Result<(), Seq<char>>>)
    requires
        outcomes.len() >= 3,
    ensures
        after(outcomes) is Finished,
    decreases outcomes.len(),
{
    reveal_with_fuel(after, 4);
    if outcomes.len() > 3 {
        lemma_finished_after_three(outcomes.drop_last());
    }
}

/// What the pairing-state file holds while `access` is being stored and its steps have come out
/// like this. Renaming is atomic, so the file changes when `Replace` comes out well and at no
/// other step; a sequence that stops early stands for an interruption.
pub open spec fn disk_after(
    disk: Option<Access>,
    access: Access,
    outcomes: Seq<Result<(), Seq<char>>>,
) -> Option<Access>
    decreases outcomes.len(),
{
    if outcomes.len() == 0 {
        disk
    } else if after(outcomes.drop_last()) is Replace && outcomes.last() is Ok {
        Some(access)
    } else {
        disk_after(disk, access, outcomes.drop_last())
    }
}

/// Storing reports success after these outcomes.
pub open spec fn reports_success(outcomes: Seq<Result<(), Seq<char>>>) -> bool {
    after(outcomes) == Step::Finished(Ok(()))
}

/// The file holds the new state exactly when all three steps came out well, which is when success
/// is reported. A failure or an interruption at any step leaves the old contents whole.
pub proof fn law_failed_save_leaves_the_file_whole(
    disk: Option<Access>,
    access: Access,
    outcomes: Seq<Result<(), Seq<char>>>,
)
    ensures
        reports_success(outcomes) <==> outcomes.len() >= 3 && outcomes[0] is Ok && outcomes[1] is Ok
            && outcomes[2] is Ok,
        disk_after(disk, access, outcomes) == if reports_success(outcomes) {
            Some(access)
        } else {
            disk
        },
    decreases outcomes.len(),
{
    law_replace_only_after_complete_write(outcomes);
    if outcomes.len() > 0 {
        let earlier = outcomes.drop_last();
        law_replace_only_after_complete_write(earlier);
        law_failed_save_leaves_the_file_whole(disk, access, earlier);
    }
}

/// An attempt to store pairing state, with the outcomes of the steps that were taken.
pub struct Attempt {
    pub access: Access,
    pub outcomes: Seq<Result<(), Seq<char>>>,
}

/// What the file holds after these attempts, one after the other.
pub open spec fn disk_after_attempts(disk: Option<Access>, attempts: Seq<Attempt>) -> Option<Access>
    decreases attempts.len(),
{
    if attempts.len() == 0 {
        disk
    } else {
        disk_after(
            disk_after_attempts(disk, attempts.drop_last()),
            attempts.last().access,
            attempts.last().outcomes,
        )
    }
}

/// The attempt at `last` succeeded, and none after it did.
pub open spec fn is_last_success(attempts: Seq<Attempt>, last: int) -> bool {
    &&& 0 <= last < attempts.len()
    &&& reports_success(attempts[last].outcomes)
    &&& forall|i: int|
        last < i < attempts.len() ==> !reports_success((#[trigger] attempts[i]).outcomes)
}

/// After any number of attempts, loading gives back the state that was last stored with success,
/// every field of it and nothing of any other attempt; nothing when its token is blank.
pub proof fn law_load_gives_back_the_last_success(
    disk: Option<Access>,
    attempts: Seq<Attempt>,
    last: int,
)
    requires
        is_last_success(attempts, last),
    ensures
        disk_after_attempts(disk, attempts) == Some(attempts[last].access),
        loaded(disk_after_attempts(disk, attempts)) == if text::blank(
            attempts[last].access.pairing_token,
        ) {
            None
        } else {
            Some(attempts[last].access)
        },
    decreases attempts.len(),
{
    let earlier = attempts.drop_last();
    let attempt = attempts.last();
    assert(attempt == attempts[attempts.len() - 1]);
    law_failed_save_leaves_the_file_whole(
        disk_after_attempts(disk, earlier),
        attempt.access,
        attempt.outcomes,
    );
    if last < attempts.len() - 1 {
        assert(earlier[last] == attempts[last]);
        assert forall|i: int| last < i < earlier.len() implies !reports_success(
            (#[trigger] earlier[i]).outcomes,
        ) by {
            assert(earlier[i] == attempts[i]);
        }
        law_load_gives_back_the_last_success(disk, earlier, last);
    }
}

/// While no attempt succeeds, the file holds what it held before.
pub proof fn law_failed_attempts_change_nothing(disk: Option<Access>, attempts: Seq<Attempt>)
    requires
        forall|i: int|
            0 <= i < attempts.len() ==> !reports_success((#[trigger] attempts[i]).outcomes),
    ensures
        disk_after_attempts(disk, attempts) == disk,
    decreases attempts.len(),
{
    if attempts.len() > 0 {
        let earlier = attempts.drop_last();
        let attempt = attempts.last();
        assert(attempt == attempts[attempts.len() - 1]);
        law_failed_save_leaves_the_file_whole(disk, attempt.access, attempt.outcomes);
        assert forall|i: int| 0 <= i < earlier.len() implies !reports_success(
            (#[trigger] earlier[i]).outcomes,
        ) by {
            assert(earlier[i] == attempts[i]);
        }
        law_failed_attempts_change_nothing(disk, earlier);
    }
}

} // verus!
