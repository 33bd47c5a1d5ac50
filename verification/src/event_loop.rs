//! The bookkeeping of the prover-job event loop: which jobs are in flight,
//! which identifier the next one gets, and what each message that reaches the
//! loop leads to. Waiting, spawning and sending are the caller's part; here
//! each message becomes a change of the job table and one thing to do.

use crate::ethereum::B256;
use crate::mpt::{ContractStorage, StorageSlot, VerifiedContractStorageSlot};
use crate::text::{decimal_digits, push_decimal, u64_to_decimal};
use std::collections::HashMap;
use vstd::prelude::*;
use vstd::string::StringExecFns;

verus! {

broadcast use vstd::std_specs::hash::group_hash_axioms;

/// A hint to the finality detector: a job is in flight that will end at this
/// slot with this store hash.
#[derive(Clone, Copy, Debug, PartialEq, Eq)]
pub struct FinalityChangeDetectorUpdate {
    pub slot: u64,
    pub store_hash: B256,
}

/// What a proof is asked over: the contract storage to verify, and the window
/// that the proof is expected to end at.
#[derive(Clone, Debug, PartialEq, Eq)]
pub struct ProofInputsWithWindow {
    pub contract_storage: ContractStorage,
    pub expected_output_slot: u64,
    pub expected_output_store_hash: B256,
}

/// A job in flight: what it was asked over, and when it was staged, in
/// milliseconds of the caller's clock.
#[derive(Clone, Debug, PartialEq, Eq)]
pub struct ProverJob {
    pub inputs_with_window: ProofInputsWithWindow,
    pub start_time: u64,
}

/// The failure of a prover job.
#[derive(Clone, Debug, PartialEq, Eq)]
pub struct ProverJobError {
    pub job_id: u64,
    pub error: String,
}

/// The public outputs of a finished proof.
#[derive(Clone, Copy, Debug, PartialEq, Eq)]
pub struct ProofOutputs {
    pub input_slot: u64,
    pub input_block_number: u64,
    pub input_store_hash: B256,
    pub output_slot: u64,
    pub output_block_number: u64,
    pub output_store_hash: B256,
    pub next_sync_committee_hash: B256,
    pub execution_state_root: B256,
}

/// What leaves the loop when a job has succeeded.
#[derive(Clone, Debug, PartialEq, Eq)]
pub struct ProofMessage {
    pub input_slot: u64,
    pub input_block_number: u64,
    pub input_store_hash: B256,
    pub output_slot: u64,
    pub output_block_number: u64,
    pub output_store_hash: B256,
    /// The proof, as the prover gave it.
    pub proof: Vec<u8>,
    pub execution_state_root: B256,
    /// The job's storage slots, in their order, without their proofs.
    pub contract_storage_slots: Vec<VerifiedContractStorageSlot>,
    /// The time from staging to success, in milliseconds.
    pub elapsed_millis: u64,
}

/// What staging a job asks the caller to do: start the prover on the job, and
/// send the update to the finality detector.
#[derive(Clone, Copy, Debug, PartialEq, Eq)]
pub struct StagedJob {
    /// The identifier that the job got.
    pub job_id: u64,
    /// The finalized slot that the prover starts from.
    pub current_slot: u64,
    /// The one message for the finality detector.
    pub update: FinalityChangeDetectorUpdate,
}

/// What is reported of a job that failed.
#[derive(Clone, Debug, PartialEq, Eq)]
pub struct JobFailure {
    pub job_id: u64,
    /// The time from staging to failure, in milliseconds.
    pub elapsed_millis: u64,
    /// `Job '<id>' failed with error: <detail>`.
    pub message: String,
}

/// A message that reaches the loop.
#[derive(Debug, PartialEq, Eq)]
pub enum LoopEvent {
    /// The finality detector has a new window to prove.
    FinalityAdvanced(ProofInputsWithWindow),
    /// A prover job came back with a proof. `outputs` holds the proof's public
    /// outputs, or why they could not be decoded.
    JobSucceeded { job_id: u64, proof: Vec<u8>, outputs: Result<ProofOutputs, String> },
    /// A prover job came back with an error.
    JobFailed(ProverJobError),
}

/// What the loop asks the caller to do after a message.
#[derive(Clone, Debug, PartialEq, Eq)]
pub enum LoopAction {
    Stage(StagedJob),
    Publish(ProofMessage),
    Report(JobFailure),
}

/// Why the loop cannot go on.
#[derive(Clone, Debug, PartialEq, Eq)]
pub enum LoopError {
    /// A result came in for a job that is not in the table.
    JobNotFound { job_id: u64 },
    /// The public outputs of a proof could not be decoded.
    OutputsNotDecoded { job_id: u64, reason: String },
    /// Every job identifier has been given out.
    JobIdsExhausted,
}

/// The storage slots of a job, each without its proof.
pub open spec fn verified_slots(slots: Seq<StorageSlot>) -> Seq<VerifiedContractStorageSlot> {
    Seq::new(
        slots.len(),
        |i: int|
            VerifiedContractStorageSlot {
                slot_key_address: slots[i].slot_key_address,
                value: slots[i].expected_value,
            },
    )
}

/// The storage slots of a job, each without its proof.
pub fn project_storage_slots(slots: &Vec<StorageSlot>) -> (projected: Vec<
    VerifiedContractStorageSlot,
>)
    ensures
        projected@ == verified_slots(slots@),
{
    let mut projected: Vec<VerifiedContractStorageSlot> = Vec::with_capacity(slots.len());
    let mut i: usize = 0;
    while i < slots.len()
        invariant
            i <= slots.len(),
            projected@.len() == i,
            forall|j: int| 0 <= j < i ==> projected@[j] == verified_slots(slots@)[j],
        decreases slots.len() - i,
    {
        let slot = &slots[i];
        projected.push(
            VerifiedContractStorageSlot {
                slot_key_address: slot.slot_key_address,
                value: slot.expected_value,
            },
        );
        i = i + 1;
    }
    assert(projected@ =~= verified_slots(slots@));
    projected
}

/// The time from `start` to `now`; none where the clock went back.
pub open spec fn elapsed(start: u64, now: u64) -> u64 {
    if now >= start {
        (now - start) as u64
    } else {
        0
    }
}

/// What the loop holds.
#[verifier::ext_equal]
pub struct LoopView {
    /// The finalized slot that proofs start from.
    pub current_slot: u64,
    /// The store hash at that slot.
    pub store_hash: B256,
    /// The identifier that was given out last; 0 before the first.
    pub job_id: u64,
    /// The jobs in flight, by identifier.
    pub prover_jobs: Map<u64, ProverJob>,
}

impl LoopView {
    /// The loop before its first job.
    pub open spec fn initial(current_slot: u64, store_hash: B256) -> LoopView {
        LoopView { current_slot, store_hash, job_id: 0, prover_jobs: Map::empty() }
    }

    /// Every job in flight has an identifier that was given out.
    pub open spec fn well_formed(self) -> bool {
        forall|id: u64| self.prover_jobs.contains_key(id) ==> 1 <= id <= self.job_id
    }

    /// The identifier that the next job gets.
    pub open spec fn next_job_id(self) -> u64 {
        (self.job_id + 1) as u64
    }

    /// The loop after a job over `inputs` was staged at `now`.
    pub open spec fn stage(self, inputs: ProofInputsWithWindow, now: u64) -> LoopView {
        LoopView {
            job_id: self.next_job_id(),
            prover_jobs: self.prover_jobs.insert(
                self.next_job_id(),
                ProverJob { inputs_with_window: inputs, start_time: now },
            ),
            ..self
        }
    }

    /// What staging a job over `inputs` asks the caller to do.
    pub open spec fn staged(self, inputs: ProofInputsWithWindow) -> StagedJob {
        StagedJob {
            job_id: self.next_job_id(),
            current_slot: self.current_slot,
            update: FinalityChangeDetectorUpdate {
                slot: inputs.expected_output_slot,
                store_hash: inputs.expected_output_store_hash,
            },
        }
    }

    /// The loop after the job `job_id` reached its end.
    pub open spec fn finish(self, job_id: u64) -> LoopView {
        LoopView { prover_jobs: self.prover_jobs.remove(job_id), ..self }
    }
}

impl LoopView {
    /// The loop after jobs over `inputs` were staged one after the other, the
    /// job over `inputs[i]` at the time `times[i]`.
    pub open spec fn stage_each(self, inputs: Seq<ProofInputsWithWindow>, times: Seq<u64>)
        -> LoopView
        decreases inputs.len(),
    {
        if inputs.len() == 0 {
            self
        } else {
            self.stage_each(inputs.drop_last(), times.drop_last()).stage(
                inputs.last(),
                times.last(),
            )
        }
    }

    /// Staging gives out an identifier that no job in the table has and that
    /// is above every identifier given out before, and leaves the jobs that
    /// were in the table as they were.
    pub proof fn lemma_stage_gives_fresh_id(self, inputs: ProofInputsWithWindow, now: u64)
        requires
            self.well_formed(),
            self.job_id < u64::MAX,
        ensures
            self.stage(inputs, now).well_formed(),
            self.staged(inputs).job_id == self.job_id + 1,
            !self.prover_jobs.contains_key(self.staged(inputs).job_id),
            self.stage(inputs, now).prover_jobs.contains_key(self.staged(inputs).job_id),
            forall|id: u64|
                self.prover_jobs.contains_key(id) ==> self.stage(inputs, now).prover_jobs[id]
                    == self.prover_jobs[id],
    {
    }

    /// A job that reached its end is out of the table and stays out: neither
    /// a later staging nor the end of any job brings its identifier back. So
    /// a job leaves the table once.
    pub proof fn lemma_finished_job_stays_out(
        self,
        job_id: u64,
        inputs: ProofInputsWithWindow,
        now: u64,
        other: u64,
    )
        requires
            self.well_formed(),
            self.prover_jobs.contains_key(job_id),
        ensures
            self.finish(job_id).well_formed(),
            !self.finish(job_id).prover_jobs.contains_key(job_id),
            self.job_id < u64::MAX ==> !self.finish(job_id).stage(
                inputs,
                now,
            ).prover_jobs.contains_key(job_id),
            !self.finish(job_id).finish(other).prover_jobs.contains_key(job_id),
    {
    }

    /// Jobs get the identifiers 1, 2, 3 and so on, in the order in which they
    /// are staged: after `i` jobs were staged in a new loop, the next job
    /// gets the identifier `i + 1`, and the jobs in the table are those with
    /// the identifiers 1 to `i`.
    pub proof fn lemma_job_ids_count_up(
        current_slot: u64,
        store_hash: B256,
        inputs: Seq<ProofInputsWithWindow>,
        times: Seq<u64>,
        next: ProofInputsWithWindow,
    )
        requires
            inputs.len() == times.len(),
            inputs.len() < u64::MAX,
        ensures
            ({
                let staged_all = LoopView::initial(current_slot, store_hash).stage_each(
                    inputs,
                    times,
                );
                &&& staged_all.well_formed()
                &&& staged_all.job_id == inputs.len()
                &&& staged_all.staged(next).job_id == inputs.len() + 1
                &&& forall|id: u64|
                    staged_all.prover_jobs.contains_key(id) <==> 1 <= id <= inputs.len()
            }),
        decreases inputs.len(),
    {
        if inputs.len() > 0 {
            Self::lemma_job_ids_count_up(
                current_slot,
                store_hash,
                inputs.drop_last(),
                times.drop_last(),
                inputs.last(),
            );
        }
    }
}

/// Whether `message` is what leaves the loop when `job` succeeds at `now`
/// with `proof` and its decoded `outputs`.
pub open spec fn is_proof_message(
    message: ProofMessage,
    job: ProverJob,
    proof: Seq<u8>,
    outputs: ProofOutputs,
    now: u64,
) -> bool {
    &&& message.input_slot == outputs.input_slot
    &&& message.input_block_number == outputs.input_block_number
    &&& message.input_store_hash == outputs.input_store_hash
    &&& message.output_slot == outputs.output_slot
    &&& message.output_block_number == outputs.output_block_number
    &&& message.output_store_hash == outputs.output_store_hash
    &&& message.proof@ == proof
    &&& message.execution_state_root == outputs.execution_state_root
    &&& message.contract_storage_slots@ == verified_slots(
        job.inputs_with_window.contract_storage.storage_slots@,
    )
    &&& message.elapsed_millis == elapsed(job.start_time, now)
}

/// The text `Prover job <id> failed: <error>`.
pub open spec fn prover_job_error_text(job_id: u64, error: Seq<char>) -> Seq<char> {
    "Prover job "@ + decimal_digits(job_id as nat) + " failed: "@ + error
}

/// The text `Job '<id>' failed with error: <detail>`, where the detail is the
/// text of the job's error.
pub open spec fn job_failure_text(job_id: u64, error: Seq<char>) -> Seq<char> {
    "Job '"@ + decimal_digits(job_id as nat) + "' failed with error: "@ + prover_job_error_text(
        job_id,
        error,
    )
}

/// Whether `result` and `after` are what the success of the job `job_id` at
/// `now` leads to from `before`. A job that is not in the table changes
/// nothing and is an error. A job in the table leaves it, whatever follows;
/// then outputs that were not decoded are an error, and decoded outputs give
/// the proof message.
pub open spec fn success_outcome(
    before: LoopView,
    after: LoopView,
    job_id: u64,
    proof: Seq<u8>,
    outputs: Result<ProofOutputs, String>,
    now: u64,
    result: Result<ProofMessage, LoopError>,
) -> bool {
    if !before.prover_jobs.contains_key(job_id) {
        after == before && result == Err::<ProofMessage, LoopError>(
            LoopError::JobNotFound { job_id },
        )
    } else {
        &&& after == before.finish(job_id)
        &&& match outputs {
            Err(reason) => result == Err::<ProofMessage, LoopError>(
                LoopError::OutputsNotDecoded { job_id, reason },
            ),
            Ok(decoded) => result is Ok && is_proof_message(
                result->Ok_0,
                before.prover_jobs[job_id],
                proof,
                decoded,
                now,
            ),
        }
    }
}

/// Whether `result` and `after` are what the failure `error` of a job at `now`
/// leads to from `before`. A job that is not in the table changes nothing and
/// is an error. A job in the table leaves it and is reported.
pub open spec fn failure_outcome(
    before: LoopView,
    after: LoopView,
    error: ProverJobError,
    now: u64,
    result: Result<JobFailure, LoopError>,
) -> bool {
    if !before.prover_jobs.contains_key(error.job_id) {
        after == before && result == Err::<JobFailure, LoopError>(
            LoopError::JobNotFound { job_id: error.job_id },
        )
    } else {
        &&& after == before.finish(error.job_id)
        &&& result is Ok
        &&& result->Ok_0.job_id == error.job_id
        &&& result->Ok_0.elapsed_millis == elapsed(
            before.prover_jobs[error.job_id].start_time,
            now,
        )
        &&& result->Ok_0.message@ == job_failure_text(error.job_id, error.error@)
    }
}

impl ProverJobError {
    /// The error as a line of text: `Prover job <id> failed: <error>`.
    pub fn message(&self) -> (text: String)
        ensures
            text@ == prover_job_error_text(self.job_id, self.error@),
    {
        let mut text = String::new();
        text.append("Prover job ");
        text.append(u64_to_decimal(self.job_id).as_str());
        text.append(" failed: ");
        text.append(self.error.as_str());
        text
    }
}

/// The prover-job event loop's state: the finalized head, the counter of job
/// identifiers and the table of the jobs in flight.
pub struct EventLoop {
    current_slot: u64,
    store_hash: B256,
    job_id: u64,
    prover_jobs: HashMap<u64, ProverJob>,
}

impl View for EventLoop {
    type V = LoopView;

    closed spec fn view(&self) -> LoopView {
        LoopView {
            current_slot: self.current_slot,
            store_hash: self.store_hash,
            job_id: self.job_id,
            prover_jobs: self.prover_jobs@,
        }
    }
}

impl EventLoop {
    /// Whether every job in the table has an identifier that was given out.
    /// It holds of a new loop, and every method keeps it.
    pub open spec fn well_formed(&self) -> bool {
        self@.well_formed()
    }

    /// The loop at the finalized head that was fetched at the start: no job
    /// has been staged, and the first will get the identifier 1.
    pub fn new(current_slot: u64, store_hash: B256) -> (event_loop: EventLoop)
        ensures
            event_loop@ == LoopView::initial(current_slot, store_hash),
            event_loop.well_formed(),
    {
        let event_loop = EventLoop {
            current_slot,
            store_hash,
            job_id: 0,
            prover_jobs: HashMap::new(),
        };
        assert(event_loop@ =~= LoopView::initial(current_slot, store_hash));
        event_loop
    }

    /// The finalized slot that proofs start from.
    pub fn current_slot(&self) -> (slot: u64)
        ensures
            slot == self@.current_slot,
    {
        self.current_slot
    }

    /// The store hash at the finalized slot.
    pub fn store_hash(&self) -> (hash: B256)
        ensures
            hash == self@.store_hash,
    {
        self.store_hash
    }

    /// The job identifier that was given out last; 0 before the first.
    pub fn job_id(&self) -> (id: u64)
        ensures
            id == self@.job_id,
    {
        self.job_id
    }

    /// The number of jobs in flight.
    pub fn jobs_in_flight(&self) -> (n: usize)
        ensures
            n == self@.prover_jobs.len(),
    {
        self.prover_jobs.len()
    }

    /// Whether the job `job_id` is in flight.
    pub fn has_job(&self, job_id: u64) -> (present: bool)
        ensures
            present == self@.prover_jobs.contains_key(job_id),
    {
        self.prover_jobs.contains_key(&job_id)
    }

    /// Stages a job over `inputs` at the time `now`. The job gets the next
    /// identifier and enters the table. The caller is to start the prover on
    /// it and to send the finality detector the one update that names the
    /// window in which the job is expected to end.
    pub fn stage_transition_proof(&mut self, inputs: ProofInputsWithWindow, now: u64) -> (staged:
        StagedJob)
        requires
            old(self).well_formed(),
            old(self)@.job_id < u64::MAX,
        ensures
            final(self).well_formed(),
            final(self)@ == old(self)@.stage(inputs, now),
            staged == old(self)@.staged(inputs),
            !old(self)@.prover_jobs.contains_key(staged.job_id),
    {
        let job_id: u64 = self.job_id + 1;
        let staged = StagedJob {
            job_id,
            current_slot: self.current_slot,
            update: FinalityChangeDetectorUpdate {
                slot: inputs.expected_output_slot,
                store_hash: inputs.expected_output_store_hash,
            },
        };
        self.job_id = job_id;
        self.prover_jobs.insert(job_id, ProverJob { inputs_with_window: inputs, start_time: now });
        assert(self@ =~= old(self)@.stage(inputs, now));
        staged
    }

    /// Takes the success of the job `job_id`, which came at `now` with
    /// `proof` and the proof's public `outputs`, decoded or not. The job
    /// leaves the table; its storage slots go into the message without their
    /// proofs.
    pub fn handle_prover_success(
        &mut self,
        job_id: u64,
        proof: Vec<u8>,
        outputs: Result<ProofOutputs, String>,
        now: u64,
    ) -> (result: Result<ProofMessage, LoopError>)
        requires
            old(self).well_formed(),
        ensures
            final(self).well_formed(),
            success_outcome(old(self)@, final(self)@, job_id, proof@, outputs, now, result),
    {
        let job = match self.prover_jobs.remove(&job_id) {
            None => {
                assert(self@ =~= old(self)@);
                return Err(LoopError::JobNotFound { job_id });
            },
            Some(job) => job,
        };
        assert(self@ =~= old(self)@.finish(job_id));
        let elapsed_millis = if now >= job.start_time {
            now - job.start_time
        } else {
            0
        };
        let proof_outputs = match outputs {
            Err(reason) => {
                return Err(LoopError::OutputsNotDecoded { job_id, reason });
            },
            Ok(proof_outputs) => proof_outputs,
        };
        let contract_storage_slots = project_storage_slots(
            &job.inputs_with_window.contract_storage.storage_slots,
        );
        Ok(
            ProofMessage {
                input_slot: proof_outputs.input_slot,
                input_block_number: proof_outputs.input_block_number,
                input_store_hash: proof_outputs.input_store_hash,
                output_slot: proof_outputs.output_slot,
                output_block_number: proof_outputs.output_block_number,
                output_store_hash: proof_outputs.output_store_hash,
                proof,
                execution_state_root: proof_outputs.execution_state_root,
                contract_storage_slots,
                elapsed_millis,
            },
        )
    }

    /// Takes the failure `error` of a job, which came at `now`. The job
    /// leaves the table and is not tried again.
    pub fn handle_prover_failure(&mut self, error: &ProverJobError, now: u64) -> (result: Result<
        JobFailure,
        LoopError,
    >)
        requires
            old(self).well_formed(),
        ensures
            final(self).well_formed(),
            failure_outcome(old(self)@, final(self)@, *error, now, result),
    {
        let job = match self.prover_jobs.remove(&error.job_id) {
            None => {
                assert(self@ =~= old(self)@);
                return Err(LoopError::JobNotFound { job_id: error.job_id });
            },
            Some(job) => job,
        };
        assert(self@ =~= old(self)@.finish(error.job_id));
        let elapsed_millis = if now >= job.start_time {
            now - job.start_time
        } else {
            0
        };
        let mut message = String::new();
        message.append("Job '");
        push_decimal(&mut message, error.job_id);
        message.append("' failed with error: ");
        message.append(error.message().as_str());
        assert(message@ =~= job_failure_text(error.job_id, error.error@));
        Ok(JobFailure { job_id: error.job_id, elapsed_millis, message })
    }

    /// Takes one message that reached the loop at `now`, and says what to do.
    /// A new window is staged as a job, if an identifier is left for it; a
    /// job's success gives the proof message to publish; a job's failure
    /// gives the report.
    pub fn run(&mut self, event: LoopEvent, now: u64) -> (result: Result<LoopAction, LoopError>)
        requires
            old(self).well_formed(),
        ensures
            final(self).well_formed(),
            match event {
                LoopEvent::FinalityAdvanced(inputs) => if old(self)@.job_id == u64::MAX {
                    final(self)@ == old(self)@ && result == Err::<LoopAction, LoopError>(
                        LoopError::JobIdsExhausted,
                    )
                } else {
                    final(self)@ == old(self)@.stage(inputs, now) && result == Ok::<
                        LoopAction,
                        LoopError,
                    >(LoopAction::Stage(old(self)@.staged(inputs)))
                },
                LoopEvent::JobSucceeded { job_id, proof, outputs } => match result {
                    Ok(LoopAction::Publish(message)) => success_outcome(
                        old(self)@,
                        final(self)@,
                        job_id,
                        proof@,
                        outputs,
                        now,
                        Ok(message),
                    ),
                    Ok(_) => false,
                    Err(error) => success_outcome(
                        old(self)@,
                        final(self)@,
                        job_id,
                        proof@,
                        outputs,
                        now,
                        Err(error),
                    ),
                },
                LoopEvent::JobFailed(job_error) => match result {
                    Ok(LoopAction::Report(failure)) => failure_outcome(
                        old(self)@,
                        final(self)@,
                        job_error,
                        now,
                        Ok(failure),
                    ),
                    Ok(_) => false,
                    Err(error) => failure_outcome(
                        old(self)@,
                        final(self)@,
                        job_error,
                        now,
                        Err(error),
                    ),
                },
            },
    {
        match event {
            LoopEvent::FinalityAdvanced(inputs) => {
                if self.job_id == u64::MAX {
                    return Err(LoopError::JobIdsExhausted);
                }
                Ok(LoopAction::Stage(self.stage_transition_proof(inputs, now)))
            },
            LoopEvent::JobSucceeded { job_id, proof, outputs } => {
                match self.handle_prover_success(job_id, proof, outputs, now) {
                    Ok(message) => Ok(LoopAction::Publish(message)),
                    Err(error) => Err(error),
                }
            },
            LoopEvent::JobFailed(job_error) => {
                match self.handle_prover_failure(&job_error, now) {
                    Ok(failure) => Ok(LoopAction::Report(failure)),
                    Err(error) => Err(error),
                }
            },
        }
    }
}

} // verus!
