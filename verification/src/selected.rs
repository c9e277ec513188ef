//! Operations on the printer that has been selected in the graphical interface.
//!
//! An operation is prepared before the printer is opened, begun in a session
//! and, after a file has been saved, finished in that session.
use crate::d4_session::{
    backup_values, identity_run, originals_come_from_the_backup, plan_refusal, runs_on_channel,
    EpsonD4Session, SessionView,
};
use crate::database::ModelDatabase;
use crate::epson::{target_name, CounterResetTarget, EpsonSpec, SpecView};
use crate::fields::{append_fields, push_field};
use crate::identity::IdentityView;
use crate::operation::{
    after_verification, apply_plan, dump_read, dump_verified, plan_applied, plan_prepared,
    plan_view, prepare_verified, read_verified_status, status_read, verification, PlanView,
};
use crate::platform::{
    lemma_record_chain, lemma_record_untouched, record_kept, ByteTransport,
};
use crate::session::{
    declared_counter_reset_updates, image_size_text, image_updates, image_value, range_length,
    reset_updates, restore_eeprom_updates, ApplicationErrorView, EepromImage, EepromWritePlan, ImageView,
    UsbSessionCleanup,
};
use crate::text::{dec, dec_text, hex_lower, hex_text, prefixed_hex};
use crate::text_map::texts;
use crate::view::{
    address_label, address_text, clean, cleanup_is_successful, cleanup_lines,
    cleanup_report_lines, cleanup_text, display_status_response, format_current_values, status_display,
    values_text,
};
use vstd::prelude::*;

verus! {

broadcast use {lemma_record_chain, lemma_record_untouched};

/// What has been asked of the selected printer.
#[derive(Clone, Debug, PartialEq, Eq)]
pub enum UsbOperationRequest {
    Status,
    Dump { output_file: String },
    Write { updates: Vec<(u16, u8)>, backup_file: String },
    Restore { image: Vec<u8>, backup_file: String },
    Reset { target: CounterResetTarget, backup_file: String },
}

/// A request whose updates are known.
#[derive(Clone, Debug, PartialEq, Eq)]
pub enum PreparedRequest {
    Status,
    Dump { output_file: String },
    Mutation { action: &'static str, updates: Vec<(u16, u8)>, backup_file: String },
}

/// The contents of a prepared request.
pub enum PreparedView {
    Status,
    Dump { output_file: Seq<char> },
    Mutation { action: Seq<char>, updates: Seq<(u16, u8)>, backup_file: Seq<char> },
}

impl View for PreparedRequest {
    type V = PreparedView;

    open spec fn view(&self) -> PreparedView {
        match self {
            PreparedRequest::Status => PreparedView::Status,
            PreparedRequest::Dump { output_file } => PreparedView::Dump {
                output_file: output_file@,
            },
            PreparedRequest::Mutation { action, updates, backup_file } => PreparedView::Mutation {
                action: action@,
                updates: updates@,
                backup_file: backup_file@,
            },
        }
    }
}

/// What a request comes to for a model: a restore is refused for an image of
/// another size, and a reset without declared bytes.
pub open spec fn prepared(settings: SpecView, request: UsbOperationRequest) -> Result<
    PreparedView,
    Seq<char>,
> {
    match request {
        UsbOperationRequest::Status => Ok(PreparedView::Status),
        UsbOperationRequest::Dump { output_file } => Ok(
            PreparedView::Dump { output_file: output_file@ },
        ),
        UsbOperationRequest::Write { updates, backup_file } => Ok(
            PreparedView::Mutation {
                action: "write"@,
                updates: updates@,
                backup_file: backup_file@,
            },
        ),
        UsbOperationRequest::Restore { image, backup_file } => if image@.len() == range_length(
            settings,
        ) {
            Ok(
                PreparedView::Mutation {
                    action: "restore"@,
                    updates: image_updates(settings.memory_low, image@),
                    backup_file: backup_file@,
                },
            )
        } else {
            Err(image_size_text(settings, image@.len()))
        },
        UsbOperationRequest::Reset { target, backup_file } => match reset_updates(
            settings,
            target,
        ) {
            Ok(updates) => Ok(
                PreparedView::Mutation {
                    action: target_name(target),
                    updates,
                    backup_file: backup_file@,
                },
            ),
            Err(message) => Err(message),
        },
    }
}

/// Prepares a request for a model.
pub fn prepare_request(settings: &EpsonSpec, request: UsbOperationRequest) -> (ready: Result<
    PreparedRequest,
    String,
>)
    ensures
        prepared(settings@, request) == match ready {
            Ok(ready) => Ok::<PreparedView, Seq<char>>(ready@),
            Err(message) => Err(message@),
        },
{
    match request {
        UsbOperationRequest::Status => Ok(PreparedRequest::Status),
        UsbOperationRequest::Dump { output_file } => Ok(PreparedRequest::Dump { output_file }),
        UsbOperationRequest::Write { updates, backup_file } => Ok(
            PreparedRequest::Mutation { action: "write", updates, backup_file },
        ),
        UsbOperationRequest::Restore { image, backup_file } => match restore_eeprom_updates(
            settings,
            image.as_slice(),
        ) {
            Ok(updates) => Ok(
                PreparedRequest::Mutation { action: "restore", updates, backup_file },
            ),
            Err(message) => Err(message),
        },
        UsbOperationRequest::Reset { target, backup_file } => match declared_counter_reset_updates(
            settings,
            target,
        ) {
            Ok(updates) => Ok(
                PreparedRequest::Mutation { action: target.display_name(), updates, backup_file },
            ),
            Err(message) => Err(message),
        },
    }
}

/// The settings of the expected model.
pub fn expected_settings<'a>(database: &'a ModelDatabase, expected_model: &str) -> (settings:
    Result<&'a EpsonSpec, String>)
    requires
        database.well_formed(),
    ensures
        match settings {
            Ok(settings) => database@.contains_key(expected_model@) && settings@
                == database@[expected_model@],
            Err(message) => !database@.contains_key(expected_model@) && message@
                == "unknown selected expected model: "@ + expected_model@,
        },
{
    match database.get(expected_model) {
        Some(settings) => Ok(settings),
        None => Err(String::from_str("unknown selected expected model: ").concat(expected_model)),
    }
}

/// What an operation has achieved.
#[derive(Clone, Debug, PartialEq, Eq)]
pub enum UsbOperationSuccess {
    Status { model: String, response_bytes: usize, display: String },
    Dump { image: EepromImage, output_file: String },
    Mutation {
        action: &'static str,
        model: String,
        backup_file: String,
        current_values: Vec<(u16, u8)>,
        update_count: usize,
    },
}

/// The contents of a success.
pub enum SuccessView {
    Status { model: Seq<char>, response_bytes: nat, display: Seq<char> },
    Dump { image: ImageView, output_file: Seq<char> },
    Mutation {
        action: Seq<char>,
        model: Seq<char>,
        backup_file: Seq<char>,
        current_values: Seq<(u16, u8)>,
        update_count: nat,
    },
}

impl View for UsbOperationSuccess {
    type V = SuccessView;

    open spec fn view(&self) -> SuccessView {
        match self {
            UsbOperationSuccess::Status { model, response_bytes, display } => SuccessView::Status {
                model: model@,
                response_bytes: *response_bytes as nat,
                display: display@,
            },
            UsbOperationSuccess::Dump { image, output_file } => SuccessView::Dump {
                image: image@,
                output_file: output_file@,
            },
            UsbOperationSuccess::Mutation {
                action,
                model,
                backup_file,
                current_values,
                update_count,
            } => SuccessView::Mutation {
                action: action@,
                model: model@,
                backup_file: backup_file@,
                current_values: current_values@,
                update_count: *update_count as nat,
            },
        }
    }
}

/// How far an operation has come: to its end, or to a file that has to be saved
/// before it goes on.
#[derive(Clone, Debug, PartialEq, Eq)]
pub enum OperationStep {
    Done(UsbOperationSuccess),
    SaveImage { image: EepromImage, output_file: String },
    SaveBackup {
        action: &'static str,
        plan: EepromWritePlan,
        backup_file: String,
        current_values: Vec<(u16, u8)>,
    },
}

/// The contents of a step.
pub enum StepView {
    Done(SuccessView),
    SaveImage { image: ImageView, output_file: Seq<char> },
    SaveBackup {
        action: Seq<char>,
        plan: PlanView,
        backup_file: Seq<char>,
        current_values: Seq<(u16, u8)>,
    },
}

impl View for OperationStep {
    type V = StepView;

    open spec fn view(&self) -> StepView {
        match self {
            OperationStep::Done(success) => StepView::Done(success@),
            OperationStep::SaveImage { image, output_file } => StepView::SaveImage {
                image: image@,
                output_file: output_file@,
            },
            OperationStep::SaveBackup { action, plan, backup_file, current_values } =>
                StepView::SaveBackup {
                action: action@,
                plan: plan_view(*plan),
                backup_file: backup_file@,
                current_values: current_values@,
            },
        }
    }
}

/// The values that a backup holds at the addresses of the first updates, or the
/// words for an address that it lacks.
pub open spec fn current_values_of(backup: ImageView, updates: Seq<(u16, u8)>) -> Result<
    Seq<(u16, u8)>,
    Seq<char>,
>
    decreases updates.len(),
{
    if updates.len() == 0 {
        Ok(seq![])
    } else {
        match current_values_of(backup, updates.drop_last()) {
            Err(message) => Err(message),
            Ok(values) => match image_value(backup, updates.last().0) {
                Some(value) => Ok(values.push((updates.last().0, value))),
                None => Err(
                    "complete backup did not contain "@ + prefixed_hex(
                        updates.last().0 as nat,
                        4,
                    ),
                ),
            },
        }
    }
}

proof fn lemma_missing_value(backup: ImageView, updates: Seq<(u16, u8)>, count: int)
    requires
        0 <= count <= updates.len(),
        current_values_of(backup, updates.take(count)) is Err,
    ensures
        current_values_of(backup, updates) == current_values_of(backup, updates.take(count)),
    decreases updates.len(),
{
    if count == updates.len() {
        assert(updates.take(count) =~= updates);
    } else {
        assert(updates.drop_last().take(count) =~= updates.take(count));
        lemma_missing_value(backup, updates.drop_last(), count);
    }
}

/// Reads the current values of the addresses that a plan updates from its backup.
pub fn plan_current_values(plan: &EepromWritePlan) -> (values: Result<Vec<(u16, u8)>, String>)
    ensures
        current_values_of(plan.backup@, plan.updates@) == match values {
            Ok(values) => Ok::<Seq<(u16, u8)>, Seq<char>>(values@),
            Err(message) => Err(message@),
        },
{
    let mut values: Vec<(u16, u8)> = Vec::new();
    let mut index: usize = 0;
    while index < plan.updates.len()
        invariant
            index <= plan.updates@.len(),
            current_values_of(plan.backup@, plan.updates@.take(index as int)) == Ok::<
                Seq<(u16, u8)>,
                Seq<char>,
            >(values@),
        decreases plan.updates.len() - index,
    {
        let address: u16 = plan.updates[index].0;
        proof {
            let longer = plan.updates@.take(index + 1);
            assert(longer.drop_last() =~= plan.updates@.take(index as int));
            assert(longer.last() == plan.updates@[index as int]);
        }
        match plan.backup.value_at(address) {
            Some(value) => values.push((address, value)),
            None => {
                let message = String::from_str("complete backup did not contain ").concat(
                    hex_lower(address as u64, 4).as_str(),
                );
                proof {
                    lemma_missing_value(plan.backup@, plan.updates@, index + 1);
                }
                return Err(message);
            },
        }
        index += 1;
    }
    proof {
        assert(plan.updates@.take(index as int) =~= plan.updates@);
    }
    Ok(values)
}

/// What is shown of a status.
pub open spec fn status_success(model: Seq<char>, status: Seq<u8>) -> SuccessView {
    SuccessView::Status { model, response_bytes: status.len(), display: status_display(status) }
}

/// What stands before the error of a plan that could not be prepared.
pub open spec fn preparing_label(action: Seq<char>) -> Seq<char> {
    "could not prepare EEPROM "@ + action + ": "@
}

/// A plan has been prepared, with the current values of its addresses.
pub open spec fn backup_taken(
    before: SessionView,
    after: SessionView,
    action: Seq<char>,
    updates: Seq<(u16, u8)>,
    backup_file: Seq<char>,
    label: Seq<char>,
    result: Result<StepView, Seq<char>>,
) -> bool {
    exists|plan: Result<PlanView, Seq<char>>| #[trigger]
        plan_prepared(before, after, updates, label, plan) && result == match plan {
            Err(message) => Err::<StepView, Seq<char>>(message),
            Ok(plan) => match current_values_of(plan.backup, plan.updates) {
                Err(message) => Err(message),
                Ok(current_values) => Ok(
                    StepView::SaveBackup { action, plan, backup_file, current_values },
                ),
            },
        }
}

/// The step to which a request leads once the model has been verified.
pub open spec fn step_taken(
    before: SessionView,
    after: SessionView,
    model: Seq<char>,
    request: PreparedView,
    result: Result<StepView, Seq<char>>,
) -> bool {
    match request {
        PreparedView::Status => exists|status: Result<Seq<u8>, Seq<char>>| #[trigger]
            status_read(before, after, status) && result == match status {
                Ok(status) => Ok::<StepView, Seq<char>>(
                    StepView::Done(status_success(model, status)),
                ),
                Err(message) => Err(message),
            },
        PreparedView::Dump { output_file } => exists|image: Result<ImageView, Seq<char>>|
            #[trigger]
            dump_read(before, after, image) && result == match image {
                Ok(image) => Ok::<StepView, Seq<char>>(StepView::SaveImage { image, output_file }),
                Err(message) => Err(message),
            },
        PreparedView::Mutation { action, updates, backup_file } => backup_taken(
            before,
            after,
            action,
            updates,
            backup_file,
            preparing_label(action),
            result,
        ),
    }
}

/// A step that has been taken after the model was verified.
pub open spec fn begun(
    before: SessionView,
    after: SessionView,
    model: Seq<char>,
    request: PreparedView,
    result: Result<StepView, Seq<char>>,
) -> bool {
    after_verification(
        before,
        after,
        model,
        false,
        result,
        |middle: SessionView, end: SessionView, step: Result<StepView, Seq<char>>|
            step_taken(middle, end, model, request, step),
    )
}

proof fn lemma_begun<R>(
    before: SessionView,
    after: SessionView,
    model: Seq<char>,
    request: PreparedView,
    read: Result<R, Seq<char>>,
    rest: spec_fn(SessionView, SessionView, Result<R, Seq<char>>) -> bool,
    step: Result<StepView, Seq<char>>,
)
    requires
        after_verification(before, after, model, false, read, rest),
        read matches Err(message) ==> step == Err::<StepView, Seq<char>>(message),
        forall|middle: SessionView|
            rest(middle, after, read) ==> #[trigger] step_taken(
                middle,
                after,
                model,
                request,
                step,
            ),
    ensures
        begun(before, after, model, request, step),
{
    let (middle, identity) = choose|
        middle: SessionView,
        identity: Result<IdentityView, ApplicationErrorView>,
    | #[trigger]
        runs_on_channel(before, middle, identity_run(), identity) && match verification(
            identity,
            model,
            false,
        ) {
            Err(message) => after == middle && read == Err::<R, Seq<char>>(message),
            Ok(_) => rest(middle, after, read),
        };
    assert(runs_on_channel(before, middle, identity_run(), identity));
    if verification(identity, model, false) is Ok {
        assert(step_taken(middle, after, model, request, step));
    }
}

fn begin_status<T: ByteTransport>(
    session: &mut EpsonD4Session<T>,
    model: &str,
) -> (step: Result<OperationStep, String>)
    requires
        old(session).ready(),
    ensures
        final(session).ready(),
        final(session).settings == old(session).settings,
        record_kept(old(session).control.link.target, final(session).control.link.target),
        begun(
            old(session).state(),
            final(session).state(),
            model@,
            PreparedView::Status,
            match step {
                Ok(step) => Ok(step@),
                Err(message) => Err(message@),
            },
        ),
{
    let ghost before = session.state();
    let ghost asked = PreparedView::Status;
    let ghost rest = |middle: SessionView, end: SessionView, result: Result<Seq<u8>, Seq<char>>|
        status_read(middle, end, result);
    let status = read_verified_status(session, model, false);
    let ghost after = session.state();
    match status {
        Ok(status) => {
            let success = UsbOperationSuccess::Status {
                model: model.to_owned(),
                response_bytes: status.len(),
                display: display_status_response(status.as_slice()),
            };
            let step = OperationStep::Done(success);
            proof {
                assert forall|middle: SessionView| rest(middle, after, Ok(status@)) implies #[trigger] step_taken(
                    middle,
                    after,
                    model@,
                    asked,
                    Ok(step@),
                ) by {
                    assert(status_read(middle, after, Ok(status@)));
                }
                lemma_begun(before, after, model@, asked, Ok(status@), rest, Ok(step@));
            }
            Ok(step)
        },
        Err(message) => {
            proof {
                assert forall|middle: SessionView| rest(middle, after, Err(message@)) implies #[trigger] step_taken(
                    middle,
                    after,
                    model@,
                    asked,
                    Err(message@),
                ) by {
                    assert(status_read(middle, after, Err(message@)));
                }
                lemma_begun(before, after, model@, asked, Err(message@), rest, Err(message@));
            }
            Err(message)
        },
    }
}

fn begin_dump<T: ByteTransport>(
    session: &mut EpsonD4Session<T>,
    model: &str,
    output_file: String,
) -> (step: Result<OperationStep, String>)
    requires
        old(session).ready(),
    ensures
        final(session).ready(),
        final(session).settings == old(session).settings,
        record_kept(old(session).control.link.target, final(session).control.link.target),
        begun(
            old(session).state(),
            final(session).state(),
            model@,
            (PreparedView::Dump { output_file: output_file@ }),
            match step {
                Ok(step) => Ok(step@),
                Err(message) => Err(message@),
            },
        ),
{
    let ghost before = session.state();
    let ghost asked = PreparedView::Dump { output_file: output_file@ };
    let ghost rest = |middle: SessionView, end: SessionView, result: Result<ImageView, Seq<char>>|
        dump_read(middle, end, result);
    let image = dump_verified(session, model, false);
    let ghost after = session.state();
    match image {
        Ok(image) => {
            let ghost found = image@;
            let step = OperationStep::SaveImage { image, output_file };
            proof {
                assert forall|middle: SessionView| rest(middle, after, Ok(found)) implies #[trigger] step_taken(
                    middle,
                    after,
                    model@,
                    asked,
                    Ok(step@),
                ) by {
                    assert(dump_read(middle, after, Ok(found)));
                }
                lemma_begun(before, after, model@, asked, Ok(found), rest, Ok(step@));
            }
            Ok(step)
        },
        Err(message) => {
            proof {
                assert forall|middle: SessionView| rest(middle, after, Err(message@)) implies #[trigger] step_taken(
                    middle,
                    after,
                    model@,
                    asked,
                    Err(message@),
                ) by {
                    assert(dump_read(middle, after, Err(message@)));
                }
                lemma_begun(before, after, model@, asked, Err(message@), rest, Err(message@));
            }
            Err(message)
        },
    }
}

fn begin_mutation<T: ByteTransport>(
    session: &mut EpsonD4Session<T>,
    model: &str,
    action: &'static str,
    updates: Vec<(u16, u8)>,
    backup_file: String,
) -> (step: Result<OperationStep, String>)
    requires
        old(session).ready(),
    ensures
        final(session).ready(),
        final(session).settings == old(session).settings,
        record_kept(old(session).control.link.target, final(session).control.link.target),
        begun(
            old(session).state(),
            final(session).state(),
            model@,
            (PreparedView::Mutation {
                action: action@,
                updates: updates@,
                backup_file: backup_file@,
            }),
            match step {
                Ok(step) => Ok(step@),
                Err(message) => Err(message@),
            },
        ),
{
    let ghost before = session.state();
    let ghost asked = PreparedView::Mutation {
        action: action@,
        updates: updates@,
        backup_file: backup_file@,
    };
    let label = String::from_str("could not prepare EEPROM ").concat(action).concat(": ");
    let ghost words = label@;
    proof {
        assert(words =~= preparing_label(action@));
    }
    let ghost rest = |middle: SessionView, end: SessionView, result: Result<PlanView, Seq<char>>|
        plan_prepared(middle, end, updates@, words, result);
    let plan = prepare_verified(session, model, false, updates.as_slice(), label.as_str());
    let ghost after = session.state();
    let plan = match plan {
        Ok(plan) => plan,
        Err(message) => {
            proof {
                assert forall|middle: SessionView| rest(middle, after, Err(message@)) implies #[trigger] step_taken(
                    middle,
                    after,
                    model@,
                    asked,
                    Err(message@),
                ) by {
                    assert(plan_prepared(middle, after, updates@, words, Err(message@)));
                }
                lemma_begun(before, after, model@, asked, Err(message@), rest, Err(message@));
            }
            return Err(message);
        },
    };
    let ghost found = plan_view(plan);
    match plan_current_values(&plan) {
        Ok(current_values) => {
            let step = OperationStep::SaveBackup { action, plan, backup_file, current_values };
            proof {
                assert forall|middle: SessionView| rest(middle, after, Ok(found)) implies #[trigger] step_taken(
                    middle,
                    after,
                    model@,
                    asked,
                    Ok(step@),
                ) by {
                    assert(plan_prepared(middle, after, updates@, words, Ok(found)));
                }
                lemma_begun(before, after, model@, asked, Ok(found), rest, Ok(step@));
            }
            Ok(step)
        },
        Err(message) => {
            proof {
                assert forall|middle: SessionView| rest(middle, after, Ok(found)) implies #[trigger] step_taken(
                    middle,
                    after,
                    model@,
                    asked,
                    Err(message@),
                ) by {
                    assert(plan_prepared(middle, after, updates@, words, Ok(found)));
                }
                lemma_begun(before, after, model@, asked, Ok(found), rest, Err(message@));
            }
            Err(message)
        },
    }
}

/// Begins an operation: the model is verified, and only then the printer is
/// read as the request asks.
pub fn begin_operation<T: ByteTransport>(
    session: &mut EpsonD4Session<T>,
    model: &str,
    request: PreparedRequest,
) -> (step: Result<OperationStep, String>)
    requires
        old(session).ready(),
    ensures
        final(session).ready(),
        final(session).settings == old(session).settings,
        record_kept(old(session).control.link.target, final(session).control.link.target),
        begun(
            old(session).state(),
            final(session).state(),
            model@,
            request@,
            match step {
                Ok(step) => Ok(step@),
                Err(message) => Err(message@),
            },
        ),
{
    match request {
        PreparedRequest::Status => begin_status(session, model),
        PreparedRequest::Dump { output_file } => begin_dump(session, model, output_file),
        PreparedRequest::Mutation { action, updates, backup_file } => begin_mutation(
            session,
            model,
            action,
            updates,
            backup_file,
        ),
    }
}

/// Ends an operation whose image has been saved, or could not be.
pub fn finish_dump(image: EepromImage, output_file: String, saved: Result<(), String>) -> (done:
    Result<UsbOperationSuccess, String>)
    ensures
        match (done, saved) {
            (Ok(success), Ok(_)) => success@ == (SuccessView::Dump {
                image: image@,
                output_file: output_file@,
            }),
            (Err(message), Err(error)) => message == error,
            _ => false,
        },
{
    match saved {
        Ok(_) => Ok(UsbOperationSuccess::Dump { image, output_file }),
        Err(error) => Err(error),
    }
}

/// The words for a backup that could not be saved.
pub open spec fn unsaved_text(error: Seq<char>, current_values: Seq<(u16, u8)>) -> Seq<char> {
    error + "; pre-write current values captured from the complete backup: "@ + values_text(
        current_values,
    )
}

/// What stands before the error of a plan that could not be carried out.
pub open spec fn failure_label(action: Seq<char>, current_values: Seq<(u16, u8)>) -> Seq<char> {
    "EEPROM "@ + action + " failed after capturing pre-write current values ("@ + values_text(
        current_values,
    ) + "): "@
}

/// A plan has been carried out, which makes a mutation succeed.
pub open spec fn mutated(
    before: SessionView,
    after: SessionView,
    mutation: SuccessView,
    plan: PlanView,
    label: Seq<char>,
    result: Result<SuccessView, Seq<char>>,
) -> bool {
    exists|done: Result<(), Seq<char>>| #[trigger]
        plan_applied(before, after, plan, label, done) && result == match done {
            Ok(_) => Ok::<SuccessView, Seq<char>>(mutation),
            Err(message) => Err(message),
        }
}

/// A mutation has been carried out, unless its backup could not be saved.
pub open spec fn mutation_finished(
    before: SessionView,
    after: SessionView,
    mutation: SuccessView,
    plan: PlanView,
    saved: Result<(), Seq<char>>,
    result: Result<SuccessView, Seq<char>>,
) -> bool {
    match mutation {
        SuccessView::Mutation { action, current_values, .. } => match saved {
            Err(error) => {
                &&& after == before
                &&& result == Err::<SuccessView, Seq<char>>(unsaved_text(error, current_values))
            },
            Ok(_) => mutated(
                before,
                after,
                mutation,
                plan,
                failure_label(action, current_values),
                result,
            ),
        },
        _ => false,
    }
}

/// Ends a mutation whose backup has been saved, or could not be: without a
/// backup nothing is written.
pub fn finish_mutation<T: ByteTransport>(
    session: &mut EpsonD4Session<T>,
    action: &'static str,
    model: String,
    plan: &EepromWritePlan,
    backup_file: String,
    current_values: Vec<(u16, u8)>,
    saved: Result<(), String>,
) -> (done: Result<UsbOperationSuccess, String>)
    requires
        old(session).ready(),
    ensures
        final(session).ready(),
        final(session).settings == old(session).settings,
        record_kept(old(session).control.link.target, final(session).control.link.target),
        mutation_finished(
            old(session).state(),
            final(session).state(),
            (SuccessView::Mutation {
                action: action@,
                model: model@,
                backup_file: backup_file@,
                current_values: current_values@,
                update_count: plan.updates@.len(),
            }),
            plan_view(*plan),
            match saved {
                Ok(_) => Ok(()),
                Err(error) => Err(error@),
            },
            match done {
                Ok(success) => Ok(success@),
                Err(message) => Err(message@),
            },
        ),
{
    let description = format_current_values(current_values.as_slice());
    if let Err(error) = saved {
        return Err(
            error.concat("; pre-write current values captured from the complete backup: ").concat(
                description.as_str(),
            ),
        );
    }
    let label = String::from_str("EEPROM ").concat(action).concat(
        " failed after capturing pre-write current values (",
    ).concat(description.as_str()).concat("): ");
    proof {
        assert(label@ =~= failure_label(action@, current_values@));
    }
    match apply_plan(session, plan, label.as_str()) {
        Ok(_) => Ok(
            UsbOperationSuccess::Mutation {
                action,
                model,
                backup_file,
                current_values,
                update_count: plan.updates.len(),
            },
        ),
        Err(message) => Err(message),
    }
}

/// Without a saved backup of the whole range a mutation sends nothing to the
/// printer, and fails.
pub proof fn mutations_need_a_saved_backup(
    before: SessionView,
    after: SessionView,
    mutation: SuccessView,
    plan: PlanView,
    error: Seq<char>,
    result: Result<SuccessView, Seq<char>>,
)
    requires
        mutation_finished(before, after, mutation, plan, Err(error), result),
    ensures
        after.transfers == before.transfers,
        result is Err,
{
}

/// What is told of an operation.
#[derive(Clone, Debug, PartialEq, Eq)]
pub struct UsbOperationResultReport {
    pub success: bool,
    pub headline: String,
    pub lines: Vec<String>,
}

/// The contents of a report.
pub struct ReportView {
    pub success: bool,
    pub headline: Seq<char>,
    pub lines: Seq<Seq<char>>,
}

impl View for UsbOperationResultReport {
    type V = ReportView;

    open spec fn view(&self) -> ReportView {
        ReportView {
            success: self.success,
            headline: self.headline@,
            lines: texts(self.lines@),
        }
    }
}

/// The headline of a success, which names an unfinished cleanup.
pub open spec fn success_headline(success: SuccessView, cleaned: bool) -> Seq<char> {
    match success {
        SuccessView::Status { .. } => if cleaned {
            "Printer status completed"@
        } else {
            "Printer status read completed; cleanup needs attention"@
        },
        SuccessView::Dump { .. } => if cleaned {
            "EEPROM dump saved"@
        } else {
            "EEPROM dump saved; cleanup needs attention"@
        },
        SuccessView::Mutation { action, .. } => if cleaned {
            "EEPROM "@ + action + " completed"@
        } else {
            "EEPROM "@ + action + " completed; cleanup needs attention"@
        },
    }
}

/// The last address of an image, which of an empty one is its first.
pub open spec fn image_end(start_address: nat, length: nat) -> nat {
    if length == 0 {
        start_address
    } else {
        (start_address + length - 1) as nat
    }
}

/// The lines on a success.
pub open spec fn success_lines(success: SuccessView) -> Seq<Seq<char>> {
    match success {
        SuccessView::Status { model, response_bytes, display } => seq![
            "Exact D4 identity/model match confirmed for "@ + model + "."@,
            "Status response ("@ + dec_text(response_bytes) + " byte(s)): "@ + display,
        ],
        SuccessView::Dump { image, output_file } => seq![
            "Exact D4 identity/model match confirmed before EEPROM access."@,
            "Saved a complete "@ + dec_text(image.bytes.len()) + "-byte model-bounded image ("@
                + address_text(image.start_address as nat) + "..="@ + address_text(
                image_end(image.start_address as nat, image.bytes.len()),
            ) + ") to "@ + output_file + "."@,
        ],
        SuccessView::Mutation { model, backup_file, current_values, update_count, .. } => seq![
            "Exact D4 identity/model match confirmed for "@ + model + "."@,
            "Created and synchronized complete pre-operation backup: "@ + backup_file + "."@,
            "Current values captured before the write: "@ + values_text(current_values) + "."@,
            "Read-back verification succeeded for all "@ + dec_text(update_count)
                + " written byte(s); rollback was not needed."@,
        ],
    }
}

/// What is told of an operation and of the cleanup after it.
pub open spec fn report_of(
    operation: Result<SuccessView, Seq<char>>,
    cleanup: UsbSessionCleanup,
) -> ReportView {
    match operation {
        Ok(success) => ReportView {
            success: clean(cleanup),
            headline: success_headline(success, clean(cleanup)),
            lines: success_lines(success) + cleanup_lines(cleanup),
        },
        Err(error) => ReportView {
            success: false,
            headline: "Selected-printer operation failed"@,
            lines: seq![
                error,
                "If a write reached EEPROM, the guarded write plan attempted read-back verification and rollback; the operation error reports any rollback failure."@,
            ] + cleanup_lines(cleanup),
        },
    }
}

fn cleanup_suffix(cleaned: bool) -> (suffix: &'static str)
    ensures
        suffix@ == if cleaned {
            " completed"@
        } else {
            " completed; cleanup needs attention"@
        },
{
    if cleaned {
        " completed"
    } else {
        " completed; cleanup needs attention"
    }
}

fn headline_of(success: &UsbOperationSuccess, cleaned: bool) -> (headline: String)
    ensures
        headline@ == success_headline(success@, cleaned),
{
    match success {
        UsbOperationSuccess::Status { .. } => if cleaned {
            String::from_str("Printer status completed")
        } else {
            String::from_str("Printer status read completed; cleanup needs attention")
        },
        UsbOperationSuccess::Dump { .. } => if cleaned {
            String::from_str("EEPROM dump saved")
        } else {
            String::from_str("EEPROM dump saved; cleanup needs attention")
        },
        UsbOperationSuccess::Mutation { action, .. } => String::from_str("EEPROM ").concat(
            action,
        ).concat(cleanup_suffix(cleaned)),
    }
}

/// Names the first and the last address of an image.
pub fn range_label(start_address: usize, length: usize) -> (label: String)
    requires
        start_address + length <= usize::MAX,
    ensures
        label@ == address_text(start_address as nat) + "..="@ + address_text(
            image_end(start_address as nat, length as nat),
        ),
{
    let end: usize = if length == 0 {
        start_address
    } else {
        start_address + (length - 1)
    };
    address_label(start_address).concat("..=").concat(address_label(end).as_str())
}

fn lines_of(success: &UsbOperationSuccess) -> (lines: Vec<String>)
    requires
        success matches UsbOperationSuccess::Dump { image, .. } ==> image.start_address
            + image.bytes.len() <= usize::MAX,
    ensures
        texts(lines@) == success_lines(success@),
{
    let mut lines: Vec<String> = Vec::new();
    proof {
        assert(texts(lines@) =~= seq![]);
    }
    match success {
        UsbOperationSuccess::Status { model, response_bytes, display } => {
            push_field(
                &mut lines,
                String::from_str("Exact D4 identity/model match confirmed for ").concat(
                    model.as_str(),
                ).concat("."),
            );
            push_field(
                &mut lines,
                String::from_str("Status response (").concat(
                    dec(*response_bytes as u64).as_str(),
                ).concat(" byte(s)): ").concat(display.as_str()),
            );
        },
        UsbOperationSuccess::Dump { image, output_file } => {
            push_field(
                &mut lines,
                String::from_str("Exact D4 identity/model match confirmed before EEPROM access."),
            );
            let saved = String::from_str("Saved a complete ").concat(
                dec(image.bytes.len() as u64).as_str(),
            ).concat("-byte model-bounded image (").concat(
                range_label(image.start_address as usize, image.bytes.len()).as_str(),
            ).concat(") to ").concat(output_file.as_str()).concat(".");
            proof {
                assert(saved@ =~= success_lines(success@)[1]);
            }
            push_field(&mut lines, saved);
        },
        UsbOperationSuccess::Mutation {
            model,
            backup_file,
            current_values,
            update_count,
            ..
        } => {
            push_field(
                &mut lines,
                String::from_str("Exact D4 identity/model match confirmed for ").concat(
                    model.as_str(),
                ).concat("."),
            );
            push_field(
                &mut lines,
                String::from_str(
                    "Created and synchronized complete pre-operation backup: ",
                ).concat(backup_file.as_str()).concat("."),
            );
            push_field(
                &mut lines,
                String::from_str("Current values captured before the write: ").concat(
                    format_current_values(current_values.as_slice()).as_str(),
                ).concat("."),
            );
            push_field(
                &mut lines,
                String::from_str("Read-back verification succeeded for all ").concat(
                    dec(*update_count as u64).as_str(),
                ).concat(" written byte(s); rollback was not needed."),
            );
        },
    }
    lines
}

/// The contents of an outcome.
pub open spec fn outcome_view(operation: Result<UsbOperationSuccess, String>) -> Result<
    SuccessView,
    Seq<char>,
> {
    match operation {
        Ok(success) => Ok(success@),
        Err(error) => Err(error@),
    }
}

/// Tells of an operation and of the cleanup after it.
pub fn report_operation(
    operation: &Result<UsbOperationSuccess, String>,
    cleanup: &UsbSessionCleanup,
) -> (report: UsbOperationResultReport)
    requires
        operation matches Ok(UsbOperationSuccess::Dump { image, .. }) ==> image.start_address
            + image.bytes.len() <= usize::MAX,
    ensures
        report@ == report_of(outcome_view(*operation), *cleanup),
{
    let cleaned = cleanup_is_successful(cleanup);
    match operation {
        Ok(success) => {
            let mut lines = lines_of(success);
            append_fields(&mut lines, cleanup_report_lines(cleanup));
            let headline = headline_of(success, cleaned);
            proof {
                assert(texts(lines@) =~= success_lines(success@) + cleanup_lines(*cleanup));
            }
            UsbOperationResultReport { success: cleaned, headline, lines }
        },
        Err(error) => {
            let mut lines: Vec<String> = Vec::new();
            proof {
                assert(texts(lines@) =~= seq![]);
            }
            push_field(&mut lines, error.as_str().to_owned());
            push_field(
                &mut lines,
                String::from_str(
                    "If a write reached EEPROM, the guarded write plan attempted read-back verification and rollback; the operation error reports any rollback failure.",
                ),
            );
            append_fields(&mut lines, cleanup_report_lines(cleanup));
            proof {
                assert(texts(lines@) =~= report_of(Err(error@), *cleanup).lines);
            }
            UsbOperationResultReport {
                success: false,
                headline: String::from_str("Selected-printer operation failed"),
                lines,
            }
        },
    }
}

/// The report on an operation that has not been started.
pub open spec fn blocked_report(reason: Seq<char>) -> ReportView {
    ReportView {
        success: false,
        headline: "Selected-printer operation blocked"@,
        lines: seq![reason],
    }
}

/// Tells why an operation has not been started.
pub fn report_blocked(reason: &str) -> (report: UsbOperationResultReport)
    ensures
        report@ == blocked_report(reason@),
{
    let mut lines: Vec<String> = Vec::new();
    proof {
        assert(texts(lines@) =~= seq![]);
    }
    push_field(&mut lines, reason.to_owned());
    UsbOperationResultReport {
        success: false,
        headline: String::from_str("Selected-printer operation blocked"),
        lines,
    }
}

/// A backup that fits a plan holds the current value of every address that the
/// plan updates, so a mutation never ends for want of one.
pub proof fn backups_hold_the_current_values(
    settings: SpecView,
    backup: ImageView,
    updates: Seq<(u16, u8)>,
)
    requires
        plan_refusal(settings, backup, updates) is None,
    ensures
        current_values_of(backup, updates) == Ok::<Seq<(u16, u8)>, Seq<char>>(
            backup_values(backup, updates),
        ),
{
    lemma_current_values(settings, backup, updates, updates.len() as int);
    assert(updates.take(updates.len() as int) =~= updates);
    assert(backup_values(backup, updates).take(updates.len() as int) =~= backup_values(
        backup,
        updates,
    ));
}

proof fn lemma_current_values(
    settings: SpecView,
    backup: ImageView,
    updates: Seq<(u16, u8)>,
    count: int,
)
    requires
        plan_refusal(settings, backup, updates) is None,
        0 <= count <= updates.len(),
    ensures
        current_values_of(backup, updates.take(count)) == Ok::<Seq<(u16, u8)>, Seq<char>>(
            backup_values(backup, updates).take(count),
        ),
    decreases count,
{
    let values = backup_values(backup, updates);
    if count == 0 {
        assert(values.take(0) =~= seq![]);
    } else {
        lemma_current_values(settings, backup, updates, count - 1);
        originals_come_from_the_backup(settings, backup, updates, count - 1);
        assert(updates.take(count).drop_last() =~= updates.take(count - 1));
        assert(values.take(count) =~= values.take(count - 1).push(values[count - 1]));
    }
}

/// A report tells of a success only if the operation has succeeded and
/// everything has been cleaned up after it.
pub proof fn success_is_told_only_after_cleanup(
    operation: Result<SuccessView, Seq<char>>,
    cleanup: UsbSessionCleanup,
)
    ensures
        report_of(operation, cleanup).success <==> operation is Ok && clean(cleanup),
{
}

/// What a request comes to: a write makes the updates that were asked for, a restore one
/// for each byte of the image from the lowest address on, and a reset those that are
/// declared for its counter family. Each of them goes with its own backup.
pub proof fn requests_are_prepared_as_asked(
    settings: SpecView,
    request: UsbOperationRequest,
    index: int,
)
    requires
        settings.memory_low <= settings.memory_high,
    ensures
        match request {
            UsbOperationRequest::Status => prepared(settings, request) == Ok::<
                PreparedView,
                Seq<char>,
            >(PreparedView::Status),
            UsbOperationRequest::Dump { output_file } => prepared(settings, request) == Ok::<
                PreparedView,
                Seq<char>,
            >(PreparedView::Dump { output_file: output_file@ }),
            UsbOperationRequest::Write { updates, backup_file } => prepared(
                settings,
                request,
            ) matches Ok(PreparedView::Mutation { action, updates: made, backup_file: file })
                && action == "write"@ && made == updates@ && file == backup_file@,
            UsbOperationRequest::Restore { image, backup_file } => if image@.len()
                == settings.memory_high - settings.memory_low + 1 {
                prepared(settings, request) matches Ok(
                    PreparedView::Mutation { action, updates: made, backup_file: file },
                ) && action == "restore"@ && file == backup_file@ && made.len() == image@.len() && (
                0 <= index < image@.len() ==> made[index].0 == settings.memory_low + index
                    && made[index].1 == image@[index])
            } else {
                prepared(settings, request) is Err
            },
            UsbOperationRequest::Reset { target, backup_file } => match reset_updates(
                settings,
                target,
            ) {
                Ok(updates) => prepared(settings, request) matches Ok(
                    PreparedView::Mutation { updates: made, backup_file: file, .. },
                ) && made == updates && file == backup_file@,
                Err(message) => prepared(settings, request) == Err::<PreparedView, Seq<char>>(
                    message,
                ),
            },
        },
{
}

/// The current values that are told before a write are those of the backup at the
/// addresses of the updates, in their order; the first address that the backup lacks is
/// named.
pub proof fn current_values_come_from_the_backup(
    backup: ImageView,
    updates: Seq<(u16, u8)>,
    update: (u16, u8),
)
    ensures
        current_values_of(backup, seq![]) == Ok::<Seq<(u16, u8)>, Seq<char>>(seq![]),
        current_values_of(backup, updates) is Err ==> current_values_of(
            backup,
            updates.push(update),
        ) == current_values_of(backup, updates),
        current_values_of(backup, updates) matches Ok(values) ==> {
            if backup.start_address <= update.0 < backup.start_address + backup.bytes.len() {
                current_values_of(backup, updates.push(update)) == Ok::<
                    Seq<(u16, u8)>,
                    Seq<char>,
                >(values.push((update.0, backup.bytes[update.0 - backup.start_address])))
            } else {
                current_values_of(backup, updates.push(update)) is Err
            }
        },
{
    assert(updates.push(update).drop_last() =~= updates);
}

/// What is told of an operation that succeeded: the range of a saved image from its first
/// to its last address, or the backup, the values before the write and how many bytes were
/// written. What is told of the cleanup follows, that of the conversation first.
pub proof fn successes_are_described(
    image: ImageView,
    output_file: Seq<char>,
    action: Seq<char>,
    model: Seq<char>,
    backup_file: Seq<char>,
    current_values: Seq<(u16, u8)>,
    update_count: nat,
    cleanup: UsbSessionCleanup,
)
    requires
        image.bytes.len() > 0,
    ensures
        ({
            let dumped = report_of(Ok(SuccessView::Dump { image, output_file }), cleanup).lines;
            let mutated = report_of(
                Ok(
                    SuccessView::Mutation {
                        action,
                        model,
                        backup_file,
                        current_values,
                        update_count,
                    },
                ),
                cleanup,
            ).lines;
            &&& dumped.len() == 4
            &&& dumped[1] == "Saved a complete "@ + dec_text(image.bytes.len())
                + "-byte model-bounded image ("@ + ("0x"@ + hex_text(
                image.start_address as nat,
                4,
                true,
            )) + "..="@ + ("0x"@ + hex_text(
                (image.start_address + image.bytes.len() - 1) as nat,
                4,
                true,
            )) + ") to "@ + output_file + "."@
            &&& dumped[2] == "D4 shutdown: "@ + cleanup_text(cleanup.d4_shutdown@) + "."@
            &&& dumped[3] == "USB cleanup: "@ + cleanup_text(cleanup.usb_close@) + "."@
            &&& mutated.len() == 6
            &&& mutated[1] == "Created and synchronized complete pre-operation backup: "@
                + backup_file + "."@
            &&& mutated[2] == "Current values captured before the write: "@ + values_text(
                current_values,
            ) + "."@
            &&& mutated[3] == "Read-back verification succeeded for all "@ + dec_text(update_count)
                + " written byte(s); rollback was not needed."@
            &&& mutated[4] == dumped[2]
            &&& mutated[5] == dumped[3]
        }),
{
}

} // verus!
