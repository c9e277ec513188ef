//! Operations of the commands and of the graphical interface on a connected printer.
//!
//! Every operation on a session first reads the identity of the printer and
//! goes on only if it is of the expected model.
use crate::arguments::{requested_mismatch, verify_requested_model};
use crate::command::EepromReadReply;
use crate::controller::{
    epson_error_text, performed, reads_run, replies_since, status_request, EpsonController,
    EpsonErrorView,
};
use crate::d4_session::{
    backup_values, eeprom_run, identity_run, image_read, plan_refusal, runs_on_channel,
    status_run, update_run, EpsonD4Session, SessionView,
};
use crate::database::ModelDatabase;
use crate::epson::{EpsonSpec, SpecView};
use crate::identity::{
    detected_model_of, field_of_identity, in_series, IdentityView, PrinterIdentity,
};
use crate::platform::{
    lemma_record_chain, lemma_record_untouched, record_kept, ByteTransport, ControlChannel,
};
use crate::report::{
    readings_report, render_eeprom_readings, render_printer_status, status_report,
};
use crate::session::{
    application_error_text, model_mismatch, only_the_selected_model_is_taken, plan_problem,
    verify_exact_model, ApplicationErrorView, EepromImage, EepromWritePlan, ImageView,
};
use vstd::prelude::*;

verus! {

broadcast use {lemma_record_chain, lemma_record_untouched};

/// What the identity that was read means for an expected model: nothing, or the
/// words with which the operation ends. On a command line the model is
/// requested, and otherwise it is selected.
pub open spec fn verification(
    identity: Result<IdentityView, ApplicationErrorView>,
    model: Seq<char>,
    requested: bool,
) -> Result<(), Seq<char>> {
    match identity {
        Err(error) => Err(application_error_text(error)),
        Ok(identity) => {
            let mismatch = if requested {
                requested_mismatch(identity, model)
            } else {
                model_mismatch(identity, model)
            };
            match mismatch {
                Some(message) => Err(message),
                None => Ok(()),
            }
        },
    }
}

/// The identity has been read and verified, and only then the rest has been done.
pub open spec fn after_verification<R>(
    before: SessionView,
    after: SessionView,
    model: Seq<char>,
    requested: bool,
    result: Result<R, Seq<char>>,
    rest: spec_fn(SessionView, SessionView, Result<R, Seq<char>>) -> bool,
) -> bool {
    exists|middle: SessionView, identity: Result<IdentityView, ApplicationErrorView>| #[trigger]
        runs_on_channel(before, middle, identity_run(), identity) && match verification(
            identity,
            model,
            requested,
        ) {
            Err(message) => after == middle && result == Err::<R, Seq<char>>(message),
            Ok(_) => rest(middle, after, result),
        }
}

/// A result whose error is put into words behind a label.
pub open spec fn labelled<R>(result: Result<R, ApplicationErrorView>, label: Seq<char>) -> Result<
    R,
    Seq<char>,
> {
    match result {
        Ok(value) => Ok(value),
        Err(error) => Err(label + application_error_text(error)),
    }
}

/// The status has been read.
pub open spec fn status_read(
    before: SessionView,
    after: SessionView,
    result: Result<Seq<u8>, Seq<char>>,
) -> bool {
    exists|status: Result<Seq<u8>, ApplicationErrorView>| #[trigger]
        runs_on_channel(before, after, status_run(), status) && result == labelled(status, seq![])
}

/// The whole range has been read.
pub open spec fn dump_read(
    before: SessionView,
    after: SessionView,
    result: Result<ImageView, Seq<char>>,
) -> bool {
    exists|image: Result<ImageView, ApplicationErrorView>| #[trigger]
        image_read(before, after, image) && result == labelled(image, seq![])
}

/// The contents of a plan.
pub struct PlanView {
    pub backup: ImageView,
    pub updates: Seq<(u16, u8)>,
}

/// The contents of a plan.
pub open spec fn plan_view(plan: EepromWritePlan) -> PlanView {
    PlanView { backup: plan.backup@, updates: plan.updates@ }
}

/// A plan has been prepared for updates: nothing is read for bad ones, and
/// otherwise the whole range is read as a backup.
#[verifier::opaque]
pub open spec fn plan_prepared(
    before: SessionView,
    after: SessionView,
    updates: Seq<(u16, u8)>,
    label: Seq<char>,
    result: Result<PlanView, Seq<char>>,
) -> bool {
    match plan_problem(before.settings, updates) {
        Some(problem) => {
            &&& after == before
            &&& result == Err::<PlanView, Seq<char>>(
                label + application_error_text(ApplicationErrorView::WritePlan(problem)),
            )
        },
        None => exists|image: Result<ImageView, ApplicationErrorView>| #[trigger]
            image_read(before, after, image) && result == match image {
                Ok(backup) => Ok::<PlanView, Seq<char>>(PlanView { backup, updates }),
                Err(error) => Err(label + application_error_text(error)),
            },
    }
}

/// A plan has been carried out: a bad one is refused before anything is
/// written, and otherwise its updates are written, verified and undone after a
/// failure.
#[verifier::opaque]
pub open spec fn plan_applied(
    before: SessionView,
    after: SessionView,
    plan: PlanView,
    label: Seq<char>,
    result: Result<(), Seq<char>>,
) -> bool {
    match plan_refusal(before.settings, plan.backup, plan.updates) {
        Some(problem) => {
            &&& after == before
            &&& result == Err::<(), Seq<char>>(
                label + application_error_text(ApplicationErrorView::WritePlan(problem)),
            )
        },
        None => exists|done: Result<(), ApplicationErrorView>| #[trigger]
            runs_on_channel(
                before,
                after,
                update_run(before.settings, plan.updates, backup_values(plan.backup, plan.updates)),
                done,
            ) && result == labelled(done, label),
    }
}

/// Reads the identity of a printer of the expected model.
pub fn read_verified_identity<T: ByteTransport>(
    session: &mut EpsonD4Session<T>,
    model: &str,
    requested: bool,
) -> (found: Result<PrinterIdentity, String>)
    requires
        old(session).ready(),
    ensures
        final(session).ready(),
        final(session).settings == old(session).settings,
        record_kept(old(session).control.link.target, final(session).control.link.target),
        exists|identity: Result<IdentityView, ApplicationErrorView>| #[trigger]
            runs_on_channel(
                old(session).state(),
                final(session).state(),
                identity_run(),
                identity,
            ) && match found {
                Ok(found) => found.well_formed() && identity == Ok::<
                    IdentityView,
                    ApplicationErrorView,
                >(found@) && verification(identity, model@, requested) is Ok,
                Err(message) => verification(identity, model@, requested) == Err::<(), Seq<char>>(
                    message@,
                ),
            },
{
    match session.read_identity() {
        Err(error) => Err(error.message()),
        Ok(identity) => {
            let verified = if requested {
                verify_requested_model(&identity, model)
            } else {
                verify_exact_model(&identity, model)
            };
            match verified {
                Ok(_) => Ok(identity),
                Err(message) => Err(message),
            }
        },
    }
}

/// Reads the identity of the printer and verifies its model.
pub fn verify_session_model<T: ByteTransport>(
    session: &mut EpsonD4Session<T>,
    model: &str,
    requested: bool,
) -> (verified: Result<(), String>)
    requires
        old(session).ready(),
    ensures
        final(session).ready(),
        final(session).settings == old(session).settings,
        record_kept(old(session).control.link.target, final(session).control.link.target),
        exists|identity: Result<IdentityView, ApplicationErrorView>| #[trigger]
            runs_on_channel(
                old(session).state(),
                final(session).state(),
                identity_run(),
                identity,
            ) && verification(identity, model@, requested) == match verified {
                Ok(_) => Ok::<(), Seq<char>>(()),
                Err(message) => Err(message@),
            },
{
    match read_verified_identity(session, model, requested) {
        Ok(_) => Ok(()),
        Err(message) => Err(message),
    }
}

/// Reads the status of a printer of the expected model.
pub fn read_verified_status<T: ByteTransport>(
    session: &mut EpsonD4Session<T>,
    model: &str,
    requested: bool,
) -> (status: Result<Vec<u8>, String>)
    requires
        old(session).ready(),
    ensures
        final(session).ready(),
        final(session).settings == old(session).settings,
        record_kept(old(session).control.link.target, final(session).control.link.target),
        after_verification(
            old(session).state(),
            final(session).state(),
            model@,
            requested,
            match status {
                Ok(status) => Ok(status@),
                Err(message) => Err(message@),
            },
            |middle: SessionView, after: SessionView, result: Result<Seq<u8>, Seq<char>>|
                status_read(middle, after, result),
        ),
{
    if let Err(message) = verify_session_model(session, model, requested) {
        return Err(message);
    }
    let ghost middle = session.state();
    match session.read_status() {
        Ok(status) => {
            proof {
                assert(status_read(middle, session.state(), Ok(status@)));
            }
            Ok(status)
        },
        Err(error) => {
            let message = error.message();
            proof {
                assert(seq![] + application_error_text(error@) =~= message@);
                assert(status_read(middle, session.state(), Err(message@)));
            }
            Err(message)
        },
    }
}

/// Reads the whole range of a printer of the expected model.
pub fn dump_verified<T: ByteTransport>(
    session: &mut EpsonD4Session<T>,
    model: &str,
    requested: bool,
) -> (image: Result<EepromImage, String>)
    requires
        old(session).ready(),
    ensures
        final(session).ready(),
        final(session).settings == old(session).settings,
        record_kept(old(session).control.link.target, final(session).control.link.target),
        after_verification(
            old(session).state(),
            final(session).state(),
            model@,
            requested,
            match image {
                Ok(image) => Ok(image@),
                Err(message) => Err(message@),
            },
            |middle: SessionView, after: SessionView, result: Result<ImageView, Seq<char>>|
                dump_read(middle, after, result),
        ),
{
    if let Err(message) = verify_session_model(session, model, requested) {
        return Err(message);
    }
    let ghost middle = session.state();
    match session.dump_eeprom() {
        Ok(image) => {
            proof {
                assert(image_read(middle, session.state(), Ok(image@)));
                assert(dump_read(middle, session.state(), Ok(image@)));
            }
            Ok(image)
        },
        Err(error) => {
            let message = error.message();
            proof {
                assert(seq![] + application_error_text(error@) =~= message@);
                assert(image_read(middle, session.state(), Err(error@)));
                assert(dump_read(middle, session.state(), Err(message@)));
            }
            Err(message)
        },
    }
}

/// Addresses have been read.
pub open spec fn readings_read(
    before: SessionView,
    after: SessionView,
    addresses: Seq<u16>,
    result: Result<Seq<EepromReadReply>, Seq<char>>,
) -> bool {
    exists|found: Result<Seq<EepromReadReply>, ApplicationErrorView>| #[trigger]
        runs_on_channel(before, after, eeprom_run(before.settings, addresses), found) && result
            == labelled(found, seq![])
}

/// Reads addresses of a printer of the expected model.
pub fn read_verified_eeprom<T: ByteTransport>(
    session: &mut EpsonD4Session<T>,
    model: &str,
    requested: bool,
    addresses: &[u16],
) -> (found: Result<Vec<EepromReadReply>, String>)
    requires
        old(session).ready(),
    ensures
        final(session).ready(),
        final(session).settings == old(session).settings,
        record_kept(old(session).control.link.target, final(session).control.link.target),
        after_verification(
            old(session).state(),
            final(session).state(),
            model@,
            requested,
            match found {
                Ok(found) => Ok(found@),
                Err(message) => Err(message@),
            },
            |
                middle: SessionView,
                after: SessionView,
                result: Result<Seq<EepromReadReply>, Seq<char>>,
            | readings_read(middle, after, addresses@, result),
        ),
{
    if let Err(message) = verify_session_model(session, model, requested) {
        return Err(message);
    }
    let ghost middle = session.state();
    match session.read_eeprom(addresses) {
        Ok(found) => {
            proof {
                assert(readings_read(middle, session.state(), addresses@, Ok(found@)));
            }
            Ok(found)
        },
        Err(error) => {
            let message = error.message();
            proof {
                assert(seq![] + application_error_text(error@) =~= message@);
                assert(readings_read(middle, session.state(), addresses@, Err(message@)));
            }
            Err(message)
        },
    }
}

/// Prepares a plan for a printer of the expected model.
pub fn prepare_verified<T: ByteTransport>(
    session: &mut EpsonD4Session<T>,
    model: &str,
    requested: bool,
    updates: &[(u16, u8)],
    label: &str,
) -> (plan: Result<EepromWritePlan, String>)
    requires
        old(session).ready(),
    ensures
        final(session).ready(),
        final(session).settings == old(session).settings,
        record_kept(old(session).control.link.target, final(session).control.link.target),
        after_verification(
            old(session).state(),
            final(session).state(),
            model@,
            requested,
            match plan {
                Ok(plan) => Ok(plan_view(plan)),
                Err(message) => Err(message@),
            },
            |middle: SessionView, after: SessionView, result: Result<PlanView, Seq<char>>|
                plan_prepared(middle, after, updates@, label@, result),
        ),
{
    if let Err(message) = verify_session_model(session, model, requested) {
        return Err(message);
    }
    let ghost middle = session.state();
    match session.prepare_eeprom_write(updates) {
        Ok(plan) => {
            proof {
                reveal(plan_prepared);
                assert(image_read(middle, session.state(), Ok(plan.backup@)));
                assert(plan_prepared(
                    middle,
                    session.state(),
                    updates@,
                    label@,
                    Ok(plan_view(plan)),
                ));
            }
            Ok(plan)
        },
        Err(error) => {
            let message = label.to_owned().concat(error.message().as_str());
            proof {
                reveal(plan_prepared);
                if plan_problem(middle.settings, updates@) is None {
                    assert(image_read(middle, session.state(), Err(error@)));
                }
                assert(plan_prepared(middle, session.state(), updates@, label@, Err(message@)));
            }
            Err(message)
        },
    }
}

/// Carries out a prepared plan.
pub fn apply_plan<T: ByteTransport>(
    session: &mut EpsonD4Session<T>,
    plan: &EepromWritePlan,
    label: &str,
) -> (done: Result<(), String>)
    requires
        old(session).ready(),
    ensures
        final(session).ready(),
        final(session).settings == old(session).settings,
        record_kept(old(session).control.link.target, final(session).control.link.target),
        plan_applied(
            old(session).state(),
            final(session).state(),
            plan_view(*plan),
            label@,
            match done {
                Ok(_) => Ok(()),
                Err(message) => Err(message@),
            },
        ),
{
    proof {
        reveal(plan_applied);
    }
    match session.apply_eeprom_write(plan) {
        Ok(_) => Ok(()),
        Err(error) => Err(label.to_owned().concat(error.message().as_str())),
    }
}

/// A plan has been carried out, unless its backup could not be saved.
pub open spec fn saved_plan_applied(
    before: SessionView,
    after: SessionView,
    plan: PlanView,
    saved: Result<(), Seq<char>>,
    label: Seq<char>,
    result: Result<(), Seq<char>>,
) -> bool {
    match saved {
        Err(_) => after == before && result == saved,
        Ok(_) => plan_applied(before, after, plan, label, result),
    }
}

/// Carries out a plan whose backup has been saved. Without a backup nothing is
/// written.
pub fn apply_saved_plan<T: ByteTransport>(
    session: &mut EpsonD4Session<T>,
    plan: &EepromWritePlan,
    saved: Result<(), String>,
    label: &str,
) -> (done: Result<(), String>)
    requires
        old(session).ready(),
    ensures
        final(session).ready(),
        final(session).settings == old(session).settings,
        record_kept(old(session).control.link.target, final(session).control.link.target),
        saved_plan_applied(
            old(session).state(),
            final(session).state(),
            plan_view(*plan),
            match saved {
                Ok(_) => Ok(()),
                Err(error) => Err(error@),
            },
            label@,
            match done {
                Ok(_) => Ok(()),
                Err(message) => Err(message@),
            },
        ),
{
    match saved {
        Ok(_) => apply_plan(session, plan, label),
        Err(error) => Err(error),
    }
}

/// The model in a database that an identity resolves to, or a refusal.
pub open spec fn resolved_settings(
    identity: IdentityView,
    database: Map<Seq<char>, SpecView>,
) -> Result<SpecView, Seq<char>> {
    match detected_model_of(identity) {
        Some(model) => if database.contains_key(model) {
            Ok(database[model])
        } else {
            Err(unresolved_text())
        },
        None => Err(unresolved_text()),
    }
}

/// The words for an identity that resolves to no model.
pub open spec fn unresolved_text() -> Seq<char> {
    "SNMP printer identity does not resolve to a built-in Epson model; refusing Epson status request"@
}

/// Reads the status over a control channel, of a printer whose identity
/// resolves to a model.
pub fn channel_status_output<C: ControlChannel>(
    channel: &mut C,
    identity: &PrinterIdentity,
    database: &ModelDatabase,
    as_json: bool,
) -> (output: Result<String, String>)
    requires
        old(channel).ready(),
        identity.well_formed(),
        database.well_formed(),
    ensures
        final(channel).ready(),
        final(channel).origin() == old(channel).origin(),
        match resolved_settings(identity@, database@) {
            Err(refusal) => {
                &&& final(channel).exchanges() == old(channel).exchanges()
                &&& output matches Err(message) && message@ == refusal
            },
            Ok(settings) => {
                let replies = replies_since(old(channel).exchanges(), final(channel).exchanges());
                &&& performed(
                    old(channel).exchanges(),
                    final(channel).exchanges(),
                    seq![status_request()],
                )
                &&& match (output, replies[0]) {
                    (Ok(output), Ok(status)) => output@ == status_report(
                        settings.model,
                        status,
                        as_json,
                    ),
                    (Err(message), Err(failure)) => message@ == epson_error_text(
                        EpsonErrorView::Control(failure),
                    ),
                    _ => false,
                }
            },
        },
{
    let settings = match database.resolve_identity(identity) {
        Some(settings) => settings,
        None => return Err(
            String::from_str(
                "SNMP printer identity does not resolve to a built-in Epson model; refusing Epson status request",
            ),
        ),
    };
    let status = EpsonController::new(channel, settings).read_status();
    match status {
        Ok(status) => Ok(
            render_printer_status(settings.model.as_str(), status.as_slice(), as_json),
        ),
        Err(error) => Err(error.message()),
    }
}

/// Reads addresses over a control channel, of a printer of the requested model.
pub fn channel_eeprom_read_output<C: ControlChannel>(
    channel: &mut C,
    identity: &PrinterIdentity,
    settings: &EpsonSpec,
    model: &str,
    addresses: &[u16],
    as_json: bool,
) -> (output: Result<String, String>)
    requires
        old(channel).ready(),
        identity.well_formed(),
    ensures
        final(channel).ready(),
        final(channel).origin() == old(channel).origin(),
        match requested_mismatch(identity@, model@) {
            Some(mismatch) => {
                &&& final(channel).exchanges() == old(channel).exchanges()
                &&& output matches Err(message) && message@ == mismatch
            },
            None => {
                let replies = replies_since(old(channel).exchanges(), final(channel).exchanges());
                let run = reads_run(settings@, addresses@, replies);
                &&& performed(old(channel).exchanges(), final(channel).exchanges(), run.requests)
                &&& match (output, run.result) {
                    (Ok(output), Ok(found)) => output@ == readings_report(model@, found, as_json),
                    (Err(message), Err(failure)) => message@ == epson_error_text(failure),
                    _ => false,
                }
            },
        },
{
    if let Err(message) = verify_requested_model(identity, model) {
        return Err(message);
    }
    let found = EpsonController::new(channel, settings).read_eeprom(addresses);
    match found {
        Ok(found) => Ok(render_eeprom_readings(model, found.as_slice(), as_json)),
        Err(error) => Err(error.message()),
    }
}

/// The addresses of the range of a model, in ascending order.
pub open spec fn range_addresses(settings: SpecView) -> Seq<u16> {
    if settings.memory_low <= settings.memory_high {
        Seq::new(
            (settings.memory_high - settings.memory_low + 1) as nat,
            |i: int| (settings.memory_low + i) as u16,
        )
    } else {
        seq![]
    }
}

fn list_range(settings: &EpsonSpec) -> (addresses: Vec<u16>)
    ensures
        addresses@ == range_addresses(settings@),
{
    let low: u16 = settings.memory_low;
    let high: u16 = settings.memory_high;
    let length: usize = if low <= high {
        (high - low) as usize + 1
    } else {
        0
    };
    let mut addresses: Vec<u16> = Vec::new();
    while addresses.len() < length
        invariant
            addresses@.len() <= length,
            length == if low <= high {
                high - low + 1
            } else {
                0
            },
            forall|i: int| 0 <= i < addresses@.len() ==> #[trigger] addresses@[i] == low + i,
        decreases length - addresses.len(),
    {
        let offset: u16 = addresses.len() as u16;
        addresses.push(low + offset);
    }
    proof {
        assert(addresses@ =~= range_addresses(settings@));
    }
    addresses
}

/// The values of replies, in their order.
pub open spec fn reply_values(replies: Seq<EepromReadReply>) -> Seq<u8> {
    Seq::new(replies.len(), |i: int| replies[i].value)
}

/// Reads the whole range over a control channel, of a printer of the requested
/// model.
pub fn channel_eeprom_dump<C: ControlChannel>(
    channel: &mut C,
    identity: &PrinterIdentity,
    settings: &EpsonSpec,
    model: &str,
) -> (bytes: Result<Vec<u8>, String>)
    requires
        old(channel).ready(),
        identity.well_formed(),
    ensures
        final(channel).ready(),
        final(channel).origin() == old(channel).origin(),
        match requested_mismatch(identity@, model@) {
            Some(mismatch) => {
                &&& final(channel).exchanges() == old(channel).exchanges()
                &&& bytes matches Err(message) && message@ == mismatch
            },
            None => {
                let replies = replies_since(old(channel).exchanges(), final(channel).exchanges());
                let run = reads_run(settings@, range_addresses(settings@), replies);
                &&& performed(old(channel).exchanges(), final(channel).exchanges(), run.requests)
                &&& match (bytes, run.result) {
                    (Ok(bytes), Ok(found)) => bytes@ == reply_values(found),
                    (Err(message), Err(failure)) => message@ == epson_error_text(failure),
                    _ => false,
                }
            },
        },
{
    if let Err(message) = verify_requested_model(identity, model) {
        return Err(message);
    }
    let addresses = list_range(settings);
    let found = match EpsonController::new(channel, settings).read_eeprom(addresses.as_slice()) {
        Ok(found) => found,
        Err(error) => return Err(error.message()),
    };
    let mut bytes: Vec<u8> = Vec::new();
    while bytes.len() < found.len()
        invariant
            bytes@.len() <= found@.len(),
            forall|i: int| 0 <= i < bytes@.len() ==> #[trigger] bytes@[i] == found@[i].value,
        decreases found.len() - bytes.len(),
    {
        let index: usize = bytes.len();
        bytes.push(found[index].value);
    }
    proof {
        assert(bytes@ =~= reply_values(found@));
    }
    Ok(bytes)
}

/// An operation goes on only with a printer that has identified itself as the
/// expected model. Of every other printer nothing but the identity is read, and
/// the operation fails.
pub proof fn only_the_expected_model_is_accessed<R>(
    before: SessionView,
    after: SessionView,
    model: Seq<char>,
    requested: bool,
    result: Result<R, Seq<char>>,
    rest: spec_fn(SessionView, SessionView, Result<R, Seq<char>>) -> bool,
)
    requires
        after_verification(before, after, model, requested, result, rest),
    ensures
        ({
            ||| exists|middle: SessionView, identity: IdentityView| #[trigger]
                runs_on_channel(
                    before,
                    middle,
                    identity_run(),
                    Ok::<IdentityView, ApplicationErrorView>(identity),
                ) && detected_model_of(identity) == Some(model) && rest(middle, after, result)
            ||| result is Err && exists|identity: Result<IdentityView, ApplicationErrorView>|
                #[trigger]
                runs_on_channel(before, after, identity_run(), identity) && (identity matches Ok(
                    found,
                ) ==> detected_model_of(found) != Some(model))
        }),
{
    let (middle, identity) = choose|
        middle: SessionView,
        identity: Result<IdentityView, ApplicationErrorView>,
    | #[trigger]
        runs_on_channel(before, middle, identity_run(), identity) && match verification(
            identity,
            model,
            requested,
        ) {
            Err(message) => after == middle && result == Err::<R, Seq<char>>(message),
            Ok(_) => rest(middle, after, result),
        };
    if let Ok(found) = identity {
        assert(runs_on_channel(
            before,
            middle,
            identity_run(),
            Ok::<IdentityView, ApplicationErrorView>(found),
        ));
    }
}

/// Without a saved backup of the whole range nothing goes to the printer, and
/// the change fails with the words for the backup.
pub proof fn nothing_is_written_without_a_backup(
    before: SessionView,
    after: SessionView,
    plan: PlanView,
    error: Seq<char>,
    label: Seq<char>,
    result: Result<(), Seq<char>>,
)
    requires
        saved_plan_applied(before, after, plan, Err(error), label, result),
    ensures
        after.transfers == before.transfers,
        result == Err::<(), Seq<char>>(error),
{
}

/// Which printer an operation goes on with: one whose identity was read and whose model,
/// but for the word that Epson appends, is the expected one.
pub proof fn operations_go_on_with_the_expected_model(
    identity: IdentityView,
    found: Seq<char>,
    model: Seq<char>,
    requested: bool,
)
    requires
        field_of_identity(identity, "MDL"@) == Some(found),
        forall|stem: Seq<char>| model != #[trigger] in_series(stem),
    ensures
        verification(Ok(identity), model, requested) is Ok <==> found == model || found
            == in_series(model),
{
    only_the_selected_model_is_taken(identity, found, model);
}

/// The settings that an identity resolves to are those of the database under the name of
/// its model.
pub proof fn identities_resolve_by_their_model(
    identity: IdentityView,
    database: Map<Seq<char>, SpecView>,
    model: Seq<char>,
)
    ensures
        detected_model_of(identity) == Some(model) && database.contains_key(model)
            ==> resolved_settings(identity, database) == Ok::<SpecView, Seq<char>>(database[model]),
        detected_model_of(identity) == Some(model) && !database.contains_key(model)
            ==> resolved_settings(identity, database) is Err,
        detected_model_of(identity) is None ==> resolved_settings(identity, database) is Err,
{
}

/// The range of a model is every address from the lowest to the highest, in order.
pub proof fn ranges_hold_every_address(settings: SpecView, index: int)
    ensures
        settings.memory_low <= settings.memory_high ==> range_addresses(settings).len()
            == settings.memory_high - settings.memory_low + 1,
        settings.memory_low > settings.memory_high ==> range_addresses(settings).len() == 0,
        0 <= index < range_addresses(settings).len() ==> range_addresses(settings)[index]
            == settings.memory_low + index,
{
}

/// The bytes of an image are the values of the replies, in their order.
pub proof fn images_hold_the_replies(replies: Seq<EepromReadReply>, reply: EepromReadReply)
    ensures
        reply_values(seq![]).len() == 0,
        reply_values(replies.push(reply)) == reply_values(replies).push(reply.value),
{
    assert(reply_values(replies.push(reply)) =~= reply_values(replies).push(reply.value));
}

} // verus!
