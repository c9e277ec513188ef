//! A control session with one Epson printer.
use crate::channel::ChannelId;
use crate::command::{read_request, write_request, EepromReadReply};
use crate::controller::{
    completed_updates_are_undone, failed_updates_are_rolled_back, goes_through, guarded_run,
    identity_request, identity_result, performed, reads_answer_every_address, reads_run,
    replies_since, restores, status_request, write_run, write_steps, writes_are_made_in_order,
    writes_run, EepromWriteOptions, EpsonController, EpsonErrorView, Reply, Run,
};
use crate::driver::{carries_all, completes, D4ControlChannel, D4Link, Origin};
use crate::epson::{EpsonSpec, SpecView};
use crate::identity::{IdentityView, PrinterIdentity};
use crate::link::{
    channel_open, close_channel_step, exit_step, D4Error, D4ErrorView, LinkView, OutcomeView,
};
use crate::platform::{
    lemma_record_chain, lemma_record_one, lemma_record_untouched, record_kept, ByteTransport,
    ControlChannel, Exchange, Transfer,
};
use crate::session::{
    entry_accepted, entry_awaited, epson_d4_entry_command, exited_view, image_value,
    initialized_view, link_established, model_range_length, opened_view, optional_error,
    plan_problem, proper_updates_are_accepted, range_length, service_opened, session_established,
    setup_recovered, validate_eeprom_updates, wait_for_entry_reply, ApplicationError,
    ApplicationErrorView, EepromImage, EepromWritePlan, ImageView,
};
use crate::text::{hex_lower, same_text};
use vstd::prelude::*;

verus! {

broadcast use {lemma_record_chain, lemma_record_untouched};

/// An Epson control session over an initialized IEEE 1284.4 link.
pub struct EpsonD4Session<T> {
    pub control: D4ControlChannel<T>,
    pub settings: EpsonSpec,
}

/// The state of a session.
pub struct SessionView {
    pub link: LinkView,
    pub transfers: Seq<Transfer>,
    pub channel: ChannelId,
    pub settings: SpecView,
}

/// Two states belong to the same session.
pub open spec fn same_session(before: SessionView, after: SessionView) -> bool {
    before.channel == after.channel && before.settings == after.settings
}

/// An operation has been run on the control channel of a session: a closed
/// channel is reported, and otherwise the requests of the run have been carried
/// by the link.
pub open spec fn runs_on_channel<R>(
    before: SessionView,
    after: SessionView,
    run: spec_fn(Seq<Reply>) -> Run<Result<R, EpsonErrorView>>,
    result: Result<R, ApplicationErrorView>,
) -> bool {
    &&& same_session(before, after)
    &&& if !channel_open(before.link, before.channel) {
        &&& after == before
        &&& result == Err::<R, ApplicationErrorView>(
            ApplicationErrorView::D4(D4ErrorView::UnknownChannel { channel: before.channel }),
        )
    } else {
        exists|exchanges: Seq<Exchange>|
            #![trigger replies_since(Seq::empty(), exchanges)]
            carries_all(
                before.link,
                before.transfers,
                after.link,
                after.transfers,
                before.channel,
                exchanges,
            ) && performed(
                Seq::empty(),
                exchanges,
                run(replies_since(Seq::empty(), exchanges)).requests,
            ) && result == epson_result(run(replies_since(Seq::empty(), exchanges)).result)
    }
}

/// A failed operation is reported as a failure of the session.
pub open spec fn epson_result<R>(result: Result<R, EpsonErrorView>) -> Result<
    R,
    ApplicationErrorView,
> {
    match result {
        Ok(value) => Ok(value),
        Err(error) => Err(ApplicationErrorView::Epson(error)),
    }
}

/// The run that reads the device identifier.
pub open spec fn identity_run() -> spec_fn(Seq<Reply>) -> Run<
    Result<IdentityView, EpsonErrorView>,
> {
    |replies: Seq<Reply>|
        Run { requests: seq![identity_request()], result: identity_result(replies[0]) }
}

/// The run that reads the status.
pub open spec fn status_run() -> spec_fn(Seq<Reply>) -> Run<Result<Seq<u8>, EpsonErrorView>> {
    |replies: Seq<Reply>|
        Run {
            requests: seq![status_request()],
            result: match replies[0] {
                Ok(response) => Ok(response),
                Err(message) => Err(EpsonErrorView::Control(message)),
            },
        }
}

/// The run that reads addresses.
pub open spec fn eeprom_run(settings: SpecView, addresses: Seq<u16>) -> spec_fn(Seq<Reply>) -> Run<
    Result<Seq<EepromReadReply>, EpsonErrorView>,
> {
    |replies: Seq<Reply>| reads_run(settings, addresses, replies)
}

/// The run that makes updates with read-back, and undoes them after a failure.
pub open spec fn update_run(
    settings: SpecView,
    updates: Seq<(u16, u8)>,
    originals: Seq<(u16, u8)>,
) -> spec_fn(Seq<Reply>) -> Run<Result<(), EpsonErrorView>> {
    |replies: Seq<Reply>| guarded_run(settings, updates, Some(originals), true, replies)
}

/// Values have been read from the first address of the model on, one by one.
pub open spec fn values_read(before: SessionView, after: SessionView, values: Seq<u8>) -> bool
    decreases values.len(),
{
    if values.len() == 0 {
        after == before
    } else {
        exists|middle: SessionView|
            values_read(before, middle, values.drop_last()) && #[trigger] runs_on_channel(
                middle,
                after,
                eeprom_run(
                    before.settings,
                    seq![(before.settings.memory_low + values.len() - 1) as u16],
                ),
                Ok(
                    seq![
                        EepromReadReply {
                            address: (before.settings.memory_low + values.len() - 1) as u16,
                            value: values.last(),
                        },
                    ],
                ),
            )
    }
}

/// The whole range of the model has been read, or reading it has failed at an address.
pub open spec fn image_read(
    before: SessionView,
    after: SessionView,
    result: Result<ImageView, ApplicationErrorView>,
) -> bool {
    match result {
        Ok(image) => {
            &&& image.model == before.settings.model
            &&& image.start_address == before.settings.memory_low
            &&& image.bytes.len() == if before.settings.memory_low <= before.settings.memory_high {
                range_length(before.settings)
            } else {
                0
            }
            &&& values_read(before, after, image.bytes)
        },
        Err(error) => exists|middle: SessionView, values: Seq<u8>|
            values_read(before, middle, values) && before.settings.memory_low + values.len()
                <= before.settings.memory_high && #[trigger] runs_on_channel::<
                Seq<EepromReadReply>,
            >(
                middle,
                after,
                eeprom_run(
                    before.settings,
                    seq![(before.settings.memory_low + values.len()) as u16],
                ),
                Err(error),
            ),
    }
}

/// The words for a backup that belongs to something else.
pub open spec fn backup_fits(settings: SpecView, backup: ImageView) -> bool {
    &&& backup.model == settings.model
    &&& backup.start_address == settings.memory_low
    &&& backup.bytes.len() == range_length(settings)
}

/// The values that a backup holds for updates.
pub open spec fn backup_values(backup: ImageView, updates: Seq<(u16, u8)>) -> Seq<(u16, u8)> {
    Seq::new(updates.len(), |i: int| (updates[i].0, image_value(backup, updates[i].0)->0))
}

/// What keeps a plan from being carried out in a session.
pub open spec fn plan_refusal(
    settings: SpecView,
    backup: ImageView,
    updates: Seq<(u16, u8)>,
) -> Option<Seq<char>> {
    if !backup_fits(settings, backup) {
        Some("backup does not match the active model range"@)
    } else {
        plan_problem(settings, updates)
    }
}

/// A channel that has been closed, or the error with which closing it failed.
pub open spec fn closed_view(close: Option<D4ErrorView>) -> Result<OutcomeView, D4ErrorView> {
    match close {
        None => Ok(OutcomeView::Closed),
        Some(error) => Err(error),
    }
}

/// The conversation has been ended.
pub open spec fn ends_conversation(
    before: SessionView,
    after: SessionView,
    exit: Option<D4ErrorView>,
) -> bool {
    completes(
        exit_step(before.link),
        before.transfers,
        after.transfers,
        after.link,
        exited_view(exit),
    )
}

/// The control channel has been closed, and the conversation ended whether or
/// not that worked.
pub open spec fn session_closed(
    before: SessionView,
    after: SessionView,
    close: Option<D4ErrorView>,
    exit: Option<D4ErrorView>,
) -> bool {
    exists|middle: SessionView|
        completes(
            close_channel_step(before.link, before.channel),
            before.transfers,
            middle.transfers,
            middle.link,
            closed_view(close),
        ) && #[trigger] ends_conversation(middle, after, exit)
}

/// Reading one address gives one reply, for that address.
proof fn lemma_one_read(
    before: SessionView,
    after: SessionView,
    address: u16,
    found: Seq<EepromReadReply>,
)
    requires
        runs_on_channel(before, after, eeprom_run(before.settings, seq![address]), Ok(found)),
    ensures
        found.len() == 1,
        found[0].address == address,
{
    let run = eeprom_run(before.settings, seq![address]);
    let exchanges = choose|exchanges: Seq<Exchange>|
        #![trigger replies_since(Seq::empty(), exchanges)]
        carries_all(
            before.link,
            before.transfers,
            after.link,
            after.transfers,
            before.channel,
            exchanges,
        ) && performed(
            Seq::empty(),
            exchanges,
            run(replies_since(Seq::empty(), exchanges)).requests,
        ) && Ok::<Seq<EepromReadReply>, ApplicationErrorView>(found) == epson_result(
            run(replies_since(Seq::empty(), exchanges)).result,
        );
    let replies = replies_since(Seq::empty(), exchanges);
    reads_answer_every_address(before.settings, seq![address], replies);
    assert(reads_run(before.settings, seq![address], replies).result->Ok_0[0].address == address);
}

/// Valid updates lie in the range of the model.
proof fn lemma_valid_updates(settings: SpecView, updates: Seq<(u16, u8)>, count: int, index: int)
    requires
        0 <= index < count,
        crate::session::first_problem(settings, updates, count) is None,
    ensures
        settings.memory_low <= updates[index].0 <= settings.memory_high,
        !crate::session::repeated(updates, index),
    decreases count,
{
    if index < count - 1 {
        lemma_valid_updates(settings, updates, count - 1, index);
    }
}

impl<T: ByteTransport> EpsonD4Session<T> {
    /// The state of the session.
    pub open spec fn state(&self) -> SessionView {
        SessionView {
            link: self.control.link.machine@,
            transfers: self.control.link.transfers(),
            channel: self.control.channel,
            settings: self.settings@,
        }
    }

    /// The next operation can begin.
    pub open spec fn ready(&self) -> bool {
        self.control.link.ready()
    }

    /// Enters Epson D4 mode, initializes the link, and opens `EPSON-CTRL`.
    pub fn connect(target: T, settings: EpsonSpec) -> (session: Result<Self, ApplicationError>)
        ensures
            match session {
                Ok(session) => {
                    &&& session.ready()
                    &&& session.settings == settings
                    &&& record_kept(target, session.control.link.target)
                    &&& session_established(
                        target.transfers(),
                        session.state().transfers,
                        Ok((session.state().link, session.state().channel)),
                    )
                },
                Err(error) => exists|after: Seq<Transfer>|
                    session_established(target.transfers(), after, Err(error@)),
            },
    {
        match Self::connect_recoverable(target, settings) {
            Ok(session) => Ok(session),
            Err(failure) => Err(failure.0),
        }
    }

    /// Connects while returning the transport if D4 setup fails.
    ///
    /// Callers with explicit transport cleanup can use the returned transport
    /// to report cleanup failures.
    pub fn connect_recoverable(target: T, settings: EpsonSpec) -> (session: Result<
        Self,
        (ApplicationError, T),
    >)
        ensures
            match session {
                Ok(session) => {
                    &&& session.ready()
                    &&& session.settings == settings
                    &&& record_kept(target, session.control.link.target)
                    &&& session_established(
                        target.transfers(),
                        session.state().transfers,
                        Ok((session.state().link, session.state().channel)),
                    )
                },
                Err(failure) => {
                    &&& record_kept(target, failure.1)
                    &&& session_established(
                        target.transfers(),
                        failure.1.transfers(),
                        Err(failure.0@),
                    )
                },
            },
    {
        let ghost unused = target;
        let mut target = target;
        let ghost begin = target.transfers();
        let command = epson_d4_entry_command();
        let written = target.write_all(command.as_slice());
        proof {
            lemma_record_one(unused, target);
        }
        if let Err(error) = written {
            return Err((ApplicationError::Transport(error), target));
        }
        let ghost sent = target.transfers();
        let awaited = wait_for_entry_reply(&mut target);
        let ghost entered = target.transfers();
        if let Err(error) = awaited {
            proof {
                assert(entry_awaited(sent, entered, Err(error@)));
                assert(entry_accepted(sent, entered, Err(error@)));
            }
            return Err((error, target));
        }
        proof {
            assert(entry_awaited(sent, entered, Ok(())));
        }
        let mut link = D4Link::new(target);
        let initialized = link.initialize();
        let ghost initialized_link = link.machine@;
        let ghost negotiated = link.transfers();
        if let Err(error) = initialized {
            proof {
                assert(completes(
                    crate::link::initialize_step(crate::link::initial_link()),
                    entered,
                    negotiated,
                    initialized_link,
                    initialized_view(Some(error@)),
                ));
                assert(link_established(
                    entered,
                    negotiated,
                    Err(ApplicationErrorView::D4(error@)),
                ));
                assert(entry_accepted(sent, negotiated, Err(ApplicationErrorView::D4(error@))));
            }
            return Err((ApplicationError::D4(error), link.target()));
        }
        proof {
            assert(completes(
                crate::link::initialize_step(crate::link::initial_link()),
                entered,
                negotiated,
                initialized_link,
                initialized_view(None),
            ));
        }
        let opened = link.open_service("EPSON-CTRL");
        let ghost opened_link = link.machine@;
        let ghost requested = link.transfers();
        match opened {
            Ok(control_channel) => {
                let session = EpsonD4Session {
                    control: D4ControlChannel::attach(link, control_channel),
                    settings,
                };
                proof {
                    assert(completes(
                        crate::link::open_service_step(initialized_link, "EPSON-CTRL"@),
                        negotiated,
                        requested,
                        opened_link,
                        opened_view(Ok(control_channel)),
                    ));
                    assert(service_opened(
                        initialized_link,
                        negotiated,
                        requested,
                        Ok((opened_link, control_channel)),
                    ));
                    assert(link_established(
                        entered,
                        requested,
                        Ok((opened_link, control_channel)),
                    ));
                    assert(entry_accepted(sent, requested, Ok((opened_link, control_channel))));
                }
                Ok(session)
            },
            Err(setup) => {
                let recovery: Option<D4Error> = match link.exit() {
                    Ok(_) => None,
                    Err(error) => Some(error),
                };
                let ghost failure = setup@;
                let ghost recovered = optional_error(recovery);
                let ghost exited_link = link.machine@;
                let ghost exited = link.transfers();
                let target = link.target();
                let error = match recovery {
                    Some(recovery) => ApplicationError::SetupRecovery { setup, recovery },
                    None => ApplicationError::SetupRecovered { setup },
                };
                proof {
                    assert(completes(
                        crate::link::open_service_step(initialized_link, "EPSON-CTRL"@),
                        negotiated,
                        requested,
                        opened_link,
                        opened_view(Err(failure)),
                    ));
                    assert(completes(
                        exit_step(opened_link),
                        requested,
                        exited,
                        exited_link,
                        exited_view(recovered),
                    ));
                    assert(setup_recovered(opened_link, failure, requested, exited, Err(error@)));
                    assert(service_opened(initialized_link, negotiated, exited, Err(error@)));
                    assert(link_established(entered, exited, Err(error@)));
                    assert(entry_accepted(sent, exited, Err(error@)));
                }
                Err((error, target))
            },
        }
    }

    /// The settings of the printer's model.
    pub fn settings(&self) -> (settings: &EpsonSpec)
        ensures
            settings == self.settings,
    {
        &self.settings
    }

    /// Checks that the control channel is open, and begins an account of the
    /// requests on it.
    fn open_control(&mut self) -> (open: Result<(), ApplicationError>)
        requires
            old(self).ready(),
        ensures
            final(self).ready(),
            final(self).state() == old(self).state(),
            final(self).control.link.target == old(self).control.link.target,
            final(self).settings == old(self).settings,
            match open {
                Ok(_) => {
                    &&& channel_open(old(self).state().link, old(self).state().channel)
                    &&& final(self).control.ready()
                    &&& final(self).control.exchanges() == Seq::<Exchange>::empty()
                    &&& final(self).control.origin() == (Origin {
                        link: old(self).state().link,
                        transfers: old(self).state().transfers,
                        record: old(self).control.link.target.kept(),
                        channel: old(self).state().channel,
                    })
                },
                Err(error) => {
                    &&& !channel_open(old(self).state().link, old(self).state().channel)
                    &&& error@ == ApplicationErrorView::D4(
                        D4ErrorView::UnknownChannel { channel: old(self).state().channel },
                    )
                },
            },
    {
        if let Err(error) = self.control.link.machine.require_open(self.control.channel) {
            return Err(ApplicationError::D4(error));
        }
        self.control.begin_account();
        Ok(())
    }

    /// Reads the printer's device identifier.
    pub fn read_identity(&mut self) -> (identity: Result<PrinterIdentity, ApplicationError>)
        requires
            old(self).ready(),
        ensures
            final(self).ready(),
            final(self).settings == old(self).settings,
            record_kept(old(self).control.link.target, final(self).control.link.target),
            identity matches Ok(found) ==> found.well_formed(),
            runs_on_channel(
                old(self).state(),
                final(self).state(),
                identity_run(),
                match identity {
                    Ok(found) => Ok(found@),
                    Err(error) => Err(error@),
                },
            ),
    {
        if let Err(error) = self.open_control() {
            return Err(error);
        }
        let result = EpsonController::new(&mut self.control, &self.settings).read_identity();
        let ghost made = replies_since(Seq::empty(), self.control.exchanges());
        match result {
            Ok(identity) => Ok(identity),
            Err(error) => Err(ApplicationError::Epson(error)),
        }
    }

    /// Reads the printer's raw Epson status response without changing printer state.
    pub fn read_status(&mut self) -> (status: Result<Vec<u8>, ApplicationError>)
        requires
            old(self).ready(),
        ensures
            final(self).ready(),
            final(self).settings == old(self).settings,
            record_kept(old(self).control.link.target, final(self).control.link.target),
            runs_on_channel(
                old(self).state(),
                final(self).state(),
                status_run(),
                match status {
                    Ok(found) => Ok(found@),
                    Err(error) => Err(error@),
                },
            ),
    {
        if let Err(error) = self.open_control() {
            return Err(error);
        }
        let result = EpsonController::new(&mut self.control, &self.settings).read_status();
        let ghost made = replies_since(Seq::empty(), self.control.exchanges());
        match result {
            Ok(status) => Ok(status),
            Err(error) => Err(ApplicationError::Epson(error)),
        }
    }

    /// Reads addresses, one after the other.
    pub fn read_eeprom(&mut self, addresses: &[u16]) -> (found: Result<
        Vec<EepromReadReply>,
        ApplicationError,
    >)
        requires
            old(self).ready(),
        ensures
            final(self).ready(),
            final(self).settings == old(self).settings,
            record_kept(old(self).control.link.target, final(self).control.link.target),
            runs_on_channel(
                old(self).state(),
                final(self).state(),
                eeprom_run(old(self).settings@, addresses@),
                match found {
                    Ok(found) => Ok(found@),
                    Err(error) => Err(error@),
                },
            ),
    {
        if let Err(error) = self.open_control() {
            return Err(error);
        }
        let result = EpsonController::new(&mut self.control, &self.settings).read_eeprom(addresses);
        let ghost made = replies_since(Seq::empty(), self.control.exchanges());
        match result {
            Ok(found) => Ok(found),
            Err(error) => Err(ApplicationError::Epson(error)),
        }
    }

    /// Reads every address in the selected model's bounded EEPROM range.
    pub fn dump_eeprom(&mut self) -> (image: Result<EepromImage, ApplicationError>)
        requires
            old(self).ready(),
        ensures
            final(self).ready(),
            final(self).settings == old(self).settings,
            record_kept(old(self).control.link.target, final(self).control.link.target),
            image_read(
                old(self).state(),
                final(self).state(),
                match image {
                    Ok(image) => Ok(image@),
                    Err(error) => Err(error@),
                },
            ),
    {
        let ghost before = self.state();
        let low: u16 = self.settings.memory_low;
        let high: u16 = self.settings.memory_high;
        let length: usize = if low <= high {
            (high - low) as usize + 1
        } else {
            0
        };
        let mut bytes: Vec<u8> = Vec::new();
        while bytes.len() < length
            invariant
                self.ready(),
                self.settings == old(self).settings,
                before == old(self).state(),
                low == self.settings.memory_low,
                high == self.settings.memory_high,
                length == if low <= high {
                    high - low + 1
                } else {
                    0
                },
                bytes@.len() <= length,
                same_session(before, self.state()),
                record_kept(old(self).control.link.target, self.control.link.target),
                values_read(before, self.state(), bytes@),
            decreases length - bytes.len(),
        {
            let address: u16 = low + bytes.len() as u16;
            let ghost middle = self.state();
            let ghost values = bytes@;
            let addresses: Vec<u16> = vec![address];
            let found = self.read_eeprom(addresses.as_slice());
            proof {
                assert(addresses@ =~= seq![(before.settings.memory_low + values.len()) as u16]);
            }
            match found {
                Err(error) => {
                    return Err(error);
                },
                Ok(found) => {
                    proof {
                        lemma_one_read(middle, self.state(), address, found@);
                    }
                    bytes.push(found[0].value);
                    proof {
                        assert(bytes@.drop_last() =~= values);
                        assert(found@ =~= seq![
                            EepromReadReply { address, value: bytes@.last() },
                        ]);
                    }
                },
            }
        }
        Ok(EepromImage { model: self.settings.model.clone(), start_address: low, bytes })
    }

    /// Reads a complete backup and validates every requested update before any
    /// EEPROM write is sent.
    pub fn prepare_eeprom_write(&mut self, updates: &[(u16, u8)]) -> (plan: Result<
        EepromWritePlan,
        ApplicationError,
    >)
        requires
            old(self).ready(),
        ensures
            final(self).ready(),
            final(self).settings == old(self).settings,
            record_kept(old(self).control.link.target, final(self).control.link.target),
            match plan_problem(old(self).settings@, updates@) {
                Some(problem) => {
                    &&& final(self).state() == old(self).state()
                    &&& plan matches Err(error) && error@ == ApplicationErrorView::WritePlan(
                        problem,
                    )
                },
                None => {
                    &&& plan matches Ok(plan) ==> plan.updates@ == updates@
                    &&& image_read(
                        old(self).state(),
                        final(self).state(),
                        match plan {
                            Ok(plan) => Ok(plan.backup@),
                            Err(error) => Err(error@),
                        },
                    )
                },
            },
    {
        if let Err(error) = validate_eeprom_updates(&self.settings, updates) {
            return Err(error);
        }
        match self.dump_eeprom() {
            Ok(backup) => Ok(
                EepromWritePlan { backup, updates: vstd::slice::slice_to_vec(updates) },
            ),
            Err(error) => Err(error),
        }
    }

    /// Applies a previously prepared plan with read-back verification and
    /// rollback of completed updates if a write fails.
    pub fn apply_eeprom_write(&mut self, plan: &EepromWritePlan) -> (done: Result<
        (),
        ApplicationError,
    >)
        requires
            old(self).ready(),
        ensures
            final(self).ready(),
            final(self).settings == old(self).settings,
            record_kept(old(self).control.link.target, final(self).control.link.target),
            match plan_refusal(old(self).settings@, plan.backup@, plan.updates@) {
                Some(problem) => {
                    &&& final(self).state() == old(self).state()
                    &&& done matches Err(error) && error@ == ApplicationErrorView::WritePlan(
                        problem,
                    )
                },
                None => runs_on_channel(
                    old(self).state(),
                    final(self).state(),
                    update_run(
                        old(self).settings@,
                        plan.updates@,
                        backup_values(plan.backup@, plan.updates@),
                    ),
                    match done {
                        Ok(_) => Ok(()),
                        Err(error) => Err(error@),
                    },
                ),
            },
    {
        if !same_text(plan.backup.model.as_str(), self.settings.model.as_str())
            || plan.backup.start_address != self.settings.memory_low || plan.backup.bytes.len()
            != model_range_length(&self.settings) {
            return Err(
                ApplicationError::WritePlan(
                    String::from_str("backup does not match the active model range"),
                ),
            );
        }
        if let Err(error) = validate_eeprom_updates(&self.settings, plan.updates.as_slice()) {
            return Err(error);
        }
        let mut originals: Vec<(u16, u8)> = Vec::new();
        while originals.len() < plan.updates.len()
            invariant
                originals@.len() <= plan.updates@.len(),
                backup_fits(self.settings@, plan.backup@),
                plan_problem(self.settings@, plan.updates@) is None,
                originals@ == backup_values(plan.backup@, plan.updates@).take(
                    originals@.len() as int,
                ),
            decreases plan.updates.len() - originals.len(),
        {
            let index: usize = originals.len();
            let address: u16 = plan.updates[index].0;
            proof {
                lemma_valid_updates(
                    self.settings@,
                    plan.updates@,
                    plan.updates@.len() as int,
                    index as int,
                );
            }
            match plan.backup.value_at(address) {
                Some(value) => {
                    originals.push((address, value));
                },
                None => {
                    return Err(
                        ApplicationError::WritePlan(
                            String::from_str("backup does not contain EEPROM address ").concat(
                                hex_lower(address as u64, 4).as_str(),
                            ),
                        ),
                    );
                },
            }
        }
        proof {
            assert(originals@ =~= backup_values(plan.backup@, plan.updates@));
        }
        if let Err(error) = self.open_control() {
            return Err(error);
        }
        let options = EepromWriteOptions { verify_read_back: true, atomic: true };
        let result = EpsonController::new(
            &mut self.control,
            &self.settings,
        ).write_eeprom_with_originals(
            plan.updates.as_slice(),
            Some(originals.as_slice()),
            options,
        );
        let ghost made = replies_since(Seq::empty(), self.control.exchanges());
        match result {
            Ok(_) => Ok(()),
            Err(error) => Err(ApplicationError::Epson(error)),
        }
    }

    /// Closes the control channel and terminates the D4 conversation.
    pub fn shutdown(&mut self) -> (done: Result<(), ApplicationError>)
        requires
            old(self).ready(),
        ensures
            final(self).ready(),
            final(self).settings == old(self).settings,
            record_kept(old(self).control.link.target, final(self).control.link.target),
            same_session(old(self).state(), final(self).state()),
            match done {
                Ok(_) => session_closed(old(self).state(), final(self).state(), None, None),
                Err(error) => match error@ {
                    ApplicationErrorView::Shutdown { close, exit } => {
                        &&& close is Some || exit is Some
                        &&& session_closed(old(self).state(), final(self).state(), close, exit)
                    },
                    _ => false,
                },
            },
    {
        let close: Option<D4Error> = match self.control.link.close_channel(self.control.channel) {
            Ok(_) => None,
            Err(error) => Some(error),
        };
        let ghost middle = self.state();
        let exit: Option<D4Error> = match self.control.link.exit() {
            Ok(_) => None,
            Err(error) => Some(error),
        };
        proof {
            assert(ends_conversation(
                middle,
                self.state(),
                optional_error(exit),
            ));
        }
        match (close, exit) {
            (None, None) => Ok(()),
            (close, exit) => Err(ApplicationError::Shutdown { close, exit }),
        }
    }

    /// Gives the transport back.
    pub fn into_transport(self) -> (target: T)
        ensures
            target == self.control.link.target,
            target.transfers() == self.state().transfers,
    {
        self.control.link.target()
    }
}

/// A session that can read but not write.
pub struct ReadOnlyEpsonD4Session<'a, T> {
    pub session: &'a mut EpsonD4Session<T>,
}

impl<'a, T: ByteTransport> ReadOnlyEpsonD4Session<'a, T> {
    /// Lends out a session for reading.
    pub fn new(session: &'a mut EpsonD4Session<T>) -> (reader: Self)
        ensures
            *reader.session == *old(session),
            *final(reader.session) == *final(session),
    {
        ReadOnlyEpsonD4Session { session }
    }

    /// The settings of the printer's model.
    pub fn settings(&self) -> (settings: &EpsonSpec)
        ensures
            *settings == old(self.session).settings,
    {
        &self.session.settings
    }

    /// Reads the printer's device identifier.
    pub fn read_identity(&mut self) -> (identity: Result<PrinterIdentity, ApplicationError>)
        requires
            old(self).session.ready(),
        ensures
            final(self).session.ready(),
            final(self).session.settings == old(self).session.settings,
            record_kept(
                old(self).session.control.link.target,
                final(self).session.control.link.target,
            ),
            *final(final(self).session) == *final(old(self).session),
            identity matches Ok(found) ==> found.well_formed(),
            runs_on_channel(
                old(self).session.state(),
                final(self).session.state(),
                identity_run(),
                match identity {
                    Ok(found) => Ok(found@),
                    Err(error) => Err(error@),
                },
            ),
    {
        self.session.read_identity()
    }

    /// Reads the printer's raw Epson status response without changing printer state.
    pub fn read_status(&mut self) -> (status: Result<Vec<u8>, ApplicationError>)
        requires
            old(self).session.ready(),
        ensures
            final(self).session.ready(),
            final(self).session.settings == old(self).session.settings,
            record_kept(
                old(self).session.control.link.target,
                final(self).session.control.link.target,
            ),
            *final(final(self).session) == *final(old(self).session),
            runs_on_channel(
                old(self).session.state(),
                final(self).session.state(),
                status_run(),
                match status {
                    Ok(found) => Ok(found@),
                    Err(error) => Err(error@),
                },
            ),
    {
        self.session.read_status()
    }

    /// Reads addresses, one after the other.
    pub fn read_eeprom(&mut self, addresses: &[u16]) -> (found: Result<
        Vec<EepromReadReply>,
        ApplicationError,
    >)
        requires
            old(self).session.ready(),
        ensures
            final(self).session.ready(),
            final(self).session.settings == old(self).session.settings,
            record_kept(
                old(self).session.control.link.target,
                final(self).session.control.link.target,
            ),
            *final(final(self).session) == *final(old(self).session),
            runs_on_channel(
                old(self).session.state(),
                final(self).session.state(),
                eeprom_run(old(self).session.settings@, addresses@),
                match found {
                    Ok(found) => Ok(found@),
                    Err(error) => Err(error@),
                },
            ),
    {
        self.session.read_eeprom(addresses)
    }

    /// Reads every address in the selected model's bounded EEPROM range.
    pub fn dump_eeprom(&mut self) -> (image: Result<EepromImage, ApplicationError>)
        requires
            old(self).session.ready(),
        ensures
            final(self).session.ready(),
            final(self).session.settings == old(self).session.settings,
            record_kept(
                old(self).session.control.link.target,
                final(self).session.control.link.target,
            ),
            *final(final(self).session) == *final(old(self).session),
            image_read(
                old(self).session.state(),
                final(self).session.state(),
                match image {
                    Ok(image) => Ok(image@),
                    Err(error) => Err(error@),
                },
            ),
    {
        self.session.dump_eeprom()
    }
}

/// A plan that was prepared in a session is never refused there: its backup
/// covers the range of the model, and its updates are valid.
pub proof fn prepared_plans_are_accepted(
    before: SessionView,
    after: SessionView,
    backup: ImageView,
    updates: Seq<(u16, u8)>,
)
    requires
        plan_problem(before.settings, updates) is None,
        image_read(before, after, Ok(backup)),
    ensures
        plan_refusal(before.settings, backup, updates) is None,
{
    lemma_valid_updates(before.settings, updates, updates.len() as int, 0);
}

/// The values that a plan falls back on are those that its backup holds for
/// the addresses of its updates.
pub proof fn originals_come_from_the_backup(
    settings: SpecView,
    backup: ImageView,
    updates: Seq<(u16, u8)>,
    index: int,
)
    requires
        plan_refusal(settings, backup, updates) is None,
        0 <= index < updates.len(),
    ensures
        backup_values(backup, updates)[index].0 == updates[index].0,
        image_value(backup, updates[index].0) == Some(backup_values(backup, updates)[index].1),
{
    lemma_valid_updates(settings, updates, updates.len() as int, index);
}

/// A plan that fails after some updates writes the values of its backup over
/// them again, the latest first.
pub proof fn failed_plans_write_their_backup_back(
    settings: SpecView,
    backup: ImageView,
    updates: Seq<(u16, u8)>,
    completed: int,
)
    requires
        plan_refusal(settings, backup, updates) is None,
        0 <= completed <= updates.len(),
    ensures
        restores(backup_values(backup, updates), updates.take(completed)).len() == completed,
        forall|i: int|
            0 <= i < completed ==> {
                let undone = #[trigger] restores(
                    backup_values(backup, updates),
                    updates.take(completed),
                )[i];
                &&& undone.0 == updates[completed - 1 - i].0
                &&& image_value(backup, undone.0) == Some(undone.1)
            },
{
    let originals = backup_values(backup, updates);
    proper_updates_are_accepted(settings, updates);
    completed_updates_are_undone(originals, updates, completed);
    assert forall|i: int| 0 <= i < completed implies {
        let undone = #[trigger] restores(originals, updates.take(completed))[i];
        &&& undone.0 == updates[completed - 1 - i].0
        &&& image_value(backup, undone.0) == Some(undone.1)
    } by {
        originals_come_from_the_backup(settings, backup, updates, completed - 1 - i);
    }
}

/// A plan is carried out write by write, and each value is read back before the next one
/// is written: a plan whose writes all go through makes two requests for each update, in
/// order, and succeeds.
pub proof fn plans_are_read_back(
    settings: SpecView,
    updates: Seq<(u16, u8)>,
    originals: Seq<(u16, u8)>,
    replies: Seq<Reply>,
    index: int,
)
    requires
        forall|i: int|
            0 <= i < updates.len() ==> goes_through(
                settings,
                #[trigger] updates[i],
                true,
                replies.skip(i * 2),
            ),
        0 <= index < updates.len(),
    ensures
        ({
            let run = update_run(settings, updates, originals)(replies);
            &&& run.result is Ok
            &&& run.requests.len() == updates.len() * 2
            &&& run.requests[index * 2] == write_request(
                settings,
                updates[index].0,
                updates[index].1,
            )->Ok_0
            &&& run.requests[2 * index + 1] == read_request(settings, updates[index].0)->Ok_0
        }),
{
    assert forall|i: int| 0 <= i < updates.len() implies goes_through(
        settings,
        #[trigger] updates[i],
        true,
        replies.skip(i * write_steps(true)),
    ) by {
        assert(goes_through(settings, updates[i], true, replies.skip(i * 2)));
    }
    writes_are_made_in_order(settings, updates, true, replies);
    let run = writes_run(settings, updates, true, replies);
    assert(run.requests[index * write_steps(true)] == write_request(
        settings,
        updates[index].0,
        updates[index].1,
    )->Ok_0);
}

/// A plan that cannot be finished puts back the values that its backup holds: after the
/// requests up to the failure come the writes of those values, the latest first.
pub proof fn unfinished_plans_are_undone(
    settings: SpecView,
    backup: ImageView,
    updates: Seq<(u16, u8)>,
    replies: Seq<Reply>,
    failed: int,
)
    requires
        plan_refusal(settings, backup, updates) is None,
        0 <= failed < updates.len(),
        forall|i: int|
            0 <= i < failed ==> goes_through(
                settings,
                #[trigger] updates[i],
                true,
                replies.skip(i * write_steps(true)),
            ),
        write_run(
            settings,
            updates[failed],
            true,
            replies.skip(failed * write_steps(true)),
        ).result is Err,
    ensures
        ({
            let made = writes_run(settings, updates, true, replies).requests;
            let undone = Seq::new(
                failed as nat,
                |i: int|
                    (
                        updates[failed - 1 - i].0,
                        backup.bytes[updates[failed - 1 - i].0 - backup.start_address],
                    ),
            );
            let run = update_run(settings, updates, backup_values(backup, updates))(replies);
            &&& run.requests == made + writes_run(
                settings,
                undone,
                true,
                replies.skip(made.len() as int),
            ).requests
            &&& run.result is Err
        }),
{
    let originals = backup_values(backup, updates);
    proper_updates_are_accepted(settings, updates);
    failed_updates_are_rolled_back(settings, updates, originals, true, replies, failed);
    let undone = Seq::new(failed as nat, |i: int| originals[failed - 1 - i]);
    assert forall|i: int| 0 <= i < failed implies #[trigger] undone[i] == (
        updates[failed - 1 - i].0,
        backup.bytes[updates[failed - 1 - i].0 - backup.start_address],
    ) by {
        let place = failed - 1 - i;
        assert(settings.memory_low <= updates[place].0 <= settings.memory_high);
    }
    assert(undone =~= Seq::new(
        failed as nat,
        |i: int|
            (
                updates[failed - 1 - i].0,
                backup.bytes[updates[failed - 1 - i].0 - backup.start_address],
            ),
    ));
}

/// Each byte of an image was read from the address that it stands for: the lowest of the
/// model and one more for each byte before it.
pub proof fn images_are_read_address_by_address(
    before: SessionView,
    after: SessionView,
    values: Seq<u8>,
    index: int,
)
    requires
        values_read(before, after, values),
        0 <= index < values.len(),
    ensures
        exists|earlier: SessionView, later: SessionView|
            #[trigger] runs_on_channel(
                earlier,
                later,
                eeprom_run(before.settings, seq![(before.settings.memory_low + index) as u16]),
                Ok(
                    seq![
                        EepromReadReply {
                            address: (before.settings.memory_low + index) as u16,
                            value: values[index],
                        },
                    ],
                ),
            ),
    decreases values.len(),
{
    let middle = choose|middle: SessionView|
        values_read(before, middle, values.drop_last()) && #[trigger] runs_on_channel(
            middle,
            after,
            eeprom_run(
                before.settings,
                seq![(before.settings.memory_low + values.len() - 1) as u16],
            ),
            Ok(
                seq![
                    EepromReadReply {
                        address: (before.settings.memory_low + values.len() - 1) as u16,
                        value: values.last(),
                    },
                ],
            ),
        );
    if index < values.len() - 1 {
        images_are_read_address_by_address(before, middle, values.drop_last(), index);
        assert(values.drop_last()[index] == values[index]);
    }
}

/// The requests for the identifier and the status, byte by byte: two letters, the length
/// of what follows and a one.
pub proof fn inquiries_byte_by_byte(replies: Seq<Reply>)
    ensures
        identity_run()(replies).requests == seq![seq![0x64u8, 0x69u8, 1u8, 0u8, 1u8]],
        identity_run()(replies).result == identity_result(replies[0]),
        status_run()(replies).requests == seq![seq![0x73u8, 0x74u8, 1u8, 0u8, 1u8]],
        replies[0] matches Ok(response) ==> status_run()(replies).result == Ok::<
            Seq<u8>,
            EpsonErrorView,
        >(response),
        replies[0] matches Err(message) ==> status_run()(replies).result == Err::<
            Seq<u8>,
            EpsonErrorView,
        >(EpsonErrorView::Control(message)),
{
}

} // verus!
