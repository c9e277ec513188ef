//! Epson control sessions over an IEEE 1284.4 link, and the plans and images
//! that guard writes to the EEPROM.
use crate::channel::ChannelId;
use crate::controller::{epson_error_text, operation_updates, EpsonError, EpsonErrorView};
use crate::driver::completes;
use crate::epson::{
    declared_resets, merged_resets, merged_view, reset_pairs, target_name, CounterResetTarget, EpsonSpec, SpecView,
};
use crate::identity::{
    detected_model_of, field_of_identity, in_series, series_are_left_out, IdentityView,
    PrinterIdentity,
};
use crate::link::{
    d4_error_text, exit_step, initial_link, initialize_step, open_service_step, D4Error,
    D4ErrorView, LinkView, OutcomeView,
};
use crate::platform::{
    lemma_record_chain, lemma_record_one, lemma_record_untouched, record_kept, ByteTransport,
    Transfer, TransportError, TransportEvent,
};
use crate::scan::{find_bytes, occurs, occurs_at};
use crate::text::{
    debug_quoted, debug_text, dec, dec_text, hex_lower, hex_text, prefixed_hex, same_text,
};
use vstd::prelude::*;

verus! {

/// Session-scoped guard for the first persistent write to a connected printer.
///
/// A UI must obtain a backup choice before it can dispatch its first write.
/// Selecting a backup is not enough by itself: callers only record it after
/// the EEPROM image has been saved successfully.
#[derive(Clone, Copy, Debug, PartialEq, Eq, Structural)]
pub struct FirstWriteBackupGate {
    resolved: bool,
}

impl Default for FirstWriteBackupGate {
    fn default() -> (gate: Self)
        ensures
            !gate.resolved(),
    {
        FirstWriteBackupGate { resolved: false }
    }
}

impl FirstWriteBackupGate {
    /// The user has decided about a backup.
    pub closed spec fn resolved(self) -> bool {
        self.resolved
    }

    /// Returns whether the caller must show the EEPROM-backup choice.
    pub fn requires_backup_choice(self) -> (required: bool)
        ensures
            required == !self.resolved(),
    {
        !self.resolved
    }

    /// Records that the user successfully saved an EEPROM backup.
    pub fn record_backup_saved(&mut self)
        ensures
            final(self).resolved(),
    {
        self.resolved = true;
    }

    /// Records that the user explicitly chose to continue without a backup.
    ///
    /// The UI must make this an intentional, separate acknowledgement rather
    /// than treating a canceled save dialog as a decline.
    pub fn record_backup_declined(&mut self)
        ensures
            final(self).resolved(),
    {
        self.resolved = true;
    }
}

/// Failure while composing the transport, D4, and Epson layers.
pub enum ApplicationError {
    Transport(TransportError),
    D4(D4Error),
    SetupRecovered { setup: D4Error },
    SetupRecovery { setup: D4Error, recovery: D4Error },
    Shutdown { close: Option<D4Error>, exit: Option<D4Error> },
    Epson(EpsonError),
    WritePlan(String),
    /// A USB interface could not be opened.
    Usb(String),
    EntryReplyMissing,
    EntryReplyInvalid,
}

/// The contents of a failure.
pub enum ApplicationErrorView {
    Transport(Seq<char>),
    D4(D4ErrorView),
    SetupRecovered { setup: D4ErrorView },
    SetupRecovery { setup: D4ErrorView, recovery: D4ErrorView },
    Shutdown { close: Option<D4ErrorView>, exit: Option<D4ErrorView> },
    Epson(EpsonErrorView),
    WritePlan(Seq<char>),
    Usb(Seq<char>),
    EntryReplyMissing,
    EntryReplyInvalid,
}

/// The contents of an optional link failure.
pub open spec fn optional_error(error: Option<D4Error>) -> Option<D4ErrorView> {
    match error {
        Some(error) => Some(error@),
        None => None,
    }
}

impl View for ApplicationError {
    type V = ApplicationErrorView;

    open spec fn view(&self) -> ApplicationErrorView {
        match *self {
            ApplicationError::Transport(error) => ApplicationErrorView::Transport(error@),
            ApplicationError::D4(error) => ApplicationErrorView::D4(error@),
            ApplicationError::SetupRecovered { setup } => ApplicationErrorView::SetupRecovered {
                setup: setup@,
            },
            ApplicationError::SetupRecovery { setup, recovery } =>
                ApplicationErrorView::SetupRecovery { setup: setup@, recovery: recovery@ },
            ApplicationError::Shutdown { close, exit } => ApplicationErrorView::Shutdown {
                close: optional_error(close),
                exit: optional_error(exit),
            },
            ApplicationError::Epson(error) => ApplicationErrorView::Epson(error@),
            ApplicationError::WritePlan(message) => ApplicationErrorView::WritePlan(message@),
            ApplicationError::Usb(message) => ApplicationErrorView::Usb(message@),
            ApplicationError::EntryReplyMissing => ApplicationErrorView::EntryReplyMissing,
            ApplicationError::EntryReplyInvalid => ApplicationErrorView::EntryReplyInvalid,
        }
    }
}

/// The words for a failure.
pub open spec fn application_error_text(error: ApplicationErrorView) -> Seq<char> {
    match error {
        ApplicationErrorView::Transport(message) => "transport error: "@ + message,
        ApplicationErrorView::D4(error) => "D4 error: "@ + d4_error_text(error),
        ApplicationErrorView::SetupRecovered { setup } => "D4 service setup failed: "@
            + d4_error_text(setup) + "; orderly D4 exit succeeded"@,
        ApplicationErrorView::SetupRecovery { setup, recovery } => "D4 service setup failed: "@
            + d4_error_text(setup) + "; orderly D4 exit also failed: "@ + d4_error_text(recovery),
        ApplicationErrorView::Shutdown { close: Some(close), exit: Some(exit) } =>
            "D4 control channel close failed: "@ + d4_error_text(close)
            + "; D4 conversation exit also failed: "@ + d4_error_text(exit),
        ApplicationErrorView::Shutdown { close: Some(close), exit: None } =>
            "D4 control channel close failed: "@ + d4_error_text(close)
            + "; D4 conversation exit succeeded"@,
        ApplicationErrorView::Shutdown { close: None, exit: Some(exit) } =>
            "D4 control channel close succeeded; D4 conversation exit failed: "@ + d4_error_text(
            exit,
        ),
        ApplicationErrorView::Shutdown { close: None, exit: None } =>
            "D4 control channel close succeeded; D4 conversation exit succeeded"@,
        ApplicationErrorView::Epson(error) => "Epson error: "@ + epson_error_text(error),
        ApplicationErrorView::WritePlan(message) => "invalid EEPROM write plan: "@ + message,
        ApplicationErrorView::Usb(message) => "USB error: "@ + message,
        ApplicationErrorView::EntryReplyMissing => "Epson D4 entry reply was not received"@,
        ApplicationErrorView::EntryReplyInvalid => "Epson D4 entry reply was not recognized"@,
    }
}

impl ApplicationError {
    /// Describes the failure.
    pub fn message(&self) -> (text: String)
        ensures
            text@ == application_error_text(self@),
    {
        match self {
            ApplicationError::Transport(error) => String::from_str("transport error: ").concat(
                error.message.as_str(),
            ),
            ApplicationError::D4(error) => String::from_str("D4 error: ").concat(
                error.message().as_str(),
            ),
            ApplicationError::SetupRecovered { setup } => String::from_str(
                "D4 service setup failed: ",
            ).concat(setup.message().as_str()).concat("; orderly D4 exit succeeded"),
            ApplicationError::SetupRecovery { setup, recovery } => String::from_str(
                "D4 service setup failed: ",
            ).concat(setup.message().as_str()).concat("; orderly D4 exit also failed: ").concat(
                recovery.message().as_str(),
            ),
            ApplicationError::Shutdown { close: Some(close), exit: Some(exit) } =>
                String::from_str("D4 control channel close failed: ").concat(
                close.message().as_str(),
            ).concat("; D4 conversation exit also failed: ").concat(exit.message().as_str()),
            ApplicationError::Shutdown { close: Some(close), exit: None } => String::from_str(
                "D4 control channel close failed: ",
            ).concat(close.message().as_str()).concat("; D4 conversation exit succeeded"),
            ApplicationError::Shutdown { close: None, exit: Some(exit) } => String::from_str(
                "D4 control channel close succeeded; D4 conversation exit failed: ",
            ).concat(exit.message().as_str()),
            ApplicationError::Shutdown { close: None, exit: None } => String::from_str(
                "D4 control channel close succeeded; D4 conversation exit succeeded",
            ),
            ApplicationError::Epson(error) => String::from_str("Epson error: ").concat(
                error.message().as_str(),
            ),
            ApplicationError::WritePlan(message) => String::from_str(
                "invalid EEPROM write plan: ",
            ).concat(message.as_str()),
            ApplicationError::Usb(message) => String::from_str("USB error: ").concat(
                message.as_str(),
            ),
            ApplicationError::EntryReplyMissing => String::from_str(
                "Epson D4 entry reply was not received",
            ),
            ApplicationError::EntryReplyInvalid => String::from_str(
                "Epson D4 entry reply was not recognized",
            ),
        }
    }
}

/// The command that makes an Epson printer speak IEEE 1284.4.
pub open spec fn entry_command() -> Seq<u8> {
    seq![
        0x00u8, 0x00u8, 0x00u8, 0x1bu8, 0x01u8,
        0x40u8, 0x45u8, 0x4au8, 0x4cu8, 0x20u8, 0x31u8, 0x32u8, 0x38u8, 0x34u8, 0x2eu8, 0x34u8, 0x0au8,
        0x40u8, 0x45u8, 0x4au8, 0x4cu8, 0x0au8,
        0x40u8, 0x45u8, 0x4au8, 0x4cu8, 0x0au8,
    ]
}

/// The bytes with which the printer answers the entry command.
pub open spec fn entry_reply() -> Seq<u8> {
    seq![0x00u8, 0x00u8, 0x00u8, 0x08u8, 0x01u8, 0x00u8, 0xc5u8, 0x00u8]
}

/// The command that makes an Epson printer speak IEEE 1284.4.
pub fn epson_d4_entry_command() -> (command: Vec<u8>)
    ensures
        command@ == entry_command(),
{
    let command: Vec<u8> = vec![
        0x00, 0x00, 0x00, 0x1b, 0x01,
        0x40, 0x45, 0x4a, 0x4c, 0x20, 0x31, 0x32, 0x38, 0x34, 0x2e, 0x34, 0x0a,
        0x40, 0x45, 0x4a, 0x4c, 0x0a,
        0x40, 0x45, 0x4a, 0x4c, 0x0a,
    ];
    proof {
        assert(command@ =~= entry_command());
    }
    command
}

/// The bytes with which the printer answers the entry command.
pub fn epson_d4_entry_reply() -> (reply: Vec<u8>)
    ensures
        reply@ == entry_reply(),
{
    let reply: Vec<u8> = vec![0x00, 0x00, 0x00, 0x08, 0x01, 0x00, 0xc5, 0x00];
    proof {
        assert(reply@ =~= entry_reply());
    }
    reply
}

/// How many reads the answer to the entry command may take.
pub const ENTRY_REPLY_READ_LIMIT: usize = 5;

/// How many bytes of the answer to the entry command are asked for at a time.
pub const ENTRY_REPLY_READ_BYTES: usize = 256;

/// Outcome of the Epson D4 entry probe.
#[derive(Clone, Copy, Debug, PartialEq, Eq, Structural)]
pub enum EpsonD4EntryProbeResult {
    /// The Epson entry reply was recognized.
    Recognized,
    /// The device replied, but its bytes did not match the Epson entry reply.
    Unrecognized { received_bytes: usize },
}

/// What has been received of the answer to the entry command, and the outcome
/// once there is one.
pub struct EntryWait {
    pub received: Seq<u8>,
    pub outcome: Option<Result<(), ApplicationErrorView>>,
}

/// Where a number of reads leads.
pub open spec fn entry_wait(reads: Seq<Transfer>, count: nat) -> EntryWait
    decreases count,
{
    if count == 0 {
        EntryWait { received: seq![], outcome: None }
    } else {
        let before = entry_wait(reads, (count - 1) as nat);
        if before.outcome is Some {
            before
        } else {
            match reads[count - 1] {
                Transfer::Received { outcome: Ok(bytes), .. } => {
                    let received = before.received + bytes;
                    EntryWait {
                        received,
                        outcome: if bytes.len() > 0 && occurs(received, entry_reply()) {
                            Some(Ok(()))
                        } else {
                            None
                        },
                    }
                },
                Transfer::Received { outcome: Err(message), .. } => EntryWait {
                    received: before.received,
                    outcome: Some(Err(ApplicationErrorView::Transport(message))),
                },
                _ => EntryWait { received: before.received, outcome: None },
            }
        }
    }
}

/// The transfer asked for as much of the answer as is asked for at a time.
pub open spec fn entry_asked(transfer: Transfer) -> bool {
    transfer matches Transfer::Received { limit, .. } && limit == ENTRY_REPLY_READ_BYTES
}

/// The answer to the entry command has been read: until there was an outcome, or
/// as often as allowed.
pub open spec fn entry_read(before: Seq<Transfer>, after: Seq<Transfer>) -> bool {
    let reads = after.skip(before.len() as int);
    let count = reads.len();
    &&& before.len() <= after.len() && before == after.take(before.len() as int)
    &&& count <= ENTRY_REPLY_READ_LIMIT
    &&& forall|i: int| 0 <= i < count ==> entry_asked(#[trigger] reads[i])
    &&& forall|earlier: nat| earlier < count ==> (#[trigger] entry_wait(reads, earlier)).outcome
        is None
    &&& entry_wait(reads, count).outcome is None ==> count == ENTRY_REPLY_READ_LIMIT
}

/// Where all reads after some transfers lead.
pub open spec fn entry_state(before: Seq<Transfer>, after: Seq<Transfer>) -> EntryWait {
    let reads = after.skip(before.len() as int);
    entry_wait(reads, reads.len())
}

/// The answer to the entry command has been awaited.
pub open spec fn entry_awaited(
    before: Seq<Transfer>,
    after: Seq<Transfer>,
    result: Result<(), ApplicationErrorView>,
) -> bool {
    let state = entry_state(before, after);
    &&& entry_read(before, after)
    &&& result == match state.outcome {
        Some(outcome) => outcome,
        None => Err(
            if state.received.len() > 0 {
                ApplicationErrorView::EntryReplyInvalid
            } else {
                ApplicationErrorView::EntryReplyMissing
            },
        ),
    }
}

/// Whether a printer answers the entry command has been found out: the command
/// was sent, and its answer read, and nothing else was sent.
pub open spec fn entry_probed(
    before: Seq<Transfer>,
    after: Seq<Transfer>,
    result: Result<EpsonD4EntryProbeResult, ApplicationErrorView>,
) -> bool {
    &&& before.len() < after.len() && before == after.take(before.len() as int)
    &&& after[before.len() as int] matches Transfer::Sent { bytes, failure } && bytes
        == entry_command() && match failure {
        Some(message) => after.len() == before.len() + 1 && result == Err::<
            EpsonD4EntryProbeResult,
            ApplicationErrorView,
        >(ApplicationErrorView::Transport(message)),
        None => {
            let sent = after.take(before.len() as int + 1);
            let state = entry_state(sent, after);
            &&& entry_read(sent, after)
            &&& result == match state.outcome {
                Some(Ok(_)) => Ok(EpsonD4EntryProbeResult::Recognized),
                Some(Err(error)) => Err(error),
                None => Ok(
                    EpsonD4EntryProbeResult::Unrecognized {
                        received_bytes: state.received.len() as usize,
                    },
                ),
            }
        },
    }
}

/// The contents of a result without a value.
pub open spec fn unit_view(result: Result<(), ApplicationError>) -> Result<
    (),
    ApplicationErrorView,
> {
    match result {
        Ok(_) => Ok(()),
        Err(error) => Err(error@),
    }
}

/// The reads made so far decide where they lead.
proof fn lemma_entry_wait(reads: Seq<Transfer>, more: Seq<Transfer>, count: nat)
    requires
        count <= reads.len() <= more.len(),
        forall|i: int| 0 <= i < reads.len() ==> #[trigger] more[i] == reads[i],
    ensures
        entry_wait(more, count) == entry_wait(reads, count),
    decreases count,
{
    if count > 0 {
        lemma_entry_wait(reads, more, (count - 1) as nat);
    }
}

/// Reads the answer to the entry command, and tells whether it was recognized
/// and how many bytes came.
fn read_entry_reply<T: ByteTransport>(target: &mut T) -> (result: Result<
    (bool, usize),
    TransportError,
>)
    ensures
        record_kept(*old(target), *final(target)),
        entry_read(old(target).transfers(), final(target).transfers()),
        ({
            let state = entry_state(old(target).transfers(), final(target).transfers());
            match result {
                Ok((true, _)) => state.outcome == Some(Ok::<(), ApplicationErrorView>(())),
                Ok((false, length)) => state.outcome is None && length == state.received.len(),
                Err(error) => state.outcome == Some(
                    Err::<(), ApplicationErrorView>(ApplicationErrorView::Transport(error@)),
                ),
            }
        }),
{
    let ghost before = target.transfers();
    let expected = epson_d4_entry_reply();
    let mut received: Vec<u8> = Vec::new();
    let mut count: usize = 0;
    proof {
        assert(before =~= target.transfers().take(before.len() as int));
        assert(target.transfers().skip(before.len() as int) =~= seq![]);
        assert(received@ =~= seq![]);
        lemma_record_untouched(*target);
    }
    while count < ENTRY_REPLY_READ_LIMIT
        invariant
            count <= ENTRY_REPLY_READ_LIMIT,
            expected@ == entry_reply(),
            before == old(target).transfers(),
            record_kept(*old(target), *target),
            before.len() + count == target.transfers().len(),
            before == target.transfers().take(before.len() as int),
            forall|i: int|
                0 <= i < count ==> entry_asked(
                    #[trigger] target.transfers().skip(before.len() as int)[i],
                ),
            forall|earlier: nat|
                earlier <= count ==> (#[trigger] entry_wait(
                    target.transfers().skip(before.len() as int),
                    earlier,
                )).outcome is None,
            entry_wait(target.transfers().skip(before.len() as int), count as nat).received
                == received@,
        decreases ENTRY_REPLY_READ_LIMIT - count,
    {
        let ghost reads = target.transfers().skip(before.len() as int);
        let ghost unread = *target;
        let outcome = target.read(ENTRY_REPLY_READ_BYTES);
        let ghost more = target.transfers().skip(before.len() as int);
        proof {
            lemma_record_one(unread, *target);
            lemma_record_chain(*old(target), unread, *target);
            assert(before =~= target.transfers().take(before.len() as int));
            assert(forall|i: int| 0 <= i < reads.len() ==> #[trigger] more[i] == reads[i]);
            assert forall|earlier: nat| earlier <= count implies (#[trigger] entry_wait(
                more,
                earlier,
            )).outcome is None by {
                lemma_entry_wait(reads, more, earlier);
                assert(entry_wait(reads, earlier).outcome is None);
            }
            lemma_entry_wait(reads, more, count as nat);
            assert(entry_wait(reads, count as nat).outcome is None);
            assert((count + 1 - 1) as nat == count as nat);
        }
        let bytes = match outcome {
            Ok(bytes) => bytes,
            Err(error) => {
                proof {
                    assert(entry_wait(more, (count + 1) as nat).outcome is Some);
                }
                return Err(error);
            },
        };
        let ghost so_far = received@;
        received.extend_from_slice(bytes.as_slice());
        proof {
            assert(received@ =~= so_far + bytes@);
        }
        if bytes.len() > 0 && find_bytes(received.as_slice(), expected.as_slice()).is_some() {
            proof {
                assert(entry_wait(more, (count + 1) as nat).outcome is Some);
            }
            return Ok((true, received.len()));
        }
        count = count + 1;
    }
    Ok((false, received.len()))
}

/// Waits for the answer to the entry command.
pub fn wait_for_entry_reply<T: ByteTransport>(target: &mut T) -> (result: Result<
    (),
    ApplicationError,
>)
    ensures
        record_kept(*old(target), *final(target)),
        entry_awaited(old(target).transfers(), final(target).transfers(), unit_view(result)),
{
    match read_entry_reply(target) {
        Err(error) => Err(ApplicationError::Transport(error)),
        Ok((true, _)) => Ok(()),
        Ok((false, length)) => if length > 0 {
            Err(ApplicationError::EntryReplyInvalid)
        } else {
            Err(ApplicationError::EntryReplyMissing)
        },
    }
}

/// Probes Epson D4 entry without initializing D4.
///
/// The probe sends only the Epson entry exchange. It does not initialize D4,
/// open a service, access EEPROM, write printer state, or reset counters.
pub fn probe_epson_d4_entry<T: ByteTransport>(target: &mut T) -> (result: Result<
    EpsonD4EntryProbeResult,
    ApplicationError,
>)
    ensures
        record_kept(*old(target), *final(target)),
        entry_probed(
            old(target).transfers(),
            final(target).transfers(),
            match result {
                Ok(found) => Ok(found),
                Err(error) => Err(error@),
            },
        ),
{
    let ghost unused = *target;
    let ghost before = target.transfers();
    let command = epson_d4_entry_command();
    let written = target.write_all(command.as_slice());
    let ghost sent = target.transfers();
    proof {
        lemma_record_one(unused, *target);
        assert(before =~= sent.take(before.len() as int));
    }
    if let Err(error) = written {
        return Err(ApplicationError::Transport(error));
    }
    let ghost waiting = *target;
    let answer = read_entry_reply(target);
    proof {
        lemma_record_chain(unused, waiting, *target);
        let after = target.transfers();
        assert(sent =~= after.take(before.len() as int + 1));
        assert(before =~= after.take(before.len() as int));
        assert(after[before.len() as int] == after.take(before.len() as int + 1)[before.len() as int]);
    }
    match answer {
        Err(error) => Err(ApplicationError::Transport(error)),
        Ok((true, _)) => Ok(EpsonD4EntryProbeResult::Recognized),
        Ok((false, received_bytes)) => Ok(
            EpsonD4EntryProbeResult::Unrecognized { received_bytes },
        ),
    }
}

/// The service is opened on an initialized link; where that fails, the
/// conversation is ended in order.
pub open spec fn service_opened(
    link: LinkView,
    before: Seq<Transfer>,
    after: Seq<Transfer>,
    result: Result<(LinkView, ChannelId), ApplicationErrorView>,
) -> bool {
    exists|next: LinkView, between: Seq<Transfer>, opened: Result<ChannelId, D4ErrorView>| {
        &&& #[trigger] completes(
            open_service_step(link, "EPSON-CTRL"@),
            before,
            between,
            next,
            opened_view(opened),
        )
        &&& match opened {
            Ok(channel) => after == between && result == Ok::<
                (LinkView, ChannelId),
                ApplicationErrorView,
            >((next, channel)),
            Err(setup) => setup_recovered(next, setup, between, after, result),
        }
    }
}

/// The outcome of opening a channel.
pub open spec fn opened_view(opened: Result<ChannelId, D4ErrorView>) -> Result<
    OutcomeView,
    D4ErrorView,
> {
    match opened {
        Ok(channel) => Ok(OutcomeView::Opened(channel)),
        Err(error) => Err(error),
    }
}

/// The conversation is ended after a service could not be opened.
pub open spec fn setup_recovered(
    link: LinkView,
    setup: D4ErrorView,
    before: Seq<Transfer>,
    after: Seq<Transfer>,
    result: Result<(LinkView, ChannelId), ApplicationErrorView>,
) -> bool {
    exists|next: LinkView, exit: Option<D4ErrorView>| {
        &&& #[trigger] completes(exit_step(link), before, after, next, exited_view(exit))
        &&& result == Err::<(LinkView, ChannelId), ApplicationErrorView>(
            match exit {
                None => ApplicationErrorView::SetupRecovered { setup },
                Some(recovery) => ApplicationErrorView::SetupRecovery { setup, recovery },
            },
        )
    }
}

/// The outcome of ending a conversation.
pub open spec fn exited_view(exit: Option<D4ErrorView>) -> Result<OutcomeView, D4ErrorView> {
    match exit {
        None => Ok(OutcomeView::Exited),
        Some(error) => Err(error),
    }
}

/// The link is initialized and the service opened.
pub open spec fn link_established(
    before: Seq<Transfer>,
    after: Seq<Transfer>,
    result: Result<(LinkView, ChannelId), ApplicationErrorView>,
) -> bool {
    exists|next: LinkView, between: Seq<Transfer>, failure: Option<D4ErrorView>| {
        &&& #[trigger] completes(
            initialize_step(initial_link()),
            before,
            between,
            next,
            initialized_view(failure),
        )
        &&& match failure {
            Some(error) => after == between && result == Err::<
                (LinkView, ChannelId),
                ApplicationErrorView,
            >(ApplicationErrorView::D4(error)),
            None => service_opened(next, between, after, result),
        }
    }
}

/// The outcome of negotiating a revision.
pub open spec fn initialized_view(failure: Option<D4ErrorView>) -> Result<
    OutcomeView,
    D4ErrorView,
> {
    match failure {
        None => Ok(OutcomeView::Initialized),
        Some(error) => Err(error),
    }
}

/// The entry command is written, its answer awaited, the link initialized and
/// the service opened, up to the first failure.
pub open spec fn session_established(
    before: Seq<Transfer>,
    after: Seq<Transfer>,
    result: Result<(LinkView, ChannelId), ApplicationErrorView>,
) -> bool {
    exists|failure: Option<Seq<char>>| {
        let sent = #[trigger] before.push(Transfer::Sent { bytes: entry_command(), failure });
        match failure {
            Some(message) => after == sent && result == Err::<
                (LinkView, ChannelId),
                ApplicationErrorView,
            >(ApplicationErrorView::Transport(message)),
            None => entry_accepted(sent, after, result),
        }
    }
}

/// The answer to the entry command is awaited, and the link established.
pub open spec fn entry_accepted(
    before: Seq<Transfer>,
    after: Seq<Transfer>,
    result: Result<(LinkView, ChannelId), ApplicationErrorView>,
) -> bool {
    exists|between: Seq<Transfer>, awaited: Result<(), ApplicationErrorView>| {
        &&& #[trigger] entry_awaited(before, between, awaited)
        &&& match awaited {
            Err(error) => after == between && result == Err::<
                (LinkView, ChannelId),
                ApplicationErrorView,
            >(error),
            Ok(_) => link_established(between, after, result),
        }
    }
}

/// A complete, read-only EEPROM image for one resolved model range.
#[derive(Clone, Debug, PartialEq, Eq)]
pub struct EepromImage {
    pub model: String,
    pub start_address: u16,
    pub bytes: Vec<u8>,
}

/// The contents of an image.
pub struct ImageView {
    pub model: Seq<char>,
    pub start_address: u16,
    pub bytes: Seq<u8>,
}

impl View for EepromImage {
    type V = ImageView;

    open spec fn view(&self) -> ImageView {
        ImageView {
            model: self.model@,
            start_address: self.start_address,
            bytes: self.bytes@,
        }
    }
}

/// The value that an image holds for an address.
pub open spec fn image_value(image: ImageView, address: u16) -> Option<u8> {
    if image.start_address <= address < image.start_address + image.bytes.len() {
        Some(image.bytes[address - image.start_address])
    } else {
        None
    }
}

/// The last address of some bytes from an address on; of none it is the first.
///
/// The distance between the two is taken in 16 bits, and the address does not
/// go beyond the largest one.
pub open spec fn last_address(start: u16, length: nat) -> u16 {
    let distance: int = if length == 0 {
        0
    } else {
        (length - 1) % 0x1_0000
    };
    if start + distance > u16::MAX {
        u16::MAX
    } else {
        (start + distance) as u16
    }
}

/// The last address of some bytes from an address on.
pub fn end_of_range(start: u16, length: usize) -> (address: u16)
    ensures
        address == last_address(start, length as nat),
{
    let distance: u16 = (length.saturating_sub(1) % 0x1_0000) as u16;
    match start.checked_add(distance) {
        Some(address) => address,
        None => 0xffff,
    }
}

impl EepromImage {
    /// The last address of the image; of an empty one it is the first.
    pub fn end_address(&self) -> (address: u16)
        ensures
            address == last_address(self@.start_address, self@.bytes.len()),
    {
        end_of_range(self.start_address, self.bytes.len())
    }

    /// The value at an address.
    pub fn value_at(&self, address: u16) -> (value: Option<u8>)
        ensures
            value == image_value(self@, address),
    {
        if address < self.start_address {
            return None;
        }
        let offset: usize = (address - self.start_address) as usize;
        if offset < self.bytes.len() {
            Some(self.bytes[offset])
        } else {
            None
        }
    }
}

/// A model-bounded EEPROM write prepared from a complete read-only backup.
#[derive(Clone, Debug, PartialEq, Eq)]
pub struct EepromWritePlan {
    pub backup: EepromImage,
    pub updates: Vec<(u16, u8)>,
}

/// What a comparison of the connected and the selected model says.
pub open spec fn model_mismatch(identity: IdentityView, expected_model: Seq<char>) -> Option<
    Seq<char>,
> {
    match detected_model_of(identity) {
        Some(model) => if model == expected_model {
            None
        } else {
            Some(
                "printer identity model "@ + debug_quoted(model)
                    + " does not match selected model "@ + debug_quoted(expected_model),
            )
        },
        None => Some(
            "printer identity does not contain a model; selected model is "@ + debug_quoted(
                expected_model,
            ),
        ),
    }
}

/// Verifies that a connected printer's normalized model exactly matches the
/// model selected before a D4 session was opened.
pub fn verify_exact_model(identity: &PrinterIdentity, expected_model: &str) -> (verified: Result<
    (),
    String,
>)
    requires
        identity.well_formed(),
    ensures
        match (verified, model_mismatch(identity@, expected_model@)) {
            (Ok(_), None) => true,
            (Err(message), Some(expected)) => message@ == expected,
            _ => false,
        },
{
    match identity.detected_model() {
        Some(model) => if same_text(model.as_str(), expected_model) {
            Ok(())
        } else {
            Err(
                String::from_str("printer identity model ").concat(
                    debug_text(model.as_str()).as_str(),
                ).concat(" does not match selected model ").concat(
                    debug_text(expected_model).as_str(),
                ),
            )
        },
        None => Err(
            String::from_str(
                "printer identity does not contain a model; selected model is ",
            ).concat(debug_text(expected_model).as_str()),
        ),
    }
}

/// The number of bytes in the range of a model.
pub open spec fn range_length(settings: SpecView) -> nat {
    if settings.memory_low <= settings.memory_high {
        (settings.memory_high - settings.memory_low + 1) as nat
    } else {
        1
    }
}

/// The number of bytes in the range of a model.
pub fn model_range_length(settings: &EpsonSpec) -> (length: usize)
    ensures
        length == range_length(settings@),
        length <= 0x1_0000,
{
    (settings.memory_high as usize).saturating_sub(settings.memory_low as usize) + 1
}

/// The words for a restore image of the wrong size.
pub open spec fn image_size_text(settings: SpecView, actual: nat) -> Seq<char> {
    "EEPROM restore image has "@ + dec_text(actual) + " bytes; model "@ + settings.model
        + " requires exactly "@ + dec_text(range_length(settings)) + " bytes for "@ + prefixed_hex(
        settings.memory_low as nat,
        4,
    ) + "..="@ + prefixed_hex(settings.memory_high as nat, 4)
}

/// Describes a restore image of the wrong size.
pub fn image_size_message(settings: &EpsonSpec, actual: u64) -> (text: String)
    ensures
        text@ == image_size_text(settings@, actual as nat),
{
    String::from_str("EEPROM restore image has ").concat(dec(actual).as_str()).concat(
        " bytes; model ",
    ).concat(settings.model.as_str()).concat(" requires exactly ").concat(
        dec(model_range_length(settings) as u64).as_str(),
    ).concat(" bytes for ").concat(hex_lower(settings.memory_low as u64, 4).as_str()).concat(
        "..=",
    ).concat(hex_lower(settings.memory_high as u64, 4).as_str())
}

/// The updates that write an image from an address on.
pub open spec fn image_updates(start: u16, bytes: Seq<u8>) -> Seq<(u16, u8)> {
    Seq::new(bytes.len(), |i: int| ((start + i) as u16, bytes[i]))
}

/// Expands a complete restore image into model-bounded EEPROM updates.
pub fn restore_eeprom_updates(settings: &EpsonSpec, bytes: &[u8]) -> (updates: Result<
    Vec<(u16, u8)>,
    String,
>)
    ensures
        match updates {
            Ok(updates) => bytes@.len() == range_length(settings@) && updates@ == image_updates(
                settings@.memory_low,
                bytes@,
            ),
            Err(message) => bytes@.len() != range_length(settings@) && message@ == image_size_text(
                settings@,
                bytes@.len(),
            ),
        },
{
    let expected_length: usize = model_range_length(settings);
    if bytes.len() != expected_length {
        return Err(image_size_message(settings, bytes.len() as u64));
    }
    let mut updates: Vec<(u16, u8)> = Vec::new();
    let mut offset: usize = 0;
    while offset < bytes.len()
        invariant
            offset <= bytes@.len(),
            bytes@.len() == range_length(settings@),
            bytes@.len() <= 0x1_0000,
            updates@ == image_updates(settings@.memory_low, bytes@.take(offset as int)),
        decreases bytes.len() - offset,
    {
        updates.push((settings.memory_low + offset as u16, bytes[offset]));
        proof {
            assert(updates@ =~= image_updates(settings@.memory_low, bytes@.take(offset + 1)));
        }
        offset = offset + 1;
    }
    proof {
        assert(bytes@.take(offset as int) =~= bytes@);
    }
    Ok(updates)
}

/// Two updates before a number have the same address.
pub open spec fn repeated(updates: Seq<(u16, u8)>, index: int) -> bool {
    exists|earlier: int|
        0 <= earlier < index && (#[trigger] updates[earlier]).0 == updates[index].0
}

/// What is wrong with an update: it lies outside the range of the model, or an
/// earlier one has the same address.
pub open spec fn update_problem(settings: SpecView, updates: Seq<(u16, u8)>, index: int) -> Option<
    Seq<char>,
> {
    let address = updates[index].0;
    if address < settings.memory_low || address > settings.memory_high {
        Some(
            "EEPROM update address "@ + prefixed_hex(address as nat, 4) + " is outside model range "@
                + prefixed_hex(settings.memory_low as nat, 4) + "..="@ + prefixed_hex(
                settings.memory_high as nat,
                4,
            ),
        )
    } else if repeated(updates, index) {
        Some("EEPROM update address "@ + prefixed_hex(address as nat, 4) + " is duplicated"@)
    } else {
        None
    }
}

/// What keeps updates from being written: that there are none, or what is wrong
/// with the first bad one.
pub open spec fn plan_problem(settings: SpecView, updates: Seq<(u16, u8)>) -> Option<Seq<char>> {
    if updates.len() == 0 {
        Some("at least one EEPROM update is required"@)
    } else {
        first_problem(settings, updates, updates.len() as int)
    }
}

/// What is wrong with the first bad update among the first few.
pub open spec fn first_problem(
    settings: SpecView,
    updates: Seq<(u16, u8)>,
    count: int,
) -> Option<Seq<char>>
    decreases count,
{
    if count <= 0 {
        None
    } else {
        match first_problem(settings, updates, count - 1) {
            Some(problem) => Some(problem),
            None => update_problem(settings, updates, count - 1),
        }
    }
}

proof fn lemma_first_problem(settings: SpecView, updates: Seq<(u16, u8)>, count: int, more: int)
    requires
        0 <= count <= more,
        first_problem(settings, updates, count) is Some,
    ensures
        first_problem(settings, updates, more) == first_problem(settings, updates, count),
    decreases more,
{
    if count < more {
        lemma_first_problem(settings, updates, count, more - 1);
    }
}

fn address_repeated(updates: &[(u16, u8)], index: usize) -> (found: bool)
    requires
        index < updates@.len(),
    ensures
        found == repeated(updates@, index as int),
{
    let mut earlier: usize = 0;
    while earlier < index
        invariant
            earlier <= index < updates@.len(),
            forall|i: int| 0 <= i < earlier ==> (#[trigger] updates@[i]).0 != updates@[index as int].0,
        decreases index - earlier,
    {
        if updates[earlier].0 == updates[index].0 {
            return true;
        }
        earlier = earlier + 1;
    }
    false
}

/// Checks updates before any of them is written: there is at least one, each
/// lies in the range of the model, and no two have the same address.
pub fn validate_eeprom_updates(settings: &EpsonSpec, updates: &[(u16, u8)]) -> (valid: Result<
    (),
    ApplicationError,
>)
    ensures
        match (valid, plan_problem(settings@, updates@)) {
            (Ok(_), None) => true,
            (Err(error), Some(problem)) => error@ == ApplicationErrorView::WritePlan(problem),
            _ => false,
        },
{
    if updates.len() == 0 {
        return Err(
            ApplicationError::WritePlan(
                String::from_str("at least one EEPROM update is required"),
            ),
        );
    }
    let mut index: usize = 0;
    while index < updates.len()
        invariant
            index <= updates@.len(),
            first_problem(settings@, updates@, index as int) is None,
        decreases updates.len() - index,
    {
        let address: u16 = updates[index].0;
        if address < settings.memory_low || address > settings.memory_high {
            proof {
                lemma_first_problem(settings@, updates@, index + 1, updates@.len() as int);
            }
            return Err(
                ApplicationError::WritePlan(
                    String::from_str("EEPROM update address ").concat(
                        hex_lower(address as u64, 4).as_str(),
                    ).concat(" is outside model range ").concat(
                        hex_lower(settings.memory_low as u64, 4).as_str(),
                    ).concat("..=").concat(hex_lower(settings.memory_high as u64, 4).as_str()),
                ),
            );
        }
        if address_repeated(updates, index) {
            proof {
                lemma_first_problem(settings@, updates@, index + 1, updates@.len() as int);
            }
            return Err(
                ApplicationError::WritePlan(
                    String::from_str("EEPROM update address ").concat(
                        hex_lower(address as u64, 4).as_str(),
                    ).concat(" is duplicated"),
                ),
            );
        }
        index = index + 1;
    }
    Ok(())
}

/// The updates that reset a counter family, or the words that say why there are none.
pub open spec fn reset_updates(settings: SpecView, target: CounterResetTarget) -> Result<
    Seq<(u16, u8)>,
    Seq<char>,
> {
    match merged_view(settings, target_name(target)) {
        None => Err(
            "model "@ + settings.model + " has no explicitly declared "@ + target_name(target)
                + " reset bytes"@,
        ),
        Some(operation) => match plan_problem(settings, reset_pairs(operation)) {
            Some(problem) => Err(
                application_error_text(ApplicationErrorView::WritePlan(problem)),
            ),
            None => Ok(reset_pairs(operation)),
        },
    }
}

/// Returns only model bytes with explicitly declared reset values for one
/// semantic counter family.
pub fn declared_counter_reset_updates(settings: &EpsonSpec, target: CounterResetTarget) -> (updates:
    Result<Vec<(u16, u8)>, String>)
    ensures
        match (updates, reset_updates(settings@, target)) {
            (Ok(updates), Ok(expected)) => updates@ == expected,
            (Err(message), Err(expected)) => message@ == expected,
            _ => false,
        },
{
    let operation = match settings.counter_reset(target) {
        Some(operation) => operation,
        None => return Err(
            String::from_str("model ").concat(settings.model.as_str()).concat(
                " has no explicitly declared ",
            ).concat(target.display_name()).concat(" reset bytes"),
        ),
    };
    let updates = operation_updates(&operation);
    match validate_eeprom_updates(settings, updates.as_slice()) {
        Err(error) => Err(error.message()),
        Ok(_) => Ok(updates),
    }
}

/// Status of a cleanup stage after a selected USB operation.
#[derive(Clone, Debug, PartialEq, Eq)]
pub enum UsbCleanupStatus {
    NotAttempted,
    Succeeded,
    Failed(String),
}

/// D4 and USB cleanup outcomes retained even when the requested operation fails.
#[derive(Clone, Debug, PartialEq, Eq)]
pub struct UsbSessionCleanup {
    pub d4_shutdown: UsbCleanupStatus,
    pub usb_close: UsbCleanupStatus,
}

impl UsbSessionCleanup {
    pub fn not_attempted() -> (cleanup: Self)
        ensures
            cleanup.d4_shutdown == UsbCleanupStatus::NotAttempted,
            cleanup.usb_close == UsbCleanupStatus::NotAttempted,
    {
        UsbSessionCleanup {
            d4_shutdown: UsbCleanupStatus::NotAttempted,
            usb_close: UsbCleanupStatus::NotAttempted,
        }
    }
}

/// The contents of a cleanup status.
pub enum CleanupView {
    NotAttempted,
    Succeeded,
    Failed(Seq<char>),
}

impl View for UsbCleanupStatus {
    type V = CleanupView;

    open spec fn view(&self) -> CleanupView {
        match *self {
            UsbCleanupStatus::NotAttempted => CleanupView::NotAttempted,
            UsbCleanupStatus::Succeeded => CleanupView::Succeeded,
            UsbCleanupStatus::Failed(message) => CleanupView::Failed(message@),
        }
    }
}

/// What a failed session setup means for the D4 part of the cleanup: only a
/// setup that got as far as a conversation has one to end.
pub open spec fn setup_cleanup_view(error: ApplicationErrorView) -> CleanupView {
    match error {
        ApplicationErrorView::SetupRecovered { .. } => CleanupView::Succeeded,
        ApplicationErrorView::SetupRecovery { recovery, .. } => CleanupView::Failed(
            d4_error_text(recovery),
        ),
        _ => CleanupView::NotAttempted,
    }
}

/// What a failed session setup means for the D4 part of the cleanup.
pub fn setup_cleanup(error: &ApplicationError) -> (status: UsbCleanupStatus)
    ensures
        status@ == setup_cleanup_view(error@),
{
    match error {
        ApplicationError::SetupRecovered { .. } => UsbCleanupStatus::Succeeded,
        ApplicationError::SetupRecovery { recovery, .. } => UsbCleanupStatus::Failed(
            recovery.message(),
        ),
        _ => UsbCleanupStatus::NotAttempted,
    }
}

/// The status of a cleanup stage that was attempted.
pub open spec fn attempted_view(failure: Option<Seq<char>>) -> CleanupView {
    match failure {
        None => CleanupView::Succeeded,
        Some(message) => CleanupView::Failed(message),
    }
}

/// The status of a cleanup stage that was attempted.
pub fn attempted_cleanup(failure: Option<String>) -> (status: UsbCleanupStatus)
    ensures
        status@ == attempted_view(
            match failure {
                None => None,
                Some(message) => Some(message@),
            },
        ),
{
    match failure {
        None => UsbCleanupStatus::Succeeded,
        Some(message) => UsbCleanupStatus::Failed(message),
    }
}

/// Result and cleanup record for one explicitly selected USB D4 operation.
///
/// `events` is empty unless the caller explicitly enables recording.
#[derive(Debug)]
pub struct SelectedUsbSessionOutcome<T> {
    pub operation: Result<T, String>,
    pub cleanup: UsbSessionCleanup,
    pub events: Vec<TransportEvent>,
}

impl<T> SelectedUsbSessionOutcome<T> {
    /// The outcome where the interface could not be opened: nothing was
    /// attempted on it.
    pub fn not_opened(reason: &str) -> (outcome: Self)
        ensures
            outcome.operation matches Err(message) && message@
                == "could not open selected USB interface: "@ + reason@,
            outcome.cleanup.d4_shutdown@ == CleanupView::NotAttempted,
            outcome.cleanup.usb_close@ == CleanupView::NotAttempted,
            outcome.events@.len() == 0,
    {
        SelectedUsbSessionOutcome {
            operation: Err(
                String::from_str("could not open selected USB interface: ").concat(reason),
            ),
            cleanup: UsbSessionCleanup::not_attempted(),
            events: Vec::new(),
        }
    }

    /// The outcome where the interface behind the stock driver could not be
    /// opened: nothing was attempted on it.
    pub fn native_not_opened(reason: &str) -> (outcome: Self)
        ensures
            outcome.operation matches Err(message) && message@
                == "could not open selected Windows stock-driver interface: "@ + reason@,
            outcome.cleanup.d4_shutdown@ == CleanupView::NotAttempted,
            outcome.cleanup.usb_close@ == CleanupView::NotAttempted,
            outcome.events@.len() == 0,
    {
        SelectedUsbSessionOutcome {
            operation: Err(
                String::from_str("could not open selected Windows stock-driver interface: ").concat(
                    reason,
                ),
            ),
            cleanup: UsbSessionCleanup::not_attempted(),
            events: Vec::new(),
        }
    }

    /// The outcome where the session could not be set up: the interface was
    /// closed again.
    pub fn setup_failed(
        error: &ApplicationError,
        close: Option<String>,
        events: Vec<TransportEvent>,
    ) -> (outcome: Self)
        ensures
            outcome.operation matches Err(message) && message@
                == "Epson D4 session setup failed: "@ + application_error_text(error@),
            outcome.cleanup.d4_shutdown@ == setup_cleanup_view(error@),
            outcome.cleanup.usb_close@ == attempted_view(
                match close {
                    None => None,
                    Some(message) => Some(message@),
                },
            ),
            outcome.events == events,
    {
        SelectedUsbSessionOutcome {
            operation: Err(
                String::from_str("Epson D4 session setup failed: ").concat(
                    error.message().as_str(),
                ),
            ),
            cleanup: UsbSessionCleanup {
                d4_shutdown: setup_cleanup(error),
                usb_close: attempted_cleanup(close),
            },
            events,
        }
    }

    /// The outcome of an operation that was run: what it gave, whatever became
    /// of the session and the interface afterwards.
    pub fn completed(
        operation: Result<T, String>,
        shutdown: Result<(), ApplicationError>,
        close: Option<String>,
        events: Vec<TransportEvent>,
    ) -> (outcome: Self)
        ensures
            outcome.operation == operation,
            outcome.cleanup.d4_shutdown@ == attempted_view(
                match shutdown {
                    Ok(_) => None,
                    Err(error) => Some(application_error_text(error@)),
                },
            ),
            outcome.cleanup.usb_close@ == attempted_view(
                match close {
                    None => None,
                    Some(message) => Some(message@),
                },
            ),
            outcome.events == events,
    {
        let failure: Option<String> = match shutdown {
            Ok(_) => None,
            Err(error) => Some(error.message()),
        };
        SelectedUsbSessionOutcome {
            operation,
            cleanup: UsbSessionCleanup {
                d4_shutdown: attempted_cleanup(failure),
                usb_close: attempted_cleanup(close),
            },
            events,
        }
    }
}

/// A complete image of a model's range is a plan that passes validation, and it
/// writes each address of the range once, with the value of the image.
pub proof fn restored_images_are_valid_plans(settings: SpecView, bytes: Seq<u8>)
    requires
        settings.memory_low <= settings.memory_high,
        bytes.len() == range_length(settings),
    ensures
        plan_problem(settings, image_updates(settings.memory_low, bytes)) is None,
        forall|address: u16|
            settings.memory_low <= address <= settings.memory_high ==> image_updates(
                settings.memory_low,
                bytes,
            )[address - settings.memory_low] == (
                address,
                #[trigger] image_value(
                    ImageView {
                        model: settings.model,
                        start_address: settings.memory_low,
                        bytes,
                    },
                    address,
                )->0,
            ),
{
    lemma_image_is_valid(settings, bytes, bytes.len() as int);
}

proof fn lemma_image_is_valid(settings: SpecView, bytes: Seq<u8>, count: int)
    requires
        settings.memory_low <= settings.memory_high,
        bytes.len() == range_length(settings),
        count <= bytes.len(),
    ensures
        first_problem(settings, image_updates(settings.memory_low, bytes), count) is None,
    decreases count,
{
    if count > 0 {
        lemma_image_is_valid(settings, bytes, count - 1);
    }
}

/// There are updates, they lie in the range of the model, and no two of them
/// have the same address.
pub open spec fn proper_updates(settings: SpecView, updates: Seq<(u16, u8)>) -> bool {
    &&& updates.len() > 0
    &&& forall|i: int|
        0 <= i < updates.len() ==> settings.memory_low <= (#[trigger] updates[i]).0
            <= settings.memory_high
    &&& forall|i: int, j: int|
        0 <= i < j < updates.len() ==> (#[trigger] updates[i]).0 != (#[trigger] updates[j]).0
}

/// Validation accepts updates if there are some, if they lie in the range of the
/// model and if no two of them have the same address, and no other ones.
pub proof fn proper_updates_are_accepted(settings: SpecView, updates: Seq<(u16, u8)>)
    ensures
        plan_problem(settings, updates) is None <==> proper_updates(settings, updates),
{
    if plan_problem(settings, updates) is None {
        assert forall|i: int| 0 <= i < updates.len() implies settings.memory_low <= (
        #[trigger] updates[i]).0 <= settings.memory_high by {
            lemma_no_problem(settings, updates, updates.len() as int, i);
        }
        assert forall|i: int, j: int| 0 <= i < j < updates.len() implies (#[trigger] updates[i]).0
            != (#[trigger] updates[j]).0 by {
            lemma_no_problem(settings, updates, updates.len() as int, j);
        }
    }
    if proper_updates(settings, updates) {
        lemma_proper_updates(settings, updates, updates.len() as int);
    }
}

proof fn lemma_proper_updates(settings: SpecView, updates: Seq<(u16, u8)>, count: int)
    requires
        proper_updates(settings, updates),
        count <= updates.len(),
    ensures
        first_problem(settings, updates, count) is None,
    decreases count,
{
    if count > 0 {
        lemma_proper_updates(settings, updates, count - 1);
    }
}

proof fn lemma_no_problem(settings: SpecView, updates: Seq<(u16, u8)>, count: int, index: int)
    requires
        0 <= index < count,
        first_problem(settings, updates, count) is None,
    ensures
        update_problem(settings, updates, index) is None,
    decreases count,
{
    if index < count - 1 {
        lemma_no_problem(settings, updates, count - 1, index);
    }
}

/// What a reset of a counter family writes is the explicitly declared reset
/// bytes of the model, and passes validation.
pub proof fn declared_resets_are_valid_plans(settings: SpecView, target: CounterResetTarget)
    requires
        reset_updates(settings, target) is Ok,
    ensures
        merged_view(settings, target_name(target)) is Some,
        reset_updates(settings, target)->Ok_0 == reset_pairs(
            merged_view(settings, target_name(target))->0,
        ),
        plan_problem(settings, reset_updates(settings, target)->Ok_0) is None,
{
}

/// Which printer is taken for the selected model: one whose model is the selected
/// name, alone or with the word that Epson appends to it.
pub proof fn only_the_selected_model_is_taken(
    identity: IdentityView,
    model: Seq<char>,
    expected_model: Seq<char>,
)
    requires
        field_of_identity(identity, "MDL"@) == Some(model),
        forall|stem: Seq<char>| expected_model != #[trigger] in_series(stem),
    ensures
        model_mismatch(identity, expected_model) is None <==> model == expected_model || model
            == in_series(expected_model),
{
    series_are_left_out(expected_model);
    series_are_left_out(model);
    if exists|stem: Seq<char>| model == #[trigger] in_series(stem) {
        let stem = choose|stem: Seq<char>| model == #[trigger] in_series(stem);
        series_are_left_out(stem);
    }
}

/// A printer that does not say its model is not taken for any.
pub proof fn unnamed_printers_are_not_taken(identity: IdentityView, expected_model: Seq<char>)
    requires
        field_of_identity(identity, "MDL"@) is None,
    ensures
        model_mismatch(identity, expected_model) is Some,
{
}

/// What an image holds and what restores it: the byte at each place belongs to the
/// address that lies as far behind the first, and a complete image has one byte for
/// each address from the lowest to the highest.
pub proof fn images_go_byte_by_byte(settings: SpecView, bytes: Seq<u8>, place: int)
    requires
        settings.memory_low <= settings.memory_high,
        0 <= place < bytes.len(),
        settings.memory_low + bytes.len() <= 65536,
    ensures
        range_length(settings) == settings.memory_high - settings.memory_low + 1,
        image_updates(settings.memory_low, bytes).len() == bytes.len(),
        image_updates(settings.memory_low, bytes)[place].0 == settings.memory_low + place,
        image_updates(settings.memory_low, bytes)[place].1 == bytes[place],
        image_value(
            ImageView { model: settings.model, start_address: settings.memory_low, bytes },
            (settings.memory_low + place) as u16,
        ) == Some(bytes[place]),
        last_address(settings.memory_low, bytes.len()) == settings.memory_low + bytes.len() - 1,
{
}

/// Of several bad updates the first is named, by its address, and what is wrong with it:
/// that it lies outside the range, or that an earlier update has the same address.
pub proof fn the_first_bad_update_is_named(
    settings: SpecView,
    updates: Seq<(u16, u8)>,
    index: int,
)
    requires
        0 <= index < updates.len(),
        forall|i: int|
            0 <= i < index ==> settings.memory_low <= (#[trigger] updates[i]).0
                <= settings.memory_high,
        forall|i: int, j: int|
            0 <= i < j < index ==> (#[trigger] updates[i]).0 != (#[trigger] updates[j]).0,
    ensures
        !(settings.memory_low <= updates[index].0 <= settings.memory_high) ==> plan_problem(
            settings,
            updates,
        ) == Some(
            "EEPROM update address "@ + ("0x"@ + hex_text(updates[index].0 as nat, 4, false))
                + " is outside model range "@ + ("0x"@ + hex_text(
                settings.memory_low as nat,
                4,
                false,
            )) + "..="@ + ("0x"@ + hex_text(settings.memory_high as nat, 4, false)),
        ),
        settings.memory_low <= updates[index].0 <= settings.memory_high && (exists|earlier: int|
            0 <= earlier < index && (#[trigger] updates[earlier]).0 == updates[index].0)
            ==> plan_problem(settings, updates) == Some(
            "EEPROM update address "@ + ("0x"@ + hex_text(updates[index].0 as nat, 4, false))
                + " is duplicated"@,
        ),
{
    lemma_good_before(settings, updates, index);
    if update_problem(settings, updates, index) is Some {
        lemma_first_problem(settings, updates, index + 1, updates.len() as int);
    }
}

proof fn lemma_good_before(settings: SpecView, updates: Seq<(u16, u8)>, count: int)
    requires
        0 <= count <= updates.len(),
        forall|i: int|
            0 <= i < count ==> settings.memory_low <= (#[trigger] updates[i]).0
                <= settings.memory_high,
        forall|i: int, j: int|
            0 <= i < j < count ==> (#[trigger] updates[i]).0 != (#[trigger] updates[j]).0,
    ensures
        first_problem(settings, updates, count) is None,
    decreases count,
{
    if count > 0 {
        lemma_good_before(settings, updates, count - 1);
    }
}

/// What a reset of a counter family writes: the merged resets of the operations whose
/// description names the family, `waste counter` or `platen pad counter`.
pub proof fn resets_write_the_declared_values(settings: SpecView, target: CounterResetTarget)
    requires
        reset_updates(settings, target) is Ok,
    ensures
        reset_updates(settings, target)->Ok_0 == merged_resets(
            declared_resets(
                settings.memory_operations,
                match target {
                    CounterResetTarget::Waste => "waste counter"@,
                    CounterResetTarget::PlatenPad => "platen pad counter"@,
                },
            ),
        ),
{
    let merged = merged_resets(declared_resets(settings.memory_operations, target_name(target)));
    assert(reset_updates(settings, target)->Ok_0 =~= merged);
}

/// The bytes that some reads brought, one after the other.
pub open spec fn brought(reads: Seq<Transfer>, count: nat) -> Seq<u8>
    decreases count,
{
    if count == 0 {
        seq![]
    } else {
        match reads[count - 1] {
            Transfer::Received { outcome: Ok(bytes), .. } => brought(reads, (count - 1) as nat)
                + bytes,
            _ => brought(reads, (count - 1) as nat),
        }
    }
}

/// The answer to the entry command may come in pieces: it is recognized with the read
/// that completes it, wherever it stands in what all reads brought, and not before.
pub proof fn entry_replies_may_come_in_pieces(reads: Seq<Transfer>, count: nat)
    requires
        forall|i: int|
            0 <= i < count ==> (#[trigger] reads[i] matches Transfer::Received {
                outcome: Ok(bytes),
                ..
            } && bytes.len() > 0),
    ensures
        entry_wait(reads, count).outcome == (if exists|few: nat|
            few <= count && occurs(#[trigger] brought(reads, few), entry_reply()) {
            Some(Ok::<(), ApplicationErrorView>(()))
        } else {
            None
        }),
        entry_wait(reads, count).outcome is None ==> entry_wait(reads, count).received == brought(
            reads,
            count,
        ),
    decreases count,
{
    if count == 0 {
        assert(!occurs(brought(reads, 0), entry_reply())) by {
            if occurs(brought(reads, 0), entry_reply()) {
                let at = choose|at: int| occurs_at(brought(reads, 0), entry_reply(), at);
                assert(occurs_at(brought(reads, 0), entry_reply(), at));
            }
        }
    } else {
        let fewer = (count - 1) as nat;
        entry_replies_may_come_in_pieces(reads, fewer);
        assert(reads[count - 1] is Received);
        if entry_wait(reads, fewer).outcome is Some {
            let few = choose|few: nat|
                few <= fewer && occurs(#[trigger] brought(reads, few), entry_reply());
            assert(few <= count && occurs(brought(reads, few), entry_reply()));
        } else {
            let whole = brought(reads, count);
            assert(entry_wait(reads, count).received == whole);
            if occurs(whole, entry_reply()) {
                assert(count <= count && occurs(brought(reads, count), entry_reply()));
            } else {
                assert forall|few: nat| few <= count implies !occurs(
                    #[trigger] brought(reads, few),
                    entry_reply(),
                ) by {
                    if few < count {
                        assert(few <= fewer);
                    }
                }
            }
        }
    }
}

/// What is told of a failure of two stages: that of the setup before that of the recovery,
/// and that of the close before that of the exit.
pub proof fn failures_of_two_stages_are_put_into_words(first: D4ErrorView, second: D4ErrorView)
    ensures
        application_error_text(
            ApplicationErrorView::SetupRecovery { setup: first, recovery: second },
        ) == "D4 service setup failed: "@ + d4_error_text(first)
            + "; orderly D4 exit also failed: "@ + d4_error_text(second),
        application_error_text(
            ApplicationErrorView::Shutdown { close: Some(first), exit: Some(second) },
        ) == "D4 control channel close failed: "@ + d4_error_text(first)
            + "; D4 conversation exit also failed: "@ + d4_error_text(second),
        application_error_text(
            ApplicationErrorView::Shutdown { close: Some(first), exit: None },
        ) == "D4 control channel close failed: "@ + d4_error_text(first)
            + "; D4 conversation exit succeeded"@,
        application_error_text(
            ApplicationErrorView::Shutdown { close: None, exit: Some(second) },
        ) == "D4 control channel close succeeded; D4 conversation exit failed: "@ + d4_error_text(
            second,
        ),
        setup_cleanup_view(
            ApplicationErrorView::SetupRecovery { setup: first, recovery: second },
        ) == CleanupView::Failed(d4_error_text(second)),
        setup_cleanup_view(ApplicationErrorView::SetupRecovered { setup: first })
            == CleanupView::Succeeded,
{
}

/// The entry command and the answer to it, byte by byte: behind five bytes of escape the
/// words `@EJL 1284.4`, `@EJL` and `@EJL`, each on its own line; and eight bytes.
pub proof fn entry_exchange_byte_by_byte()
    ensures
        entry_command() == seq![0u8, 0u8, 0u8, 0x1bu8, 1u8] + (letters("@EJL 1284.4"@).push(10u8)
            + letters("@EJL"@).push(10u8) + letters("@EJL"@).push(10u8)),
        entry_reply() == seq![0u8, 0u8, 0u8, 8u8, 1u8, 0u8, 0xc5u8, 0u8],
{
    reveal_strlit("@EJL 1284.4");
    reveal_strlit("@EJL");
    let whole = seq![0u8, 0u8, 0u8, 0x1bu8, 1u8] + (letters("@EJL 1284.4"@).push(10u8)
        + letters("@EJL"@).push(10u8) + letters("@EJL"@).push(10u8));
    assert(whole.len() == 27);
    assert(entry_command() =~= whole);
}

/// The bytes of a text in ASCII.
pub open spec fn letters(text: Seq<char>) -> Seq<u8> {
    Seq::new(text.len(), |i: int| text[i] as u8)
}

/// A session that is established began with the entry command, which went out whole, and
/// the answer to it was awaited before anything else was sent.
pub proof fn sessions_begin_with_the_entry_command(
    before: Seq<Transfer>,
    after: Seq<Transfer>,
    link: LinkView,
    channel: ChannelId,
)
    requires
        session_established(
            before,
            after,
            Ok::<(LinkView, ChannelId), ApplicationErrorView>((link, channel)),
        ),
    ensures
        after.len() > before.len() + 1,
        after.take(before.len() as int) == before,
        after[before.len() as int] matches Transfer::Sent { bytes, failure } && bytes
            == entry_command() && failure is None,
        after[before.len() + 1int] is Received,
{
    let expected = Ok::<(LinkView, ChannelId), ApplicationErrorView>((link, channel));
    let failure = choose|failure: Option<Seq<char>>| {
        let sent = #[trigger] before.push(Transfer::Sent { bytes: entry_command(), failure });
        match failure {
            Some(message) => after == sent && expected == Err::<
                (LinkView, ChannelId),
                ApplicationErrorView,
            >(ApplicationErrorView::Transport(message)),
            None => entry_accepted(sent, after, expected),
        }
    };
    let sent = before.push(Transfer::Sent { bytes: entry_command(), failure });
    let (between, awaited) = choose|
        between: Seq<Transfer>,
        awaited: Result<(), ApplicationErrorView>,
    | {
        &&& #[trigger] entry_awaited(sent, between, awaited)
        &&& match awaited {
            Err(error) => after == between && expected == Err::<
                (LinkView, ChannelId),
                ApplicationErrorView,
            >(error),
            Ok(_) => link_established(between, after, expected),
        }
    };
    assert(link_established(between, after, expected));
    lemma_established_extends(between, after, expected);
    let reads = between.skip(sent.len() as int);
    if reads.len() == 0 {
        assert(entry_wait(reads, 0).outcome is None);
        assert(false);
    }
    assert(entry_asked(reads[0]));
    assert(between[sent.len() as int] == reads[0]);
    assert(between.take(sent.len() as int) == sent);
    assert(after.take(between.len() as int) == between);
    assert(after[before.len() as int] == between[before.len() as int]);
    assert(between[before.len() as int] == sent[before.len() as int]);
    assert(after[before.len() + 1int] == between[before.len() + 1int]);
    assert forall|i: int| 0 <= i < before.len() implies after[i] == before[i] by {
        assert(after.take(between.len() as int)[i] == between[i]);
        assert(between.take(sent.len() as int)[i] == sent[i]);
    }
    assert(after.take(before.len() as int) =~= before);
}

proof fn lemma_established_extends(
    before: Seq<Transfer>,
    after: Seq<Transfer>,
    result: Result<(LinkView, ChannelId), ApplicationErrorView>,
)
    requires
        link_established(before, after, result),
        result is Ok,
    ensures
        before.len() <= after.len(),
        after.take(before.len() as int) == before,
{
    let (next, between, failure) = choose|
        next: LinkView,
        between: Seq<Transfer>,
        failure: Option<D4ErrorView>,
    | {
        &&& #[trigger] completes(
            initialize_step(initial_link()),
            before,
            between,
            next,
            initialized_view(failure),
        )
        &&& match failure {
            Some(error) => after == between && result == Err::<
                (LinkView, ChannelId),
                ApplicationErrorView,
            >(ApplicationErrorView::D4(error)),
            None => service_opened(next, between, after, result),
        }
    };
    assert(service_opened(next, between, after, result));
    let (last, middle, opened) = choose|
        last: LinkView,
        middle: Seq<Transfer>,
        opened: Result<ChannelId, D4ErrorView>,
    | {
        &&& #[trigger] completes(
            open_service_step(next, "EPSON-CTRL"@),
            between,
            middle,
            last,
            opened_view(opened),
        )
        &&& match opened {
            Ok(channel) => after == middle && result == Ok::<
                (LinkView, ChannelId),
                ApplicationErrorView,
            >((last, channel)),
            Err(setup) => setup_recovered(last, setup, middle, after, result),
        }
    };
    assert(opened is Ok);
    assert forall|i: int| 0 <= i < before.len() implies after[i] == before[i] by {
        assert(between.take(before.len() as int)[i] == between[i]);
        assert(middle.take(between.len() as int)[i] == middle[i]);
    }
    assert(after.take(before.len() as int) =~= before);
}

/// The answer to the entry command is read at most five times, and 256 bytes at most at a
/// time; reading ends with the answer, or with a failure.
pub proof fn entry_replies_are_awaited_five_times(
    before: Seq<Transfer>,
    after: Seq<Transfer>,
    result: Result<(), ApplicationErrorView>,
    index: int,
)
    requires
        entry_awaited(before, after, result),
    ensures
        before.len() <= after.len() <= before.len() + 5,
        after.take(before.len() as int) == before,
        before.len() <= index < after.len() ==> (after[index] matches Transfer::Received {
            limit,
            ..
        } && limit == 256),
        after.len() < before.len() + 5 ==> (result is Ok || result matches Err(
            ApplicationErrorView::Transport(_),
        )),
{
    let reads = after.skip(before.len() as int);
    if before.len() <= index < after.len() {
        assert(entry_asked(reads[index - before.len()]));
        assert(reads[index - before.len()] == after[index]);
    }
    lemma_entry_outcome(reads, reads.len());
}

proof fn lemma_entry_outcome(reads: Seq<Transfer>, count: nat)
    ensures
        entry_wait(reads, count).outcome matches Some(outcome) ==> outcome is Ok
            || outcome matches Err(ApplicationErrorView::Transport(_)),
    decreases count,
{
    if count > 0 {
        lemma_entry_outcome(reads, (count - 1) as nat);
    }
}

} // verus!
