//! Epson operations over an established control channel.
//!
//! What an operation does is stated as a run: the requests that it makes, in
//! order, and its result, both as a function of the replies that come back.
use crate::command::{
    command_error_text, encode_eeprom_read, encode_eeprom_write, parse_eeprom_read_reply,
    read_request, reply_of, write_request, CommandError, CommandErrorView, EepromReadReply,
};
use crate::epson::{
    merged_view, reset_pairs, target_name, CounterResetTarget, EpsonSpec, MemoryOperation, SpecView,
};
use crate::identity::{
    identity_error_text, identity_of, IdentityErrorView, IdentityParseError, IdentityView,
    PrinterIdentity,
};
use crate::platform::{reply_view, ControlChannel, ControlError, Exchange};
use crate::scan::{
    begins_with, find_bytes, occurs, occurs_at, starts_with_chars, text_between, trim_start_chars,
    white_space, without_leading_space,
};
use crate::text::{characters, hex_lower, hex_text, prefixed_hex, text_from_utf8};
use vstd::prelude::*;
use vstd::utf8::{decode_utf8, valid_utf8};

verus! {

/// Safety controls for EEPROM writes.
#[derive(Clone, Copy, Debug, PartialEq, Eq, Structural)]
pub struct EepromWriteOptions {
    /// Read every value back after its write.
    pub verify_read_back: bool,
    /// Read all original values before writing and restore completed writes if a write fails.
    pub atomic: bool,
}

impl Default for EepromWriteOptions {
    fn default() -> (options: Self)
        ensures
            options.verify_read_back,
            !options.atomic,
    {
        EepromWriteOptions { verify_read_back: true, atomic: false }
    }
}

/// Failure while performing a printer-specific control operation.
#[derive(Clone, PartialEq, Eq)]
pub enum EpsonError {
    Control(ControlError),
    Command(CommandError),
    Identity(IdentityParseError),
    InvalidIdentityResponse,
    AddressMismatch { requested: u16, received: u16 },
    WriteRejected { address: u16 },
    VerificationFailed { address: u16, expected: u8, actual: u8 },
    AtomicWriteFailed { address: u16, reason: String, rollback_error: Option<(u16, String)> },
    OperationUnavailable,
}

/// The contents of a failure.
pub enum EpsonErrorView {
    Control(Seq<char>),
    Command(CommandErrorView),
    Identity(IdentityErrorView),
    InvalidIdentityResponse,
    AddressMismatch { requested: u16, received: u16 },
    WriteRejected { address: u16 },
    VerificationFailed { address: u16, expected: u8, actual: u8 },
    AtomicWriteFailed {
        address: u16,
        reason: Seq<char>,
        rollback_error: Option<(u16, Seq<char>)>,
    },
    OperationUnavailable,
}

impl View for EpsonError {
    type V = EpsonErrorView;

    open spec fn view(&self) -> EpsonErrorView {
        match *self {
            EpsonError::Control(error) => EpsonErrorView::Control(error@),
            EpsonError::Command(error) => EpsonErrorView::Command(error@),
            EpsonError::Identity(error) => EpsonErrorView::Identity(error@),
            EpsonError::InvalidIdentityResponse => EpsonErrorView::InvalidIdentityResponse,
            EpsonError::AddressMismatch { requested, received } =>
                EpsonErrorView::AddressMismatch { requested, received },
            EpsonError::WriteRejected { address } => EpsonErrorView::WriteRejected { address },
            EpsonError::VerificationFailed { address, expected, actual } =>
                EpsonErrorView::VerificationFailed { address, expected, actual },
            EpsonError::AtomicWriteFailed { address, reason, rollback_error } =>
                EpsonErrorView::AtomicWriteFailed {
                address,
                reason: reason@,
                rollback_error: match rollback_error {
                    Some(failure) => Some((failure.0, failure.1@)),
                    None => None,
                },
            },
            EpsonError::OperationUnavailable => EpsonErrorView::OperationUnavailable,
        }
    }
}

/// The words for a failure.
pub open spec fn epson_error_text(error: EpsonErrorView) -> Seq<char> {
    match error {
        EpsonErrorView::Control(message) => "control-channel error: "@ + message,
        EpsonErrorView::Command(error) => "Epson command error: "@ + command_error_text(error),
        EpsonErrorView::Identity(error) => "invalid printer identity: "@ + identity_error_text(
            error,
        ),
        EpsonErrorView::InvalidIdentityResponse => "invalid Epson identity response"@,
        EpsonErrorView::AddressMismatch { requested, received } => "EEPROM response address "@
            + prefixed_hex(received as nat, 4) + " does not match requested "@ + prefixed_hex(
            requested as nat,
            4,
        ),
        EpsonErrorView::WriteRejected { address } => "EEPROM write was rejected at "@
            + prefixed_hex(address as nat, 4),
        EpsonErrorView::VerificationFailed { address, expected, actual } =>
            "EEPROM verification failed at "@ + prefixed_hex(address as nat, 4) + ": expected "@
            + prefixed_hex(expected as nat, 2) + ", got "@ + prefixed_hex(actual as nat, 2),
        EpsonErrorView::AtomicWriteFailed { address, reason, rollback_error } => {
            let failed = "atomic EEPROM write failed at "@ + prefixed_hex(address as nat, 4) + ": "@
                + reason;
            match rollback_error {
                None => failed,
                Some((rollback_address, rollback_reason)) => failed + "; rollback failed at "@
                    + prefixed_hex(rollback_address as nat, 4) + ": "@ + rollback_reason,
            }
        },
        EpsonErrorView::OperationUnavailable => "waste-counter reset is unavailable"@,
    }
}

impl EpsonError {
    /// Describes the failure.
    pub fn message(&self) -> (text: String)
        ensures
            text@ == epson_error_text(self@),
    {
        match self {
            EpsonError::Control(error) => String::from_str("control-channel error: ").concat(
                error.message().as_str(),
            ),
            EpsonError::Command(error) => String::from_str("Epson command error: ").concat(
                error.message().as_str(),
            ),
            EpsonError::Identity(error) => String::from_str("invalid printer identity: ").concat(
                error.message().as_str(),
            ),
            EpsonError::InvalidIdentityResponse => String::from_str(
                "invalid Epson identity response",
            ),
            EpsonError::AddressMismatch { requested, received } => String::from_str(
                "EEPROM response address ",
            ).concat(hex_lower(*received as u64, 4).as_str()).concat(
                " does not match requested ",
            ).concat(hex_lower(*requested as u64, 4).as_str()),
            EpsonError::WriteRejected { address } => String::from_str(
                "EEPROM write was rejected at ",
            ).concat(hex_lower(*address as u64, 4).as_str()),
            EpsonError::VerificationFailed { address, expected, actual } => String::from_str(
                "EEPROM verification failed at ",
            ).concat(hex_lower(*address as u64, 4).as_str()).concat(": expected ").concat(
                hex_lower(*expected as u64, 2).as_str(),
            ).concat(", got ").concat(hex_lower(*actual as u64, 2).as_str()),
            EpsonError::AtomicWriteFailed { address, reason, rollback_error } => {
                let failed = String::from_str("atomic EEPROM write failed at ").concat(
                    hex_lower(*address as u64, 4).as_str(),
                ).concat(": ").concat(reason.as_str());
                match rollback_error {
                    None => failed,
                    Some(failure) => failed.concat("; rollback failed at ").concat(
                        hex_lower(failure.0 as u64, 4).as_str(),
                    ).concat(": ").concat(failure.1.as_str()),
                }
            },
            EpsonError::OperationUnavailable => String::from_str(
                "waste-counter reset is unavailable",
            ),
        }
    }
}

/// What came back for a request: the reply, or the words that describe a failure.
pub type Reply = Result<Seq<u8>, Seq<char>>;

/// The requests that an operation makes and what it gives.
pub struct Run<T> {
    pub requests: Seq<Seq<u8>>,
    pub result: T,
}

/// The replies to the requests made since an earlier point.
pub open spec fn replies_since(before: Seq<Exchange>, after: Seq<Exchange>) -> Seq<Reply> {
    Seq::new((after.len() - before.len()) as nat, |i: int| after[before.len() + i].reply)
}

/// Exactly these requests have been made since an earlier point.
pub open spec fn performed(
    before: Seq<Exchange>,
    after: Seq<Exchange>,
    requests: Seq<Seq<u8>>,
) -> bool {
    &&& after.len() == before.len() + requests.len()
    &&& forall|i: int| 0 <= i < before.len() ==> #[trigger] after[i] == before[i]
    &&& forall|i: int|
        0 <= i < requests.len() ==> #[trigger] after[before.len() + i].request == requests[i]
}

/// What a reply says of an address that was to be read.
pub open spec fn read_result(settings: SpecView, address: u16, reply: Reply) -> Result<
    EepromReadReply,
    EpsonErrorView,
> {
    match reply {
        Err(message) => Err(EpsonErrorView::Control(message)),
        Ok(response) => match reply_of(response, settings.read_address_width) {
            Err(error) => Err(EpsonErrorView::Command(error)),
            Ok(found) => if found.address != address {
                Err(
                    EpsonErrorView::AddressMismatch {
                        requested: address,
                        received: found.address,
                    },
                )
            } else {
                Ok(found)
            },
        },
    }
}

/// Reads one address.
pub open spec fn read_run(settings: SpecView, address: u16, replies: Seq<Reply>) -> Run<
    Result<EepromReadReply, EpsonErrorView>,
> {
    match read_request(settings, address) {
        Err(error) => Run { requests: seq![], result: Err(EpsonErrorView::Command(error)) },
        Ok(request) => Run {
            requests: seq![request],
            result: read_result(settings, address, replies[0]),
        },
    }
}

/// Reads several addresses in order, up to the first failure.
pub open spec fn reads_run(settings: SpecView, addresses: Seq<u16>, replies: Seq<Reply>) -> Run<
    Result<Seq<EepromReadReply>, EpsonErrorView>,
>
    decreases addresses.len(),
{
    if addresses.len() == 0 {
        Run { requests: seq![], result: Ok(seq![]) }
    } else {
        let earlier = reads_run(settings, addresses.drop_last(), replies);
        match earlier.result {
            Err(error) => earlier,
            Ok(found) => {
                let last = read_run(
                    settings,
                    addresses.last(),
                    replies.skip(earlier.requests.len() as int),
                );
                Run {
                    requests: earlier.requests + last.requests,
                    result: match last.result {
                        Err(error) => Err(error),
                        Ok(reply) => Ok(found.push(reply)),
                    },
                }
            },
        }
    }
}

/// The bytes with which a printer accepts a write.
pub open spec fn acceptance() -> Seq<u8> {
    seq![0x3au8, 0x4fu8, 0x4bu8, 0x3bu8]
}

/// Writes one address and, if asked to, reads it back.
pub open spec fn write_run(
    settings: SpecView,
    update: (u16, u8),
    verify: bool,
    replies: Seq<Reply>,
) -> Run<Result<(), EpsonErrorView>> {
    let address = update.0;
    match write_request(settings, address, update.1) {
        Err(error) => Run { requests: seq![], result: Err(EpsonErrorView::Command(error)) },
        Ok(request) => match replies[0] {
            Err(message) => Run {
                requests: seq![request],
                result: Err(EpsonErrorView::Control(message)),
            },
            Ok(response) => if !occurs(response, acceptance()) {
                Run {
                    requests: seq![request],
                    result: Err(EpsonErrorView::WriteRejected { address }),
                }
            } else if !verify {
                Run { requests: seq![request], result: Ok(()) }
            } else {
                let check = read_run(settings, address, replies.skip(1));
                Run {
                    requests: seq![request] + check.requests,
                    result: match check.result {
                        Err(error) => Err(error),
                        Ok(reply) => if reply.value != update.1 {
                            Err(
                                EpsonErrorView::VerificationFailed {
                                    address,
                                    expected: update.1,
                                    actual: reply.value,
                                },
                            )
                        } else {
                            Ok(())
                        },
                    },
                }
            },
        },
    }
}

/// Makes several updates in order, up to the first that fails: its number and
/// its failure.
pub open spec fn writes_run(
    settings: SpecView,
    updates: Seq<(u16, u8)>,
    verify: bool,
    replies: Seq<Reply>,
) -> Run<Option<(int, EpsonErrorView)>>
    decreases updates.len(),
{
    if updates.len() == 0 {
        Run { requests: seq![], result: None }
    } else {
        let earlier = writes_run(settings, updates.drop_last(), verify, replies);
        match earlier.result {
            Some(failure) => earlier,
            None => {
                let last = write_run(
                    settings,
                    updates.last(),
                    verify,
                    replies.skip(earlier.requests.len() as int),
                );
                Run {
                    requests: earlier.requests + last.requests,
                    result: match last.result {
                        Err(error) => Some((updates.len() - 1, error)),
                        Ok(_) => None,
                    },
                }
            },
        }
    }
}

/// The first value listed for an address.
pub open spec fn original_value(originals: Seq<(u16, u8)>, address: u16) -> Option<u8>
    decreases originals.len(),
{
    if originals.len() == 0 {
        None
    } else if originals[0].0 == address {
        Some(originals[0].1)
    } else {
        original_value(originals.drop_first(), address)
    }
}

/// The writes that undo completed updates, the latest first; an update whose
/// original value is not known cannot be undone.
pub open spec fn restores(originals: Seq<(u16, u8)>, completed: Seq<(u16, u8)>) -> Seq<(u16, u8)>
    decreases completed.len(),
{
    if completed.len() == 0 {
        seq![]
    } else {
        let address = completed.last().0;
        let earlier = restores(originals, completed.drop_last());
        match original_value(originals, address) {
            Some(value) => seq![(address, value)] + earlier,
            None => earlier,
        }
    }
}

/// Makes updates; after a failure, completed updates are undone where original
/// values are given, up to the first that cannot be undone.
pub open spec fn guarded_run(
    settings: SpecView,
    updates: Seq<(u16, u8)>,
    originals: Option<Seq<(u16, u8)>>,
    verify: bool,
    replies: Seq<Reply>,
) -> Run<Result<(), EpsonErrorView>> {
    let writes = writes_run(settings, updates, verify, replies);
    match writes.result {
        None => Run { requests: writes.requests, result: Ok(()) },
        Some((index, error)) => match originals {
            None => Run {
                requests: writes.requests,
                result: Err(
                    EpsonErrorView::AtomicWriteFailed {
                        address: updates[index].0,
                        reason: epson_error_text(error),
                        rollback_error: None,
                    },
                ),
            },
            Some(originals) => {
                let undo = restores(originals, updates.take(index));
                let rollback = writes_run(
                    settings,
                    undo,
                    verify,
                    replies.skip(writes.requests.len() as int),
                );
                Run {
                    requests: writes.requests + rollback.requests,
                    result: Err(
                        EpsonErrorView::AtomicWriteFailed {
                            address: updates[index].0,
                            reason: epson_error_text(error),
                            rollback_error: match rollback.result {
                                None => None,
                                Some((place, failure)) => Some(
                                    (undo[place].0, epson_error_text(failure)),
                                ),
                            },
                        },
                    ),
                }
            },
        },
    }
}

/// The addresses of updates.
pub open spec fn update_addresses(updates: Seq<(u16, u8)>) -> Seq<u16> {
    Seq::new(updates.len(), |i: int| updates[i].0)
}

/// Replies as pairs of addresses and values.
pub open spec fn reply_pairs(replies: Seq<EepromReadReply>) -> Seq<(u16, u8)> {
    Seq::new(replies.len(), |i: int| (replies[i].address, replies[i].value))
}

/// Makes updates under the given options.
pub open spec fn write_eeprom_run(
    settings: SpecView,
    updates: Seq<(u16, u8)>,
    options: EepromWriteOptions,
    replies: Seq<Reply>,
) -> Run<Result<(), EpsonErrorView>> {
    if options.atomic {
        let reads = reads_run(settings, update_addresses(updates), replies);
        match reads.result {
            Err(error) => Run { requests: reads.requests, result: Err(error) },
            Ok(found) => {
                let writes = guarded_run(
                    settings,
                    updates,
                    Some(reply_pairs(found)),
                    options.verify_read_back,
                    replies.skip(reads.requests.len() as int),
                );
                Run { requests: reads.requests + writes.requests, result: writes.result }
            },
        }
    } else {
        guarded_run(settings, updates, None, options.verify_read_back, replies)
    }
}

/// The request for the device identifier.
pub open spec fn identity_request() -> Seq<u8> {
    seq![0x64u8, 0x69u8, 0x01u8, 0x00u8, 0x01u8]
}

/// The request for the printer status.
pub open spec fn status_request() -> Seq<u8> {
    seq![0x73u8, 0x74u8, 0x01u8, 0x00u8, 0x01u8]
}

/// What a reply says of the device identifier.
pub open spec fn identity_result(reply: Reply) -> Result<IdentityView, EpsonErrorView> {
    match reply {
        Err(message) => Err(EpsonErrorView::Control(message)),
        Ok(response) => {
            let prefix = "@EJL ID"@;
            let text = decode_utf8(response);
            if !valid_utf8(response) || !begins_with(text, prefix) {
                Err(EpsonErrorView::InvalidIdentityResponse)
            } else {
                match identity_of(without_leading_space(text.skip(prefix.len() as int))) {
                    Err(error) => Err(EpsonErrorView::Identity(error)),
                    Ok(identity) => Ok(identity),
                }
            }
        },
    }
}

/// Takes the device identifier out of a response.
pub fn parse_identity_response(response: &[u8]) -> (identity: Result<PrinterIdentity, EpsonError>)
    ensures
        match (identity, identity_result(Ok(response@))) {
            (Ok(identity), Ok(expected)) => identity@ == expected && identity.well_formed(),
            (Err(error), Err(expected)) => error@ == expected,
            _ => false,
        },
{
    let text = match text_from_utf8(response) {
        Some(text) => text,
        None => return Err(EpsonError::InvalidIdentityResponse),
    };
    let chars = characters(text.as_str());
    let prefix = characters("@EJL ID");
    if !starts_with_chars(chars.as_slice(), prefix.as_slice()) {
        return Err(EpsonError::InvalidIdentityResponse);
    }
    let rest = vstd::slice::slice_subrange(chars.as_slice(), prefix.len(), chars.len());
    let start: usize = trim_start_chars(rest);
    let identifier = text_between(rest, start, rest.len());
    proof {
        assert(rest@ =~= text@.skip(prefix@.len() as int));
        assert(identifier@ =~= rest@.skip(start as int));
    }
    match PrinterIdentity::parse(identifier.as_str()) {
        Ok(identity) => Ok(identity),
        Err(error) => Err(EpsonError::Identity(error)),
    }
}

/// Takes the value of an address out of a response.
pub fn parse_read_response(settings: &EpsonSpec, address: u16, response: &[u8]) -> (reply: Result<
    EepromReadReply,
    EpsonError,
>)
    ensures
        match (reply, read_result(settings@, address, Ok(response@))) {
            (Ok(reply), Ok(expected)) => reply == expected,
            (Err(error), Err(expected)) => error@ == expected,
            _ => false,
        },
{
    match parse_eeprom_read_reply(response, settings.read_address_width) {
        Err(error) => Err(EpsonError::Command(error)),
        Ok(reply) => if reply.address != address {
            Err(EpsonError::AddressMismatch { requested: address, received: reply.address })
        } else {
            Ok(reply)
        },
    }
}

/// Whether a printer accepts a write in its response.
pub fn write_accepted(response: &[u8]) -> (accepted: bool)
    ensures
        accepted == occurs(response@, acceptance()),
{
    let pattern: [u8; 4] = [0x3a, 0x4f, 0x4b, 0x3b];
    proof {
        assert(pattern@ =~= acceptance());
    }
    find_bytes(response, &pattern).is_some()
}

/// Epson operations over an already established control channel.
pub struct EpsonController<'a, C> {
    pub channel: &'a mut C,
    pub settings: &'a EpsonSpec,
}

impl<'a, C: ControlChannel> EpsonController<'a, C> {
    /// The requests that have been made on the channel, with their replies.
    pub open spec fn exchanges(&self) -> Seq<Exchange> {
        self.channel.exchanges()
    }

    pub fn new(channel: &'a mut C, settings: &'a EpsonSpec) -> (controller: Self)
        ensures
            controller.settings == settings,
            *controller.channel == *old(channel),
            *final(controller.channel) == *final(channel),
    {
        EpsonController { channel, settings }
    }

    /// Requests and parses the printer's IEEE 1284 device ID.
    pub fn read_identity(&mut self) -> (identity: Result<PrinterIdentity, EpsonError>)
        requires
            old(self).channel.ready(),
        ensures
            final(self).channel.ready(),
            final(self).channel.origin() == old(self).channel.origin(),
            final(self).settings == old(self).settings,
            *final(final(self).channel) == *final(old(self).channel),
            performed(old(self).exchanges(), final(self).exchanges(), seq![identity_request()]),
            match (
                identity,
                identity_result(replies_since(old(self).exchanges(), final(self).exchanges())[0]),
            ) {
                (Ok(identity), Ok(expected)) => identity@ == expected && identity.well_formed(),
                (Err(error), Err(expected)) => error@ == expected,
                _ => false,
            },
    {
        match self.simple_request([0x64, 0x69]) {
            Err(error) => Err(EpsonError::Control(error)),
            Ok(response) => parse_identity_response(response.as_slice()),
        }
    }

    /// Requests the printer's status and hands out the response as it is.
    pub fn read_status(&mut self) -> (status: Result<Vec<u8>, EpsonError>)
        requires
            old(self).channel.ready(),
        ensures
            final(self).channel.ready(),
            final(self).channel.origin() == old(self).channel.origin(),
            final(self).settings == old(self).settings,
            *final(final(self).channel) == *final(old(self).channel),
            performed(old(self).exchanges(), final(self).exchanges(), seq![status_request()]),
            match (status, replies_since(old(self).exchanges(), final(self).exchanges())[0]) {
                (Ok(status), Ok(response)) => status@ == response,
                (Err(error), Err(message)) => error@ == EpsonErrorView::Control(message),
                _ => false,
            },
    {
        match self.simple_request([0x73, 0x74]) {
            Err(error) => Err(EpsonError::Control(error)),
            Ok(response) => Ok(response),
        }
    }

    /// Sends a command whose payload is a single one.
    fn simple_request(&mut self, command: [u8; 2]) -> (reply: Result<Vec<u8>, ControlError>)
        requires
            old(self).channel.ready(),
        ensures
            final(self).channel.ready(),
            final(self).channel.origin() == old(self).channel.origin(),
            final(self).settings == old(self).settings,
            *final(final(self).channel) == *final(old(self).channel),
            performed(
                old(self).exchanges(),
                final(self).exchanges(),
                seq![command@ + seq![0x01u8, 0x00u8, 0x01u8]],
            ),
            reply_view(reply) == replies_since(old(self).exchanges(), final(self).exchanges())[0],
            command@ == seq![0x64u8, 0x69u8] ==> command@ + seq![0x01u8, 0x00u8, 0x01u8]
                == identity_request(),
            command@ == seq![0x73u8, 0x74u8] ==> command@ + seq![0x01u8, 0x00u8, 0x01u8]
                == status_request(),
    {
        let request: [u8; 5] = [command[0], command[1], 0x01, 0x00, 0x01];
        proof {
            assert(request@ =~= command@ + seq![0x01u8, 0x00u8, 0x01u8]);
            assert(command@ == seq![0x64u8, 0x69u8] ==> command@ + seq![0x01u8, 0x00u8, 0x01u8]
                =~= identity_request());
            assert(command@ == seq![0x73u8, 0x74u8] ==> command@ + seq![0x01u8, 0x00u8, 0x01u8]
                =~= status_request());
        }
        self.channel.request(&request)
    }

    /// Reads the requested EEPROM addresses in order.
    pub fn read_eeprom(&mut self, addresses: &[u16]) -> (found: Result<
        Vec<EepromReadReply>,
        EpsonError,
    >)
        requires
            old(self).channel.ready(),
        ensures
            final(self).channel.ready(),
            final(self).channel.origin() == old(self).channel.origin(),
            final(self).settings == old(self).settings,
            *final(final(self).channel) == *final(old(self).channel),
            ({
                let replies = replies_since(old(self).exchanges(), final(self).exchanges());
                let run = reads_run(old(self).settings@, addresses@, replies);
                &&& performed(old(self).exchanges(), final(self).exchanges(), run.requests)
                &&& match (found, run.result) {
                    (Ok(found), Ok(expected)) => found@ == expected,
                    (Err(error), Err(expected)) => error@ == expected,
                    _ => false,
                }
            }),
    {
        let mut found: Vec<EepromReadReply> = Vec::new();
        let mut index: usize = 0;
        let ghost start = self.exchanges();
        let ghost settings = self.settings@;
        proof {
            assert(addresses@.take(0) =~= seq![]);
            assert(found@ =~= seq![]);
        }
        while index < addresses.len()
            invariant
                index <= addresses@.len(),
                self.channel.ready(),
                self.channel.origin() == old(self).channel.origin(),
                self.settings == old(self).settings,
                *final(self.channel) == *final(old(self).channel),
                start == old(self).exchanges(),
                settings == old(self).settings@,
                ({
                    let run = reads_run(
                        settings,
                        addresses@.take(index as int),
                        replies_since(start, self.exchanges()),
                    );
                    &&& performed(start, self.exchanges(), run.requests)
                    &&& run.result == Ok::<Seq<EepromReadReply>, EpsonErrorView>(found@)
                }),
            decreases addresses.len() - index,
        {
            let ghost middle = self.exchanges();
            let reply = self.read_eeprom_address(addresses[index]);
            proof {
                let earlier = addresses@.take(index as int);
                let longer = addresses@.take(index + 1);
                let head = reads_run(settings, earlier, replies_since(start, middle));
                let replies = replies_since(start, self.exchanges());
                let last = read_run(
                    settings,
                    addresses@[index as int],
                    replies_since(middle, self.exchanges()),
                );
                assert(longer.drop_last() =~= earlier);
                lemma_performed_in_turn(
                    start,
                    middle,
                    self.exchanges(),
                    head.requests,
                    last.requests,
                );
                lemma_reads_need_no_more(
                    settings,
                    earlier,
                    replies_since(start, middle),
                    replies,
                );
            }
            match reply {
                Err(error) => {
                    proof {
                        lemma_first_read_error(
                            settings,
                            addresses@,
                            replies_since(start, self.exchanges()),
                            index + 1,
                        );
                    }
                    return Err(error);
                },
                Ok(reply) => {
                    found.push(reply);
                },
            }
            index = index + 1;
        }
        proof {
            assert(addresses@.take(index as int) =~= addresses@);
        }
        Ok(found)
    }

    fn read_eeprom_address(&mut self, address: u16) -> (reply: Result<EepromReadReply, EpsonError>)
        requires
            old(self).channel.ready(),
        ensures
            final(self).channel.ready(),
            final(self).channel.origin() == old(self).channel.origin(),
            final(self).settings == old(self).settings,
            *final(final(self).channel) == *final(old(self).channel),
            ({
                let replies = replies_since(old(self).exchanges(), final(self).exchanges());
                let run = read_run(old(self).settings@, address, replies);
                &&& performed(old(self).exchanges(), final(self).exchanges(), run.requests)
                &&& match (reply, run.result) {
                    (Ok(reply), Ok(expected)) => reply == expected,
                    (Err(error), Err(expected)) => error@ == expected,
                    _ => false,
                }
            }),
    {
        let request = match encode_eeprom_read(self.settings, address) {
            Ok(request) => request,
            Err(error) => return Err(EpsonError::Command(error)),
        };
        match self.channel.request(request.as_slice()) {
            Err(error) => Err(EpsonError::Control(error)),
            Ok(response) => parse_read_response(self.settings, address, response.as_slice()),
        }
    }

    fn write_eeprom_address(&mut self, address: u16, value: u8, verify_read_back: bool) -> (done:
        Result<(), EpsonError>)
        requires
            old(self).channel.ready(),
        ensures
            final(self).channel.ready(),
            final(self).channel.origin() == old(self).channel.origin(),
            final(self).settings == old(self).settings,
            *final(final(self).channel) == *final(old(self).channel),
            ({
                let replies = replies_since(old(self).exchanges(), final(self).exchanges());
                let run = write_run(
                    old(self).settings@,
                    (address, value),
                    verify_read_back,
                    replies,
                );
                &&& performed(old(self).exchanges(), final(self).exchanges(), run.requests)
                &&& match (done, run.result) {
                    (Ok(_), Ok(_)) => true,
                    (Err(error), Err(expected)) => error@ == expected,
                    _ => false,
                }
            }),
    {
        let ghost start = self.exchanges();
        let request = match encode_eeprom_write(self.settings, address, value) {
            Ok(request) => request,
            Err(error) => return Err(EpsonError::Command(error)),
        };
        let response = match self.channel.request(request.as_slice()) {
            Ok(response) => response,
            Err(error) => return Err(EpsonError::Control(error)),
        };
        if !write_accepted(response.as_slice()) {
            return Err(EpsonError::WriteRejected { address });
        }
        if !verify_read_back {
            return Ok(());
        }
        let ghost middle = self.exchanges();
        let check = self.read_eeprom_address(address);
        proof {
            let replies = replies_since(start, self.exchanges());
            assert(replies.skip(1) =~= replies_since(middle, self.exchanges()));
            assert(replies[0] == reply_view(Ok(response)));
            let check_run = read_run(
                old(self).settings@,
                address,
                replies_since(middle, self.exchanges()),
            );
            lemma_performed_in_turn(
                start,
                middle,
                self.exchanges(),
                seq![request@],
                check_run.requests,
            );
        }
        match check {
            Err(error) => Err(error),
            Ok(reply) => if reply.value != value {
                Err(
                    EpsonError::VerificationFailed { address, expected: value, actual: reply.value },
                )
            } else {
                Ok(())
            },
        }
    }

    /// Makes updates in order until one fails.
    fn write_all(&mut self, updates: &[(u16, u8)], verify_read_back: bool) -> (failure: Option<
        (usize, EpsonError),
    >)
        requires
            old(self).channel.ready(),
        ensures
            final(self).channel.ready(),
            final(self).channel.origin() == old(self).channel.origin(),
            final(self).settings == old(self).settings,
            *final(final(self).channel) == *final(old(self).channel),
            ({
                let replies = replies_since(old(self).exchanges(), final(self).exchanges());
                let run = writes_run(old(self).settings@, updates@, verify_read_back, replies);
                &&& performed(old(self).exchanges(), final(self).exchanges(), run.requests)
                &&& match (failure, run.result) {
                    (None, None) => true,
                    (Some(failure), Some(expected)) => failure.0 == expected.0 && failure.1@
                        == expected.1 && failure.0 < updates@.len(),
                    _ => false,
                }
            }),
    {
        let mut index: usize = 0;
        let ghost start = self.exchanges();
        let ghost settings = self.settings@;
        proof {
            assert(updates@.take(0) =~= seq![]);
        }
        while index < updates.len()
            invariant
                index <= updates@.len(),
                self.channel.ready(),
                self.channel.origin() == old(self).channel.origin(),
                self.settings == old(self).settings,
                *final(self.channel) == *final(old(self).channel),
                start == old(self).exchanges(),
                settings == old(self).settings@,
                ({
                    let run = writes_run(
                        settings,
                        updates@.take(index as int),
                        verify_read_back,
                        replies_since(start, self.exchanges()),
                    );
                    &&& performed(start, self.exchanges(), run.requests)
                    &&& run.result is None
                }),
            decreases updates.len() - index,
        {
            let ghost middle = self.exchanges();
            let update: (u16, u8) = updates[index];
            let done = self.write_eeprom_address(update.0, update.1, verify_read_back);
            proof {
                let earlier = updates@.take(index as int);
                let longer = updates@.take(index + 1);
                let head = writes_run(
                    settings,
                    earlier,
                    verify_read_back,
                    replies_since(start, middle),
                );
                let replies = replies_since(start, self.exchanges());
                let last = write_run(
                    settings,
                    update,
                    verify_read_back,
                    replies_since(middle, self.exchanges()),
                );
                assert(longer.drop_last() =~= earlier);
                lemma_performed_in_turn(
                    start,
                    middle,
                    self.exchanges(),
                    head.requests,
                    last.requests,
                );
                lemma_writes_need_no_more(
                    settings,
                    earlier,
                    verify_read_back,
                    replies_since(start, middle),
                    replies,
                );
            }
            if let Err(error) = done {
                proof {
                    lemma_first_write_error(
                        settings,
                        updates@,
                        verify_read_back,
                        replies_since(start, self.exchanges()),
                        index + 1,
                    );
                }
                return Some((index, error));
            }
            index = index + 1;
        }
        proof {
            assert(updates@.take(index as int) =~= updates@);
        }
        None
    }

    /// Makes updates and, after a failure, undoes the completed ones where
    /// their original values are given.
    pub fn write_eeprom_with_originals(
        &mut self,
        updates: &[(u16, u8)],
        originals: Option<&[(u16, u8)]>,
        options: EepromWriteOptions,
    ) -> (done: Result<(), EpsonError>)
        requires
            old(self).channel.ready(),
        ensures
            final(self).channel.ready(),
            final(self).channel.origin() == old(self).channel.origin(),
            final(self).settings == old(self).settings,
            *final(final(self).channel) == *final(old(self).channel),
            ({
                let replies = replies_since(old(self).exchanges(), final(self).exchanges());
                let run = guarded_run(
                    old(self).settings@,
                    updates@,
                    match originals {
                        Some(originals) => Some(originals@),
                        None => None,
                    },
                    options.verify_read_back,
                    replies,
                );
                &&& performed(old(self).exchanges(), final(self).exchanges(), run.requests)
                &&& match (done, run.result) {
                    (Ok(_), Ok(_)) => true,
                    (Err(error), Err(expected)) => error@ == expected,
                    _ => false,
                }
            }),
    {
        let ghost start = self.exchanges();
        let ghost settings = self.settings@;
        let verify: bool = options.verify_read_back;
        let failure = self.write_all(updates, verify);
        let ghost middle = self.exchanges();
        let (index, error): (usize, EpsonError) = match failure {
            None => return Ok(()),
            Some(failure) => failure,
        };
        let address: u16 = updates[index].0;
        let reason = error.message();
        let known: &[(u16, u8)] = match originals {
            None => return Err(
                EpsonError::AtomicWriteFailed { address, reason, rollback_error: None },
            ),
            Some(known) => known,
        };
        let undo = restoring_writes(known, updates, index);
        let rollback = self.write_all(undo.as_slice(), verify);
        proof {
            let replies = replies_since(start, self.exchanges());
            let writes = writes_run(settings, updates@, verify, replies_since(start, middle));
            let undone = writes_run(
                settings,
                undo@,
                verify,
                replies_since(middle, self.exchanges()),
            );
            lemma_performed_in_turn(
                start,
                middle,
                self.exchanges(),
                writes.requests,
                undone.requests,
            );
            lemma_writes_need_no_more(
                settings,
                updates@,
                verify,
                replies_since(start, middle),
                replies,
            );
        }
        let rollback_error: Option<(u16, String)> = match rollback {
            None => None,
            Some(failed) => Some((undo[failed.0].0, failed.1.message())),
        };
        Err(EpsonError::AtomicWriteFailed { address, reason, rollback_error })
    }

    /// Writes EEPROM values, optionally verifying each value and rolling back
    /// completed writes after a failure.
    pub fn write_eeprom(&mut self, updates: &[(u16, u8)], options: EepromWriteOptions) -> (done:
        Result<(), EpsonError>)
        requires
            old(self).channel.ready(),
        ensures
            final(self).channel.ready(),
            final(self).channel.origin() == old(self).channel.origin(),
            final(self).settings == old(self).settings,
            *final(final(self).channel) == *final(old(self).channel),
            ({
                let replies = replies_since(old(self).exchanges(), final(self).exchanges());
                let run = write_eeprom_run(old(self).settings@, updates@, options, replies);
                &&& performed(old(self).exchanges(), final(self).exchanges(), run.requests)
                &&& match (done, run.result) {
                    (Ok(_), Ok(_)) => true,
                    (Err(error), Err(expected)) => error@ == expected,
                    _ => false,
                }
            }),
    {
        if !options.atomic {
            return self.write_eeprom_with_originals(updates, None, options);
        }
        let ghost start = self.exchanges();
        let ghost settings = self.settings@;
        let addresses = addresses_of(updates);
        let found = match self.read_eeprom(addresses.as_slice()) {
            Ok(found) => found,
            Err(error) => return Err(error),
        };
        let ghost middle = self.exchanges();
        let originals = pairs_of(found.as_slice());
        let done = self.write_eeprom_with_originals(updates, Some(originals.as_slice()), options);
        proof {
            let replies = replies_since(start, self.exchanges());
            let reads = reads_run(settings, addresses@, replies_since(start, middle));
            let writes = guarded_run(
                settings,
                updates@,
                Some(originals@),
                options.verify_read_back,
                replies_since(middle, self.exchanges()),
            );
            lemma_performed_in_turn(
                start,
                middle,
                self.exchanges(),
                reads.requests,
                writes.requests,
            );
            lemma_reads_need_no_more(
                settings,
                addresses@,
                replies_since(start, middle),
                replies,
            );
        }
        done
    }

    /// Resets the configured waste-counter operation with explicit write options.
    pub fn reset_waste(&mut self, options: EepromWriteOptions) -> (done: Result<(), EpsonError>)
        requires
            old(self).channel.ready(),
        ensures
            final(self).channel.ready(),
            final(self).channel.origin() == old(self).channel.origin(),
            final(self).settings == old(self).settings,
            *final(final(self).channel) == *final(old(self).channel),
            ({
                let replies = replies_since(old(self).exchanges(), final(self).exchanges());
                match merged_view(old(self).settings@, target_name(CounterResetTarget::Waste)) {
                    None => performed(old(self).exchanges(), final(self).exchanges(), seq![])
                        && done is Err && done->Err_0@ == EpsonErrorView::OperationUnavailable,
                    Some(operation) => {
                        let run = write_eeprom_run(
                            old(self).settings@,
                            reset_pairs(operation),
                            options,
                            replies,
                        );
                        &&& performed(old(self).exchanges(), final(self).exchanges(), run.requests)
                        &&& match (done, run.result) {
                            (Ok(_), Ok(_)) => true,
                            (Err(error), Err(expected)) => error@ == expected,
                            _ => false,
                        }
                    },
                }
            }),
    {
        match self.settings.waste_counter_reset() {
            None => Err(EpsonError::OperationUnavailable),
            Some(operation) => self.write_operation(&operation, options),
        }
    }

    /// Writes the reset values of an operation.
    pub fn write_operation(&mut self, operation: &MemoryOperation, options: EepromWriteOptions) -> (
    done: Result<(), EpsonError>)
        requires
            old(self).channel.ready(),
        ensures
            final(self).channel.ready(),
            final(self).channel.origin() == old(self).channel.origin(),
            final(self).settings == old(self).settings,
            *final(final(self).channel) == *final(old(self).channel),
            ({
                let replies = replies_since(old(self).exchanges(), final(self).exchanges());
                let run = write_eeprom_run(
                    old(self).settings@,
                    reset_pairs(operation@),
                    options,
                    replies,
                );
                &&& performed(old(self).exchanges(), final(self).exchanges(), run.requests)
                &&& match (done, run.result) {
                    (Ok(_), Ok(_)) => true,
                    (Err(error), Err(expected)) => error@ == expected,
                    _ => false,
                }
            }),
    {
        let updates = operation_updates(operation);
        self.write_eeprom(updates.as_slice(), options)
    }
}

/// The resets of an operation as updates.
pub fn operation_updates(operation: &MemoryOperation) -> (updates: Vec<(u16, u8)>)
    ensures
        updates@ == reset_pairs(operation@),
{
    let mut updates: Vec<(u16, u8)> = Vec::new();
    let mut index: usize = 0;
    while index < operation.addresses.len() && index < operation.reset_values.len()
        invariant
            index <= operation.addresses@.len(),
            index <= operation.reset_values@.len(),
            updates@ == reset_pairs(operation@).take(index as int),
        decreases operation.addresses.len() - index,
    {
        updates.push((operation.addresses[index], operation.reset_values[index]));
        proof {
            assert(updates@ =~= reset_pairs(operation@).take(index + 1));
        }
        index = index + 1;
    }
    proof {
        assert(reset_pairs(operation@).take(index as int) =~= reset_pairs(operation@));
    }
    updates
}

fn addresses_of(updates: &[(u16, u8)]) -> (addresses: Vec<u16>)
    ensures
        addresses@ == update_addresses(updates@),
{
    let mut addresses: Vec<u16> = Vec::new();
    let mut index: usize = 0;
    while index < updates.len()
        invariant
            index <= updates@.len(),
            addresses@ == update_addresses(updates@).take(index as int),
        decreases updates.len() - index,
    {
        addresses.push(updates[index].0);
        proof {
            assert(addresses@ =~= update_addresses(updates@).take(index + 1));
        }
        index = index + 1;
    }
    proof {
        assert(update_addresses(updates@).take(index as int) =~= update_addresses(updates@));
    }
    addresses
}

fn pairs_of(replies: &[EepromReadReply]) -> (pairs: Vec<(u16, u8)>)
    ensures
        pairs@ == reply_pairs(replies@),
{
    let mut pairs: Vec<(u16, u8)> = Vec::new();
    let mut index: usize = 0;
    while index < replies.len()
        invariant
            index <= replies@.len(),
            pairs@ == reply_pairs(replies@).take(index as int),
        decreases replies.len() - index,
    {
        pairs.push((replies[index].address, replies[index].value));
        proof {
            assert(pairs@ =~= reply_pairs(replies@).take(index + 1));
        }
        index = index + 1;
    }
    proof {
        assert(reply_pairs(replies@).take(index as int) =~= reply_pairs(replies@));
    }
    pairs
}

fn find_original(originals: &[(u16, u8)], address: u16) -> (value: Option<u8>)
    ensures
        value == original_value(originals@, address),
{
    let mut index: usize = 0;
    proof {
        assert(originals@.skip(0) =~= originals@);
    }
    while index < originals.len()
        invariant
            index <= originals@.len(),
            original_value(originals@, address) == original_value(
                originals@.skip(index as int),
                address,
            ),
        decreases originals.len() - index,
    {
        if originals[index].0 == address {
            return Some(originals[index].1);
        }
        proof {
            assert(originals@.skip(index as int).drop_first() =~= originals@.skip(index + 1));
        }
        index = index + 1;
    }
    None
}

/// The writes that undo the first updates, the latest first.
fn restoring_writes(originals: &[(u16, u8)], updates: &[(u16, u8)], completed: usize) -> (undo: Vec<
    (u16, u8),
>)
    requires
        completed <= updates@.len(),
    ensures
        undo@ == restores(originals@, updates@.take(completed as int)),
{
    let mut undo: Vec<(u16, u8)> = Vec::new();
    let mut left: usize = completed;
    let ghost whole = restores(originals@, updates@.take(completed as int));
    proof {
        assert(undo@ + whole =~= whole);
    }
    while left > 0
        invariant
            left <= completed <= updates@.len(),
            whole == undo@ + restores(originals@, updates@.take(left as int)),
        decreases left,
    {
        let address: u16 = updates[left - 1].0;
        let ghost before = undo@;
        proof {
            assert(updates@.take(left as int).drop_last() =~= updates@.take(left - 1));
        }
        if let Some(value) = find_original(originals, address) {
            undo.push((address, value));
            proof {
                let rest = restores(originals@, updates@.take(left - 1));
                assert(before + (seq![(address, value)] + rest) =~= undo@ + rest);
            }
        }
        left = left - 1;
    }
    proof {
        assert(updates@.take(0) =~= seq![]);
        assert(undo@ + Seq::<(u16, u8)>::empty() =~= undo@);
    }
    undo
}

/// Requests made one after the other are made altogether, and the later replies
/// are those behind the earlier ones.
proof fn lemma_performed_in_turn(
    start: Seq<Exchange>,
    middle: Seq<Exchange>,
    end: Seq<Exchange>,
    first: Seq<Seq<u8>>,
    second: Seq<Seq<u8>>,
)
    requires
        performed(start, middle, first),
        performed(middle, end, second),
    ensures
        performed(start, end, first + second),
        replies_since(start, end).skip(first.len() as int) == replies_since(middle, end),
        replies_since(start, end).take(first.len() as int) == replies_since(start, middle),
        replies_since(start, middle).len() == first.len(),
{
    let all = first + second;
    assert forall|i: int| 0 <= i < start.len() implies #[trigger] end[i] == start[i] by {
        assert(middle[i] == start[i]);
    }
    assert forall|i: int| 0 <= i < all.len() implies #[trigger] end[start.len() + i].request
        == all[i] by {
        if i < first.len() {
            assert(middle[start.len() + i].request == first[i]);
            assert(end[start.len() + i] == middle[start.len() + i]);
        } else {
            assert(end[middle.len() + (i - first.len())].request == second[i - first.len()]);
        }
    }
    assert(replies_since(start, end).skip(first.len() as int) =~= replies_since(middle, end));
    assert forall|i: int| 0 <= i < first.len() implies replies_since(start, end)[i]
        == replies_since(start, middle)[i] by {
        assert(end[start.len() + i] == middle[start.len() + i]);
    }
    assert(replies_since(start, end).take(first.len() as int) =~= replies_since(start, middle));
}

/// A run of reads depends on the replies to its own requests alone.
proof fn lemma_reads_need_no_more(
    settings: SpecView,
    addresses: Seq<u16>,
    own: Seq<Reply>,
    replies: Seq<Reply>,
)
    requires
        reads_run(settings, addresses, own).requests.len() == own.len(),
        own.len() <= replies.len(),
        replies.take(own.len() as int) == own,
    ensures
        reads_run(settings, addresses, replies) == reads_run(settings, addresses, own),
{
    assert(own.take(own.len() as int) =~= own);
    lemma_reads_agree(settings, addresses, own, replies, own.len() as int);
}

proof fn lemma_reads_agree(
    settings: SpecView,
    addresses: Seq<u16>,
    left: Seq<Reply>,
    right: Seq<Reply>,
    length: int,
)
    requires
        0 <= length <= left.len(),
        length <= right.len(),
        left.take(length) == right.take(length),
        reads_run(settings, addresses, left).requests.len() <= length,
    ensures
        reads_run(settings, addresses, right) == reads_run(settings, addresses, left),
    decreases addresses.len(),
{
    if addresses.len() > 0 {
        let earlier = addresses.drop_last();
        lemma_reads_agree(settings, earlier, left, right, length);
        let head = reads_run(settings, earlier, left);
        if head.result is Ok {
            let used = head.requests.len() as int;
            if read_request(settings, addresses.last()) is Ok {
                assert(left.skip(used)[0] == left.take(length)[used]);
                assert(right.skip(used)[0] == right.take(length)[used]);
            }
        }
    }
}

/// A run of writes depends on the replies to its own requests alone.
proof fn lemma_writes_need_no_more(
    settings: SpecView,
    updates: Seq<(u16, u8)>,
    verify: bool,
    own: Seq<Reply>,
    replies: Seq<Reply>,
)
    requires
        writes_run(settings, updates, verify, own).requests.len() == own.len(),
        own.len() <= replies.len(),
        replies.take(own.len() as int) == own,
    ensures
        writes_run(settings, updates, verify, replies) == writes_run(
            settings,
            updates,
            verify,
            own,
        ),
{
    assert(own.take(own.len() as int) =~= own);
    lemma_writes_agree(settings, updates, verify, own, replies, own.len() as int);
}

proof fn lemma_writes_agree(
    settings: SpecView,
    updates: Seq<(u16, u8)>,
    verify: bool,
    left: Seq<Reply>,
    right: Seq<Reply>,
    length: int,
)
    requires
        0 <= length <= left.len(),
        length <= right.len(),
        left.take(length) == right.take(length),
        writes_run(settings, updates, verify, left).requests.len() <= length,
    ensures
        writes_run(settings, updates, verify, right) == writes_run(
            settings,
            updates,
            verify,
            left,
        ),
    decreases updates.len(),
{
    if updates.len() > 0 {
        let earlier = updates.drop_last();
        let head = writes_run(settings, earlier, verify, left);
        lemma_writes_agree(settings, earlier, verify, left, right, length);
        if head.result is None {
            let used = head.requests.len() as int;
            let a = left.skip(used);
            let b = right.skip(used);
            if write_request(settings, updates.last().0, updates.last().1) is Ok {
                assert(a[0] == left.take(length)[used]);
                assert(b[0] == right.take(length)[used]);
                if write_run(settings, updates.last(), verify, a).requests.len() > 1 {
                    assert(a.skip(1)[0] == left.take(length)[used + 1]);
                    assert(b.skip(1)[0] == right.take(length)[used + 1]);
                }
            }
        }
    }
}

proof fn lemma_first_read_error(
    settings: SpecView,
    addresses: Seq<u16>,
    replies: Seq<Reply>,
    length: int,
)
    requires
        0 <= length <= addresses.len(),
        reads_run(settings, addresses.take(length), replies).result is Err,
    ensures
        reads_run(settings, addresses, replies) == reads_run(
            settings,
            addresses.take(length),
            replies,
        ),
    decreases addresses.len(),
{
    if length == addresses.len() {
        assert(addresses.take(length) =~= addresses);
    } else {
        assert(addresses.drop_last().take(length) =~= addresses.take(length));
        lemma_first_read_error(settings, addresses.drop_last(), replies, length);
    }
}

proof fn lemma_first_write_error(
    settings: SpecView,
    updates: Seq<(u16, u8)>,
    verify: bool,
    replies: Seq<Reply>,
    length: int,
)
    requires
        0 <= length <= updates.len(),
        writes_run(settings, updates.take(length), verify, replies).result is Some,
    ensures
        writes_run(settings, updates, verify, replies) == writes_run(
            settings,
            updates.take(length),
            verify,
            replies,
        ),
    decreases updates.len(),
{
    if length == updates.len() {
        assert(updates.take(length) =~= updates);
    } else {
        assert(updates.drop_last().take(length) =~= updates.take(length));
        lemma_first_write_error(settings, updates.drop_last(), verify, replies, length);
    }
}

/// A verified write that succeeds was accepted by the printer, and the printer
/// then read out the very value that was written.
pub proof fn verified_write_was_read_back(
    settings: SpecView,
    update: (u16, u8),
    replies: Seq<Reply>,
)
    requires
        write_run(settings, update, true, replies).result is Ok,
        replies.len() >= 2,
    ensures
        write_run(settings, update, true, replies).requests == seq![
            write_request(settings, update.0, update.1)->Ok_0,
            read_request(settings, update.0)->Ok_0,
        ],
        replies[0] is Ok,
        occurs(replies[0]->Ok_0, acceptance()),
        read_result(settings, update.0, replies[1]) == Ok::<EepromReadReply, EpsonErrorView>(
            EepromReadReply { address: update.0, value: update.1 },
        ),
{
    assert(replies.skip(1)[0] == replies[1]);
    assert(write_run(settings, update, true, replies).requests =~= seq![
        write_request(settings, update.0, update.1)->Ok_0,
        read_request(settings, update.0)->Ok_0,
    ]);
}

/// The writes up to one of several that all succeeded, and that one.
proof fn lemma_verified_writes(
    settings: SpecView,
    updates: Seq<(u16, u8)>,
    replies: Seq<Reply>,
    index: int,
)
    requires
        writes_run(settings, updates, true, replies).result is None,
        replies.len() >= 2 * updates.len(),
    ensures
        writes_run(settings, updates, true, replies).requests.len() == 2 * updates.len(),
        0 <= index < updates.len() ==> read_back(
            settings,
            updates[index],
            writes_run(settings, updates, true, replies).requests.skip(2 * index),
            replies.skip(2 * index),
        ),
    decreases updates.len(),
{
    if updates.len() > 0 {
        let before = updates.drop_last();
        lemma_verified_writes(settings, before, replies, index);
        let earlier = writes_run(settings, before, true, replies);
        let rest = replies.skip(earlier.requests.len() as int);
        let last = write_run(settings, updates.last(), true, rest);
        verified_write_was_read_back(settings, updates.last(), rest);
        let requests = writes_run(settings, updates, true, replies).requests;
        assert(requests == earlier.requests + last.requests);
        if 0 <= index < before.len() {
            assert(requests.skip(2 * index)[0] == earlier.requests.skip(2 * index)[0]);
            assert(requests.skip(2 * index)[1] == earlier.requests.skip(2 * index)[1]);
        } else if index == before.len() {
            assert(requests.skip(2 * index) =~= last.requests);
        }
    }
}

/// The first of some requests wrote a value, and the printer accepted it; the
/// second read the address again, and the printer gave that very value.
pub open spec fn read_back(
    settings: SpecView,
    update: (u16, u8),
    requests: Seq<Seq<u8>>,
    replies: Seq<Reply>,
) -> bool {
    &&& requests.len() >= 2
    &&& write_request(settings, update.0, update.1) == Ok::<Seq<u8>, CommandErrorView>(requests[0])
    &&& read_request(settings, update.0) == Ok::<Seq<u8>, CommandErrorView>(requests[1])
    &&& replies[0] is Ok
    &&& occurs(replies[0]->Ok_0, acceptance())
    &&& read_result(settings, update.0, replies[1]) == Ok::<EepromReadReply, EpsonErrorView>(
        EepromReadReply { address: update.0, value: update.1 },
    )
}

/// Verified updates that succeed make two requests each, in order, and each of
/// them was accepted and read back before the next one was written.
pub proof fn successful_updates_were_read_back(
    settings: SpecView,
    updates: Seq<(u16, u8)>,
    originals: Option<Seq<(u16, u8)>>,
    replies: Seq<Reply>,
    index: int,
)
    requires
        guarded_run(settings, updates, originals, true, replies).result is Ok,
        replies.len() >= 2 * updates.len(),
        0 <= index < updates.len(),
    ensures
        guarded_run(settings, updates, originals, true, replies).requests.len() == 2
            * updates.len(),
        read_back(
            settings,
            updates[index],
            guarded_run(settings, updates, originals, true, replies).requests.skip(2 * index),
            replies.skip(2 * index),
        ),
{
    lemma_verified_writes(settings, updates, replies, index);
}

/// Reads that succeed give one reply for each address, in order.
pub proof fn reads_answer_every_address(
    settings: SpecView,
    addresses: Seq<u16>,
    replies: Seq<Reply>,
)
    requires
        reads_run(settings, addresses, replies).result is Ok,
    ensures
        reads_run(settings, addresses, replies).result->Ok_0.len() == addresses.len(),
        forall|i: int|
            0 <= i < addresses.len() ==> (#[trigger] reads_run(
                settings,
                addresses,
                replies,
            ).result->Ok_0[i]).address == addresses[i],
    decreases addresses.len(),
{
    if addresses.len() > 0 {
        reads_answer_every_address(settings, addresses.drop_last(), replies);
    }
}

/// The first of several values for distinct addresses is the only one.
proof fn lemma_original_value(originals: Seq<(u16, u8)>, index: int)
    requires
        0 <= index < originals.len(),
        forall|i: int| 0 <= i < index ==> (#[trigger] originals[i]).0 != originals[index].0,
    ensures
        original_value(originals, originals[index].0) == Some(originals[index].1),
    decreases index,
{
    if index > 0 {
        let rest = originals.drop_first();
        assert forall|i: int| 0 <= i < index - 1 implies (#[trigger] rest[i]).0 != rest[index
            - 1].0 by {
            assert(originals[i + 1].0 != originals[index].0);
        }
        assert(originals[0].0 != originals[index].0);
        lemma_original_value(rest, index - 1);
    }
}

/// What undoes completed updates of known addresses undoes each of them, the
/// latest first.
proof fn lemma_restores(originals: Seq<(u16, u8)>, completed: Seq<(u16, u8)>)
    requires
        forall|i: int|
            0 <= i < completed.len() ==> original_value(
                originals,
                (#[trigger] completed[i]).0,
            ) is Some,
    ensures
        restores(originals, completed).len() == completed.len(),
        forall|i: int|
            0 <= i < completed.len() ==> #[trigger] restores(originals, completed)[i] == (
                completed[completed.len() - 1 - i].0,
                original_value(originals, completed[completed.len() - 1 - i].0)->0,
            ),
    decreases completed.len(),
{
    if completed.len() > 0 {
        let shorter = completed.drop_last();
        assert forall|i: int| 0 <= i < shorter.len() implies original_value(
            originals,
            (#[trigger] shorter[i]).0,
        ) is Some by {
            assert(original_value(originals, completed[i].0) is Some);
        }
        assert(original_value(originals, completed[completed.len() - 1].0) is Some);
        lemma_restores(originals, shorter);
        let undo = restores(originals, completed);
        assert forall|i: int| 0 <= i < completed.len() implies #[trigger] undo[i] == (
            completed[completed.len() - 1 - i].0,
            original_value(originals, completed[completed.len() - 1 - i].0)->0,
        ) by {
            if i > 0 {
                assert(undo[i] == restores(originals, shorter)[i - 1]);
            }
        }
    }
}

/// A write that fails after some updates undoes every one of them, the latest
/// first, with the value that was known of its address before.
pub proof fn completed_updates_are_undone(
    originals: Seq<(u16, u8)>,
    updates: Seq<(u16, u8)>,
    completed: int,
)
    requires
        originals.len() == updates.len(),
        forall|i: int| 0 <= i < updates.len() ==> (#[trigger] originals[i]).0 == updates[i].0,
        forall|i: int, j: int|
            0 <= i < j < updates.len() ==> (#[trigger] updates[i]).0 != (#[trigger] updates[j]).0,
        0 <= completed <= updates.len(),
    ensures
        restores(originals, updates.take(completed)).len() == completed,
        forall|i: int|
            0 <= i < completed ==> #[trigger] restores(originals, updates.take(completed))[i]
                == originals[completed - 1 - i],
{
    let done = updates.take(completed);
    assert forall|i: int| 0 <= i < done.len() implies original_value(
        originals,
        (#[trigger] done[i]).0,
    ) == Some(originals[i].1) by {
        assert(originals[i].0 == updates[i].0);
        assert forall|j: int| 0 <= j < i implies (#[trigger] originals[j]).0 != originals[i].0 by {
            assert(updates[j].0 != updates[i].0);
        }
        lemma_original_value(originals, i);
    }
    lemma_restores(originals, done);
    assert forall|i: int| 0 <= i < completed implies #[trigger] restores(originals, done)[i]
        == originals[completed - 1 - i] by {
        assert(original_value(originals, done[completed - 1 - i].0) == Some(
            originals[completed - 1 - i].1,
        ));
        assert(originals[completed - 1 - i].0 == updates[completed - 1 - i].0);
    }
}

/// An atomic write that fails after some updates undoes every one of them, the
/// latest first, with the value that was read before anything was written.
pub proof fn atomic_failure_undoes_completed_updates(
    settings: SpecView,
    updates: Seq<(u16, u8)>,
    replies: Seq<Reply>,
    completed: int,
)
    requires
        reads_run(settings, update_addresses(updates), replies).result is Ok,
        0 <= completed <= updates.len(),
        forall|i: int, j: int|
            0 <= i < j < updates.len() ==> (#[trigger] updates[i]).0 != (#[trigger] updates[j]).0,
    ensures
        ({
            let found = reads_run(settings, update_addresses(updates), replies).result->Ok_0;
            let undo = restores(reply_pairs(found), updates.take(completed));
            &&& undo.len() == completed
            &&& forall|i: int|
                0 <= i < completed ==> #[trigger] undo[i] == (
                    updates[completed - 1 - i].0,
                    found[completed - 1 - i].value,
                )
        }),
{
    let addresses = update_addresses(updates);
    reads_answer_every_address(settings, addresses, replies);
    let found = reads_run(settings, addresses, replies).result->Ok_0;
    let originals = reply_pairs(found);
    assert forall|i: int| 0 <= i < updates.len() implies (#[trigger] originals[i]).0
        == updates[i].0 by {
        assert(found[i].address == addresses[i]);
    }
    completed_updates_are_undone(originals, updates, completed);
    assert forall|i: int| 0 <= i < completed implies #[trigger] restores(
        originals,
        updates.take(completed),
    )[i] == (updates[completed - 1 - i].0, found[completed - 1 - i].value) by {
        assert(originals[completed - 1 - i].0 == updates[completed - 1 - i].0);
    }
}

/// An atomic write whose preliminary reads fail writes nothing: it makes the
/// requests of the reads alone.
pub proof fn atomic_write_reads_first(
    settings: SpecView,
    updates: Seq<(u16, u8)>,
    options: EepromWriteOptions,
    replies: Seq<Reply>,
)
    requires
        options.atomic,
        reads_run(settings, update_addresses(updates), replies).result is Err,
    ensures
        write_eeprom_run(settings, updates, options, replies).requests == reads_run(
            settings,
            update_addresses(updates),
            replies,
        ).requests,
        write_eeprom_run(settings, updates, options, replies).result is Err,
{
}

/// A response says that a write was accepted: a colon, `OK` and a semicolon stand
/// somewhere in it.
pub open spec fn accepts(response: Seq<u8>) -> bool {
    exists|at: int|
        0 <= at && at + 4 <= response.len() && #[trigger] response[at] == 0x3a && response[at + 1]
            == 0x4f && response[at + 2] == 0x4b && response[at + 3] == 0x3b
}

proof fn lemma_accepts(response: Seq<u8>)
    ensures
        accepts(response) <==> occurs(response, acceptance()),
{
    if accepts(response) {
        let at = choose|at: int|
            0 <= at && at + 4 <= response.len() && #[trigger] response[at] == 0x3a && response[at
                + 1] == 0x4f && response[at + 2] == 0x4b && response[at + 3] == 0x3b;
        assert(response.subrange(at, at + 4) =~= acceptance());
        assert(occurs_at(response, acceptance(), at));
    }
    if occurs(response, acceptance()) {
        let at = choose|at: int| occurs_at(response, acceptance(), at);
        let part = response.subrange(at, at + 4);
        assert(part[0] == response[at] && part[1] == response[at + 1] && part[2] == response[at + 2]
            && part[3] == response[at + 3]);
    }
}

/// What a read gives for each reply: the value where the printer answers for the
/// address that was asked for, both addresses where it answers for another one, and
/// what went wrong on the way otherwise.
pub proof fn reads_are_judged_by_the_reply(settings: SpecView, address: u16, replies: Seq<Reply>)
    requires
        read_request(settings, address) is Ok,
    ensures
        ({
            let run = read_run(settings, address, replies);
            &&& run.requests == seq![read_request(settings, address)->Ok_0]
            &&& match replies[0] {
                Err(message) => run.result == Err::<EepromReadReply, EpsonErrorView>(
                    EpsonErrorView::Control(message),
                ),
                Ok(response) => match reply_of(response, settings.read_address_width) {
                    Err(error) => run.result == Err::<EepromReadReply, EpsonErrorView>(
                        EpsonErrorView::Command(error),
                    ),
                    Ok(found) => if found.address == address {
                        run.result matches Ok(reply) && reply.address == address && reply.value
                            == found.value
                    } else {
                        run.result matches Err(
                            EpsonErrorView::AddressMismatch { requested, received },
                        ) && requested == address && received == found.address
                    },
                },
            }
        }),
{
}

/// What a write gives for each reply: success where the printer accepts it and, if it
/// is read back, gives the value that was written; a rejection without the words of
/// acceptance; the value that was wanted and the one that was found where they differ.
pub proof fn writes_are_judged_by_the_reply(
    settings: SpecView,
    address: u16,
    value: u8,
    verify: bool,
    replies: Seq<Reply>,
)
    requires
        write_request(settings, address, value) is Ok,
        read_request(settings, address) is Ok,
        replies.len() >= 2,
    ensures
        ({
            let run = write_run(settings, (address, value), verify, replies);
            let check = read_result(settings, address, replies[1]);
            &&& run.requests.len() >= 1
            &&& run.requests[0] == write_request(settings, address, value)->Ok_0
            &&& match replies[0] {
                Err(message) => run.requests.len() == 1 && run.result == Err::<(), EpsonErrorView>(
                    EpsonErrorView::Control(message),
                ),
                Ok(response) => if !accepts(response) {
                    run.requests.len() == 1 && run.result == Err::<(), EpsonErrorView>(
                        EpsonErrorView::WriteRejected { address },
                    )
                } else if !verify {
                    run.requests.len() == 1 && run.result is Ok
                } else {
                    &&& run.requests.len() == 2
                    &&& run.requests[1] == read_request(settings, address)->Ok_0
                    &&& match check {
                        Err(error) => run.result == Err::<(), EpsonErrorView>(error),
                        Ok(found) => if found.value == value {
                            run.result is Ok
                        } else {
                            run.result matches Err(
                                EpsonErrorView::VerificationFailed {
                                    address: at,
                                    expected,
                                    actual,
                                },
                            ) && at == address && expected == value && actual == found.value
                        },
                    }
                },
            }
        }),
{
    assert(replies.skip(1)[0] == replies[1]);
    if let Ok(response) = replies[0] {
        lemma_accepts(response);
    }
}

/// Reads are made in the order of the addresses, one request for each, and each value
/// is what the reply to its own request says.
pub proof fn reads_are_made_in_order(
    settings: SpecView,
    addresses: Seq<u16>,
    replies: Seq<Reply>,
)
    requires
        replies.len() >= addresses.len(),
        forall|i: int|
            0 <= i < addresses.len() ==> read_request(settings, #[trigger] addresses[i]) is Ok
                && read_result(settings, addresses[i], replies[i]) is Ok,
    ensures
        reads_run(settings, addresses, replies).requests.len() == addresses.len(),
        reads_run(settings, addresses, replies).result matches Ok(found) && found.len()
            == addresses.len() && (forall|i: int|
            0 <= i < addresses.len() ==> #[trigger] found[i] == read_result(
                settings,
                addresses[i],
                replies[i],
            )->Ok_0),
        forall|i: int|
            0 <= i < addresses.len() ==> #[trigger] reads_run(
                settings,
                addresses,
                replies,
            ).requests[i] == read_request(settings, addresses[i])->Ok_0,
    decreases addresses.len(),
{
    if addresses.len() > 0 {
        let shorter = addresses.drop_last();
        let last = addresses.len() - 1;
        assert(read_result(settings, addresses[last], replies[last]) is Ok);
        assert forall|i: int| 0 <= i < shorter.len() implies read_request(
            settings,
            #[trigger] shorter[i],
        ) is Ok && read_result(settings, shorter[i], replies[i]) is Ok by {
            assert(shorter[i] == addresses[i]);
        }
        reads_are_made_in_order(settings, shorter, replies);
        let earlier = reads_run(settings, shorter, replies);
        assert(replies.skip(earlier.requests.len() as int)[0] == replies[last]);
        let all = reads_run(settings, addresses, replies);
        assert forall|i: int| 0 <= i < addresses.len() implies #[trigger] all.requests[i]
            == read_request(settings, addresses[i])->Ok_0 by {
            if i < last {
                assert(earlier.requests[i] == read_request(settings, shorter[i])->Ok_0);
            }
        }
    }
}

/// Reads end with the first that fails, with its failure, and nothing is asked for
/// after it.
pub proof fn reads_end_with_the_first_failure(
    settings: SpecView,
    addresses: Seq<u16>,
    replies: Seq<Reply>,
    failed: int,
)
    requires
        0 <= failed < addresses.len(),
        replies.len() >= addresses.len(),
        forall|i: int|
            0 <= i < failed ==> read_request(settings, #[trigger] addresses[i]) is Ok
                && read_result(settings, addresses[i], replies[i]) is Ok,
        read_request(settings, addresses[failed]) is Ok,
        read_result(settings, addresses[failed], replies[failed]) is Err,
    ensures
        reads_run(settings, addresses, replies).requests.len() == failed + 1,
        reads_run(settings, addresses, replies).result == Err::<
            Seq<EepromReadReply>,
            EpsonErrorView,
        >(read_result(settings, addresses[failed], replies[failed])->Err_0),
    decreases addresses.len(),
{
    let shorter = addresses.drop_last();
    if failed < shorter.len() {
        assert(shorter[failed] == addresses[failed]);
        assert forall|i: int| 0 <= i < failed implies read_request(
            settings,
            #[trigger] shorter[i],
        ) is Ok && read_result(settings, shorter[i], replies[i]) is Ok by {
            assert(shorter[i] == addresses[i]);
        }
        reads_end_with_the_first_failure(settings, shorter, replies, failed);
    } else {
        assert forall|i: int| 0 <= i < shorter.len() implies read_request(
            settings,
            #[trigger] shorter[i],
        ) is Ok && read_result(settings, shorter[i], replies[i]) is Ok by {
            assert(shorter[i] == addresses[i]);
        }
        reads_are_made_in_order(settings, shorter, replies);
        let earlier = reads_run(settings, shorter, replies);
        assert(replies.skip(earlier.requests.len() as int)[0] == replies[failed]);
    }
}

/// How many requests a successful write makes.
pub open spec fn write_steps(verify: bool) -> int {
    if verify {
        2
    } else {
        1
    }
}

/// The replies let a write succeed: it is accepted and, if it is read back, the value
/// that was written is found.
pub open spec fn goes_through(
    settings: SpecView,
    update: (u16, u8),
    verify: bool,
    replies: Seq<Reply>,
) -> bool {
    &&& write_request(settings, update.0, update.1) is Ok
    &&& replies.len() >= write_steps(verify)
    &&& replies[0] matches Ok(response) && accepts(response)
    &&& verify ==> read_request(settings, update.0) is Ok && (read_result(
        settings,
        update.0,
        replies[1],
    ) matches Ok(found) && found.value == update.1)
}

/// Writes that all go through are made in order, each of them read back before the
/// next one where that is asked for.
pub proof fn writes_are_made_in_order(
    settings: SpecView,
    updates: Seq<(u16, u8)>,
    verify: bool,
    replies: Seq<Reply>,
)
    requires
        forall|i: int|
            0 <= i < updates.len() ==> goes_through(
                settings,
                #[trigger] updates[i],
                verify,
                replies.skip(i * write_steps(verify)),
            ),
    ensures
        ({
            let run = writes_run(settings, updates, verify, replies);
            &&& run.result is None
            &&& run.requests.len() == updates.len() * write_steps(verify)
            &&& forall|i: int|
                0 <= i < updates.len() ==> run.requests[i * write_steps(verify)] == write_request(
                    settings,
                    (#[trigger] updates[i]).0,
                    updates[i].1,
                )->Ok_0
            &&& verify ==> forall|i: int|
                0 <= i < updates.len() ==> run.requests[2 * i + 1] == read_request(
                    settings,
                    (#[trigger] updates[i]).0,
                )->Ok_0
        }),
    decreases updates.len(),
{
    if updates.len() > 0 {
        let shorter = updates.drop_last();
        let last = updates.len() - 1;
        assert forall|i: int| 0 <= i < shorter.len() implies goes_through(
            settings,
            #[trigger] shorter[i],
            verify,
            replies.skip(i * write_steps(verify)),
        ) by {
            assert(shorter[i] == updates[i]);
        }
        writes_are_made_in_order(settings, shorter, verify, replies);
        let earlier = writes_run(settings, shorter, verify, replies);
        let rest = replies.skip(earlier.requests.len() as int);
        assert(goes_through(
            settings,
            updates[last],
            verify,
            replies.skip(last * write_steps(verify)),
        ));
        lemma_accepts(rest[0]->Ok_0);
        if verify {
            assert(rest.skip(1)[0] == rest[1]);
        }
        let run = writes_run(settings, updates, verify, replies);
        let step = write_run(settings, updates[last], verify, rest);
        assert(step.requests.len() == write_steps(verify));
        assert(updates.len() * write_steps(verify) == last * write_steps(verify) + write_steps(
            verify,
        )) by (nonlinear_arith)
            requires
                last == updates.len() - 1,
        ;
        assert forall|i: int| 0 <= i < updates.len() implies run.requests[i * write_steps(verify)]
            == write_request(settings, (#[trigger] updates[i]).0, updates[i].1)->Ok_0 by {
            if i < last {
                assert(shorter[i] == updates[i]);
                assert(i * write_steps(verify) < last * write_steps(verify)) by (nonlinear_arith)
                    requires
                        i < last,
                        write_steps(verify) >= 1,
                ;
                assert(0 <= i * write_steps(verify)) by (nonlinear_arith)
                    requires
                        i >= 0,
                        write_steps(verify) >= 1,
                ;
            }
        }
        if verify {
            assert forall|i: int| 0 <= i < updates.len() implies run.requests[2 * i + 1]
                == read_request(settings, (#[trigger] updates[i]).0)->Ok_0 by {
                if i < last {
                    assert(shorter[i] == updates[i]);
                }
            }
        }
    }
}

/// Writes end with the first that does not go through, and what was written before it
/// was written as it should be. The failure is that of this write.
pub proof fn writes_end_with_the_first_failure(
    settings: SpecView,
    updates: Seq<(u16, u8)>,
    verify: bool,
    replies: Seq<Reply>,
    failed: int,
)
    requires
        0 <= failed < updates.len(),
        forall|i: int|
            0 <= i < failed ==> goes_through(
                settings,
                #[trigger] updates[i],
                verify,
                replies.skip(i * write_steps(verify)),
            ),
        write_run(
            settings,
            updates[failed],
            verify,
            replies.skip(failed * write_steps(verify)),
        ).result is Err,
    ensures
        ({
            let run = writes_run(settings, updates, verify, replies);
            let failure = write_run(
                settings,
                updates[failed],
                verify,
                replies.skip(failed * write_steps(verify)),
            );
            &&& run.result == Some((failed, failure.result->Err_0))
            &&& run.requests == writes_run(settings, updates.take(failed), verify, replies).requests
                + failure.requests
        }),
    decreases updates.len(),
{
    let shorter = updates.drop_last();
    if failed < shorter.len() {
        assert(shorter[failed] == updates[failed]);
        assert forall|i: int| 0 <= i < failed implies goes_through(
            settings,
            #[trigger] shorter[i],
            verify,
            replies.skip(i * write_steps(verify)),
        ) by {
            assert(shorter[i] == updates[i]);
        }
        writes_end_with_the_first_failure(settings, shorter, verify, replies, failed);
        assert(shorter.take(failed) =~= updates.take(failed));
    } else {
        assert(updates.take(failed) =~= shorter);
        assert forall|i: int| 0 <= i < shorter.len() implies goes_through(
            settings,
            #[trigger] shorter[i],
            verify,
            replies.skip(i * write_steps(verify)),
        ) by {
            assert(shorter[i] == updates[i]);
        }
        writes_are_made_in_order(settings, shorter, verify, replies);
    }
}

/// After a write that does not go through, the values that were written before it are
/// put back, the latest first, and the failure names the address of that write. What
/// cannot be put back is named too. Without the old values nothing is put back.
pub proof fn failed_updates_are_rolled_back(
    settings: SpecView,
    updates: Seq<(u16, u8)>,
    originals: Seq<(u16, u8)>,
    verify: bool,
    replies: Seq<Reply>,
    failed: int,
)
    requires
        0 <= failed < updates.len(),
        originals.len() == updates.len(),
        forall|i: int| 0 <= i < updates.len() ==> (#[trigger] originals[i]).0 == updates[i].0,
        forall|i: int, j: int|
            0 <= i < j < updates.len() ==> (#[trigger] updates[i]).0 != (#[trigger] updates[j]).0,
        forall|i: int|
            0 <= i < failed ==> goes_through(
                settings,
                #[trigger] updates[i],
                verify,
                replies.skip(i * write_steps(verify)),
            ),
        write_run(
            settings,
            updates[failed],
            verify,
            replies.skip(failed * write_steps(verify)),
        ).result is Err,
    ensures
        ({
            let made = writes_run(settings, updates, verify, replies).requests;
            let undone = Seq::new(failed as nat, |i: int| originals[failed - 1 - i]);
            let undo = writes_run(settings, undone, verify, replies.skip(made.len() as int));
            let alone = guarded_run(settings, updates, None, verify, replies);
            let guarded = guarded_run(settings, updates, Some(originals), verify, replies);
            &&& alone.requests == made
            &&& alone.result matches Err(
                EpsonErrorView::AtomicWriteFailed { address, rollback_error, .. },
            ) && address == updates[failed].0 && rollback_error is None
            &&& guarded.requests == made + undo.requests
            &&& guarded.result matches Err(
                EpsonErrorView::AtomicWriteFailed { address, rollback_error, .. },
            ) && address == updates[failed].0 && match undo.result {
                None => rollback_error is None,
                Some((place, failure)) => rollback_error matches Some((at, words)) && at
                    == originals[failed - 1 - place].0 && words == epson_error_text(failure),
            }
        }),
{
    writes_end_with_the_first_failure(settings, updates, verify, replies, failed);
    completed_updates_are_undone(originals, updates, failed);
    let undone = Seq::new(failed as nat, |i: int| originals[failed - 1 - i]);
    assert(restores(originals, updates.take(failed)) =~= undone);
    let made = writes_run(settings, updates, verify, replies).requests;
    lemma_failure_index(settings, undone, verify, replies.skip(made.len() as int));
}

proof fn lemma_failure_index(
    settings: SpecView,
    updates: Seq<(u16, u8)>,
    verify: bool,
    replies: Seq<Reply>,
)
    ensures
        writes_run(settings, updates, verify, replies).result matches Some((index, _)) ==> 0
            <= index < updates.len(),
    decreases updates.len(),
{
    if updates.len() > 0 {
        lemma_failure_index(settings, updates.drop_last(), verify, replies);
    }
}

/// What the options of a write mean: with `atomic` every address is read before
/// anything is written and these values are put back after a failure; with
/// `verify_read_back` every write is read back.
pub proof fn write_options_are_kept(
    settings: SpecView,
    updates: Seq<(u16, u8)>,
    verify: bool,
    replies: Seq<Reply>,
)
    requires
        replies.len() >= updates.len(),
        forall|i: int|
            0 <= i < updates.len() ==> read_request(settings, (#[trigger] updates[i]).0) is Ok
                && read_result(settings, updates[i].0, replies[i]) is Ok,
    ensures
        ({
            let plain = write_eeprom_run(
                settings,
                updates,
                EepromWriteOptions { verify_read_back: verify, atomic: false },
                replies,
            );
            let atomic = write_eeprom_run(
                settings,
                updates,
                EepromWriteOptions { verify_read_back: verify, atomic: true },
                replies,
            );
            let originals = Seq::new(
                updates.len(),
                |i: int|
                    (
                        updates[i].0,
                        read_result(settings, updates[i].0, replies[i])->Ok_0.value,
                    ),
            );
            let rest = replies.skip(updates.len() as int);
            let guarded = guarded_run(settings, updates, Some(originals), verify, rest);
            &&& plain == guarded_run(settings, updates, None, verify, replies)
            &&& atomic.result == guarded.result
            &&& atomic.requests.len() == updates.len() + guarded.requests.len()
            &&& forall|i: int|
                0 <= i < updates.len() ==> atomic.requests[i] == read_request(
                    settings,
                    (#[trigger] updates[i]).0,
                )->Ok_0
            &&& forall|i: int|
                0 <= i < guarded.requests.len() ==> #[trigger] guarded.requests[i]
                    == atomic.requests[updates.len() + i]
        }),
{
    let addresses = update_addresses(updates);
    assert forall|i: int| 0 <= i < addresses.len() implies read_request(
        settings,
        #[trigger] addresses[i],
    ) is Ok && read_result(settings, addresses[i], replies[i]) is Ok by {
        assert(addresses[i] == updates[i].0);
    }
    reads_are_made_in_order(settings, addresses, replies);
    reads_answer_every_address(settings, addresses, replies);
    let reads = reads_run(settings, addresses, replies);
    let originals = Seq::new(
        updates.len(),
        |i: int| (updates[i].0, read_result(settings, updates[i].0, replies[i])->Ok_0.value),
    );
    assert forall|i: int| 0 <= i < updates.len() implies reply_pairs(reads.result->Ok_0)[i]
        == originals[i] by {
        assert(reads.result->Ok_0[i].address == addresses[i]);
        assert(reads.result->Ok_0[i] == read_result(settings, addresses[i], replies[i])->Ok_0);
    }
    assert(reply_pairs(reads.result->Ok_0) =~= originals);
    let atomic = write_eeprom_run(
        settings,
        updates,
        EepromWriteOptions { verify_read_back: verify, atomic: true },
        replies,
    );
    assert forall|i: int| 0 <= i < updates.len() implies atomic.requests[i] == read_request(
        settings,
        (#[trigger] updates[i]).0,
    )->Ok_0 by {
        assert(reads.requests[i] == read_request(settings, addresses[i])->Ok_0);
    }
}

/// What the printer says of itself is what stands behind `@EJL ID` and any white
/// space; a response that begins otherwise is no identifier.
pub proof fn identifiers_stand_behind_their_mark(
    response: Seq<u8>,
    space: Seq<char>,
    identifier: Seq<char>,
)
    requires
        valid_utf8(response),
        forall|i: int| 0 <= i < space.len() ==> white_space(#[trigger] space[i]),
        identifier.len() > 0,
        !white_space(identifier[0]),
    ensures
        decode_utf8(response) == seq!['@', 'E', 'J', 'L', ' ', 'I', 'D'] + (space + identifier)
            ==> identity_result(Ok(response)) == match identity_of(identifier) {
            Ok(identity) => Ok::<IdentityView, EpsonErrorView>(identity),
            Err(error) => Err(EpsonErrorView::Identity(error)),
        },
        decode_utf8(response).len() < 7 || decode_utf8(response)[0] != '@' || decode_utf8(
            response,
        )[1] != 'E' || decode_utf8(response)[2] != 'J' || decode_utf8(response)[3] != 'L'
            || decode_utf8(response)[4] != ' ' || decode_utf8(response)[5] != 'I' || decode_utf8(
            response,
        )[6] != 'D' ==> identity_result(Ok(response)) == Err::<IdentityView, EpsonErrorView>(
            EpsonErrorView::InvalidIdentityResponse,
        ),
{
    reveal_strlit("@EJL ID");
    let mark = seq!['@', 'E', 'J', 'L', ' ', 'I', 'D'];
    assert("@EJL ID"@ =~= mark);
    let text = decode_utf8(response);
    if text == mark + (space + identifier) {
        assert(text.subrange(0, 7) =~= mark);
        assert(text.skip(7) =~= space + identifier);
        lemma_space_skipped(space, identifier);
    }
    if begins_with(text, mark) {
        let front = text.subrange(0, 7);
        assert(front[0] == text[0] && front[1] == text[1] && front[2] == text[2] && front[3]
            == text[3] && front[4] == text[4] && front[5] == text[5] && front[6] == text[6]);
    }
}

proof fn lemma_space_skipped(space: Seq<char>, text: Seq<char>)
    requires
        forall|i: int| 0 <= i < space.len() ==> white_space(#[trigger] space[i]),
        text.len() > 0,
        !white_space(text[0]),
    ensures
        without_leading_space(space + text) == text,
    decreases space.len(),
{
    let whole = space + text;
    if space.len() == 0 {
        assert(whole =~= text);
    } else {
        assert(white_space(space[0]));
        let rest = space.drop_first();
        assert forall|i: int| 0 <= i < rest.len() implies white_space(#[trigger] rest[i]) by {
            assert(white_space(space[i + 1]));
        }
        lemma_space_skipped(rest, text);
        assert(whole.drop_first() =~= rest + text);
    }
}

/// What is told of a failure: the address that was received before the one that was asked
/// for, the value that was expected before the one that was found, and a failed rollback
/// behind the failure that it followed.
pub proof fn failures_are_put_into_words(
    first: u16,
    second: u16,
    expected: u8,
    actual: u8,
    reason: Seq<char>,
    other: Seq<char>,
)
    ensures
        epson_error_text(EpsonErrorView::AddressMismatch { requested: first, received: second })
            == "EEPROM response address "@ + ("0x"@ + hex_text(second as nat, 4, false))
            + " does not match requested "@ + ("0x"@ + hex_text(first as nat, 4, false)),
        epson_error_text(EpsonErrorView::VerificationFailed { address: first, expected, actual })
            == "EEPROM verification failed at "@ + ("0x"@ + hex_text(first as nat, 4, false))
            + ": expected "@ + ("0x"@ + hex_text(expected as nat, 2, false)) + ", got "@ + ("0x"@
            + hex_text(actual as nat, 2, false)),
        epson_error_text(EpsonErrorView::WriteRejected { address: first })
            == "EEPROM write was rejected at "@ + ("0x"@ + hex_text(first as nat, 4, false)),
        epson_error_text(
            EpsonErrorView::AtomicWriteFailed { address: first, reason, rollback_error: None },
        ) == "atomic EEPROM write failed at "@ + ("0x"@ + hex_text(first as nat, 4, false)) + ": "@
            + reason,
        epson_error_text(
            EpsonErrorView::AtomicWriteFailed {
                address: first,
                reason,
                rollback_error: Some((second, other)),
            },
        ) == "atomic EEPROM write failed at "@ + ("0x"@ + hex_text(first as nat, 4, false)) + ": "@
            + reason + "; rollback failed at "@ + ("0x"@ + hex_text(second as nat, 4, false))
            + ": "@ + other,
{
}

} // verus!
