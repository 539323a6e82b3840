//! The write-and-verify protocol for one element: write the encoded input,
//! check the first channel, and on a mismatch wait once and write once more.
//! The caller performs each action on the device and hands back what happened.
use vstd::prelude::*;

use crate::codec::{
    encode_input, encoded_values, first_channel_matches, first_channel_matches_target,
    kind_opt_view, ElemTypeTag, RawValues, RawValuesModel,
};
use crate::models::{copy_strings, strings_view, ControlKind, KindModel};
use crate::session::MixerError;

verus! {

/// The wait before the second write, in milliseconds: time for the device to
/// settle a control transfer.
pub const RETRY_BACKOFF_MS: u64 = 8;

/// Where the protocol stands.
#[derive(Debug, Clone, Copy, PartialEq, Eq, Structural)]
pub enum WriteStep {
    /// Waiting to hear whether the element exists, and its current value.
    AwaitElement,
    /// The first write was asked for.
    AwaitFirstWrite,
    /// The reading after the first write was asked for.
    AwaitVerify,
    /// The wait and the fresh reading before the second write were asked for.
    AwaitRetryRead,
    /// The second write was asked for.
    AwaitRetryWrite,
    /// The protocol has given its result.
    Finished,
}

/// What happened on the device since the last action.
#[derive(Debug, Clone)]
pub enum WriteEvent {
    /// The element with the numid exists: its type, its channel count and its
    /// current value.
    Located { elem_type: ElemTypeTag, count: u32, current: RawValues },
    /// No element has the numid.
    Missing,
    /// The asked-for write was done.
    Written,
    /// The reading after the first write, `None` where the read failed.
    ReadBack(Option<RawValues>),
    /// The fresh reading taken after the wait.
    Reread(RawValues),
}

/// What the caller is to do next.
#[derive(Debug)]
pub enum WriteAction {
    /// Write these values to the element.
    Write(RawValues),
    /// Read the element back.
    ReadBack,
    /// Wait this long, then read the element again.
    WaitThenReread { millis: u64 },
    /// The protocol is over, with this result.
    Finish(Result<(), MixerError>),
}

/// The state of one application of values to one element.
pub struct WriteProtocol {
    pub numid: u32,
    pub inputs: Vec<String>,
    pub kind: Option<ControlKind>,
    pub elem_type: ElemTypeTag,
    pub count: u32,
    pub step: WriteStep,
}

pub open spec fn kind_model(kind: Option<ControlKind>) -> Option<KindModel> {
    match kind {
        Some(k) => Some(k@),
        None => None,
    }
}

/// The values that a write puts on an element whose current value is
/// `current`: the encoded input, or the current value where the type is left
/// as it is.
pub open spec fn written_values(
    elem_type: ElemTypeTag,
    count: u32,
    inputs: Seq<Seq<char>>,
    kind: Option<KindModel>,
    current: RawValuesModel,
) -> RawValuesModel {
    match encoded_values(elem_type, count as nat, inputs, kind) {
        Some(v) => v,
        None => current,
    }
}

/// The action writes exactly these values.
pub open spec fn writes_values(a: WriteAction, v: RawValuesModel) -> bool {
    match a {
        WriteAction::Write(x) => x@ == v,
        _ => false,
    }
}

impl WriteProtocol {
    /// Starts applying `inputs` to the element with `numid`, with the kind that
    /// the last catalog build cached for it, where there is one.
    pub fn new(numid: u32, inputs: &Vec<String>, kind: Option<ControlKind>) -> (r: WriteProtocol)
        ensures
            r.numid == numid,
            strings_view(r.inputs@) == strings_view(inputs@),
            r.kind == kind,
            r.step == WriteStep::AwaitElement,
    {
        WriteProtocol {
            numid,
            inputs: copy_strings(inputs),
            kind,
            elem_type: ElemTypeTag::Other,
            count: 0,
            step: WriteStep::AwaitElement,
        }
    }

    fn values_to_write(&self, current: RawValues) -> (r: RawValues)
        ensures
            r@ == written_values(
                self.elem_type,
                self.count,
                strings_view(self.inputs@),
                kind_model(self.kind),
                current@,
            ),
    {
        let kind: Option<&ControlKind> = match &self.kind {
            Some(k) => Some(k),
            None => None,
        };
        assert(kind_opt_view(kind) == kind_model(self.kind));
        match encode_input(self.elem_type, self.count, &self.inputs, kind) {
            Some(v) => v,
            None => current,
        }
    }

    /// Advances the protocol by one event and says what to do next. Once the
    /// element is located its encoded input is written; the first channel is
    /// read back and compared with the clamped target; on a match the result is
    /// success, on a mismatch (or a failed read) the caller waits
    /// `RETRY_BACKOFF_MS`, the input is encoded afresh onto a new reading and
    /// written once more, and the result is success. A missing element ends in
    /// `ControlNotFound`; an event that the current step does not expect ends in
    /// `UnexpectedEvent`.
    pub fn step(&mut self, event: WriteEvent) -> (a: WriteAction)
        ensures
            final(self).numid == old(self).numid,
            strings_view(final(self).inputs@) == strings_view(old(self).inputs@),
            final(self).kind == old(self).kind,
            old(self).step == WriteStep::AwaitElement ==> match event {
                WriteEvent::Located { elem_type, count, current } => {
                    &&& final(self).elem_type == elem_type
                    &&& final(self).count == count
                    &&& final(self).step == WriteStep::AwaitFirstWrite
                    &&& writes_values(a, written_values(
                        elem_type,
                        count,
                        strings_view(old(self).inputs@),
                        kind_model(old(self).kind),
                        current@,
                    ))
                },
                WriteEvent::Missing => final(self).step == WriteStep::Finished && a == WriteAction::Finish(Err::<(), MixerError>(
                    MixerError::ControlNotFound { numid: old(self).numid },
                )),
                _ => final(self).step == WriteStep::Finished && a == WriteAction::Finish(Err::<(), MixerError>(MixerError::UnexpectedEvent)),
            },
            old(self).step != WriteStep::AwaitElement ==> final(self).elem_type == old(self).elem_type
                && final(self).count == old(self).count,
            old(self).step == WriteStep::AwaitFirstWrite ==> match event {
                WriteEvent::Written => final(self).step == WriteStep::AwaitVerify
                    && a is ReadBack,
                _ => final(self).step == WriteStep::Finished && a == WriteAction::Finish(Err::<(), MixerError>(MixerError::UnexpectedEvent)),
            },
            old(self).step == WriteStep::AwaitVerify ==> match event {
                WriteEvent::ReadBack(after) => if first_channel_matches(
                    match after {
                        Some(r) => Some(&r),
                        None => None,
                    },
                    old(self).elem_type,
                    strings_view(old(self).inputs@),
                    kind_model(old(self).kind),
                ) {
                    final(self).step == WriteStep::Finished && a == WriteAction::Finish(Ok::<(), MixerError>(()))
                } else {
                    final(self).step == WriteStep::AwaitRetryRead && a == WriteAction::WaitThenReread { millis: RETRY_BACKOFF_MS }
                },
                _ => final(self).step == WriteStep::Finished && a == WriteAction::Finish(Err::<(), MixerError>(MixerError::UnexpectedEvent)),
            },
            old(self).step == WriteStep::AwaitRetryRead ==> match event {
                WriteEvent::Reread(current) => {
                    &&& final(self).step == WriteStep::AwaitRetryWrite
                    &&& writes_values(a, written_values(
                        old(self).elem_type,
                        old(self).count,
                        strings_view(old(self).inputs@),
                        kind_model(old(self).kind),
                        current@,
                    ))
                },
                _ => final(self).step == WriteStep::Finished && a == WriteAction::Finish(Err::<(), MixerError>(MixerError::UnexpectedEvent)),
            },
            old(self).step == WriteStep::AwaitRetryWrite ==> match event {
                WriteEvent::Written => final(self).step == WriteStep::Finished && a == WriteAction::Finish(Ok::<(), MixerError>(())),
                _ => final(self).step == WriteStep::Finished && a == WriteAction::Finish(Err::<(), MixerError>(MixerError::UnexpectedEvent)),
            },
            old(self).step == WriteStep::Finished ==> final(self).step == WriteStep::Finished
                && a == WriteAction::Finish(Err::<(), MixerError>(
                MixerError::UnexpectedEvent,
            )),
    {
        match (self.step, event) {
            (WriteStep::AwaitElement, WriteEvent::Located { elem_type, count, current }) => {
                self.elem_type = elem_type;
                self.count = count;
                self.step = WriteStep::AwaitFirstWrite;
                WriteAction::Write(self.values_to_write(current))
            },
            (WriteStep::AwaitElement, WriteEvent::Missing) => {
                self.step = WriteStep::Finished;
                WriteAction::Finish(Err(MixerError::ControlNotFound { numid: self.numid }))
            },
            (WriteStep::AwaitFirstWrite, WriteEvent::Written) => {
                self.step = WriteStep::AwaitVerify;
                WriteAction::ReadBack
            },
            (WriteStep::AwaitVerify, WriteEvent::ReadBack(after)) => {
                let kind: Option<&ControlKind> = match &self.kind {
                    Some(k) => Some(k),
                    None => None,
                };
                assert(kind_opt_view(kind) == kind_model(self.kind));
                let reading: Option<&RawValues> = match &after {
                    Some(r) => Some(r),
                    None => None,
                };
                if first_channel_matches_target(reading, self.elem_type, &self.inputs, kind) {
                    self.step = WriteStep::Finished;
                    WriteAction::Finish(Ok(()))
                } else {
                    self.step = WriteStep::AwaitRetryRead;
                    WriteAction::WaitThenReread { millis: RETRY_BACKOFF_MS }
                }
            },
            (WriteStep::AwaitRetryRead, WriteEvent::Reread(current)) => {
                self.step = WriteStep::AwaitRetryWrite;
                WriteAction::Write(self.values_to_write(current))
            },
            (WriteStep::AwaitRetryWrite, WriteEvent::Written) => {
                self.step = WriteStep::Finished;
                WriteAction::Finish(Ok(()))
            },
            _ => {
                self.step = WriteStep::Finished;
                WriteAction::Finish(Err(MixerError::UnexpectedEvent))
            },
        }
    }
}

} // verus!
