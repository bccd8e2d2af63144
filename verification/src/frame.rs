//! The messages of the protocol.
use crate::event::{HelloInfo, HelloModel, InputEvent, WelcomeInfo};
use vstd::prelude::*;

verus! {

/// One protocol message.
#[derive(Debug, Clone, PartialEq)]
pub enum Frame {
    Hello(HelloInfo),
    Welcome(WelcomeInfo),
    Event(InputEvent),
    Ack { acked_seq: u32 },
    Ping { nonce: u64 },
    Pong { nonce: u64 },
    Bye,
}

/// The contents of a [`Frame`].
pub enum FrameModel {
    Hello(HelloModel),
    Welcome(WelcomeInfo),
    Event(InputEvent),
    Ack { acked_seq: u32 },
    Ping { nonce: u64 },
    Pong { nonce: u64 },
    Bye,
}

impl View for Frame {
    type V = FrameModel;

    open spec fn view(&self) -> FrameModel {
        match self {
            Frame::Hello(hello) => FrameModel::Hello(hello@),
            Frame::Welcome(welcome) => FrameModel::Welcome(*welcome),
            Frame::Event(event) => FrameModel::Event(*event),
            Frame::Ack { acked_seq } => FrameModel::Ack { acked_seq: *acked_seq },
            Frame::Ping { nonce } => FrameModel::Ping { nonce: *nonce },
            Frame::Pong { nonce } => FrameModel::Pong { nonce: *nonce },
            Frame::Bye => FrameModel::Bye,
        }
    }
}

/// The contents of a sequence of frames.
pub open spec fn frame_models(frames: Seq<Frame>) -> Seq<FrameModel> {
    frames.map_values(|f: Frame| f@)
}

} // verus!
