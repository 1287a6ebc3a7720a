pub mod codec;
pub mod jitter;
pub mod negotiation;
pub mod rtp;
pub mod sdp;
pub mod sdp_roundtrip;
