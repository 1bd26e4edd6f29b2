//! Building frames step by step.

use vstd::prelude::*;
use vstd::string::StringSliceAdditionalSpecFns;

use crate::types::{Frame, FrameType, FrameView, Header, HeaderView, VSTP_VERSION};

verus! {

/// Builds a frame field by field.
#[derive(Debug)]
pub struct FrameBuilder {
    frame: Frame,
}

impl View for FrameBuilder {
    type V = FrameView;

    /// The frame that `build` would hand out.
    closed spec fn view(&self) -> FrameView {
        self.frame@
    }
}

impl FrameBuilder {
    /// A builder for an empty frame of the given type.
    pub fn new(typ: FrameType) -> (r: FrameBuilder)
        ensures
            r@ == (FrameView {
                version: VSTP_VERSION,
                typ,
                flags: 0,
                headers: Seq::empty(),
                payload: Seq::empty(),
            }),
    {
        FrameBuilder { frame: Frame::new(typ) }
    }

    /// Adds a header made of the UTF-8 bytes of two strings.
    pub fn header(self, key: &str, value: &str) -> (r: FrameBuilder)
        ensures
            r@ == (FrameView {
                headers: self@.headers.push(
                    HeaderView { key: key.spec_bytes(), value: value.spec_bytes() },
                ),
                ..self@
            }),
    {
        FrameBuilder { frame: self.frame.with_header(key, value) }
    }

    /// Adds a header of plain bytes.
    pub fn binary_header(self, key: Vec<u8>, value: Vec<u8>) -> (r: FrameBuilder)
        ensures
            r@ == (FrameView {
                headers: self@.headers.push(HeaderView { key: key@, value: value@ }),
                ..self@
            }),
    {
        let mut frame = self.frame;
        frame.headers.push(Header::new(key, value));
        assert(frame@.headers =~= self@.headers.push(HeaderView { key: key@, value: value@ }));
        FrameBuilder { frame }
    }

    /// Sets the payload.
    pub fn payload(self, payload: Vec<u8>) -> (r: FrameBuilder)
        ensures
            r@ == (FrameView { payload: payload@, ..self@ }),
    {
        FrameBuilder { frame: self.frame.with_payload(payload) }
    }

    /// Sets the bits of `flag` as well.
    pub fn flag(self, flag: u8) -> (r: FrameBuilder)
        ensures
            r@ == (FrameView { flags: self@.flags | flag, ..self@ }),
    {
        FrameBuilder { frame: self.frame.with_flag(flag) }
    }

    /// The frame.
    pub fn build(self) -> (r: Frame)
        ensures
            r@ == self@,
    {
        self.frame
    }
}

} // verus!
