//! Frames, their headers and their types.

use vstd::prelude::*;
use vstd::slice::slice_to_vec;
use vstd::string::StringSliceAdditionalSpecFns;
use crate::flags::Flags;

verus! {

/// The first byte of every frame.
pub const VSTP_MAGIC_0: u8 = 0x56;

/// The second byte of every frame.
pub const VSTP_MAGIC_1: u8 = 0x54;

/// The two bytes every frame starts with ("VT").
pub const VSTP_MAGIC: [u8; 2] = [0x56, 0x54];

/// The one protocol version this library speaks.
pub const VSTP_VERSION: u8 = 0x01;

/// Names one TCP connection of a server, or one UDP peer.
pub type SessionId = u128;

/// What a header is: a key and a value, both plain bytes.
pub struct HeaderView {
    pub key: Seq<u8>,
    pub value: Seq<u8>,
}

/// One header of a frame.
#[derive(Debug, Clone, PartialEq, Eq)]
pub struct Header {
    pub key: Vec<u8>,
    pub value: Vec<u8>,
}

impl View for Header {
    type V = HeaderView;

    open spec fn view(&self) -> HeaderView {
        HeaderView { key: self.key@, value: self.value@ }
    }
}

impl Header {
    /// A header of the given key and value.
    pub fn new(key: Vec<u8>, value: Vec<u8>) -> (r: Header)
        ensures
            r@ == (HeaderView { key: key@, value: value@ }),
    {
        Header { key, value }
    }

    /// A header whose key and value are the UTF-8 bytes of two strings.
    pub fn from_str(key: &str, value: &str) -> (r: Header)
        ensures
            r@ == (HeaderView { key: key.spec_bytes(), value: value.spec_bytes() }),
    {
        Header { key: slice_to_vec(key.as_bytes()), value: slice_to_vec(value.as_bytes()) }
    }

    /// A copy of this header.
    pub fn duplicate(&self) -> (r: Header)
        ensures
            r@ == self@,
    {
        Header { key: slice_to_vec(self.key.as_slice()), value: slice_to_vec(self.value.as_slice()) }
    }
}

/// The type of a frame.
#[derive(Debug, Clone, Copy, PartialEq, Eq, Hash, Structural)]
pub enum FrameType {
    /// Client greeting at session start.
    Hello,
    /// Server response to a greeting.
    Welcome,
    /// Application payload.
    Data,
    /// Liveness probe.
    Ping,
    /// Response to a probe.
    Pong,
    /// Graceful termination.
    Bye,
    /// Acknowledgement of a message.
    Ack,
    /// Error notification.
    Error,
}

impl FrameType {
    /// The type that a wire byte names, if any.
    pub open spec fn spec_from_u8(value: u8) -> Option<FrameType> {
        if value == 0x01 {
            Some(FrameType::Hello)
        } else if value == 0x02 {
            Some(FrameType::Welcome)
        } else if value == 0x03 {
            Some(FrameType::Data)
        } else if value == 0x04 {
            Some(FrameType::Ping)
        } else if value == 0x05 {
            Some(FrameType::Pong)
        } else if value == 0x06 {
            Some(FrameType::Bye)
        } else if value == 0x07 {
            Some(FrameType::Ack)
        } else if value == 0x08 {
            Some(FrameType::Error)
        } else {
            None
        }
    }

    /// The wire byte of this type.
    pub open spec fn spec_code(self) -> u8 {
        match self {
            FrameType::Hello => 0x01,
            FrameType::Welcome => 0x02,
            FrameType::Data => 0x03,
            FrameType::Ping => 0x04,
            FrameType::Pong => 0x05,
            FrameType::Bye => 0x06,
            FrameType::Ack => 0x07,
            FrameType::Error => 0x08,
        }
    }

    /// The type that a wire byte names; `None` for every byte outside 1..=8.
    #[verifier::when_used_as_spec(spec_from_u8)]
    pub fn from_u8(value: u8) -> (r: Option<FrameType>)
        ensures
            r == FrameType::spec_from_u8(value),
    {
        match value {
            0x01 => Some(FrameType::Hello),
            0x02 => Some(FrameType::Welcome),
            0x03 => Some(FrameType::Data),
            0x04 => Some(FrameType::Ping),
            0x05 => Some(FrameType::Pong),
            0x06 => Some(FrameType::Bye),
            0x07 => Some(FrameType::Ack),
            0x08 => Some(FrameType::Error),
            _ => None,
        }
    }

    /// The wire byte of this type.
    #[verifier::when_used_as_spec(spec_code)]
    pub fn code(self) -> (r: u8)
        ensures
            r == self.spec_code(),
    {
        match self {
            FrameType::Hello => 0x01,
            FrameType::Welcome => 0x02,
            FrameType::Data => 0x03,
            FrameType::Ping => 0x04,
            FrameType::Pong => 0x05,
            FrameType::Bye => 0x06,
            FrameType::Ack => 0x07,
            FrameType::Error => 0x08,
        }
    }
}

/// Each type is named by its own wire byte, and by no other.
pub proof fn lemma_type_code_roundtrip(t: FrameType)
    ensures
        FrameType::spec_from_u8(t.spec_code()) == Some(t),
{
}

/// A wire byte that names a type is that type's wire byte.
pub proof fn lemma_type_code_unique(value: u8)
    ensures
        FrameType::spec_from_u8(value) matches Some(t) ==> t.spec_code() == value,
{
}

/// What a frame is: the five fields, the headers in their order.
pub struct FrameView {
    pub version: u8,
    pub typ: FrameType,
    pub flags: u8,
    pub headers: Seq<HeaderView>,
    pub payload: Seq<u8>,
}

/// The headers of a list, each by what it is.
pub open spec fn headers_view(headers: Seq<Header>) -> Seq<HeaderView> {
    Seq::new(headers.len(), |i: int| headers[i]@)
}

/// No header stands before `at`, or none of those before `at` has the key.
pub open spec fn no_key_before(headers: Seq<HeaderView>, key: Seq<u8>, at: int) -> bool {
    forall|j: int| 0 <= j < at && j < headers.len() ==> (#[trigger] headers[j]).key != key
}

/// The value of the first header with the given key.
pub open spec fn first_header(headers: Seq<HeaderView>, key: Seq<u8>) -> Option<Seq<u8>>
    decreases headers.len(),
{
    if headers.len() == 0 {
        None
    } else if headers[0].key == key {
        Some(headers[0].value)
    } else {
        first_header(headers.drop_first(), key)
    }
}

/// A complete frame.
#[derive(Debug, Clone, PartialEq, Eq)]
pub struct Frame {
    pub version: u8,
    pub typ: FrameType,
    pub flags: Flags,
    pub headers: Vec<Header>,
    pub payload: Vec<u8>,
}

impl View for Frame {
    type V = FrameView;

    open spec fn view(&self) -> FrameView {
        FrameView {
            version: self.version,
            typ: self.typ,
            flags: self.flags.bits,
            headers: headers_view(self.headers@),
            payload: self.payload@,
        }
    }
}

/// Whether two byte strings are the same.
pub fn bytes_equal(a: &[u8], b: &[u8]) -> (r: bool)
    ensures
        r == (a@ == b@),
{
    if a.len() != b.len() {
        return false;
    }
    let mut i: usize = 0;
    while i < a.len()
        invariant
            a@.len() == b@.len(),
            i <= a@.len(),
            forall|j: int| 0 <= j < i ==> a@[j] == b@[j],
        decreases a@.len() - i,
    {
        if a[i] != b[i] {
            return false;
        }
        i += 1;
    }
    assert(a@ =~= b@);
    true
}

/// Finding the first header from a later start gives the same value, as long
/// as no earlier header has the key.
pub proof fn lemma_first_header_skip(headers: Seq<HeaderView>, key: Seq<u8>, at: int)
    requires
        0 <= at <= headers.len(),
        no_key_before(headers, key, at),
    ensures
        first_header(headers, key) == first_header(headers.skip(at), key),
    decreases at,
{
    if at == 0 {
        assert(headers.skip(0) =~= headers);
    } else {
        assert(headers[0].key != key);
        let rest = headers.drop_first();
        assert forall|j: int| 0 <= j < at - 1 && j < rest.len() implies (#[trigger] rest[j]).key
            != key by {
            assert(rest[j] == headers[j + 1]);
        }
        lemma_first_header_skip(rest, key, at - 1);
        assert(rest.skip(at - 1) =~= headers.skip(at));
    }
}

impl Frame {
    /// An empty frame of the given type: current version, no flag, no header,
    /// no payload.
    pub fn new(typ: FrameType) -> (r: Frame)
        ensures
            r@ == (FrameView {
                version: VSTP_VERSION,
                typ,
                flags: 0,
                headers: Seq::empty(),
                payload: Seq::empty(),
            }),
    {
        let r = Frame {
            version: VSTP_VERSION,
            typ,
            flags: Flags::empty(),
            headers: Vec::new(),
            payload: Vec::new(),
        };
        assert(r@.headers =~= Seq::empty());
        r
    }

    /// The same frame with another payload.
    pub fn with_payload(self, payload: Vec<u8>) -> (r: Frame)
        ensures
            r@ == (FrameView { payload: payload@, ..self@ }),
    {
        let mut r = self;
        r.payload = payload;
        r
    }

    /// The same frame with one more header at the end, made of the UTF-8
    /// bytes of the two strings.
    pub fn with_header(self, key: &str, value: &str) -> (r: Frame)
        ensures
            r@ == (FrameView {
                headers: self@.headers.push(
                    HeaderView { key: key.spec_bytes(), value: value.spec_bytes() },
                ),
                ..self@
            }),
    {
        let mut r = self;
        r.headers.push(Header::from_str(key, value));
        assert(r@.headers =~= self@.headers.push(
            HeaderView { key: key.spec_bytes(), value: value.spec_bytes() },
        ));
        r
    }

    /// The same frame with the bits of `flag` set as well.
    pub fn with_flag(self, flag: u8) -> (r: Frame)
        ensures
            r@ == (FrameView { flags: self@.flags | flag, ..self@ }),
    {
        let mut r = self;
        r.flags.insert(flag);
        r
    }

    /// The payload.
    pub fn payload(&self) -> (r: &[u8])
        ensures
            r@ == self@.payload,
    {
        self.payload.as_slice()
    }

    /// The type.
    pub fn frame_type(&self) -> (r: FrameType)
        ensures
            r == self@.typ,
    {
        self.typ
    }

    /// The value of the first header whose key is `key`, byte for byte.
    pub fn header_value(&self, key: &[u8]) -> (r: Option<&[u8]>)
        ensures
            match r {
                Some(v) => first_header(self@.headers, key@) == Some(v@),
                None => first_header(self@.headers, key@) is None,
            },
    {
        let mut i: usize = 0;
        while i < self.headers.len()
            invariant
                i <= self.headers@.len(),
                no_key_before(self@.headers, key@, i as int),
            decreases self.headers@.len() - i,
        {
            if bytes_equal(self.headers[i].key.as_slice(), key) {
                proof {
                    lemma_first_header_skip(self@.headers, key@, i as int);
                    assert(self@.headers.skip(i as int)[0] == self@.headers[i as int]);
                }
                return Some(self.headers[i].value.as_slice());
            }
            i += 1;
        }
        proof {
            lemma_first_header_skip(self@.headers, key@, i as int);
        }
        None
    }

    /// The value of the first header whose key is the UTF-8 bytes of `key`.
    pub fn get_header(&self, key: &str) -> (r: Option<&[u8]>)
        ensures
            match r {
                Some(v) => first_header(self@.headers, key.spec_bytes()) == Some(v@),
                None => first_header(self@.headers, key.spec_bytes()) is None,
            },
    {
        self.header_value(key.as_bytes())
    }

    /// A copy of this frame.
    pub fn duplicate(&self) -> (r: Frame)
        ensures
            r@ == self@,
    {
        let mut headers: Vec<Header> = Vec::new();
        let mut i: usize = 0;
        while i < self.headers.len()
            invariant
                i <= self.headers@.len(),
                headers@.len() == i,
                forall|j: int| 0 <= j < i ==> (#[trigger] headers@[j])@ == self.headers@[j]@,
            decreases self.headers@.len() - i,
        {
            headers.push(self.headers[i].duplicate());
            i += 1;
        }
        let r = Frame {
            version: self.version,
            typ: self.typ,
            flags: self.flags,
            headers,
            payload: slice_to_vec(self.payload.as_slice()),
        };
        assert(r@.headers =~= self@.headers);
        r
    }
}

} // verus!
