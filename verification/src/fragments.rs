//! Cutting a long byte string into fragments, and the three headers that
//! carry a fragment's place through a frame.

use vstd::prelude::*;
use vstd::slice::{slice_subrange, slice_to_vec};
use vstd::string::StringExecFns;
use crate::decimal::{decimal_bytes, format_decimal, parse_decimal, parse_decimal_spec};
use crate::error::VstpError;
use crate::reassembly::{Fragment, FragmentView, MAX_DATAGRAM_SIZE, MAX_FRAGMENTS};
use crate::types::{first_header, Frame, FrameView, Header, HeaderView};

verus! {

/// The key `frag-id`.
pub open spec fn frag_id_key() -> Seq<u8> {
    seq![102u8, 114u8, 97u8, 103u8, 45u8, 105u8, 100u8]
}

/// The key `frag-index`.
pub open spec fn frag_index_key() -> Seq<u8> {
    seq![102u8, 114u8, 97u8, 103u8, 45u8, 105u8, 110u8, 100u8, 101u8, 120u8]
}

/// The key `frag-total`.
pub open spec fn frag_total_key() -> Seq<u8> {
    seq![102u8, 114u8, 97u8, 103u8, 45u8, 116u8, 111u8, 116u8, 97u8, 108u8]
}

/// The key `frag-id`.
pub fn frag_id_key_bytes() -> (r: Vec<u8>)
    ensures
        r@ == frag_id_key(),
{
    let r = vec![102u8, 114u8, 97u8, 103u8, 45u8, 105u8, 100u8];
    assert(r@ =~= frag_id_key());
    r
}

/// The key `frag-index`.
pub fn frag_index_key_bytes() -> (r: Vec<u8>)
    ensures
        r@ == frag_index_key(),
{
    let r = vec![102u8, 114u8, 97u8, 103u8, 45u8, 105u8, 110u8, 100u8, 101u8, 120u8];
    assert(r@ =~= frag_index_key());
    r
}

/// The key `frag-total`.
pub fn frag_total_key_bytes() -> (r: Vec<u8>)
    ensures
        r@ == frag_total_key(),
{
    let r = vec![102u8, 114u8, 97u8, 103u8, 45u8, 116u8, 111u8, 116u8, 97u8, 108u8];
    assert(r@ =~= frag_total_key());
    r
}

/// Whether a key is one of the three fragment keys.
pub open spec fn is_fragment_key(key: Seq<u8>) -> bool {
    key == frag_id_key() || key == frag_index_key() || key == frag_total_key()
}

/// The number of fragments that a byte string of the given length needs.
pub open spec fn fragment_count(len: int) -> int {
    (len + MAX_DATAGRAM_SIZE - 1) / (MAX_DATAGRAM_SIZE as int)
}

/// The fragment of index `i` of a byte string cut into `total` fragments:
/// its bytes `1200 * i` up to `1200 * (i + 1)`, or to the end.
pub open spec fn fragment_at(payload: Seq<u8>, frag_id: u8, total: int, i: int) -> FragmentView {
    FragmentView {
        frag_id,
        frag_index: i as u8,
        frag_total: total as u8,
        data: payload.subrange(
            MAX_DATAGRAM_SIZE * i,
            if MAX_DATAGRAM_SIZE * (i + 1) < payload.len() {
                MAX_DATAGRAM_SIZE * (i + 1)
            } else {
                payload.len() as int
            },
        ),
    }
}

/// The fragments of a byte string: none when it fits one datagram, else
/// pieces of 1200 bytes, the last one maybe shorter, in their order.
pub open spec fn fragments_of(payload: Seq<u8>, frag_id: u8) -> Seq<FragmentView> {
    if payload.len() <= MAX_DATAGRAM_SIZE {
        Seq::empty()
    } else {
        Seq::new(
            fragment_count(payload.len() as int) as nat,
            |i: int| fragment_at(payload, frag_id, fragment_count(payload.len() as int), i),
        )
    }
}

/// The fragments of a list, each by what it is.
pub open spec fn fragments_view(fragments: Seq<Fragment>) -> Seq<FragmentView> {
    Seq::new(fragments.len(), |i: int| fragments[i]@)
}

/// Cuts a byte string into fragments.
///
/// A byte string of at most 1200 bytes needs none. One that would need
/// more than 255 is refused. Otherwise the result holds the fragments in
/// index order, each with the given fragment id and the total count.
pub fn fragment_payload(payload: &[u8], frag_id: u8) -> (r: Result<Vec<Fragment>, VstpError>)
    ensures
        fragment_count(payload@.len() as int) <= MAX_FRAGMENTS ==> r is Ok && fragments_view(
            r->Ok_0@,
        ) == fragments_of(payload@, frag_id),
        fragment_count(payload@.len() as int) > MAX_FRAGMENTS ==> r is Err
            && r->Err_0.is_protocol("Payload too large"@),
{
    if payload.len() <= MAX_DATAGRAM_SIZE {
        let none: Vec<Fragment> = Vec::new();
        assert(fragments_view(none@) =~= fragments_of(payload@, frag_id));
        return Ok(none);
    }
    let total: usize = (payload.len() - 1) / MAX_DATAGRAM_SIZE + 1;
    assert(total == fragment_count(payload@.len() as int));
    if total > MAX_FRAGMENTS {
        return Err(VstpError::Protocol(String::from_str("Payload too large")));
    }
    let mut fragments: Vec<Fragment> = Vec::new();
    let mut i: usize = 0;
    while i < total
        invariant
            i <= total,
            total == fragment_count(payload@.len() as int),
            total <= MAX_FRAGMENTS,
            payload@.len() > MAX_DATAGRAM_SIZE,
            fragments@.len() == i,
            forall|j: int|
                0 <= j < i ==> (#[trigger] fragments@[j])@ == fragment_at(
                    payload@,
                    frag_id,
                    total as int,
                    j,
                ),
        decreases total - i,
    {
        let start: usize = i * MAX_DATAGRAM_SIZE;
        let end: usize = if payload.len() - start > MAX_DATAGRAM_SIZE {
            start + MAX_DATAGRAM_SIZE
        } else {
            payload.len()
        };
        fragments.push(
            Fragment {
                frag_id,
                frag_index: i as u8,
                frag_total: total as u8,
                data: slice_to_vec(slice_subrange(payload, start, end)),
            },
        );
        i += 1;
    }
    assert(fragments_view(fragments@) =~= fragments_of(payload@, frag_id));
    Ok(fragments)
}

/// The place of a fragment that a frame's headers give, if they give one:
/// the first `frag-id`, `frag-index` and `frag-total` headers, each a
/// decimal number of at most 255. The frame's payload is the fragment's
/// bytes.
pub open spec fn fragment_info_spec(f: FrameView) -> Option<FragmentView> {
    match (
        first_header(f.headers, frag_id_key()),
        first_header(f.headers, frag_index_key()),
        first_header(f.headers, frag_total_key()),
    ) {
        (Some(id), Some(index), Some(total)) => match (
            parse_decimal_spec(id, 255),
            parse_decimal_spec(index, 255),
            parse_decimal_spec(total, 255),
        ) {
            (Some(i), Some(x), Some(t)) => Some(
                FragmentView {
                    frag_id: i as u8,
                    frag_index: x as u8,
                    frag_total: t as u8,
                    data: f.payload,
                },
            ),
            _ => None,
        },
        _ => None,
    }
}

/// Reads the place of a fragment from a frame's headers.
///
/// The result is a fragment exactly when the frame has all three fragment
/// headers and each holds a decimal number of at most 255.
pub fn extract_fragment_info(frame: &Frame) -> (r: Option<Fragment>)
    ensures
        match r {
            Some(fragment) => fragment_info_spec(frame@) == Some(fragment@),
            None => fragment_info_spec(frame@) is None,
        },
{
    let id_key = frag_id_key_bytes();
    let index_key = frag_index_key_bytes();
    let total_key = frag_total_key_bytes();
    let id_text = match frame.header_value(id_key.as_slice()) {
        Some(v) => v,
        None => {
            return None;
        },
    };
    let index_text = match frame.header_value(index_key.as_slice()) {
        Some(v) => v,
        None => {
            return None;
        },
    };
    let total_text = match frame.header_value(total_key.as_slice()) {
        Some(v) => v,
        None => {
            return None;
        },
    };
    let frag_id = match parse_decimal(id_text, 255) {
        Some(n) => n,
        None => {
            return None;
        },
    };
    let frag_index = match parse_decimal(index_text, 255) {
        Some(n) => n,
        None => {
            return None;
        },
    };
    let frag_total = match parse_decimal(total_text, 255) {
        Some(n) => n,
        None => {
            return None;
        },
    };
    Some(
        Fragment {
            frag_id: frag_id as u8,
            frag_index: frag_index as u8,
            frag_total: frag_total as u8,
            data: slice_to_vec(frame.payload.as_slice()),
        },
    )
}

/// The three headers that carry a fragment's place.
pub open spec fn fragment_headers(id: u8, index: u8, total: u8) -> Seq<HeaderView> {
    seq![
        HeaderView { key: frag_id_key(), value: decimal_bytes(id as nat) },
        HeaderView { key: frag_index_key(), value: decimal_bytes(index as nat) },
        HeaderView { key: frag_total_key(), value: decimal_bytes(total as nat) },
    ]
}

/// Appends the three fragment headers to a frame.
pub fn add_fragment_headers(frame: &mut Frame, fragment: &Fragment)
    ensures
        final(frame)@ == (FrameView {
            headers: old(frame)@.headers + fragment_headers(
                fragment.frag_id,
                fragment.frag_index,
                fragment.frag_total,
            ),
            ..old(frame)@
        }),
{
    frame.headers.push(
        Header { key: frag_id_key_bytes(), value: format_decimal(fragment.frag_id as u64) },
    );
    frame.headers.push(
        Header {
            key: frag_index_key_bytes(),
            value: format_decimal(fragment.frag_index as u64),
        },
    );
    frame.headers.push(
        Header {
            key: frag_total_key_bytes(),
            value: format_decimal(fragment.frag_total as u64),
        },
    );
    assert(frame@.headers =~= old(frame)@.headers + fragment_headers(
        fragment.frag_id,
        fragment.frag_index,
        fragment.frag_total,
    ));
}

} // verus!
