//! Messages as frames on the serial link: encode then stuff, unstuff then decode.
use vstd::prelude::*;
use vstd::slice::slice_subrange;

use crate::codec::{
    decode_report, decode_setpoint, encode_report, encode_setpoint, lemma_report_round_trip,
    lemma_setpoint_round_trip, parse_report, parse_setpoint, report_bytes, setpoint_bytes,
    CodecError, REPORT_BYTES, SETPOINT_BYTES,
};
use crate::frame::{
    cobs_encoding, frame_bytes, frame_payload, unframe, zero_free, FRAME_OVERHEAD,
};
use crate::schema::{Report, Setpoint};

verus! {

proof fn lemma_report_decodes(rep: Report)
    ensures
        parse_report(report_bytes(rep), 0) == Ok::<(Report, nat), CodecError>(
            (rep, report_bytes(rep).len()),
        ),
        0 < report_bytes(rep).len() <= REPORT_BYTES,
{
    lemma_report_round_trip(rep, Seq::<u8>::empty());
    assert(report_bytes(rep) + Seq::<u8>::empty() =~= report_bytes(rep));
}

proof fn lemma_setpoint_decodes(sp: Setpoint)
    ensures
        parse_setpoint(setpoint_bytes(sp), 0) == Ok::<(Setpoint, nat), CodecError>(
            (sp, setpoint_bytes(sp).len()),
        ),
        0 < setpoint_bytes(sp).len() <= SETPOINT_BYTES,
{
    lemma_setpoint_round_trip(sp, Seq::<u8>::empty());
    assert(setpoint_bytes(sp) + Seq::<u8>::empty() =~= setpoint_bytes(sp));
}

/// Largest frame that carries a report.
pub const REPORT_FRAME_BYTES: usize = REPORT_BYTES + FRAME_OVERHEAD;

/// Largest frame that carries a setpoint.
pub const SETPOINT_FRAME_BYTES: usize = SETPOINT_BYTES + FRAME_OVERHEAD;

/// Writes the frame of a report at the start of `buf` and returns its length. Only
/// the final delimiter byte of the frame is zero. On failure `buf` is left as it was.
pub fn serialize_report(report: Report, buf: &mut [u8]) -> (r: Result<usize, CodecError>)
    ensures
        r is Ok <==> report_bytes(report).len() + FRAME_OVERHEAD <= old(buf)@.len(),
        r matches Ok(n) ==> n == report_bytes(report).len() + FRAME_OVERHEAD,
        r matches Ok(n) ==> n <= REPORT_FRAME_BYTES,
        r matches Ok(n) ==> final(buf)@.subrange(0, n as int) == frame_bytes(report_bytes(report)),
        r matches Ok(n) ==> zero_free(final(buf)@.subrange(0, n - 1)) && final(buf)@[n - 1] == 0,
        final(buf)@.len() == old(buf)@.len(),
        r matches Err(e) ==> e == CodecError::BufferTooSmall && final(buf)@ == old(buf)@,
{
    let mut scratch = [0u8;REPORT_BYTES];
    let n = match encode_report(report, &mut scratch) {
        Ok(n) => n,
        Err(e) => {
            return Err(e);
        },
    };
    proof {
        assert(scratch@.subrange(0, n as int) =~= report_bytes(report));
    }
    let payload = slice_subrange(scratch.as_slice(), 0, n);
    frame_payload(payload, buf)
}

/// Writes the frame of a setpoint at the start of `buf` and returns its length. Only
/// the final delimiter byte of the frame is zero. On failure `buf` is left as it was.
pub fn serialize_setpoint(setpoint: Setpoint, buf: &mut [u8]) -> (r: Result<usize, CodecError>)
    ensures
        r is Ok <==> setpoint_bytes(setpoint).len() + FRAME_OVERHEAD <= old(buf)@.len(),
        r matches Ok(n) ==> n == setpoint_bytes(setpoint).len() + FRAME_OVERHEAD,
        r matches Ok(n) ==> n <= SETPOINT_FRAME_BYTES,
        r matches Ok(n) ==> final(buf)@.subrange(0, n as int) == frame_bytes(setpoint_bytes(setpoint)),
        r matches Ok(n) ==> zero_free(final(buf)@.subrange(0, n - 1)) && final(buf)@[n - 1] == 0,
        final(buf)@.len() == old(buf)@.len(),
        r matches Err(e) ==> e == CodecError::BufferTooSmall && final(buf)@ == old(buf)@,
{
    let mut scratch = [0u8;SETPOINT_BYTES];
    let n = match encode_setpoint(setpoint, &mut scratch) {
        Ok(n) => n,
        Err(e) => {
            return Err(e);
        },
    };
    proof {
        assert(scratch@.subrange(0, n as int) =~= setpoint_bytes(setpoint));
    }
    let payload = slice_subrange(scratch.as_slice(), 0, n);
    frame_payload(payload, buf)
}

/// Recovers a report from a frame, given with or without its delimiter. The frame of
/// any report decodes to that report; malformed stuffing gives `FrameCorrupt`, and
/// the decoded bytes are then held to the codec's rules.
pub fn deserialize_report(buf: &mut [u8]) -> (r: Result<Report, CodecError>)
    ensures
        final(buf)@ == old(buf)@,
        r matches Err(e) ==> e != CodecError::BufferTooSmall,
        forall|rep: Report|
            old(buf)@ == #[trigger] frame_bytes(report_bytes(rep)) || old(buf)@ == cobs_encoding(
                report_bytes(rep),
            ) ==> r == Ok::<Report, CodecError>(rep),
{
    let mut scratch = [0u8;REPORT_BYTES];
    let r = match unframe(buf, &mut scratch) {
        Ok(n) => {
            let payload = slice_subrange(scratch.as_slice(), 0, n);
            match decode_report(payload) {
                Ok((rep, _)) => Ok(rep),
                Err(e) => Err(e),
            }
        },
        Err(e) => Err(e),
    };
    proof {
        assert forall|rep: Report|
            buf@ == #[trigger] frame_bytes(report_bytes(rep)) || buf@ == cobs_encoding(
                report_bytes(rep),
            ) implies r == Ok::<Report, CodecError>(rep) by {
            lemma_report_decodes(rep);
        }
    }
    r
}

/// Recovers a setpoint from a frame, given with or without its delimiter. The frame
/// of any setpoint decodes to that setpoint; malformed stuffing gives
/// `FrameCorrupt`, and the decoded bytes are then held to the codec's rules.
pub fn deserialize_setpoint(buf: &mut [u8]) -> (r: Result<Setpoint, CodecError>)
    ensures
        final(buf)@ == old(buf)@,
        r matches Err(e) ==> e != CodecError::BufferTooSmall,
        forall|sp: Setpoint|
            old(buf)@ == #[trigger] frame_bytes(setpoint_bytes(sp)) || old(buf)@
                == cobs_encoding(setpoint_bytes(sp)) ==> r == Ok::<Setpoint, CodecError>(sp),
{
    let mut scratch = [0u8;SETPOINT_BYTES];
    let r = match unframe(buf, &mut scratch) {
        Ok(n) => {
            let payload = slice_subrange(scratch.as_slice(), 0, n);
            match decode_setpoint(payload) {
                Ok((sp, _)) => Ok(sp),
                Err(e) => Err(e),
            }
        },
        Err(e) => Err(e),
    };
    proof {
        assert forall|sp: Setpoint|
            buf@ == #[trigger] frame_bytes(setpoint_bytes(sp)) || buf@ == cobs_encoding(
                setpoint_bytes(sp),
            ) implies r == Ok::<Setpoint, CodecError>(sp) by {
            lemma_setpoint_decodes(sp);
        }
    }
    r
}

} // verus!
