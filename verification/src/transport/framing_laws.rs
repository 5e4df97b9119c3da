//! What the codec makes of every buffer, part by part.

use crate::outside::search::{first_index, is_first, lemma_first_index};
use crate::tagvalue::checksum::{checksum_of, declared_checksum};
use crate::tagvalue::digits::{law_length_is_up_to_ten_digits, length_of};
use crate::tagvalue::wire::SOH;
use crate::transport::framing::{
    frame_stream, has_trailer, header_window, is_candidate, is_first_candidate, read_header,
    read_trailer, resync, CodecError, Framed, Header,
};
use vstd::prelude::*;

verus! {

/// The bytes `8=<begin_string><SOH>9=<count><SOH>`.
pub open spec fn header_text(begin_string: Seq<u8>, count: Seq<u8>) -> Seq<u8> {
    seq![0x38u8, 0x3du8] + begin_string + seq![0x01u8, 0x39u8, 0x3du8] + count + seq![0x01u8]
}

/// What a buffer says that starts with a header.
proof fn lemma_header_is_read(begin_string: Seq<u8>, count: Seq<u8>, tail: Seq<u8>)
    requires
        !begin_string.contains(0x01u8),
        !count.contains(0x01u8),
        header_text(begin_string, count).len() <= 64,
    ensures
        ({
            let header = header_text(begin_string, count);
            let src = header + tail;
            match length_of(count) {
                None => read_header(src) == Header::Malformed(CodecError::InvalidBodyLength),
                Some(n) => header.len() + n + 7 <= usize::MAX ==> read_header(src)
                    == Header::BodyEnd(header.len() + n),
            }
        }),
{
    let header = header_text(begin_string, count);
    let src = header + tail;
    let window = header_window(src);
    let soh = begin_string.len() as int + 2;
    let start = soh + 1;
    assert(window.len() >= header.len());
    assert forall|i: int| 0 <= i < header.len() implies window[i] == header[i] by {}
    assert forall|j: int| 0 <= j < soh implies window[j] != SOH by {
        if j >= 2 {
            assert(window[j] == begin_string[j - 2]);
        }
    }
    assert(is_first(window, SOH, soh));
    lemma_first_index(window, SOH, soh);
    let rest = window.skip(start + 2);
    assert forall|j: int| 0 <= j < count.len() implies rest[j] != SOH by {
        assert(rest[j] == count[j]);
    }
    assert(rest[count.len() as int] == SOH);
    assert(is_first(rest, SOH, count.len() as int));
    lemma_first_index(rest, SOH, count.len() as int);
    assert(rest.take(count.len() as int) =~= count);
}

/// A count holds no SOH.
proof fn lemma_count_is_digits(count: Seq<u8>, n: nat)
    requires
        length_of(count) == Some(n),
    ensures
        !count.contains(0x01u8),
{
    law_length_is_up_to_ten_digits(count, n);
}

/// Whether seven bytes are `10=<three bytes><SOH>`.
pub open spec fn is_trailer_text(trailer: Seq<u8>) -> bool {
    &&& trailer.len() == 7
    &&& trailer[0] == 0x31
    &&& trailer[1] == 0x30
    &&& trailer[2] == 0x3d
    &&& trailer[6] == 0x01
}

/// A buffer that holds what its header declares is judged by its size, by the
/// trailer that must stand right behind the declared body, and, where checksums
/// are validated, by the checksum of everything before that trailer. A frame
/// that passes is handed up whole, and exactly what stands behind it is left.
/// What the body holds plays no part.
pub proof fn law_declared_frame_is_judged(
    begin_string: Seq<u8>,
    count: Seq<u8>,
    body: Seq<u8>,
    trailer: Seq<u8>,
    tail: Seq<u8>,
    max_size: nat,
    validate_checksum: bool,
)
    requires
        !begin_string.contains(0x01u8),
        length_of(count) == Some(body.len()),
        body.len() >= 1,
        header_text(begin_string, count).len() <= 64,
        trailer.len() == 7,
        (header_text(begin_string, count) + body + trailer + tail).len() >= 20,
        (header_text(begin_string, count) + body + trailer).len() <= usize::MAX,
    ensures
        ({
            let covered = header_text(begin_string, count) + body;
            let frame = covered + trailer;
            let src = frame + tail;
            let framed = frame_stream(src, max_size, validate_checksum);
            if frame.len() > max_size {
                framed == (Framed {
                    result: Err(
                        CodecError::MessageTooLarge {
                            size: frame.len() as usize,
                            max_size: max_size as usize,
                        },
                    ),
                    rest: src,
                })
            } else if body.last() != 0x01 || !is_trailer_text(trailer) {
                framed == (Framed {
                    result: Err(CodecError::InvalidTrailer { offset: covered.len() as usize }),
                    rest: src.skip(resync(src)),
                })
            } else {
                match declared_checksum(trailer.subrange(3, 6)) {
                    None => framed == (Framed {
                        result: Err(CodecError::InvalidChecksumFormat),
                        rest: tail,
                    }),
                    Some(declared) => if validate_checksum && declared != checksum_of(covered) {
                        framed == (Framed {
                            result: Err(
                                CodecError::ChecksumMismatch {
                                    calculated: checksum_of(covered),
                                    declared,
                                },
                            ),
                            rest: tail,
                        })
                    } else {
                        framed == (Framed { result: Ok(Some(frame)), rest: tail })
                    },
                }
            }
        }),
{
    let header = header_text(begin_string, count);
    let covered = header + body;
    let frame = covered + trailer;
    let src = frame + tail;
    lemma_count_is_digits(count, body.len());
    assert(src =~= header + (body + trailer + tail));
    lemma_header_is_read(begin_string, count, body + trailer + tail);
    let end = covered.len() as int;
    assert(src[0] == 0x38 && src[1] == 0x3d);
    assert(src.take(end) =~= covered);
    assert(src.take(end + 7) =~= frame);
    assert(src.skip(end + 7) =~= tail);
    assert(src.subrange(end + 3, end + 6) =~= trailer.subrange(3, 6));
    assert(src[end - 1] == body.last());
    assert(src[end] == trailer[0] && src[end + 1] == trailer[1] && src[end + 2] == trailer[2]
        && src[end + 6] == trailer[6]);
    assert(has_trailer(src, end) <==> body.last() == 0x01 && is_trailer_text(trailer));
    assert(read_trailer(src, end) is Err || has_trailer(src, end));
}

/// A buffer that does not hold yet what its header declares is waited for, and
/// left as it is, unless the declared frame is over the size limit: then it is
/// refused at once.
pub proof fn law_declared_frame_is_waited_for(
    begin_string: Seq<u8>,
    count: Seq<u8>,
    n: nat,
    part: Seq<u8>,
    max_size: nat,
    validate_checksum: bool,
)
    requires
        !begin_string.contains(0x01u8),
        length_of(count) == Some(n),
        header_text(begin_string, count).len() <= 64,
        part.len() < n + 7,
        (header_text(begin_string, count) + part).len() >= 20,
        header_text(begin_string, count).len() + n + 7 <= usize::MAX,
    ensures
        ({
            let src = header_text(begin_string, count) + part;
            let total = header_text(begin_string, count).len() + n + 7;
            frame_stream(src, max_size, validate_checksum) == (Framed {
                result: if total > max_size {
                    Err(
                        CodecError::MessageTooLarge {
                            size: total as usize,
                            max_size: max_size as usize,
                        },
                    )
                } else {
                    Ok(None)
                },
                rest: src,
            })
        }),
{
    let src = header_text(begin_string, count) + part;
    lemma_count_is_digits(count, n);
    lemma_header_is_read(begin_string, count, part);
    assert(src[0] == 0x38 && src[1] == 0x3d);
}

/// A header that is no header is refused, and the buffer is left as it is: where
/// the field behind `BeginString` (8) is not `BodyLength` (9), and where its
/// value is not a byte count.
pub proof fn law_malformed_header_is_refused(
    begin_string: Seq<u8>,
    count: Seq<u8>,
    other: Seq<u8>,
    tail: Seq<u8>,
    max_size: nat,
    validate_checksum: bool,
)
    requires
        !begin_string.contains(0x01u8),
        !count.contains(0x01u8),
        length_of(count) is None,
        header_text(begin_string, count).len() <= 64,
        (header_text(begin_string, count) + tail).len() >= 20,
        other.len() == 2,
        other[0] != 0x39 || other[1] != 0x3d,
        begin_string.len() <= 59,
        begin_string.len() + 5 + tail.len() >= 20,
    ensures
        ({
            let src = header_text(begin_string, count) + tail;
            frame_stream(src, max_size, validate_checksum) == (Framed {
                result: Err(CodecError::InvalidBodyLength),
                rest: src,
            })
        }),
        ({
            let src = seq![0x38u8, 0x3du8] + begin_string + seq![0x01u8] + other + tail;
            frame_stream(src, max_size, validate_checksum) == (Framed {
                result: Err(CodecError::MissingBodyLength),
                rest: src,
            })
        }),
{
    let src = header_text(begin_string, count) + tail;
    lemma_header_is_read(begin_string, count, tail);
    assert(src[0] == 0x38 && src[1] == 0x3d);
    let second = seq![0x38u8, 0x3du8] + begin_string + seq![0x01u8] + other + tail;
    let window = header_window(second);
    let soh = begin_string.len() as int + 2;
    assert forall|j: int| 0 <= j < soh implies window[j] != SOH by {
        if j >= 2 {
            assert(window[j] == begin_string[j - 2]);
        }
    }
    assert(is_first(window, SOH, soh));
    lemma_first_index(window, SOH, soh);
    assert(window[soh + 1] == other[0] && window[soh + 2] == other[1]);
    assert(second[0] == 0x38 && second[1] == 0x3d);
}

/// A buffer whose first field does not end is waited for while it has fewer than
/// 64 bytes and is within the size limit, and refused from then on.
pub proof fn law_endless_header_is_refused(src: Seq<u8>, max_size: nat, validate_checksum: bool)
    requires
        src.len() >= 20,
        src[0] == 0x38,
        src[1] == 0x3d,
        forall|i: int| 0 <= i < src.len() && i < 64 ==> #[trigger] src[i] != 0x01,
        src.len() <= usize::MAX,
    ensures
        frame_stream(src, max_size, validate_checksum) == (Framed {
            result: if src.len() > max_size {
                Err(
                    CodecError::MessageTooLarge {
                        size: src.len() as usize,
                        max_size: max_size as usize,
                    },
                )
            } else if src.len() >= 64 {
                Err(CodecError::HeaderTooLong { max_header_len: 64 })
            } else {
                Ok(None)
            },
            rest: src,
        }),
{
    let window = header_window(src);
    if window.contains(SOH) {
        let i = choose|i: int| 0 <= i < window.len() && window[i] == SOH;
        assert(src[i] == SOH);
    }
    assert(first_index(window, SOH) is None);
}

/// Fewer than 20 bytes are no frame yet, and anything longer that does not start
/// with `8=` is garbage.
pub proof fn law_frame_starts_with_eight(src: Seq<u8>, max_size: nat, validate_checksum: bool)
    ensures
        src.len() < 20 ==> frame_stream(src, max_size, validate_checksum) == (Framed {
            result: Ok(None),
            rest: src,
        }),
        src.len() >= 20 && (src[0] != 0x38 || src[1] != 0x3d) ==> frame_stream(
            src,
            max_size,
            validate_checksum,
        ) == (Framed {
            result: Err(CodecError::InvalidBeginString),
            rest: src.skip(resync(src)),
        }),
{
}

/// Resynchronising drops everything up to the first `8` that stands behind an
/// SOH, and nothing of what comes from there on. Where there is none, it drops
/// the whole buffer, but for an SOH at its end.
pub proof fn law_resync_drops_no_frame_start(src: Seq<u8>)
    ensures
        0 <= resync(src) <= src.len(),
        forall|j: int|
            #![trigger src[j]]
            1 <= j < resync(src) ==> !(src[j - 1] == 0x01 && src[j] == 0x38),
        resync(src) < src.len() ==> {
            ||| resync(src) >= 1 && src[resync(src) - 1] == 0x01 && src[resync(src)] == 0x38
            ||| resync(src) == src.len() - 1 && src.last() == 0x01
        },
        src.len() > 0 && src.last() == 0x01 ==> resync(src) < src.len(),
{
    if exists|at: int| is_first_candidate(src, at) {
        let at = choose|at: int| is_first_candidate(src, at);
        assert(is_candidate(src, at));
        assert(resync(src) == at);
        assert forall|j: int| #![trigger src[j]] 1 <= j < at implies !(src[j - 1] == 0x01 && src[j]
            == 0x38) by {
            assert(!is_candidate(src, j));
        }
    } else {
        assert forall|j: int| #![trigger src[j]] 1 <= j < src.len() implies !(src[j - 1] == 0x01
            && src[j] == 0x38) by {
            if is_candidate(src, j) {
                lemma_first_candidate(src, j);
            }
        }
    }
}

/// Where a frame may start somewhere, one place is the first.
proof fn lemma_first_candidate(src: Seq<u8>, at: int)
    requires
        is_candidate(src, at),
    ensures
        exists|first: int| is_first_candidate(src, first),
    decreases at,
{
    if forall|j: int| #![trigger is_candidate(src, j)] j < at ==> !is_candidate(src, j) {
        assert(is_first_candidate(src, at));
    } else {
        let j = choose|j: int| #![trigger is_candidate(src, j)] j < at && is_candidate(src, j);
        lemma_first_candidate(src, j);
    }
}

/// A buffer whose second field does not end is waited for while it has fewer
/// than 64 bytes and is within the size limit, and refused from then on.
pub proof fn law_endless_count_is_refused(
    begin_string: Seq<u8>,
    part: Seq<u8>,
    max_size: nat,
    validate_checksum: bool,
)
    requires
        !begin_string.contains(0x01u8),
        begin_string.len() <= 59,
        !part.contains(0x01u8),
        begin_string.len() + part.len() + 5 >= 20,
        begin_string.len() + part.len() + 5 <= usize::MAX,
    ensures
        ({
            let src = seq![0x38u8, 0x3du8] + begin_string + seq![0x01u8, 0x39u8, 0x3du8] + part;
            frame_stream(src, max_size, validate_checksum) == (Framed {
                result: if src.len() > max_size {
                    Err(
                        CodecError::MessageTooLarge {
                            size: src.len() as usize,
                            max_size: max_size as usize,
                        },
                    )
                } else if src.len() >= 64 {
                    Err(CodecError::HeaderTooLong { max_header_len: 64 })
                } else {
                    Ok(None)
                },
                rest: src,
            })
        }),
{
    let src = seq![0x38u8, 0x3du8] + begin_string + seq![0x01u8, 0x39u8, 0x3du8] + part;
    let window = header_window(src);
    let soh = begin_string.len() as int + 2;
    assert forall|j: int| 0 <= j < soh implies window[j] != SOH by {
        if j >= 2 {
            assert(window[j] == begin_string[j - 2]);
        }
    }
    assert(window[soh] == SOH);
    assert(is_first(window, SOH, soh));
    lemma_first_index(window, SOH, soh);
    let rest = window.skip(soh + 3);
    if rest.contains(SOH) {
        let i = choose|i: int| 0 <= i < rest.len() && rest[i] == SOH;
        assert(rest[i] == part[i]);
    }
    assert(first_index(rest, SOH) is None);
    assert(src[0] == 0x38 && src[1] == 0x3d);
}

} // verus!
