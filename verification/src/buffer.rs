//! Filling a byte buffer with a frame of generated values.
//!
//! A frame is a nine-byte header, the format tag and the element count as a
//! little-endian 64-bit integer, followed by the elements, tightly packed,
//! one per step of the seed.

use crate::double::{
    binary64_exponent, binary64_magnitude_scaled, binary64_sign, lemma_unit_double_value,
    unit_double, unit_double_bits, unit_numerator,
};
use crate::encode::{
    le_value, lemma_u64_le_round_trip, overwritten, u32_le, u64_le, write_u32_le, write_u64_le,
};
use crate::error::{
    invalid_format_error, too_large_error, too_small_error, Error, ErrorView,
};
use crate::format::DataFormat;
use crate::mix::splitmix64_mix;
use crate::seed::{
    bool_byte, lemma_advanced_by_succ, lemma_advanced_by_zero, lemma_scale_to_bound_range,
    scale_to_bound, Seed,
};
use vstd::arithmetic::power2::pow2;
use vstd::prelude::*;

verus! {

/// The largest buffer that is accepted: one gibibyte.
pub const PRACTICAL_MAX_BUFFER: u64 = 0x4000_0000;

/// The length of a frame's header: one byte of tag and eight of count.
pub const HEADER_SIZE: usize = 9;

/// The 32-bit element that an output gives. Without a bound, or with the
/// largest 32-bit value as the bound, it is the low 32 bits of the output;
/// else the output scaled into `[0, bound)`.
pub open spec fn u32_element(output: u64, bound: Option<u32>) -> u32 {
    if bound is Some && bound->0 != u32::MAX {
        scale_to_bound(output, bound->0 as u64) as u32
    } else {
        (output % 0x1_0000_0000) as u32
    }
}

/// The bytes of the element that an output gives in a format.
pub open spec fn element_bytes(format: DataFormat, output: u64, bound: Option<u32>) -> Seq<u8> {
    match format {
        DataFormat::U32LE => u32_le(u32_element(output, bound)),
        DataFormat::F64LE => u64_le(unit_double_bits(unit_numerator(output))),
        DataFormat::BoolU8 => seq![bool_byte(output)],
    }
}

/// The header of a frame of `count` elements.
pub open spec fn header(format: DataFormat, count: u64) -> Seq<u8> {
    seq![format.tag()] + u64_le(count)
}

/// The elements of a frame, packed: element `i`, counted from zero, is the
/// encoding of the output of step `i + 1` of the seed.
pub open spec fn elements(seed: Seed, format: DataFormat, count: nat, bound: Option<u32>) -> Seq<
    u8,
> {
    Seq::new(
        count * format.element_size(),
        |k: int|
            element_bytes(
                format,
                seed.advanced_by((k / format.element_size() as int + 1) as nat).output(),
                bound,
            )[k % format.element_size() as int],
    )
}

/// A whole frame: header, then elements.
pub open spec fn frame(seed: Seed, format: DataFormat, count: u64, bound: Option<u32>) -> Seq<u8> {
    header(format, count) + elements(seed, format, count as nat, bound)
}

/// The offset of element `i`, counted from zero, in a frame.
pub open spec fn element_offset(format: DataFormat, i: nat) -> int {
    (9 + i * format.element_size()) as int
}

/// The length of a frame of `count` elements.
pub open spec fn required_size(format: DataFormat, count: u64) -> nat {
    (9 + count * format.element_size()) as nat
}

/// The error with which a request is rejected, if it is. The checks come in
/// this order: the buffer's length against the ceiling, the tag, the
/// buffer's length against the frame's.
pub open spec fn rejection(len: nat, tag: u8, count: u64) -> Option<ErrorView> {
    if len > PRACTICAL_MAX_BUFFER {
        Some(too_large_error(len / 0x10_0000, PRACTICAL_MAX_BUFFER as nat / 0x10_0000))
    } else if DataFormat::of_tag(tag) is None {
        Some(invalid_format_error(tag))
    } else if len < required_size(DataFormat::of_tag(tag)->0, count) {
        Some(too_small_error(required_size(DataFormat::of_tag(tag)->0, count), len))
    } else {
        None
    }
}

/// Checks a request against a buffer of `len` bytes, and decodes its tag.
pub fn check_request(len: usize, format_u8: u8, count: u64) -> (r: Result<DataFormat, Error>)
    ensures
        r is Ok <==> rejection(len as nat, format_u8, count) is None,
        r matches Ok(format) ==> DataFormat::of_tag(format_u8) == Some(format) && required_size(
            format,
            count,
        ) <= len <= PRACTICAL_MAX_BUFFER,
        r matches Err(e) ==> Some(e@) == rejection(len as nat, format_u8, count),
{
    if len as u64 > PRACTICAL_MAX_BUFFER {
        let size: u64 = len as u64;
        assert(size >> 20 == size / 0x10_0000) by (bit_vector);
        assert(PRACTICAL_MAX_BUFFER >> 20 == PRACTICAL_MAX_BUFFER / 0x10_0000) by (bit_vector);
        return Err(Error::buffer_too_large(size >> 20, PRACTICAL_MAX_BUFFER >> 20));
    }
    let format: DataFormat = match DataFormat::from_u8(format_u8) {
        Ok(format) => format,
        Err(e) => {
            return Err(e);
        },
    };
    let bytes_per_element: u64 = format.bytes_per_element();
    assert(count * bytes_per_element <= 8 * 0xffff_ffff_ffff_ffff) by (nonlinear_arith)
        requires
            count <= 0xffff_ffff_ffff_ffff,
            bytes_per_element <= 8,
    ;
    let data_size: u128 = (count as u128) * (bytes_per_element as u128);
    let required: u128 = HEADER_SIZE as u128 + data_size;
    if (len as u128) < required {
        return Err(Error::frame_too_long(required, len));
    }
    Ok(format)
}

/// An element takes as many bytes as its format says.
pub proof fn lemma_element_len(format: DataFormat, output: u64, bound: Option<u32>)
    ensures
        element_bytes(format, output, bound).len() == format.element_size(),
{
}

/// The elements of a frame lie one behind the other: those of `count + 1`
/// steps are those of `count` steps followed by the element of step
/// `count + 1`.
pub proof fn lemma_elements_step(seed: Seed, format: DataFormat, count: nat, bound: Option<u32>)
    ensures
        elements(seed, format, count, bound).len() == count * format.element_size(),
        elements(seed, format, count + 1, bound) == elements(seed, format, count, bound)
            + element_bytes(format, seed.advanced_by(count + 1).output(), bound),
{
    let size = format.element_size() as int;
    let shorter = elements(seed, format, count, bound);
    let longer = elements(seed, format, count + 1, bound);
    let last = element_bytes(format, seed.advanced_by(count + 1).output(), bound);
    assert(1 <= size <= 8);
    assert(count * size + size == (count + 1) * size) by (nonlinear_arith);
    assert(shorter.len() == count * size);
    assert(longer.len() == count * size + size);
    assert forall|k: int| 0 <= k < longer.len() implies longer[k] == (shorter + last)[k] by {
        if k >= count * size {
            let j = k - count * size;
            assert(k == count * size + j && 0 <= j < size);
            assert(k / size == count && k % size == j) by (nonlinear_arith)
                requires
                    k == count * size + j,
                    0 <= j < size,
            ;
        }
    }
    assert(longer =~= shorter + last);
}

/// No step, no element.
pub proof fn lemma_elements_empty(seed: Seed, format: DataFormat, bound: Option<u32>)
    ensures
        elements(seed, format, 0, bound) == Seq::<u8>::empty(),
{
    assert(0 * format.element_size() == 0) by (nonlinear_arith);
    assert(elements(seed, format, 0, bound) =~= Seq::<u8>::empty());
}

/// The bound bears on 32-bit integers alone: doubles and booleans come out
/// the same under any bound.
pub proof fn lemma_bound_is_ignored(
    seed: Seed,
    format: DataFormat,
    count: nat,
    bound: Option<u32>,
    other: Option<u32>,
)
    requires
        format != DataFormat::U32LE,
    ensures
        elements(seed, format, count, bound) == elements(seed, format, count, other),
{
    assert(elements(seed, format, count, bound) =~= elements(seed, format, count, other));
}

/// A bounded 32-bit element lies below its bound, and is zero where the
/// bound is. The largest 32-bit value as the bound is no bound.
pub proof fn lemma_u32_element_range(output: u64, bound: u32)
    ensures
        0 < bound < u32::MAX ==> u32_element(output, Some(bound)) < bound,
        bound == 0 ==> u32_element(output, Some(bound)) == 0,
        u32_element(output, Some(u32::MAX)) == u32_element(output, None),
{
    lemma_scale_to_bound_range(output, bound as u64);
}

/// Where everything lies in a frame: the tag at offset 0, the count in the
/// eight bytes behind it, and element `i`, counted from zero, at offset
/// `9 + i * size`, holding the output of step `i + 1`.
pub proof fn lemma_frame_layout(
    seed: Seed,
    format: DataFormat,
    count: u64,
    bound: Option<u32>,
    i: nat,
)
    requires
        i < count,
    ensures
        frame(seed, format, count, bound).len() == required_size(format, count),
        frame(seed, format, count, bound)[0] == format.tag(),
        frame(seed, format, count, bound).subrange(1, 9) == u64_le(count),
        le_value(frame(seed, format, count, bound).subrange(1, 9)) == count,
        element_offset(format, i) + format.element_size() == element_offset(format, i + 1),
        element_offset(format, i + 1) <= required_size(format, count),
        frame(seed, format, count, bound).subrange(
            element_offset(format, i),
            element_offset(format, i + 1),
        ) == element_bytes(format, seed.advanced_by(i + 1).output(), bound),
{
    let size = format.element_size() as int;
    let whole = frame(seed, format, count, bound);
    let element = element_bytes(format, seed.advanced_by(i + 1).output(), bound);
    assert(1 <= size <= 8);
    assert((i + 1) * size == i * size + size) by (nonlinear_arith);
    assert((i + 1) * size <= count * size) by (nonlinear_arith)
        requires
            i + 1 <= count,
            size >= 1,
    ;
    assert(i * size >= 0) by (nonlinear_arith)
        requires
            size >= 1,
    ;
    assert(whole.subrange(1, 9) =~= u64_le(count));
    lemma_u64_le_round_trip(count);
    let part = whole.subrange(9 + i * size, 9 + (i + 1) * size);
    assert(part.len() == size);
    assert forall|j: int| 0 <= j < size implies part[j] == element[j] by {
        let k = i * size + j;
        assert(part[j] == whole[9 + k]);
        assert(whole[9 + k] == elements(seed, format, count as nat, bound)[k]);
        assert(k / size == i && k % size == j) by (nonlinear_arith)
            requires
                k == i * size + j,
                0 <= j < size,
        ;
    }
    assert(part =~= element);
}

/// A buffer one byte short of the frame is rejected as too small, and the
/// error reports the frame's length and the buffer's.
pub proof fn lemma_one_byte_short_is_too_small(format: DataFormat, count: u64)
    requires
        required_size(format, count) - 1 <= PRACTICAL_MAX_BUFFER,
    ensures
        rejection((required_size(format, count) - 1) as nat, format.tag(), count) == Some(
            too_small_error(
                required_size(format, count),
                (required_size(format, count) - 1) as nat,
            ),
        ),
{
}

/// A tag that names no format is rejected as an invalid format, and the
/// error reports the tag, whatever the count and whatever the buffer's
/// length up to the ceiling.
pub proof fn lemma_unknown_tag_is_invalid_format(len: nat, tag: u8, count: u64)
    requires
        tag > 2,
        len <= PRACTICAL_MAX_BUFFER,
    ensures
        rejection(len, tag, count) == Some(invalid_format_error(tag)),
{
}

/// A buffer above the ceiling is rejected as too large before anything
/// else is looked at, and the error reports both sizes in mebibytes.
pub proof fn lemma_oversized_buffer_is_too_large(len: nat, tag: u8, count: u64)
    requires
        len > PRACTICAL_MAX_BUFFER,
    ensures
        rejection(len, tag, count) == Some(too_large_error(len / 0x10_0000, 1024)),
{
}

/// A request is accepted exactly if the buffer is within the ceiling, the
/// tag names a format, and the frame fits.
pub proof fn lemma_accepted_requests(len: nat, tag: u8, count: u64)
    ensures
        rejection(len, tag, count) is None <==> len <= PRACTICAL_MAX_BUFFER && tag <= 2
            && required_size(DataFormat::of_tag(tag)->0, count) <= len,
{
}

/// Every double of a frame lies in `[0, 1)`: its bit pattern is that of a
/// finite number that is not negative, and its magnitude, times 2^1074, is
/// the upper 53 bits of the output times 2^1021, which is below 2^1074.
pub proof fn lemma_double_element_in_unit_interval(output: u64, bound: Option<u32>)
    ensures
        element_bytes(DataFormat::F64LE, output, bound) == u64_le(
            unit_double_bits(unit_numerator(output)),
        ),
        le_value(element_bytes(DataFormat::F64LE, output, bound)) == unit_double_bits(
            unit_numerator(output),
        ),
        !binary64_sign(unit_double_bits(unit_numerator(output))),
        binary64_exponent(unit_double_bits(unit_numerator(output))) < 1023,
        binary64_magnitude_scaled(unit_double_bits(unit_numerator(output))) == unit_numerator(
            output,
        ) * pow2(1021),
        binary64_magnitude_scaled(unit_double_bits(unit_numerator(output))) < pow2(1074),
{
    lemma_u64_le_round_trip(unit_double_bits(unit_numerator(output)));
    lemma_unit_double_value(unit_numerator(output));
}

/// Writing `first` and then `second` right behind it is writing the two as
/// one.
proof fn lemma_overwritten_append(buffer: Seq<u8>, offset: int, first: Seq<u8>, second: Seq<u8>)
    requires
        0 <= offset,
        offset + first.len() + second.len() <= buffer.len(),
    ensures
        overwritten(overwritten(buffer, offset, first), offset + first.len(), second)
            == overwritten(buffer, offset, first + second),
{
    assert(overwritten(overwritten(buffer, offset, first), offset + first.len(), second)
        =~= overwritten(buffer, offset, first + second));
}

/// One more element in the buffer: the step of every filling loop.
proof fn lemma_fill_step(
    original: Seq<u8>,
    before: Seq<u8>,
    after: Seq<u8>,
    seed: Seed,
    format: DataFormat,
    i: nat,
    bound: Option<u32>,
)
    requires
        9 + (i + 1) * format.element_size() <= original.len(),
        before == overwritten(original, 9, elements(seed, format, i, bound)),
        after == overwritten(
            before,
            9 + i * format.element_size() as int,
            element_bytes(format, seed.advanced_by(i + 1).output(), bound),
        ),
    ensures
        after == overwritten(original, 9, elements(seed, format, i + 1, bound)),
{
    let size = format.element_size();
    assert((i + 1) * size == i * size + size) by (nonlinear_arith);
    lemma_elements_step(seed, format, i, bound);
    lemma_overwritten_append(
        original,
        9,
        elements(seed, format, i, bound),
        element_bytes(format, seed.advanced_by(i + 1).output(), bound),
    );
}

/// Writes the header of a frame.
fn write_header(buffer: &mut [u8], format_u8: u8, count: u64)
    requires
        old(buffer)@.len() >= 9,
    ensures
        final(buffer)@ == overwritten(old(buffer)@, 0, seq![format_u8] + u64_le(count)),
{
    buffer[0] = format_u8;
    write_u64_le(buffer, 1, count);
    assert(buffer@ =~= overwritten(old(buffer)@, 0, seq![format_u8] + u64_le(count)));
}

/// Writes `count` 32-bit elements behind the header and returns the last
/// state.
fn fill_u32(seed: &Seed, buffer: &mut [u8], count: usize, bound: Option<u32>) -> (state: u64)
    requires
        9 + count * 4 <= old(buffer)@.len(),
    ensures
        state == seed.advanced_by(count as nat).state,
        final(buffer)@ == overwritten(
            old(buffer)@,
            9,
            elements(*seed, DataFormat::U32LE, count as nat, bound),
        ),
{
    let len: usize = buffer.len();
    let mut current_state: u64 = seed.state;
    let gamma: u64 = seed.gamma;
    let bound_u64: u64 = match bound {
        Some(b) => b as u64,
        None => u32::MAX as u64,
    };
    proof {
        lemma_advanced_by_zero(*seed);
        lemma_elements_empty(*seed, DataFormat::U32LE, bound);
        assert(buffer@ =~= overwritten(old(buffer)@, 9, Seq::<u8>::empty()));
    }
    for i in 0..count
        invariant
            9 + count * 4 <= len,
            buffer@.len() == len,
            old(buffer)@.len() == len,
            gamma == seed.gamma,
            bound_u64 == (if bound is Some {
                bound->0 as u64
            } else {
                u32::MAX as u64
            }),
            current_state == seed.advanced_by(i as nat).state,
            buffer@ == overwritten(
                old(buffer)@,
                9,
                elements(*seed, DataFormat::U32LE, i as nat, bound),
            ),
    {
        current_state = current_state.wrapping_add(gamma);
        let output: u64 = splitmix64_mix(current_state);
        let bounded: u32 = if bound_u64 == u32::MAX as u64 {
            assert(output & 0xffff_ffff == output % 0x1_0000_0000) by (bit_vector);
            (output & 0xffff_ffff) as u32
        } else {
            proof {
                lemma_scale_to_bound_range(output, bound_u64);
            }
            let product: u128 = (output as u128) * (bound_u64 as u128);
            assert(product >> 64 == product / 0x1_0000_0000_0000_0000) by (bit_vector);
            (product >> 64) as u32
        };
        let offset: usize = HEADER_SIZE + i * 4;
        let ghost before = buffer@;
        write_u32_le(buffer, offset, bounded);
        proof {
            lemma_advanced_by_succ(*seed, i as nat);
            assert(bounded == u32_element(output, bound));
            lemma_fill_step(
                old(buffer)@,
                before,
                buffer@,
                *seed,
                DataFormat::U32LE,
                i as nat,
                bound,
            );
        }
    }
    current_state
}

/// Writes `count` doubles behind the header and returns the last state.
fn fill_f64(seed: &Seed, buffer: &mut [u8], count: usize, bound: Option<u32>) -> (state: u64)
    requires
        9 + count * 8 <= old(buffer)@.len(),
    ensures
        state == seed.advanced_by(count as nat).state,
        final(buffer)@ == overwritten(
            old(buffer)@,
            9,
            elements(*seed, DataFormat::F64LE, count as nat, bound),
        ),
{
    let len: usize = buffer.len();
    let mut current_state: u64 = seed.state;
    let gamma: u64 = seed.gamma;
    proof {
        lemma_advanced_by_zero(*seed);
        lemma_elements_empty(*seed, DataFormat::F64LE, bound);
        assert(buffer@ =~= overwritten(old(buffer)@, 9, Seq::<u8>::empty()));
    }
    for i in 0..count
        invariant
            9 + count * 8 <= len,
            buffer@.len() == len,
            old(buffer)@.len() == len,
            gamma == seed.gamma,
            current_state == seed.advanced_by(i as nat).state,
            buffer@ == overwritten(
                old(buffer)@,
                9,
                elements(*seed, DataFormat::F64LE, i as nat, bound),
            ),
    {
        current_state = current_state.wrapping_add(gamma);
        let output: u64 = splitmix64_mix(current_state);
        let bits: u64 = unit_double(output);
        let offset: usize = HEADER_SIZE + i * 8;
        let ghost before = buffer@;
        write_u64_le(buffer, offset, bits);
        proof {
            lemma_advanced_by_succ(*seed, i as nat);
            lemma_fill_step(
                old(buffer)@,
                before,
                buffer@,
                *seed,
                DataFormat::F64LE,
                i as nat,
                bound,
            );
        }
    }
    current_state
}

/// Writes `count` booleans behind the header and returns the last state.
fn fill_bool(seed: &Seed, buffer: &mut [u8], count: usize, bound: Option<u32>) -> (state: u64)
    requires
        9 + count <= old(buffer)@.len(),
    ensures
        state == seed.advanced_by(count as nat).state,
        final(buffer)@ == overwritten(
            old(buffer)@,
            9,
            elements(*seed, DataFormat::BoolU8, count as nat, bound),
        ),
{
    let len: usize = buffer.len();
    let mut current_state: u64 = seed.state;
    let gamma: u64 = seed.gamma;
    proof {
        lemma_advanced_by_zero(*seed);
        lemma_elements_empty(*seed, DataFormat::BoolU8, bound);
        assert(buffer@ =~= overwritten(old(buffer)@, 9, Seq::<u8>::empty()));
    }
    for i in 0..count
        invariant
            9 + count <= len,
            buffer@.len() == len,
            old(buffer)@.len() == len,
            gamma == seed.gamma,
            current_state == seed.advanced_by(i as nat).state,
            buffer@ == overwritten(
                old(buffer)@,
                9,
                elements(*seed, DataFormat::BoolU8, i as nat, bound),
            ),
    {
        current_state = current_state.wrapping_add(gamma);
        let output: u64 = splitmix64_mix(current_state);
        assert(output & 1 == output % 2) by (bit_vector);
        let byte: u8 = if output & 1 == 1 {
            1
        } else {
            0
        };
        let ghost before = buffer@;
        buffer[HEADER_SIZE + i] = byte;
        proof {
            lemma_advanced_by_succ(*seed, i as nat);
            assert(i * DataFormat::BoolU8.element_size() == i) by (nonlinear_arith)
                requires
                    DataFormat::BoolU8.element_size() == 1,
            ;
            assert(buffer@ =~= overwritten(before, 9 + i, seq![bool_byte(output)]));
            lemma_fill_step(
                old(buffer)@,
                before,
                buffer@,
                *seed,
                DataFormat::BoolU8,
                i as nat,
                bound,
            );
        }
    }
    current_state
}

impl Seed {
    /// Fills `buffer` with a frame of `count` elements in the format that
    /// `format_u8` names, one element per step of the seed, and returns the
    /// seed after the last step. `bound` applies to 32-bit integers only.
    ///
    /// The request is checked before anything is written: a rejected call
    /// leaves the buffer as it was. Bytes behind the frame are left as they
    /// were in any case.
    pub fn fill_buffer(
        &self,
        buffer: &mut [u8],
        format_u8: u8,
        count: u64,
        bound: Option<u32>,
    ) -> (r: Result<Seed, Error>)
        ensures
            r is Ok <==> rejection(old(buffer)@.len(), format_u8, count) is None,
            r matches Err(e) ==> Some(e@) == rejection(old(buffer)@.len(), format_u8, count)
                && final(buffer)@ == old(buffer)@,
            r matches Ok(seed) ==> seed == self.advanced_by(count as nat) && final(buffer)@
                == overwritten(
                old(buffer)@,
                0,
                frame(*self, DataFormat::of_tag(format_u8)->0, count, bound),
            ),
    {
        let format: DataFormat = match check_request(buffer.len(), format_u8, count) {
            Ok(format) => format,
            Err(e) => {
                return Err(e);
            },
        };
        let n: usize = count as usize;
        let ghost original = buffer@;
        write_header(buffer, format_u8, count);
        let state: u64 = match format {
            DataFormat::U32LE => fill_u32(self, buffer, n, bound),
            DataFormat::F64LE => fill_f64(self, buffer, n, bound),
            DataFormat::BoolU8 => fill_bool(self, buffer, n, bound),
        };
        proof {
            lemma_overwritten_append(
                original,
                0,
                header(format, count),
                elements(*self, format, count as nat, bound),
            );
        }
        Ok(Seed { state, gamma: self.gamma })
    }
}

} // verus!
