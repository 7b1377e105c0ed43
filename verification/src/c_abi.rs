//! Checks made at the C calling boundary before buffers are touched: null and
//! overlap checks on caller buffers, link handles by index, and the
//! NUL-terminated form of error messages.

use vstd::prelude::*;
use vstd::string::StringSliceAdditionalSpecFns;

use crate::error::{decimal, decimal_text, join2, text};
use crate::robot::LinkId;

verus! {

/// Status code returned by every C entry point.
#[derive(Clone, Copy, Debug, PartialEq, Eq, Structural)]
pub enum DyniboStatus {
    /// The call succeeded.
    Success,
    /// An argument was null, mis-sized, overlapping or otherwise unacceptable.
    InvalidArgument,
    /// The robot model could not be loaded or used.
    ModelError,
    /// A panic was caught at the boundary.
    Panic,
    /// A numerical solver failed.
    SolverError,
}

/// Result of a boundary check: a status and its message on failure.
pub type CResult<T> = Result<T, (DyniboStatus, String)>;

/// The failure reported for an unacceptable argument.
pub fn invalid(message: String) -> (r: (DyniboStatus, String))
    ensures
        r.0 == DyniboStatus::InvalidArgument,
        r.1 == message,
{
    (DyniboStatus::InvalidArgument, message)
}

/// The result is an invalid-argument failure whose message reads `m`.
pub open spec fn is_invalid_with<T>(r: CResult<T>, m: Seq<char>) -> bool {
    r matches Err(e) && e.0 == DyniboStatus::InvalidArgument && e.1@ == m
}

/// `r` succeeds when `outcome` is `None`, and otherwise fails as an invalid
/// argument with the message in `outcome`.
pub open spec fn reports(r: CResult<()>, outcome: Option<Seq<char>>) -> bool {
    match outcome {
        None => r is Ok,
        Some(m) => is_invalid_with(r, m),
    }
}

/// Why the byte ranges `[input, input + input_bytes)` and
/// `[output, output + output_bytes)` are unacceptable, if they are.
pub open spec fn byte_overlap_problem(
    input: int,
    input_bytes: int,
    input_name: Seq<char>,
    output: int,
    output_bytes: int,
) -> Option<Seq<char>> {
    if input == 0 || output == 0 || input_bytes == 0 || output_bytes == 0 {
        None
    } else if input + input_bytes > usize::MAX {
        Some(input_name + " address range overflows"@)
    } else if output + output_bytes > usize::MAX {
        Some("output address range overflows"@)
    } else if input < output + output_bytes && output < input + input_bytes {
        Some(input_name + " and output must not overlap"@)
    } else {
        None
    }
}

/// Why an input of `input_len` doubles and an output of `output_bytes` bytes
/// are unacceptable, if they are.
pub open spec fn f64_input_problem(
    input: int,
    input_len: int,
    input_name: Seq<char>,
    output: int,
    output_bytes: int,
) -> Option<Seq<char>> {
    if input_len * 8 > usize::MAX {
        Some(input_name + " length is too large"@)
    } else {
        byte_overlap_problem(input, input_len * 8, input_name, output, output_bytes)
    }
}

/// Rejects an input byte range and an output byte range that share a byte.
///
/// Addresses of zero stand for null pointers; a null or empty range overlaps
/// nothing. A range whose end does not fit in an address is rejected.
pub fn reject_byte_overlap(
    input: usize,
    input_bytes: usize,
    input_name: &str,
    output: usize,
    output_bytes: usize,
) -> (r: CResult<()>)
    ensures
        reports(
            r,
            byte_overlap_problem(
                input as int,
                input_bytes as int,
                input_name@,
                output as int,
                output_bytes as int,
            ),
        ),
        0 < input && 0 < output && 0 < input_bytes && 0 < output_bytes && input + input_bytes
            <= usize::MAX && output + output_bytes <= usize::MAX ==> (r is Ok <==> (input
            + input_bytes <= output || output + output_bytes <= input)),
{
    if input == 0 || output == 0 || input_bytes == 0 || output_bytes == 0 {
        return Ok(());
    }
    let input_end = match input.checked_add(input_bytes) {
        Some(end) => end,
        None => {
            return Err(invalid(join2(input_name, " address range overflows")));
        },
    };
    let output_end = match output.checked_add(output_bytes) {
        Some(end) => end,
        None => {
            return Err(invalid(text("output address range overflows")));
        },
    };
    if input < output_end && output < input_end {
        Err(invalid(join2(input_name, " and output must not overlap")))
    } else {
        Ok(())
    }
}

/// Rejects an input of `input_len` doubles and an output of `output_len`
/// doubles whose byte ranges share a byte.
pub fn reject_f64_overlap(
    input: usize,
    input_len: usize,
    input_name: &str,
    output: usize,
    output_len: usize,
) -> (r: CResult<()>)
    ensures
        reports(
            r,
            if input_len * 8 > usize::MAX {
                Some(input_name@ + " length is too large"@)
            } else if output_len * 8 > usize::MAX {
                Some("output length is too large"@)
            } else {
                byte_overlap_problem(
                    input as int,
                    input_len * 8,
                    input_name@,
                    output as int,
                    output_len * 8,
                )
            },
        ),
        0 < input && 0 < output && 0 < input_len && 0 < output_len && input + 8 * input_len
            <= usize::MAX && output + 8 * output_len <= usize::MAX ==> (r is Ok <==> (input + 8
            * input_len <= output || output + 8 * output_len <= input)),
{
    let input_bytes = match input_len.checked_mul(8) {
        Some(bytes) => bytes,
        None => {
            return Err(invalid(join2(input_name, " length is too large")));
        },
    };
    let output_bytes = match output_len.checked_mul(8) {
        Some(bytes) => bytes,
        None => {
            return Err(invalid(text("output length is too large")));
        },
    };
    reject_byte_overlap(input, input_bytes, input_name, output, output_bytes)
}


/// Rejects an input of `input_len` doubles whose bytes share a byte with an
/// output structure of `output_size` bytes.
pub fn reject_struct_output_overlap(
    input: usize,
    input_len: usize,
    input_name: &str,
    output: usize,
    output_size: usize,
) -> (r: CResult<()>)
    ensures
        reports(
            r,
            f64_input_problem(
                input as int,
                input_len as int,
                input_name@,
                output as int,
                output_size as int,
            ),
        ),
        0 < input && 0 < output && 0 < input_len && 0 < output_size && input + 8 * input_len
            <= usize::MAX && output + output_size <= usize::MAX ==> (r is Ok <==> (input + 8
            * input_len <= output || output + output_size <= input)),
{
    let input_bytes = match input_len.checked_mul(8) {
        Some(bytes) => bytes,
        None => {
            return Err(invalid(join2(input_name, " length is too large")));
        },
    };
    reject_byte_overlap(input, input_bytes, input_name, output, output_size)
}

/// The bytes of `message` with every NUL byte replaced by a space, followed by
/// a terminating NUL.
pub open spec fn c_message(message: Seq<u8>) -> Seq<u8> {
    message.map_values(|b: u8| if b == 0 { 32u8 } else { b }).push(0u8)
}

/// Encodes `message` as a NUL-terminated C string that never ends early.
pub fn error_message_bytes(message: &str) -> (r: Vec<u8>)
    ensures
        r@ == c_message(message.spec_bytes()),
{
    let bytes = message.as_bytes();
    let n = bytes.len();
    let mut out: Vec<u8> = Vec::new();
    let mut i: usize = 0;
    while i < n
        invariant
            n == bytes@.len(),
            bytes@ == message.spec_bytes(),
            i <= n,
            out@ =~= bytes@.subrange(0, i as int).map_values(|b: u8| if b == 0 { 32u8 } else { b }),
        decreases n - i,
    {
        let b = bytes[i];
        if b == 0 {
            out.push(32);
        } else {
            out.push(b);
        }
        i += 1;
    }
    out.push(0);
    proof {
        assert(bytes@.subrange(0, n as int) =~= bytes@);
    }
    out
}

/// The link handle at position `target` of `ids`.
pub fn link(ids: &[LinkId], target: usize) -> (r: CResult<LinkId>)
    ensures
        target < ids@.len() ==> r == Ok::<LinkId, (DyniboStatus, String)>(ids@[target as int]),
        target >= ids@.len() ==> (r matches Err(e) && e.0 == DyniboStatus::InvalidArgument && e.1@
            == "invalid link id "@ + decimal_text(target as nat)),
{
    if target < ids.len() {
        Ok(ids[target])
    } else {
        let number = decimal(target);
        Err(invalid(join2("invalid link id ", number.as_str())))
    }
}

/// Position of `got` in `ids`.
pub fn find_link(ids: &[LinkId], got: LinkId) -> (r: usize)
    requires
        ids@.contains(got),
    ensures
        r < ids@.len(),
        ids@[r as int] == got,
        forall|a: int| 0 <= a < r ==> ids@[a] != got,
{
    let n = ids.len();
    let mut i: usize = 0;
    while i < n
        invariant
            n == ids@.len(),
            i <= n,
            ids@.contains(got),
            forall|a: int| 0 <= a < i ==> ids@[a] != got,
        decreases n - i,
    {
        if ids[i] == got {
            return i;
        }
        i += 1;
    }
    proof {
        let a = choose|a: int| 0 <= a < ids@.len() && ids@[a] == got;
        assert(ids@[a] != got);
    }
    0
}


/// An input of `input_len` doubles is checked over `8 * input_len` bytes
/// against an output of `output_bytes` bytes: within the address space, the
/// input is refused exactly when the two byte ranges share a byte, and then
/// as an overlap.
pub proof fn lemma_f64_input_is_measured_in_bytes(
    input: int,
    input_len: int,
    name: Seq<char>,
    output: int,
    output_bytes: int,
)
    requires
        0 < input,
        0 < output,
        0 < input_len,
        0 < output_bytes,
        input + 8 * input_len <= usize::MAX,
        output + output_bytes <= usize::MAX,
    ensures
        f64_input_problem(input, input_len, name, output, output_bytes) is None <==> (input + 8
            * input_len <= output || output + output_bytes <= input),
        f64_input_problem(input, input_len, name, output, output_bytes) is Some ==> f64_input_problem(
            input,
            input_len,
            name,
            output,
            output_bytes,
        ) == Some(name + " and output must not overlap"@),
{
}

/// An encoded message ends with its only NUL byte, one byte after the message.
pub proof fn lemma_c_message_is_terminated(message: Seq<u8>)
    ensures
        c_message(message).len() == message.len() + 1,
        c_message(message).last() == 0,
        forall|i: int| 0 <= i < message.len() ==> (#[trigger] c_message(message)[i]) != 0,
{
    assert forall|i: int| 0 <= i < message.len() implies (#[trigger] c_message(message)[i]) != 0 by {
        assert(c_message(message)[i] == (if message[i] == 0 { 32u8 } else { message[i] }));
    }
}

/// Ranges that do not share a byte are accepted, and ranges that share one are
/// rejected, whenever both are non-null, non-empty and fit in the address space.
pub proof fn lemma_overlap_decides(
    input: int,
    input_bytes: int,
    name: Seq<char>,
    output: int,
    output_bytes: int,
)
    requires
        0 < input,
        0 < output,
        0 < input_bytes,
        0 < output_bytes,
        input + input_bytes <= usize::MAX,
        output + output_bytes <= usize::MAX,
    ensures
        byte_overlap_problem(input, input_bytes, name, output, output_bytes) is None <==> (
        input + input_bytes <= output || output + output_bytes <= input),
        byte_overlap_problem(input, input_bytes, name, output, output_bytes) == byte_overlap_problem(
            output,
            output_bytes,
            name,
            input,
            input_bytes,
        ),
{
}

} // verus!
