//! The public inputs bound to a proof, and their fixed 76-byte layout.
//!
//! | bytes      | field               | encoding       |
//! |------------|---------------------|----------------|
//! | `[0, 8)`   | `pid`               | little-endian  |
//! | `[8, 40)`  | `puzzle_commitment` | as is          |
//! | `[40, 72)` | `nullifier`         | as is          |
//! | `[72, 76)` | `time_sec`          | little-endian  |

use crate::error::VerifyError;
use vstd::prelude::*;

verus! {

/// Length in bytes of the fixed layout.
pub const PUBLIC_INPUTS_LEN: usize = 76;

/// The non-secret parameters that a proof is bound to.
#[derive(Clone, Copy, PartialEq, Eq, Debug)]
pub struct PublicInputs {
    /// Puzzle identifier.
    pub pid: u64,
    /// Opaque digest that binds the puzzle instance.
    pub puzzle_commitment: [u8; 32],
    /// Opaque anti-replay tag of the submission.
    pub nullifier: [u8; 32],
    /// Timestamp in seconds.
    pub time_sec: u32,
}

/// Mathematical model of [`PublicInputs`]: the two opaque fields as byte
/// sequences of length 32.
pub struct PublicInputsView {
    pub pid: u64,
    pub puzzle_commitment: Seq<u8>,
    pub nullifier: Seq<u8>,
    pub time_sec: u32,
}

impl View for PublicInputs {
    type V = PublicInputsView;

    open spec fn view(&self) -> PublicInputsView {
        PublicInputsView {
            pid: self.pid,
            puzzle_commitment: self.puzzle_commitment@,
            nullifier: self.nullifier@,
            time_sec: self.time_sec,
        }
    }
}

impl PublicInputsView {
    /// Both opaque fields have their fixed width.
    pub open spec fn well_formed(self) -> bool {
        self.puzzle_commitment.len() == 32 && self.nullifier.len() == 32
    }
}

impl PublicInputs {
    /// Bundles the four fields.
    pub fn new(pid: u64, puzzle_commitment: [u8; 32], nullifier: [u8; 32], time_sec: u32) -> (out:
        Self)
        ensures
            out.pid == pid,
            out.puzzle_commitment == puzzle_commitment,
            out.nullifier == nullifier,
            out.time_sec == time_sec,
    {
        Self { pid, puzzle_commitment, nullifier, time_sec }
    }
}

/// The number whose little-endian digits in base 256 are `bytes`.
pub open spec fn le_value(bytes: Seq<u8>) -> nat
    decreases bytes.len(),
{
    if bytes.len() == 0 {
        0
    } else {
        bytes[0] as nat + 256 * le_value(bytes.drop_first())
    }
}

/// The `width` little-endian digits in base 256 of `value`.
pub open spec fn le_bytes(value: nat, width: nat) -> Seq<u8>
    decreases width,
{
    if width == 0 {
        Seq::empty()
    } else {
        seq![(value % 256) as u8] + le_bytes(value / 256, (width - 1) as nat)
    }
}

/// The least number that `width` base-256 digits cannot represent: 256 to the
/// power `width`.
pub open spec fn le_limit(width: nat) -> nat
    decreases width,
{
    if width == 0 {
        1
    } else {
        256 * le_limit((width - 1) as nat)
    }
}

/// The fixed layout of `inputs`: 76 bytes when `inputs` is well formed.
pub open spec fn layout(inputs: PublicInputsView) -> Seq<u8> {
    le_bytes(inputs.pid as nat, 8) + inputs.puzzle_commitment + inputs.nullifier + le_bytes(
        inputs.time_sec as nat,
        4,
    )
}

/// The public inputs that the first 76 bytes of `raw` lay out. Bytes beyond
/// offset 76 play no part.
pub open spec fn parse_layout(raw: Seq<u8>) -> PublicInputsView {
    PublicInputsView {
        pid: le_value(raw.subrange(0, 8)) as u64,
        puzzle_commitment: raw.subrange(8, 40),
        nullifier: raw.subrange(40, 72),
        time_sec: le_value(raw.subrange(72, 76)) as u32,
    }
}

/// `le_limit` at the two widths of the layout, and its growth.
pub proof fn lemma_le_limit(width: nat)
    ensures
        le_limit(4) == 0x1_0000_0000,
        le_limit(8) == 0x1_0000_0000_0000_0000,
        width <= 4 ==> le_limit(width) <= le_limit(4),
        width <= 8 ==> le_limit(width) <= le_limit(8),
{
    reveal_with_fuel(le_limit, 9);
}

/// `width` digits are produced.
pub proof fn lemma_le_bytes_len(value: nat, width: nat)
    ensures
        le_bytes(value, width).len() == width,
    decreases width,
{
    if width > 0 {
        lemma_le_bytes_len(value / 256, (width - 1) as nat);
    }
}

/// A number read from `bytes` fits in as many digits as `bytes` has.
pub proof fn lemma_le_value_bound(bytes: Seq<u8>)
    ensures
        le_value(bytes) < le_limit(bytes.len()),
    decreases bytes.len(),
{
    if bytes.len() > 0 {
        lemma_le_value_bound(bytes.drop_first());
    }
}

/// Reading back the digits of a number that fits in `width` digits gives the
/// number.
pub proof fn lemma_le_value_of_le_bytes(value: nat, width: nat)
    requires
        value < le_limit(width),
    ensures
        le_value(le_bytes(value, width)) == value,
    decreases width,
{
    if width > 0 {
        let rest = le_bytes(value / 256, (width - 1) as nat);
        lemma_le_value_of_le_bytes(value / 256, (width - 1) as nat);
        assert(le_bytes(value, width).drop_first() =~= rest);
    }
}

/// Writing the number read from `bytes` in as many digits gives `bytes` back.
pub proof fn lemma_le_bytes_of_le_value(bytes: Seq<u8>)
    ensures
        le_bytes(le_value(bytes), bytes.len()) == bytes,
    decreases bytes.len(),
{
    if bytes.len() > 0 {
        lemma_le_bytes_of_le_value(bytes.drop_first());
    }
}

/// Reads the little-endian number held in `width` bytes of `raw` from offset
/// `start` on.
fn read_le(raw: &[u8], start: usize, width: usize) -> (value: u64)
    requires
        width <= 8,
        start + width <= raw@.len(),
    ensures
        value == le_value(raw@.subrange(start as int, start + width)),
        value < le_limit(width as nat),
{
    let len = raw.len();
    let mut value: u64 = 0;
    let mut i: usize = width;
    while i > 0
        invariant
            i <= width <= 8,
            start + width <= len == raw@.len(),
            value == le_value(raw@.subrange(start + i, start + width)),
            value < le_limit((width - i) as nat),
        decreases i,
    {
        i -= 1;
        proof {
            lemma_le_limit((width - i) as nat);
            assert(raw@.subrange(start + i, start + width).drop_first() =~= raw@.subrange(
                start + i + 1,
                start + width,
            ));
        }
        value = value * 256 + raw[start + i] as u64;
    }
    value
}

/// Appends the `width` little-endian bytes of `value` to `out`.
fn push_le(out: &mut Vec<u8>, value: u64, width: usize)
    ensures
        final(out)@ == old(out)@ + le_bytes(value as nat, width as nat),
{
    let mut rest: u64 = value;
    let mut i: usize = 0;
    while i < width
        invariant
            i <= width,
            out@ + le_bytes(rest as nat, (width - i) as nat) == old(out)@ + le_bytes(
                value as nat,
                width as nat,
            ),
        decreases width - i,
    {
        out.push((rest % 256) as u8);
        rest = rest / 256;
        i += 1;
    }
}

/// Copies 32 bytes of `raw` from offset `start` on.
fn read_bytes32(raw: &[u8], start: usize) -> (out: [u8; 32])
    requires
        start + 32 <= raw@.len(),
    ensures
        out@ == raw@.subrange(start as int, start + 32),
{
    let len = raw.len();
    let mut out: [u8; 32] = [0u8; 32];
    let mut i: usize = 0;
    while i < 32
        invariant
            i <= 32,
            start + 32 <= len == raw@.len(),
            forall|k: int| 0 <= k < i ==> out@[k] == raw@[start + k],
        decreases 32 - i,
    {
        out[i] = raw[start + i];
        i += 1;
    }
    out
}

/// Decodes public inputs from their fixed layout.
///
/// Fails exactly when `noir_public_inputs` is shorter than 76 bytes. Bytes
/// beyond offset 76 are ignored.
pub fn noir_inputs_to_public_inputs(noir_public_inputs: &[u8]) -> (res: Result<
    PublicInputs,
    VerifyError,
>)
    ensures
        noir_public_inputs@.len() < 76 ==> res == Err::<PublicInputs, VerifyError>(
            VerifyError::DeserializationError,
        ),
        noir_public_inputs@.len() >= 76 ==> res is Ok && res->Ok_0@ == parse_layout(
            noir_public_inputs@,
        ),
{
    if noir_public_inputs.len() < PUBLIC_INPUTS_LEN {
        return Err(VerifyError::DeserializationError);
    }
    let pid = read_le(noir_public_inputs, 0, 8);
    let puzzle_commitment = read_bytes32(noir_public_inputs, 8);
    let nullifier = read_bytes32(noir_public_inputs, 40);
    let time = read_le(noir_public_inputs, 72, 4);
    proof {
        lemma_le_limit(4);
    }
    let time_sec = time as u32;
    Ok(PublicInputs { pid, puzzle_commitment, nullifier, time_sec })
}

/// Encodes public inputs in their fixed layout: always 76 bytes.
pub fn encode_public_inputs(public_inputs: &PublicInputs) -> (out: Vec<u8>)
    ensures
        out@ == layout(public_inputs@),
        out@.len() == 76,
{
    let mut out: Vec<u8> = Vec::with_capacity(PUBLIC_INPUTS_LEN);
    push_le(&mut out, public_inputs.pid, 8);
    out.extend_from_slice(public_inputs.puzzle_commitment.as_slice());
    out.extend_from_slice(public_inputs.nullifier.as_slice());
    push_le(&mut out, public_inputs.time_sec as u64, 4);
    proof {
        lemma_layout_len(public_inputs@);
    }
    out
}

/// The layout of well-formed public inputs is 76 bytes long.
pub proof fn lemma_layout_len(inputs: PublicInputsView)
    requires
        inputs.well_formed(),
    ensures
        layout(inputs).len() == 76,
{
    lemma_le_bytes_len(inputs.pid as nat, 8);
    lemma_le_bytes_len(inputs.time_sec as nat, 4);
}

/// Decoding what was encoded gives the public inputs back, also when further
/// bytes follow the 76 of the layout.
pub proof fn lemma_decode_encode(inputs: PublicInputsView, trailing: Seq<u8>)
    requires
        inputs.well_formed(),
    ensures
        parse_layout(layout(inputs) + trailing) == inputs,
{
    let raw = layout(inputs) + trailing;
    let pid = le_bytes(inputs.pid as nat, 8);
    let time = le_bytes(inputs.time_sec as nat, 4);
    lemma_le_bytes_len(inputs.pid as nat, 8);
    lemma_le_bytes_len(inputs.time_sec as nat, 4);
    lemma_le_limit(8);
    lemma_le_value_of_le_bytes(inputs.pid as nat, 8);
    lemma_le_value_of_le_bytes(inputs.time_sec as nat, 4);
    assert(raw.subrange(0, 8) =~= pid);
    assert(raw.subrange(8, 40) =~= inputs.puzzle_commitment);
    assert(raw.subrange(40, 72) =~= inputs.nullifier);
    assert(raw.subrange(72, 76) =~= time);
}

/// Encoding what was decoded gives the first 76 bytes back.
pub proof fn lemma_encode_decode(raw: Seq<u8>)
    requires
        raw.len() >= 76,
    ensures
        parse_layout(raw).well_formed(),
        layout(parse_layout(raw)) == raw.subrange(0, 76),
{
    let pid = raw.subrange(0, 8);
    let time = raw.subrange(72, 76);
    lemma_le_limit(8);
    lemma_le_value_bound(pid);
    lemma_le_value_bound(time);
    lemma_le_bytes_of_le_value(pid);
    lemma_le_bytes_of_le_value(time);
}

/// Public inputs with the same model are the same value.
pub proof fn lemma_view_determines_value(a: PublicInputs, b: PublicInputs)
    requires
        a@ == b@,
    ensures
        a == b,
{
    assert(a.puzzle_commitment =~= b.puzzle_commitment);
    assert(a.nullifier =~= b.nullifier);
}

/// Whatever is decoded from the encoding of `inputs`, with or without bytes
/// after it, is `inputs` itself.
pub proof fn lemma_decode_encode_identity(
    inputs: PublicInputs,
    trailing: Seq<u8>,
    decoded: PublicInputs,
)
    requires
        decoded@ == parse_layout(layout(inputs@) + trailing),
    ensures
        decoded == inputs,
{
    lemma_decode_encode(inputs@, trailing);
    lemma_view_determines_value(decoded, inputs);
}

} // verus!
