//! Binary projection: one [`Patch`] to and from one 4 KB QSPI sector.
//!
//! # Layout
//!
//! ```text
//! Header (16 bytes)
//!   0   u32  magic = "SNDP"
//!   4   u16  format_version
//!   6   u16  flags (reserved, 0)
//!   8   u32  crc32 of the payload
//!   12  u16  payload_len
//!   14  u16  reserved (0)
//! Payload (payload_len bytes, starts at offset 16)
//!   name[24] . input_gain f32 . master_volume f32
//!   morph: speed f32 . mode u8 . slot_locks u8
//!   6 x macro: name[16] . count u8 . count x (target[3] . min f32 . max f32 . curve u8)
//!   node_count u8 . nodes: uid u16 . bypassed u8 . pcount u8 . A[pc]f32 . B[pc]f32
//!   edge_count u8 . edges: from[2] . to[2]
//! ```
//!
//! All multi-byte fields are little-endian. [`decode`] is bounds-checked and
//! total: a truncated or corrupt sector gives a [`PatchError`], so the firmware
//! can fall back to a known-good patch.
use crate::fields::{
    body_fields, edge_fields, edges_fields, header_fields, header_strung, longest_run, macro_fields,
    macros_fields, mapping_fields, mappings_fields, node_fields, nodes_fields, payload_fields,
    payload_strung, preamble_fields, singles, strung, words_fields,
};
use crate::layout::{
    HEADER_LEN, MAX_COUNT, before_nul, boundary_at_or_before, crc32_of, crc_bits, crc_register,
    curve_byte, decoded, encode_outcome, endpoint_bytes, filled_up, fitting_len, fixed_field,
    get_curve, get_edge, get_edges, get_endpoint, get_field, get_global, get_macro, get_macros,
    get_mapping, get_mappings, get_mode, get_node, get_nodes, get_payload, get_target, get_u16,
    get_u32, get_u8, get_words, global_byte, header_bytes, header_of, holds_at, holds_at_concat,
    le16, le32, mode_byte, node_fault, overwritten, padding, payload_of, sector_of, stored_count,
    target_bytes, utf8_lossy,
};
use crate::patch::{
    Bits, GlobalControls, GlobalParam, MACRO_NAME_LEN, MAX_NODES, MAX_PARAMS, MacroDef,
    MacroMappingSpec, MacroModel, MacroTarget, MorphConfig, MorphCurve, MorphMode, NUM_MACROS,
    NodeModel, PATCH_FORMAT_VERSION, PATCH_MAGIC, PATCH_NAME_LEN, Patch, PatchEdge, PatchEndpoint,
    PatchModel, PatchNode, SECTOR_SIZE, macros_view, nodes_view,
};
use crate::text::{decimal, decimal_string, hex, push_decimal, push_hex};
use vstd::prelude::*;
use vstd::slice::slice_subrange;
use vstd::string::StringExecFns;
use vstd::string::StringSliceAdditionalSpecFns;
use vstd::utf8::{decode_utf8, encode_utf8, is_char_boundary, valid_utf8};

verus! {

/// Errors from [`encode`] and [`decode`].
#[derive(Clone, Debug, PartialEq, Eq)]
#[non_exhaustive]
pub enum PatchError {
    /// Output buffer is smaller than the encoded patch.
    BufferTooSmall,
    /// Input ended mid-field.
    Truncated,
    /// Magic word did not match [`PATCH_MAGIC`].
    BadMagic(u32),
    /// Format version is newer than this build understands.
    UnsupportedVersion(u16),
    /// CRC mismatch: the sector is corrupt.
    BadCrc {
        /// CRC stored in the header.
        expected: u32,
        /// CRC computed over the payload.
        actual: u32,
    },
    /// Encoded payload exceeds a 4 KB sector.
    TooLarge(usize),
    /// More than [`MAX_NODES`] nodes.
    TooManyNodes(usize),
    /// A node declares more than [`MAX_PARAMS`] parameters.
    TooManyParams(usize),
    /// A node's A/B snapshots differ in length.
    SnapshotLenMismatch,
    /// An enum tag byte was out of range. `what` names the field.
    BadTag {
        /// Field whose tag was invalid.
        what: &'static str,
        /// The offending byte.
        tag: u8,
    },
}

/// The message for an encoding or decoding error.
pub open spec fn patch_message(e: PatchError) -> Seq<char> {
    match e {
        PatchError::BufferTooSmall => "output buffer too small for patch"@,
        PatchError::Truncated => "patch data truncated"@,
        PatchError::BadMagic(m) => "bad magic 0x"@ + hex(m as nat, 8, true) + " (expected SNDP)"@,
        PatchError::UnsupportedVersion(v) => "unsupported patch format version "@ + decimal(
            v as nat,
        ),
        PatchError::BadCrc { expected, actual } => "crc mismatch: header 0x"@ + hex(
            expected as nat,
            8,
            false,
        ) + " \u{2260} computed 0x"@ + hex(actual as nat, 8, false),
        PatchError::TooLarge(n) => "payload "@ + decimal(n as nat) + " bytes exceeds 4 KB sector"@,
        PatchError::TooManyNodes(n) => decimal(n as nat) + " nodes exceeds max 8"@,
        PatchError::TooManyParams(n) => decimal(n as nat) + " params exceeds max 16"@,
        PatchError::SnapshotLenMismatch => "A/B snapshot length mismatch"@,
        PatchError::BadTag { what, tag } => "invalid "@ + what@ + " tag "@ + decimal(tag as nat),
    }
}

impl PatchError {
    /// A message for the user.
    pub fn message(&self) -> (m: String)
        ensures
            m@ == patch_message(*self),
    {
        match self {
            PatchError::BufferTooSmall => "output buffer too small for patch".to_owned(),
            PatchError::Truncated => "patch data truncated".to_owned(),
            PatchError::BadMagic(word) => {
                let mut m = "bad magic 0x".to_owned();
                push_hex(&mut m, *word, 8, true);
                m.append(" (expected SNDP)");
                m
            },
            PatchError::UnsupportedVersion(v) => {
                let mut m = "unsupported patch format version ".to_owned();
                push_decimal(&mut m, *v as u128);
                m
            },
            PatchError::BadCrc { expected, actual } => {
                let mut m = "crc mismatch: header 0x".to_owned();
                push_hex(&mut m, *expected, 8, false);
                m.append(" \u{2260} computed 0x");
                push_hex(&mut m, *actual, 8, false);
                m
            },
            PatchError::TooLarge(n) => {
                let mut m = "payload ".to_owned();
                push_decimal(&mut m, *n as u128);
                m.append(" bytes exceeds 4 KB sector");
                m
            },
            PatchError::TooManyNodes(n) => {
                let mut m = decimal_string(*n as u128);
                m.append(" nodes exceeds max 8");
                m
            },
            PatchError::TooManyParams(n) => {
                let mut m = decimal_string(*n as u128);
                m.append(" params exceeds max 16");
                m
            },
            PatchError::SnapshotLenMismatch => "A/B snapshot length mismatch".to_owned(),
            PatchError::BadTag { what, tag } => {
                let mut m = "invalid ".to_owned();
                m.append(what);
                m.append(" tag ");
                push_decimal(&mut m, *tag as u128);
                m
            },
        }
    }
}

/// `String::from_utf8_lossy`: the text of bytes, decoded where they are valid
/// UTF-8. Otherwise the result is some text that depends on the bytes alone
/// (std puts a replacement character for each ill-formed sequence).
#[verifier::external_body]
fn from_utf8_lossy(bytes: &[u8]) -> (text: String)
    ensures
        text@ == (if valid_utf8(bytes@) {
            decode_utf8(bytes@)
        } else {
            utf8_lossy(bytes@)
        }),
{
    String::from_utf8_lossy(bytes).into_owned()
}

/// The IEEE 802.3 checksum, bit by bit: no table, to keep the firmware small.
fn crc32(bytes: &[u8]) -> (crc: u32)
    ensures
        crc == crc32_of(bytes@),
{
    let mut crc: u32 = 0xFFFF_FFFF;
    let mut i: usize = 0;
    while i < bytes.len()
        invariant
            i <= bytes@.len(),
            crc == crc_register(bytes@.take(i as int)),
        decreases bytes@.len() - i,
    {
        assert(bytes@.take(i as int + 1).drop_last() =~= bytes@.take(i as int));
        crc = crc ^ (bytes[i] as u32);
        let ghost fed = crc;
        let mut k: usize = 0;
        while k < 8
            invariant
                k <= 8,
                crc == crc_bits(fed, k as nat),
            decreases 8 - k,
        {
            if crc & 1 == 1 {
                crc = (crc >> 1) ^ 0xEDB8_8320;
            } else {
                crc = crc >> 1;
            }
            k = k + 1;
        }
        i = i + 1;
    }
    assert(bytes@.take(bytes@.len() as int) =~= bytes@);
    !crc
}

/// One more byte behind those that were written.
proof fn overwritten_longer(s: Seq<u8>, pos: int, bytes: Seq<u8>, i: int)
    requires
        0 <= pos,
        0 <= i < bytes.len(),
        pos + i < s.len(),
    ensures
        overwritten(overwritten(s, pos, bytes.take(i)), pos + i, seq![bytes[i]]) == overwritten(
            s,
            pos,
            bytes.take(i + 1),
        ),
{
    assert(overwritten(overwritten(s, pos, bytes.take(i)), pos + i, seq![bytes[i]])
        =~= overwritten(s, pos, bytes.take(i + 1)));
}

/// A cursor over a buffer: the next field of `goal` goes to `pos`.
struct Writer {
    pos: usize,
    /// Where the writing began.
    start: Ghost<int>,
    /// The buffer as it was then.
    before: Ghost<Seq<u8>>,
    /// The fields to be written.
    goal: Ghost<Seq<Seq<u8>>>,
    /// How many of them are.
    done: Ghost<int>,
}

impl Writer {
    /// `buf` is what the buffer was, with the fields written up to the cursor.
    spec fn wrote(self, buf: Seq<u8>) -> bool {
        let put = strung(self.goal@.take(self.done@));
        &&& 0 <= self.start@ <= self.pos <= buf.len()
        &&& buf.len() == self.before@.len()
        &&& 0 <= self.done@ <= self.goal@.len()
        &&& self.pos == self.start@ + put.len()
        &&& buf == overwritten(self.before@, self.start@, put)
    }

    /// The fields that come next.
    spec fn next_up(self, fields: Seq<Seq<u8>>) -> bool {
        holds_at(self.goal@, self.done@, fields)
    }

    /// This writer and the other one write the same fields to the same place.
    spec fn alike(self, other: Writer) -> bool {
        &&& other.start == self.start
        &&& other.before == self.before
        &&& other.goal == self.goal
    }

    /// One step of this writer, on a buffer, over the given fields. Where it fails,
    /// it stands before the first of them that does not fit.
    spec fn step(
        self,
        after: Writer,
        buf: Seq<u8>,
        fields: Seq<Seq<u8>>,
        r: Result<(), PatchError>,
    ) -> bool {
        &&& self.alike(after)
        &&& after.wrote(buf)
        &&& match r {
            Ok(()) => after.done@ == self.done@ + fields.len(),
            Err(e) => {
                &&& e == PatchError::BufferTooSmall
                &&& self.done@ <= after.done@ < self.done@ + fields.len() <= self.goal@.len()
                &&& after.pos + self.goal@[after.done@].len() > buf.len()
            },
        }
    }

    /// A step over one field: it is written whole where it fits, else writer and
    /// buffer stay as they are.
    spec fn put(
        self,
        after: Writer,
        buf: Seq<u8>,
        buf_after: Seq<u8>,
        field: Seq<u8>,
        r: Result<(), PatchError>,
    ) -> bool {
        if self.pos + field.len() <= buf.len() {
            &&& r is Ok
            &&& after.pos == self.pos + field.len()
            &&& buf_after == overwritten(buf, self.pos as int, field)
        } else {
            &&& r == Err::<(), _>(PatchError::BufferTooSmall)
            &&& after == self
            &&& buf_after == buf
        }
    }

    /// A step over bytes that are fields of their own: all are written where they
    /// fit, else as many as there is room for.
    spec fn put_each(
        self,
        after: Writer,
        buf: Seq<u8>,
        buf_after: Seq<u8>,
        bytes: Seq<u8>,
        r: Result<(), PatchError>,
    ) -> bool {
        if self.pos + bytes.len() <= buf.len() {
            &&& r is Ok
            &&& after.pos == self.pos + bytes.len()
            &&& buf_after == overwritten(buf, self.pos as int, bytes)
        } else {
            &&& r == Err::<(), _>(PatchError::BufferTooSmall)
            &&& after.pos == buf.len()
            &&& buf_after == overwritten(buf, self.pos as int, bytes.take(buf.len() - self.pos))
        }
    }

    fn new(pos: usize, Ghost(before): Ghost<Seq<u8>>, Ghost(goal): Ghost<Seq<Seq<u8>>>) -> (w: Self)
        requires
            pos <= before.len(),
        ensures
            w.pos == pos,
            w.start@ == pos,
            w.before@ == before,
            w.goal@ == goal,
            w.done@ == 0,
            w.wrote(before),
    {
        assert(goal.take(0) =~= Seq::empty());
        assert(overwritten(before, pos as int, Seq::empty()) =~= before);
        Writer {
            pos,
            start: Ghost(pos as int),
            before: Ghost(before),
            goal: Ghost(goal),
            done: Ghost(0),
        }
    }

    fn bytes(&mut self, buf: &mut [u8], v: &[u8]) -> (r: Result<(), PatchError>)
        requires
            old(self).wrote(old(buf)@),
            old(self).next_up(seq![v@]),
        ensures
            old(self).put(*final(self), old(buf)@, final(buf)@, v@, r),
            old(self).step(*final(self), final(buf)@, seq![v@], r),
    {
        proof {
            let next = self.goal@.subrange(self.done@, self.done@ + 1);
            assert(next[0] == self.goal@[self.done@]);
            assert(self.goal@[self.done@] == v@);
        }
        if v.len() > buf.len() - self.pos {
            return Err(PatchError::BufferTooSmall);
        }
        let ghost before = buf@;
        let mut i: usize = 0;
        assert(buf@ =~= overwritten(before, self.pos as int, v@.take(0)));
        while i < v.len()
            invariant
                i <= v@.len(),
                self.pos + v@.len() <= before.len() <= usize::MAX,
                buf@ == overwritten(before, self.pos as int, v@.take(i as int)),
            decreases v@.len() - i,
        {
            buf[self.pos + i] = v[i];
            i = i + 1;
            assert(buf@ =~= overwritten(before, self.pos as int, v@.take(i as int)));
        }
        proof {
            let goal = self.goal@;
            let done = self.done@;
            assert(v@.take(v@.len() as int) =~= v@);
            assert(goal.take(done + 1).drop_last() =~= goal.take(done));
            assert(buf@ =~= overwritten(
                self.before@,
                self.start@,
                strung(goal.take(done)) + v@,
            ));
        }
        self.pos = self.pos + v.len();
        self.done = Ghost(self.done@ + 1);
        Ok(())
    }

    fn u8(&mut self, buf: &mut [u8], v: u8) -> (r: Result<(), PatchError>)
        requires
            old(self).wrote(old(buf)@),
            old(self).next_up(seq![seq![v]]),
        ensures
            old(self).put(*final(self), old(buf)@, final(buf)@, seq![v], r),
            old(self).step(*final(self), final(buf)@, seq![seq![v]], r),
    {
        let one: [u8; 1] = [v];
        assert(one@ =~= seq![v]);
        self.bytes(buf, &one)
    }

    fn u16(&mut self, buf: &mut [u8], v: u16) -> (r: Result<(), PatchError>)
        requires
            old(self).wrote(old(buf)@),
            old(self).next_up(seq![le16(v)]),
        ensures
            old(self).put(*final(self), old(buf)@, final(buf)@, le16(v), r),
            old(self).step(*final(self), final(buf)@, seq![le16(v)], r),
    {
        let two: [u8; 2] = [(v % 0x100) as u8, (v / 0x100) as u8];
        assert(two@ =~= le16(v));
        self.bytes(buf, &two)
    }

    fn u32(&mut self, buf: &mut [u8], v: u32) -> (r: Result<(), PatchError>)
        requires
            old(self).wrote(old(buf)@),
            old(self).next_up(seq![le32(v)]),
        ensures
            old(self).put(*final(self), old(buf)@, final(buf)@, le32(v), r),
            old(self).step(*final(self), final(buf)@, seq![le32(v)], r),
    {
        let four: [u8; 4] = [
            (v % 0x100) as u8,
            (v / 0x100 % 0x100) as u8,
            (v / 0x1_0000 % 0x100) as u8,
            (v / 0x100_0000) as u8,
        ];
        assert(four@ =~= le32(v));
        self.bytes(buf, &four)
    }

    /// Write `s` into a NUL-padded field of `len` bytes (UTF-8, truncated). The
    /// cut falls on a character boundary, so no multi-byte character is split.
    fn fixed_str(&mut self, buf: &mut [u8], s: &str, len: usize) -> (r: Result<(), PatchError>)
        requires
            old(self).wrote(old(buf)@),
            old(self).next_up(singles(fixed_field(s@, len as nat))),
        ensures
            old(self).put_each(
                *final(self),
                old(buf)@,
                final(buf)@,
                fixed_field(s@, len as nat),
                r,
            ),
            old(self).step(*final(self), final(buf)@, singles(fixed_field(s@, len as nat)), r),
    {
        let src = s.as_bytes();
        let ghost field = fixed_field(s@, len as nat);
        let mut n: usize = if src.len() < len {
            src.len()
        } else {
            len
        };
        while n > 0 && !s.is_char_boundary(n)
            invariant
                n <= len,
                n <= src@.len(),
                src@ == encode_utf8(s@),
                s.spec_bytes() == encode_utf8(s@),
                boundary_at_or_before(src@, n as nat) == fitting_len(src@, len as nat),
            decreases n,
        {
            n = n - 1;
        }
        let ghost began = *self;
        let ghost start = buf@;
        let mut i: usize = 0;
        assert(buf@ =~= overwritten(start, began.pos as int, field.take(0)));
        while i < len
            invariant
                i <= len,
                n <= len,
                start == old(buf)@,
                self.pos == began.pos + i,
                buf@.len() == start.len(),
                buf@ == overwritten(start, began.pos as int, field.take(i as int)),
                field == fixed_field(s@, len as nat),
                field.len() == len,
                n <= src@.len(),
                field == src@.take(n as int) + padding((len - n) as nat),
                began == *old(self),
                began.next_up(singles(field)),
                self.wrote(buf@),
                self.done@ == began.done@ + i,
                began.alike(*self),
            decreases len - i,
        {
            let b: u8 = if i < n {
                src[i]
            } else {
                0
            };
            proof {
                let at = self.done@;
                let goal = self.goal@;
                let run = goal.subrange(began.done@, began.done@ + len);
                assert(run == singles(field));
                assert(goal[at] == run[i as int]);
                assert(goal.subrange(at, at + 1) =~= seq![seq![b]]);
                assert(b == field[i as int]);
                if began.pos + i < start.len() {
                    overwritten_longer(start, began.pos as int, field, i as int);
                }
            }
            self.u8(buf, b)?;
            i = i + 1;
        }
        assert(field.take(len as int) =~= field);
        Ok(())
    }

    /// Write bytes one by one.
    fn each(&mut self, buf: &mut [u8], v: &[u8]) -> (r: Result<(), PatchError>)
        requires
            old(self).wrote(old(buf)@),
            old(self).next_up(singles(v@)),
        ensures
            old(self).put_each(*final(self), old(buf)@, final(buf)@, v@, r),
            old(self).step(*final(self), final(buf)@, singles(v@), r),
    {
        let ghost began = *self;
        let ghost start = buf@;
        let mut i: usize = 0;
        assert(buf@ =~= overwritten(start, began.pos as int, v@.take(0)));
        while i < v.len()
            invariant
                i <= v@.len(),
                start == old(buf)@,
                self.pos == began.pos + i,
                buf@.len() == start.len(),
                buf@ == overwritten(start, began.pos as int, v@.take(i as int)),
                began == *old(self),
                began.next_up(singles(v@)),
                self.wrote(buf@),
                self.done@ == began.done@ + i,
                began.alike(*self),
            decreases v@.len() - i,
        {
            proof {
                let at = self.done@;
                let goal = self.goal@;
                let run = goal.subrange(began.done@, began.done@ + v@.len());
                assert(run == singles(v@));
                assert(goal[at] == run[i as int]);
                assert(goal.subrange(at, at + 1) =~= seq![seq![v@[i as int]]]);
                if began.pos + i < start.len() {
                    overwritten_longer(start, began.pos as int, v@, i as int);
                }
            }
            self.u8(buf, v[i])?;
            i = i + 1;
        }
        assert(v@.take(v@.len() as int) =~= v@);
        Ok(())
    }

    fn target(&mut self, buf: &mut [u8], t: MacroTarget) -> (r: Result<(), PatchError>)
        requires
            old(self).wrote(old(buf)@),
            old(self).next_up(singles(target_bytes(t))),
        ensures
            old(self).put_each(*final(self), old(buf)@, final(buf)@, target_bytes(t), r),
            old(self).step(*final(self), final(buf)@, singles(target_bytes(t)), r),
    {
        let three: [u8; 3] = match t {
            MacroTarget::Slot { slot, param } => [0, slot, param],
            MacroTarget::Global(g) => [1, global_to_u8(g), 0],
        };
        assert(three@ =~= target_bytes(t));
        self.each(buf, &three)
    }

    fn endpoint(&mut self, buf: &mut [u8], e: PatchEndpoint) -> (r: Result<(), PatchError>)
        requires
            old(self).wrote(old(buf)@),
            old(self).next_up(singles(endpoint_bytes(e))),
        ensures
            old(self).put_each(*final(self), old(buf)@, final(buf)@, endpoint_bytes(e), r),
            old(self).step(*final(self), final(buf)@, singles(endpoint_bytes(e)), r),
    {
        let two: [u8; 2] = match e {
            PatchEndpoint::Input => [0, 0],
            PatchEndpoint::Output => [1, 0],
            PatchEndpoint::Node(i) => [2, i],
            PatchEndpoint::Split(i) => [3, i],
            PatchEndpoint::Merge(i) => [4, i],
        };
        assert(two@ =~= endpoint_bytes(e));
        self.each(buf, &two)
    }
}

fn curve_to_u8(c: MorphCurve) -> (b: u8)
    ensures
        b == curve_byte(c),
{
    match c {
        MorphCurve::Linear => 0,
        MorphCurve::Logarithmic => 1,
        MorphCurve::Snap => 2,
    }
}

fn mode_to_u8(m: MorphMode) -> (b: u8)
    ensures
        b == mode_byte(m),
{
    match m {
        MorphMode::Ramp => 0,
        MorphMode::Momentary => 1,
        MorphMode::Latch => 2,
    }
}

fn global_to_u8(g: GlobalParam) -> (b: u8)
    ensures
        b == global_byte(g),
{
    match g {
        GlobalParam::InputGain => 0,
        GlobalParam::MasterVolume => 1,
        GlobalParam::MorphPosition => 2,
        GlobalParam::MorphSpeed => 3,
    }
}

fn write_mapping(w: &mut Writer, buf: &mut [u8], m: &MacroMappingSpec) -> (r: Result<
    (),
    PatchError,
>)
    requires
        old(w).wrote(old(buf)@),
        old(w).next_up(mapping_fields(*m)),
    ensures
        old(w).step(*final(w), final(buf)@, mapping_fields(*m), r),
{
    broadcast use holds_at_concat;

    w.target(buf, m.target)?;
    w.u32(buf, m.min)?;
    w.u32(buf, m.max)?;
    w.u8(buf, curve_to_u8(m.curve))
}

fn write_macro(w: &mut Writer, buf: &mut [u8], m: &MacroDef) -> (r: Result<(), PatchError>)
    requires
        old(w).wrote(old(buf)@),
        old(w).next_up(macro_fields(m@)),
    ensures
        old(w).step(*final(w), final(buf)@, macro_fields(m@), r),
{
    broadcast use holds_at_concat;

    let ghost n = stored_count(m.mappings@.len());
    let ghost kept = m.mappings@.take(n as int);
    // The count is one byte; mappings beyond it are left out.
    let count: usize = if m.mappings.len() < MAX_COUNT {
        m.mappings.len()
    } else {
        MAX_COUNT
    };
    w.fixed_str(buf, m.name.as_str(), MACRO_NAME_LEN)?;
    w.u8(buf, count as u8)?;
    let ghost began = *w;
    let mut i: usize = 0;
    while i < count
        invariant
            i <= count,
            count == n,
            n <= m.mappings@.len(),
            kept == m.mappings@.take(n as int),
            began.next_up(mappings_fields(kept)),
            w.wrote(buf@),
            w.done@ == began.done@ + mappings_fields(kept.take(i as int)).len(),
            began.alike(*w),
            old(w).alike(began),
            old(w).done@ <= began.done@,
            began.done@ + mappings_fields(kept).len() == old(w).done@ + macro_fields(m@).len(),
        decreases count - i,
    {
        proof {
            mappings_prefix(began.goal@, began.done@, kept, i as int + 1);
            assert(kept.take(i as int + 1).drop_last() =~= kept.take(i as int));
            assert(kept.take(i as int + 1).last() == m.mappings@[i as int]);
            holds_at_concat(
                began.goal@,
                began.done@,
                mappings_fields(kept.take(i as int)),
                mapping_fields(m.mappings@[i as int]),
            );
        }
        write_mapping(w, buf, &m.mappings[i])?;
        i = i + 1;
    }
    assert(kept.take(n as int) =~= kept);
    Ok(())
}

/// Where mappings stand, the first `n` of them stand.
proof fn mappings_prefix(s: Seq<Seq<u8>>, pos: int, ms: Seq<MacroMappingSpec>, n: int)
    requires
        0 <= n <= ms.len(),
        holds_at(s, pos, mappings_fields(ms)),
    ensures
        holds_at(s, pos, mappings_fields(ms.take(n))),
        mappings_fields(ms.take(n)).len() <= mappings_fields(ms).len(),
    decreases ms.len(),
{
    if n == ms.len() {
        assert(ms.take(n) =~= ms);
    } else {
        holds_at_concat(s, pos, mappings_fields(ms.drop_last()), mapping_fields(ms.last()));
        mappings_prefix(s, pos, ms.drop_last(), n);
        assert(ms.drop_last().take(n) =~= ms.take(n));
    }
}

/// Where words stand, the first `n` of them stand.
proof fn words_prefix(s: Seq<Seq<u8>>, pos: int, words: Seq<Bits>, n: int)
    requires
        0 <= n <= words.len(),
        holds_at(s, pos, words_fields(words)),
    ensures
        holds_at(s, pos, words_fields(words.take(n))),
        words_fields(words.take(n)).len() <= words_fields(words).len(),
    decreases words.len(),
{
    if n == words.len() {
        assert(words.take(n) =~= words);
    } else {
        holds_at_concat(s, pos, words_fields(words.drop_last()), seq![le32(words.last())]);
        words_prefix(s, pos, words.drop_last(), n);
        assert(words.drop_last().take(n) =~= words.take(n));
    }
}

/// Where macros stand, the first `n` of them stand.
proof fn macros_prefix(s: Seq<Seq<u8>>, pos: int, ms: Seq<MacroModel>, n: int)
    requires
        0 <= n <= ms.len(),
        holds_at(s, pos, macros_fields(ms)),
    ensures
        holds_at(s, pos, macros_fields(ms.take(n))),
        macros_fields(ms.take(n)).len() <= macros_fields(ms).len(),
    decreases ms.len(),
{
    if n == ms.len() {
        assert(ms.take(n) =~= ms);
    } else {
        holds_at_concat(s, pos, macros_fields(ms.drop_last()), macro_fields(ms.last()));
        macros_prefix(s, pos, ms.drop_last(), n);
        assert(ms.drop_last().take(n) =~= ms.take(n));
    }
}

/// Where nodes stand, the first `n` of them stand.
proof fn nodes_prefix(s: Seq<Seq<u8>>, pos: int, ns: Seq<NodeModel>, n: int)
    requires
        0 <= n <= ns.len(),
        holds_at(s, pos, nodes_fields(ns)),
    ensures
        holds_at(s, pos, nodes_fields(ns.take(n))),
        nodes_fields(ns.take(n)).len() <= nodes_fields(ns).len(),
    decreases ns.len(),
{
    if n == ns.len() {
        assert(ns.take(n) =~= ns);
    } else {
        holds_at_concat(s, pos, nodes_fields(ns.drop_last()), node_fields(ns.last()));
        nodes_prefix(s, pos, ns.drop_last(), n);
        assert(ns.drop_last().take(n) =~= ns.take(n));
    }
}

/// Where edges stand, the first `n` of them stand.
proof fn edges_prefix(s: Seq<Seq<u8>>, pos: int, es: Seq<PatchEdge>, n: int)
    requires
        0 <= n <= es.len(),
        holds_at(s, pos, edges_fields(es)),
    ensures
        holds_at(s, pos, edges_fields(es.take(n))),
        edges_fields(es.take(n)).len() <= edges_fields(es).len(),
    decreases es.len(),
{
    if n == es.len() {
        assert(es.take(n) =~= es);
    } else {
        holds_at_concat(s, pos, edges_fields(es.drop_last()), edge_fields(es.last()));
        edges_prefix(s, pos, es.drop_last(), n);
        assert(es.drop_last().take(n) =~= es.take(n));
    }
}

fn write_words(w: &mut Writer, buf: &mut [u8], words: &[Bits]) -> (r: Result<(), PatchError>)
    requires
        old(w).wrote(old(buf)@),
        old(w).next_up(words_fields(words@)),
    ensures
        old(w).step(*final(w), final(buf)@, words_fields(words@), r),
{
    let ghost began = *w;
    let mut i: usize = 0;
    while i < words.len()
        invariant
            i <= words.len(),
            began.next_up(words_fields(words@)),
            w.wrote(buf@),
            w.done@ == began.done@ + words_fields(words@.take(i as int)).len(),
            began.alike(*w),
            old(w).alike(began),
            began.done@ == old(w).done@,
        decreases words.len() - i,
    {
        proof {
            words_prefix(began.goal@, began.done@, words@, i as int + 1);
            assert(words@.take(i as int + 1).drop_last() =~= words@.take(i as int));
            assert(words@.take(i as int + 1).last() == words@[i as int]);
            holds_at_concat(
                began.goal@,
                began.done@,
                words_fields(words@.take(i as int)),
                seq![le32(words@[i as int])],
            );
        }
        w.u32(buf, words[i])?;
        i = i + 1;
    }
    assert(words@.take(words.len() as int) =~= words@);
    Ok(())
}

fn write_macros(w: &mut Writer, buf: &mut [u8], macros: &[MacroDef; NUM_MACROS]) -> (r: Result<
    (),
    PatchError,
>)
    requires
        old(w).wrote(old(buf)@),
        old(w).next_up(macros_fields(macros_view(macros@))),
    ensures
        old(w).step(*final(w), final(buf)@, macros_fields(macros_view(macros@)), r),
{
    let ghost ms = macros_view(macros@);
    let ghost began = *w;
    let mut i: usize = 0;
    while i < NUM_MACROS
        invariant
            i <= NUM_MACROS,
            ms == macros_view(macros@),
            began.next_up(macros_fields(ms)),
            w.wrote(buf@),
            w.done@ == began.done@ + macros_fields(ms.take(i as int)).len(),
            began.alike(*w),
            old(w).alike(began),
            began.done@ == old(w).done@,
        decreases NUM_MACROS - i,
    {
        proof {
            macros_prefix(began.goal@, began.done@, ms, i as int + 1);
            assert(ms.take(i as int + 1).drop_last() =~= ms.take(i as int));
            assert(ms.take(i as int + 1).last() == macros@[i as int]@);
            holds_at_concat(
                began.goal@,
                began.done@,
                macros_fields(ms.take(i as int)),
                macro_fields(macros@[i as int]@),
            );
        }
        write_macro(w, buf, &macros[i])?;
        i = i + 1;
    }
    assert(ms.take(NUM_MACROS as int) =~= ms);
    Ok(())
}

fn write_node(w: &mut Writer, buf: &mut [u8], n: &PatchNode) -> (r: Result<(), PatchError>)
    requires
        old(w).wrote(old(buf)@),
        old(w).next_up(node_fields(n@)),
        n.params_a@.len() <= MAX_PARAMS,
    ensures
        old(w).step(*final(w), final(buf)@, node_fields(n@), r),
{
    broadcast use holds_at_concat;

    let bypassed: u8 = if n.bypassed {
        1
    } else {
        0
    };
    let count: u8 = n.params_a.len() as u8;
    w.u16(buf, n.effect_uid)?;
    w.u8(buf, bypassed)?;
    w.u8(buf, count)?;
    write_words(w, buf, n.params_a.as_slice())?;
    write_words(w, buf, n.params_b.as_slice())
}

fn write_nodes(w: &mut Writer, buf: &mut [u8], nodes: &Vec<PatchNode>) -> (r: Result<
    (),
    PatchError,
>)
    requires
        old(w).wrote(old(buf)@),
        old(w).next_up(nodes_fields(nodes_view(nodes@))),
        forall|i: int| 0 <= i < nodes@.len() ==> (#[trigger] nodes@[i]).params_a@.len() <= MAX_PARAMS,
    ensures
        old(w).step(*final(w), final(buf)@, nodes_fields(nodes_view(nodes@)), r),
{
    let ghost ns = nodes_view(nodes@);
    let ghost began = *w;
    let mut i: usize = 0;
    while i < nodes.len()
        invariant
            i <= nodes.len(),
            ns == nodes_view(nodes@),
            forall|j: int|
                0 <= j < nodes@.len() ==> (#[trigger] nodes@[j]).params_a@.len() <= MAX_PARAMS,
            began.next_up(nodes_fields(ns)),
            w.wrote(buf@),
            w.done@ == began.done@ + nodes_fields(ns.take(i as int)).len(),
            began.alike(*w),
            old(w).alike(began),
            began.done@ == old(w).done@,
        decreases nodes.len() - i,
    {
        proof {
            nodes_prefix(began.goal@, began.done@, ns, i as int + 1);
            assert(ns.take(i as int + 1).drop_last() =~= ns.take(i as int));
            assert(ns.take(i as int + 1).last() == nodes@[i as int]@);
            holds_at_concat(
                began.goal@,
                began.done@,
                nodes_fields(ns.take(i as int)),
                node_fields(nodes@[i as int]@),
            );
        }
        write_node(w, buf, &nodes[i])?;
        i = i + 1;
    }
    assert(ns.take(nodes.len() as int) =~= ns);
    Ok(())
}

fn write_edge(w: &mut Writer, buf: &mut [u8], e: &PatchEdge) -> (r: Result<(), PatchError>)
    requires
        old(w).wrote(old(buf)@),
        old(w).next_up(edge_fields(*e)),
    ensures
        old(w).step(*final(w), final(buf)@, edge_fields(*e), r),
{
    broadcast use holds_at_concat;

    w.endpoint(buf, e.from)?;
    w.endpoint(buf, e.to)
}

fn write_edges(w: &mut Writer, buf: &mut [u8], edges: &Vec<PatchEdge>, count: usize) -> (r: Result<
    (),
    PatchError,
>)
    requires
        old(w).wrote(old(buf)@),
        count <= edges@.len(),
        old(w).next_up(edges_fields(edges@.take(count as int))),
    ensures
        old(w).step(*final(w), final(buf)@, edges_fields(edges@.take(count as int)), r),
{
    let ghost kept = edges@.take(count as int);
    let ghost began = *w;
    let mut i: usize = 0;
    while i < count
        invariant
            i <= count,
            count <= edges@.len(),
            kept == edges@.take(count as int),
            began.next_up(edges_fields(kept)),
            w.wrote(buf@),
            w.done@ == began.done@ + edges_fields(kept.take(i as int)).len(),
            began.alike(*w),
            old(w).alike(began),
            began.done@ == old(w).done@,
        decreases count - i,
    {
        proof {
            edges_prefix(began.goal@, began.done@, kept, i as int + 1);
            assert(kept.take(i as int + 1).drop_last() =~= kept.take(i as int));
            assert(kept.take(i as int + 1).last() == edges@[i as int]);
            holds_at_concat(
                began.goal@,
                began.done@,
                edges_fields(kept.take(i as int)),
                edge_fields(edges@[i as int]),
            );
        }
        write_edge(w, buf, &edges[i])?;
        i = i + 1;
    }
    assert(kept.take(count as int) =~= kept);
    Ok(())
}

fn write_preamble(w: &mut Writer, buf: &mut [u8], patch: &Patch) -> (r: Result<(), PatchError>)
    requires
        old(w).wrote(old(buf)@),
        old(w).next_up(preamble_fields(patch@)),
    ensures
        old(w).step(*final(w), final(buf)@, preamble_fields(patch@), r),
{
    broadcast use holds_at_concat;

    w.fixed_str(buf, patch.name.as_str(), PATCH_NAME_LEN)?;
    w.u32(buf, patch.globals.input_gain_db)?;
    w.u32(buf, patch.globals.master_volume_db)?;
    w.u32(buf, patch.morph.speed)?;
    w.u8(buf, mode_to_u8(patch.morph.mode))?;
    w.u8(buf, patch.morph.slot_locks)
}

fn write_body(w: &mut Writer, buf: &mut [u8], patch: &Patch) -> (r: Result<(), PatchError>)
    requires
        old(w).wrote(old(buf)@),
        old(w).next_up(body_fields(patch@)),
        patch.nodes@.len() <= MAX_NODES,
        forall|i: int|
            0 <= i < patch.nodes@.len() ==> (#[trigger] patch.nodes@[i]).params_a@.len()
                <= MAX_PARAMS,
    ensures
        old(w).step(*final(w), final(buf)@, body_fields(patch@), r),
{
    broadcast use holds_at_concat;

    write_macros(w, buf, &patch.macros)?;
    w.u8(buf, patch.nodes.len() as u8)?;
    write_nodes(w, buf, &patch.nodes)?;
    let edge_count: usize = if patch.edges.len() < MAX_COUNT {
        patch.edges.len()
    } else {
        MAX_COUNT
    };
    w.u8(buf, edge_count as u8)?;
    write_edges(w, buf, &patch.edges, edge_count)
}

fn write_payload(w: &mut Writer, buf: &mut [u8], patch: &Patch) -> (r: Result<(), PatchError>)
    requires
        old(w).wrote(old(buf)@),
        old(w).next_up(payload_fields(patch@)),
        patch.nodes@.len() <= MAX_NODES,
        forall|i: int|
            0 <= i < patch.nodes@.len() ==> (#[trigger] patch.nodes@[i]).params_a@.len()
                <= MAX_PARAMS,
    ensures
        old(w).step(*final(w), final(buf)@, payload_fields(patch@), r),
{
    proof {
        holds_at_concat(w.goal@, w.done@, preamble_fields(patch@), body_fields(patch@));
    }
    write_preamble(w, buf, patch)?;
    write_body(w, buf, patch)
}

/// A fault among the first `n` nodes is the fault of all of them.
proof fn first_fault_stands(ns: Seq<NodeModel>, n: int)
    requires
        0 <= n <= ns.len(),
        node_fault(ns.take(n)) is Some,
    ensures
        node_fault(ns) == node_fault(ns.take(n)),
    decreases ns.len() - n,
{
    if n == ns.len() {
        assert(ns.take(n) =~= ns);
    } else {
        assert(ns.take(n + 1).drop_last() =~= ns.take(n));
        first_fault_stands(ns, n + 1);
    }
}

/// Check what a sector can hold: the number of nodes, then node by node the
/// snapshot lengths.
fn check_nodes(nodes: &Vec<PatchNode>) -> (r: Result<(), PatchError>)
    requires
        nodes@.len() <= MAX_NODES,
    ensures
        match r {
            Ok(()) => node_fault(nodes_view(nodes@)) is None,
            Err(e) => node_fault(nodes_view(nodes@)) == Some(e),
        },
        r is Ok ==> forall|i: int|
            0 <= i < nodes@.len() ==> (#[trigger] nodes@[i]).params_a@.len() <= MAX_PARAMS,
{
    let ghost ns = nodes_view(nodes@);
    let mut i: usize = 0;
    while i < nodes.len()
        invariant
            i <= nodes@.len(),
            ns == nodes_view(nodes@),
            node_fault(ns.take(i as int)) is None,
            forall|j: int|
                0 <= j < i ==> (#[trigger] nodes@[j]).params_a@.len() <= MAX_PARAMS,
        decreases nodes@.len() - i,
    {
        let n = &nodes[i];
        assert(ns.take(i as int + 1).drop_last() =~= ns.take(i as int));
        assert(ns.take(i as int + 1).last() == n@);
        if n.params_a.len() != n.params_b.len() {
            proof {
                first_fault_stands(ns, i as int + 1);
            }
            return Err(PatchError::SnapshotLenMismatch);
        }
        if n.params_a.len() > MAX_PARAMS {
            proof {
                first_fault_stands(ns, i as int + 1);
            }
            return Err(PatchError::TooManyParams(n.params_a.len()));
        }
        i = i + 1;
    }
    assert(ns.take(nodes@.len() as int) =~= ns);
    Ok(())
}

fn write_header_fields(w: &mut Writer, buf: &mut [u8], crc: u32, payload_len: u16) -> (r: Result<
    (),
    PatchError,
>)
    requires
        old(w).wrote(old(buf)@),
        old(w).next_up(header_fields(crc, payload_len)),
    ensures
        old(w).step(*final(w), final(buf)@, header_fields(crc, payload_len), r),
{
    broadcast use holds_at_concat;

    w.u32(buf, PATCH_MAGIC)?;
    w.u16(buf, PATCH_FORMAT_VERSION)?;
    w.u16(buf, 0)?;
    w.u32(buf, crc)?;
    w.u16(buf, payload_len)?;
    w.u16(buf, 0)
}

fn write_header(buf: &mut [u8], crc: u32, payload_len: u16)
    requires
        old(buf)@.len() >= HEADER_LEN,
    ensures
        final(buf)@ == header_bytes(crc, payload_len) + old(buf)@.skip(HEADER_LEN as int),
{
    let ghost before = buf@;
    let ghost header = header_bytes(crc, payload_len);
    let ghost fields = header_fields(crc, payload_len);
    let mut w = Writer::new(0, Ghost(before), Ghost(fields));
    assert(fields.subrange(0, fields.len() as int) =~= fields);
    let r = write_header_fields(&mut w, buf, crc, payload_len);
    proof {
        header_strung(crc, payload_len);
        if r is Err {
            longest_run(fields, w.done@, before.len() as int);
        }
        assert(fields.take(fields.len() as int) =~= fields);
    }
    assert(buf@ =~= header + before.skip(HEADER_LEN as int));
}

/// Write the payload behind where the header goes. Gives where it ends.
fn put_payload(patch: &Patch, out: &mut [u8]) -> (r: Result<usize, PatchError>)
    requires
        old(out)@.len() >= HEADER_LEN,
        patch.nodes@.len() <= MAX_NODES,
        forall|i: int|
            0 <= i < patch.nodes@.len() ==> (#[trigger] patch.nodes@[i]).params_a@.len()
                <= MAX_PARAMS,
    ensures
        final(out)@.len() == old(out)@.len(),
        match r {
            Ok(end) => {
                &&& end == HEADER_LEN + payload_of(patch@).len()
                &&& end <= old(out)@.len()
                &&& final(out)@ == overwritten(
                    old(out)@,
                    HEADER_LEN as int,
                    payload_of(patch@),
                )
            },
            Err(e) => {
                &&& HEADER_LEN + payload_of(patch@).len() > old(out)@.len()
                &&& e == PatchError::BufferTooSmall
                &&& final(out)@ == filled_up(
                    old(out)@,
                    HEADER_LEN as int,
                    payload_fields(patch@),
                )
            },
        },
{
    let ghost before = out@;
    let ghost fields = payload_fields(patch@);
    let mut w = Writer::new(HEADER_LEN, Ghost(before), Ghost(fields));
    assert(fields.subrange(0, fields.len() as int) =~= fields);
    let written = write_payload(&mut w, out, patch);
    proof {
        payload_strung(patch@);
        assert(fields.take(fields.len() as int) =~= fields);
    }
    match written {
        Ok(_) => Ok(w.pos),
        Err(e) => {
            proof {
                longest_run(fields, w.done@, before.len() - HEADER_LEN);
            }
            Err(e)
        },
    }
}

/// Write the header of the payload that ends at `end`.
fn seal(out: &mut [u8], end: usize)
    requires
        HEADER_LEN <= end <= old(out)@.len(),
        end <= SECTOR_SIZE,
    ensures
        final(out)@ == header_of(old(out)@.subrange(HEADER_LEN as int, end as int)) + old(
            out,
        )@.skip(HEADER_LEN as int),
{
    let crc: u32 = crc32(slice_subrange(out, HEADER_LEN, end));
    write_header(out, crc, (end - HEADER_LEN) as u16);
}

/// A payload behind the header stands there whole, and what is behind it stays.
proof fn payload_stands(before: Seq<u8>, payload: Seq<u8>)
    requires
        HEADER_LEN + payload.len() <= before.len(),
    ensures
        ({
            let after = overwritten(before, HEADER_LEN as int, payload);
            let end = HEADER_LEN + payload.len();
            &&& after.len() == before.len()
            &&& after.subrange(HEADER_LEN as int, end) == payload
            &&& after.skip(HEADER_LEN as int) == payload + before.skip(end)
        }),
{
    let after = overwritten(before, HEADER_LEN as int, payload);
    let end = HEADER_LEN + payload.len();
    assert(after.subrange(HEADER_LEN as int, end) =~= payload);
    assert(after.skip(HEADER_LEN as int) =~= payload + before.skip(end));
}

/// A header in front of a payload makes the sector, with what stood behind it.
proof fn sealed_is_sector(before: Seq<u8>, p: PatchModel)
    ensures
        ({
            let rest = before.skip(HEADER_LEN + payload_of(p).len());
            header_of(payload_of(p)) + (payload_of(p) + rest) == sector_of(p) + rest
        }),
{
    let rest = before.skip(HEADER_LEN + payload_of(p).len());
    assert(header_of(payload_of(p)) + (payload_of(p) + rest) =~= sector_of(p) + rest);
}

/// Encode `patch` into `out` and return the total byte length written (header
/// and payload). `out` is typically a sector buffer of [`SECTOR_SIZE`] bytes.
///
/// The caps are enforced here: `TooManyNodes`, `TooManyParams`,
/// `SnapshotLenMismatch`, `BufferTooSmall` and `TooLarge` (more than one
/// sector). The header is written last, so a failed encode leaves the header
/// that was there.
pub fn encode(patch: &Patch, out: &mut [u8]) -> (r: Result<usize, PatchError>)
    ensures
        final(out)@.len() == old(out)@.len(),
        encode_outcome(patch@, old(out)@, final(out)@, r),
{
    if patch.nodes.len() > MAX_NODES {
        return Err(PatchError::TooManyNodes(patch.nodes.len()));
    }
    check_nodes(&patch.nodes)?;
    if out.len() < HEADER_LEN {
        return Err(PatchError::BufferTooSmall);
    }
    let ghost before = out@;
    let ghost payload = payload_of(patch@);
    let total: usize = put_payload(patch, out)?;
    if total > SECTOR_SIZE {
        return Err(PatchError::TooLarge(total - HEADER_LEN));
    }
    proof {
        payload_stands(before, payload);
        sealed_is_sector(before, patch@);
    }
    seal(out, total);
    Ok(total)
}

/// A cursor over bytes to be read.
struct Reader<'a> {
    buf: &'a [u8],
    pos: usize,
}

impl<'a> Reader<'a> {
    spec fn wf(self) -> bool {
        self.pos <= self.buf@.len()
    }

    /// The cursor moves on over the same bytes.
    spec fn moved(self, after: Reader<'a>) -> bool {
        after.wf() && after.buf == self.buf
    }

    /// What a read of a plain value returned is what the bytes say.
    spec fn read<T>(
        self,
        after: Reader<'a>,
        said: Result<(T, int), PatchError>,
        r: Result<T, PatchError>,
    ) -> bool {
        &&& self.moved(after)
        &&& said == match r {
            Ok(v) => Ok((v, after.pos as int)),
            Err(e) => Err(e),
        }
    }

    fn new(buf: &'a [u8]) -> (r: Self)
        ensures
            r.wf(),
            r.buf == buf,
            r.pos == 0,
    {
        Reader { buf, pos: 0 }
    }

    /// The next `n` bytes. Where there are not as many, the cursor stays.
    fn take(&mut self, n: usize) -> (r: Result<&'a [u8], PatchError>)
        requires
            old(self).wf(),
        ensures
            final(self).wf(),
            final(self).buf == old(self).buf,
            match r {
                Ok(s) => {
                    &&& old(self).pos + n <= old(self).buf@.len()
                    &&& s@ == old(self).buf@.subrange(old(self).pos as int, old(self).pos + n)
                    &&& final(self).pos == old(self).pos + n
                },
                Err(e) => {
                    &&& old(self).pos + n > old(self).buf@.len()
                    &&& e == PatchError::Truncated
                    &&& final(self).pos == old(self).pos
                },
            },
    {
        if n > self.buf.len() - self.pos {
            return Err(PatchError::Truncated);
        }
        let s = slice_subrange(self.buf, self.pos, self.pos + n);
        self.pos = self.pos + n;
        Ok(s)
    }

    fn u8(&mut self) -> (r: Result<u8, PatchError>)
        requires
            old(self).wf(),
        ensures
            old(self).read(*final(self), get_u8(old(self).buf@, old(self).pos as int), r),
            r is Err ==> final(self).pos == old(self).pos,
    {
        if self.buf.len() - self.pos < 1 {
            return Err(PatchError::Truncated);
        }
        let v: u8 = self.buf[self.pos];
        self.pos = self.pos + 1;
        Ok(v)
    }

    fn u16(&mut self) -> (r: Result<u16, PatchError>)
        requires
            old(self).wf(),
        ensures
            old(self).read(*final(self), get_u16(old(self).buf@, old(self).pos as int), r),
            r is Err ==> final(self).pos == old(self).pos,
    {
        let b = self.take(2)?;
        Ok(b[0] as u16 + 0x100 * b[1] as u16)
    }

    fn u32(&mut self) -> (r: Result<u32, PatchError>)
        requires
            old(self).wf(),
        ensures
            old(self).read(*final(self), get_u32(old(self).buf@, old(self).pos as int), r),
            r is Err ==> final(self).pos == old(self).pos,
    {
        let b = self.take(4)?;
        Ok(
            b[0] as u32 + 0x100 * b[1] as u32 + 0x1_0000 * b[2] as u32 + 0x100_0000 * b[3] as u32,
        )
    }

    /// Read a NUL-padded text field of `len` bytes.
    fn fixed_str(&mut self, len: usize) -> (r: Result<String, PatchError>)
        requires
            old(self).wf(),
        ensures
            old(self).moved(*final(self)),
            get_field(old(self).buf@, old(self).pos as int, len as nat) == match r {
                Ok(text) => Ok::<_, PatchError>((text@, final(self).pos as int)),
                Err(e) => Err(e),
            },
            r is Err ==> final(self).pos == old(self).pos,
    {
        let raw = self.take(len)?;
        let mut end: usize = 0;
        assert(raw@.skip(0) =~= raw@);
        assert(raw@.take(0) + before_nul(raw@) =~= before_nul(raw@));
        while end < len && raw[end] != 0
            invariant
                end <= len,
                len == raw@.len(),
                before_nul(raw@) == raw@.take(end as int) + before_nul(raw@.skip(end as int)),
            decreases len - end,
        {
            proof {
                let rest = raw@.skip(end as int);
                assert(rest.drop_first() =~= raw@.skip(end as int + 1));
                assert(raw@.take(end as int + 1) =~= raw@.take(end as int) + seq![rest[0]]);
                assert(raw@.take(end as int) + (seq![rest[0]] + before_nul(rest.drop_first()))
                    =~= raw@.take(end as int + 1) + before_nul(rest.drop_first()));
            }
            end = end + 1;
        }
        assert(before_nul(raw@.skip(end as int)) =~= Seq::<u8>::empty());
        assert(before_nul(raw@) =~= raw@.take(end as int));
        Ok(from_utf8_lossy(slice_subrange(raw, 0, end)))
    }

    fn target(&mut self) -> (r: Result<MacroTarget, PatchError>)
        requires
            old(self).wf(),
        ensures
            old(self).read(*final(self), get_target(old(self).buf@, old(self).pos as int), r),
    {
        let tag: u8 = self.u8()?;
        let a: u8 = self.u8()?;
        let b: u8 = self.u8()?;
        match tag {
            0 => Ok(MacroTarget::Slot { slot: a, param: b }),
            1 => {
                let g = global_from_u8(a)?;
                Ok(MacroTarget::Global(g))
            },
            _ => Err(PatchError::BadTag { what: "macro-target", tag }),
        }
    }

    fn endpoint(&mut self) -> (r: Result<PatchEndpoint, PatchError>)
        requires
            old(self).wf(),
        ensures
            old(self).read(*final(self), get_endpoint(old(self).buf@, old(self).pos as int), r),
    {
        let tag: u8 = self.u8()?;
        let idx: u8 = self.u8()?;
        match tag {
            0 => Ok(PatchEndpoint::Input),
            1 => Ok(PatchEndpoint::Output),
            2 => Ok(PatchEndpoint::Node(idx)),
            3 => Ok(PatchEndpoint::Split(idx)),
            4 => Ok(PatchEndpoint::Merge(idx)),
            _ => Err(PatchError::BadTag { what: "endpoint", tag }),
        }
    }
}

fn curve_from_u8(b: u8) -> (r: Result<MorphCurve, PatchError>)
    ensures
        r == get_curve(b),
{
    match b {
        0 => Ok(MorphCurve::Linear),
        1 => Ok(MorphCurve::Logarithmic),
        2 => Ok(MorphCurve::Snap),
        _ => Err(PatchError::BadTag { what: "curve", tag: b }),
    }
}

fn mode_from_u8(b: u8) -> (r: Result<MorphMode, PatchError>)
    ensures
        r == get_mode(b),
{
    match b {
        0 => Ok(MorphMode::Ramp),
        1 => Ok(MorphMode::Momentary),
        2 => Ok(MorphMode::Latch),
        _ => Err(PatchError::BadTag { what: "morph-mode", tag: b }),
    }
}

fn global_from_u8(b: u8) -> (r: Result<GlobalParam, PatchError>)
    ensures
        r == get_global(b),
{
    match b {
        0 => Ok(GlobalParam::InputGain),
        1 => Ok(GlobalParam::MasterVolume),
        2 => Ok(GlobalParam::MorphPosition),
        3 => Ok(GlobalParam::MorphSpeed),
        _ => Err(PatchError::BadTag { what: "global-param", tag: b }),
    }
}

fn read_mapping(rd: &mut Reader) -> (r: Result<MacroMappingSpec, PatchError>)
    requires
        old(rd).wf(),
    ensures
        old(rd).read(*final(rd), get_mapping(old(rd).buf@, old(rd).pos as int), r),
{
    let target = rd.target()?;
    let min: u32 = rd.u32()?;
    let max: u32 = rd.u32()?;
    let b: u8 = rd.u8()?;
    let curve = curve_from_u8(b)?;
    Ok(MacroMappingSpec { target, min, max, curve })
}

/// Once reading has failed, it has failed for any larger count.
proof fn words_fault_stands(s: Seq<u8>, pos: int, m: nat, n: nat)
    requires
        m <= n,
        get_words(s, pos, m) is Err,
    ensures
        get_words(s, pos, n) == get_words(s, pos, m),
    decreases n,
{
    if m < n {
        words_fault_stands(s, pos, m, (n - 1) as nat);
    }
}

/// Once reading has failed, it has failed for any larger count.
proof fn mappings_fault_stands(s: Seq<u8>, pos: int, m: nat, n: nat)
    requires
        m <= n,
        get_mappings(s, pos, m) is Err,
    ensures
        get_mappings(s, pos, n) == get_mappings(s, pos, m),
    decreases n,
{
    if m < n {
        mappings_fault_stands(s, pos, m, (n - 1) as nat);
    }
}

/// Once reading has failed, it has failed for any larger count.
proof fn macros_fault_stands(s: Seq<u8>, pos: int, m: nat, n: nat)
    requires
        m <= n,
        get_macros(s, pos, m) is Err,
    ensures
        get_macros(s, pos, n) == get_macros(s, pos, m),
    decreases n,
{
    if m < n {
        macros_fault_stands(s, pos, m, (n - 1) as nat);
    }
}

/// Once reading has failed, it has failed for any larger count.
proof fn nodes_fault_stands(s: Seq<u8>, pos: int, m: nat, n: nat)
    requires
        m <= n,
        get_nodes(s, pos, m) is Err,
    ensures
        get_nodes(s, pos, n) == get_nodes(s, pos, m),
    decreases n,
{
    if m < n {
        nodes_fault_stands(s, pos, m, (n - 1) as nat);
    }
}

/// Once reading has failed, it has failed for any larger count.
proof fn edges_fault_stands(s: Seq<u8>, pos: int, m: nat, n: nat)
    requires
        m <= n,
        get_edges(s, pos, m) is Err,
    ensures
        get_edges(s, pos, n) == get_edges(s, pos, m),
    decreases n,
{
    if m < n {
        edges_fault_stands(s, pos, m, (n - 1) as nat);
    }
}

fn read_words(rd: &mut Reader, n: usize) -> (r: Result<Vec<Bits>, PatchError>)
    requires
        old(rd).wf(),
    ensures
        old(rd).moved(*final(rd)),
        get_words(old(rd).buf@, old(rd).pos as int, n as nat) == match r {
            Ok(v) => Ok::<_, PatchError>((v@, final(rd).pos as int)),
            Err(e) => Err(e),
        },
{
    let ghost s = rd.buf@;
    let ghost pos = rd.pos as int;
    let mut v: Vec<Bits> = Vec::new();
    let mut i: usize = 0;
    assert(v@ =~= Seq::empty());
    while i < n
        invariant
            i <= n,
            s == old(rd).buf@,
            pos == old(rd).pos,
            old(rd).moved(*rd),
            get_words(s, pos, i as nat) == Ok::<_, PatchError>((v@, rd.pos as int)),
        decreases n - i,
    {
        let ghost before = v@;
        match rd.u32() {
            Ok(x) => {
                v.push(x);
                assert(v@ =~= before.push(x));
            },
            Err(e) => {
                proof {
                    words_fault_stands(s, pos, i as nat + 1, n as nat);
                }
                return Err(e);
            },
        }
        i = i + 1;
    }
    Ok(v)
}

fn read_mappings(rd: &mut Reader, n: usize) -> (r: Result<Vec<MacroMappingSpec>, PatchError>)
    requires
        old(rd).wf(),
    ensures
        old(rd).moved(*final(rd)),
        get_mappings(old(rd).buf@, old(rd).pos as int, n as nat) == match r {
            Ok(v) => Ok::<_, PatchError>((v@, final(rd).pos as int)),
            Err(e) => Err(e),
        },
{
    let ghost s = rd.buf@;
    let ghost pos = rd.pos as int;
    let mut v: Vec<MacroMappingSpec> = Vec::new();
    let mut i: usize = 0;
    assert(v@ =~= Seq::empty());
    while i < n
        invariant
            i <= n,
            s == old(rd).buf@,
            pos == old(rd).pos,
            old(rd).moved(*rd),
            get_mappings(s, pos, i as nat) == Ok::<_, PatchError>((v@, rd.pos as int)),
        decreases n - i,
    {
        let ghost before = v@;
        match read_mapping(rd) {
            Ok(x) => {
                v.push(x);
                assert(v@ =~= before.push(x));
            },
            Err(e) => {
                proof {
                    mappings_fault_stands(s, pos, i as nat + 1, n as nat);
                }
                return Err(e);
            },
        }
        i = i + 1;
    }
    Ok(v)
}

fn read_macro(rd: &mut Reader) -> (r: Result<MacroDef, PatchError>)
    requires
        old(rd).wf(),
    ensures
        old(rd).moved(*final(rd)),
        get_macro(old(rd).buf@, old(rd).pos as int) == match r {
            Ok(m) => Ok::<_, PatchError>((m@, final(rd).pos as int)),
            Err(e) => Err(e),
        },
{
    let name = rd.fixed_str(MACRO_NAME_LEN)?;
    let count: u8 = rd.u8()?;
    let mappings = read_mappings(rd, count as usize)?;
    Ok(MacroDef { name, mappings })
}

fn read_macros(rd: &mut Reader) -> (r: Result<[MacroDef; NUM_MACROS], PatchError>)
    requires
        old(rd).wf(),
    ensures
        old(rd).moved(*final(rd)),
        get_macros(old(rd).buf@, old(rd).pos as int, NUM_MACROS as nat) == match r {
            Ok(macros) => Ok::<_, PatchError>((macros_view(macros@), final(rd).pos as int)),
            Err(e) => Err(e),
        },
{
    let ghost s = rd.buf@;
    let ghost pos = rd.pos as int;
    let mut macros: [MacroDef; NUM_MACROS] = [
        MacroDef::default(),
        MacroDef::default(),
        MacroDef::default(),
        MacroDef::default(),
        MacroDef::default(),
        MacroDef::default(),
    ];
    let mut i: usize = 0;
    assert(macros_view(macros@).take(0) =~= Seq::empty());
    while i < NUM_MACROS
        invariant
            i <= NUM_MACROS,
            s == old(rd).buf@,
            pos == old(rd).pos,
            old(rd).moved(*rd),
            get_macros(s, pos, i as nat) == Ok::<_, PatchError>(
                (macros_view(macros@).take(i as int), rd.pos as int),
            ),
        decreases NUM_MACROS - i,
    {
        let ghost before = macros_view(macros@).take(i as int);
        match read_macro(rd) {
            Ok(m) => {
                let ghost model = m@;
                macros[i] = m;
                assert(macros_view(macros@).take(i as int + 1) =~= before.push(model));
            },
            Err(e) => {
                proof {
                    macros_fault_stands(s, pos, i as nat + 1, NUM_MACROS as nat);
                }
                return Err(e);
            },
        }
        i = i + 1;
    }
    assert(macros_view(macros@).take(NUM_MACROS as int) =~= macros_view(macros@));
    Ok(macros)
}

fn read_node(rd: &mut Reader) -> (r: Result<PatchNode, PatchError>)
    requires
        old(rd).wf(),
    ensures
        old(rd).moved(*final(rd)),
        get_node(old(rd).buf@, old(rd).pos as int) == match r {
            Ok(n) => Ok::<_, PatchError>((n@, final(rd).pos as int)),
            Err(e) => Err(e),
        },
{
    let effect_uid: u16 = rd.u16()?;
    let bypass: u8 = rd.u8()?;
    let count: u8 = rd.u8()?;
    if count as usize > MAX_PARAMS {
        return Err(PatchError::TooManyParams(count as usize));
    }
    let params_a = read_words(rd, count as usize)?;
    let params_b = read_words(rd, count as usize)?;
    Ok(PatchNode { effect_uid, bypassed: bypass != 0, params_a, params_b })
}

fn read_nodes(rd: &mut Reader, n: usize) -> (r: Result<Vec<PatchNode>, PatchError>)
    requires
        old(rd).wf(),
    ensures
        old(rd).moved(*final(rd)),
        get_nodes(old(rd).buf@, old(rd).pos as int, n as nat) == match r {
            Ok(v) => Ok::<_, PatchError>((nodes_view(v@), final(rd).pos as int)),
            Err(e) => Err(e),
        },
{
    let ghost s = rd.buf@;
    let ghost pos = rd.pos as int;
    let mut v: Vec<PatchNode> = Vec::new();
    let mut i: usize = 0;
    assert(nodes_view(v@) =~= Seq::empty());
    while i < n
        invariant
            i <= n,
            s == old(rd).buf@,
            pos == old(rd).pos,
            old(rd).moved(*rd),
            get_nodes(s, pos, i as nat) == Ok::<_, PatchError>((nodes_view(v@), rd.pos as int)),
        decreases n - i,
    {
        let ghost before = nodes_view(v@);
        match read_node(rd) {
            Ok(x) => {
                v.push(x);
                assert(nodes_view(v@) =~= before.push(x@));
            },
            Err(e) => {
                proof {
                    nodes_fault_stands(s, pos, i as nat + 1, n as nat);
                }
                return Err(e);
            },
        }
        i = i + 1;
    }
    Ok(v)
}

fn read_edge(rd: &mut Reader) -> (r: Result<PatchEdge, PatchError>)
    requires
        old(rd).wf(),
    ensures
        old(rd).read(*final(rd), get_edge(old(rd).buf@, old(rd).pos as int), r),
{
    let from = rd.endpoint()?;
    let to = rd.endpoint()?;
    Ok(PatchEdge { from, to })
}

fn read_edges(rd: &mut Reader, n: usize) -> (r: Result<Vec<PatchEdge>, PatchError>)
    requires
        old(rd).wf(),
    ensures
        old(rd).moved(*final(rd)),
        get_edges(old(rd).buf@, old(rd).pos as int, n as nat) == match r {
            Ok(v) => Ok::<_, PatchError>((v@, final(rd).pos as int)),
            Err(e) => Err(e),
        },
{
    let ghost s = rd.buf@;
    let ghost pos = rd.pos as int;
    let mut v: Vec<PatchEdge> = Vec::new();
    let mut i: usize = 0;
    assert(v@ =~= Seq::empty());
    while i < n
        invariant
            i <= n,
            s == old(rd).buf@,
            pos == old(rd).pos,
            old(rd).moved(*rd),
            get_edges(s, pos, i as nat) == Ok::<_, PatchError>((v@, rd.pos as int)),
        decreases n - i,
    {
        let ghost before = v@;
        match read_edge(rd) {
            Ok(x) => {
                v.push(x);
                assert(v@ =~= before.push(x));
            },
            Err(e) => {
                proof {
                    edges_fault_stands(s, pos, i as nat + 1, n as nat);
                }
                return Err(e);
            },
        }
        i = i + 1;
    }
    Ok(v)
}

/// Read everything that follows the header.
fn read_payload(payload: &[u8], version: u16) -> (r: Result<Patch, PatchError>)
    ensures
        get_payload(payload@, version) == match r {
            Ok(patch) => Ok::<_, PatchError>(patch@),
            Err(e) => Err(e),
        },
{
    let mut rd = Reader::new(payload);
    let name = rd.fixed_str(PATCH_NAME_LEN)?;
    let input_gain_db: u32 = rd.u32()?;
    let master_volume_db: u32 = rd.u32()?;
    let speed: u32 = rd.u32()?;
    let mode_tag: u8 = rd.u8()?;
    let mode = mode_from_u8(mode_tag)?;
    let slot_locks: u8 = rd.u8()?;
    let macros = read_macros(&mut rd)?;
    let node_count: u8 = rd.u8()?;
    if node_count as usize > MAX_NODES {
        return Err(PatchError::TooManyNodes(node_count as usize));
    }
    let nodes = read_nodes(&mut rd, node_count as usize)?;
    let edge_count: u8 = rd.u8()?;
    let edges = read_edges(&mut rd, edge_count as usize)?;
    Ok(
        Patch {
            name,
            format_version: version,
            nodes,
            edges,
            macros,
            morph: MorphConfig { speed, mode, slot_locks },
            globals: GlobalControls { input_gain_db, master_volume_db },
        },
    )
}

/// Decode a patch from `data` (header and payload).
///
/// Fails with `BadMagic`, `UnsupportedVersion`, `Truncated`, `BadCrc`, or the
/// first complaint about the payload: a tag out of range (`BadTag`) or a count
/// over its cap (`TooManyNodes`, `TooManyParams`).
pub fn decode(data: &[u8]) -> (r: Result<Patch, PatchError>)
    ensures
        decoded(data@) == match r {
            Ok(patch) => Ok::<_, PatchError>(patch@),
            Err(e) => Err(e),
        },
{
    if data.len() < HEADER_LEN {
        return Err(PatchError::Truncated);
    }
    let mut h = Reader::new(data);
    let magic: u32 = h.u32()?;
    if magic != PATCH_MAGIC {
        return Err(PatchError::BadMagic(magic));
    }
    let version: u16 = h.u16()?;
    if version > PATCH_FORMAT_VERSION {
        return Err(PatchError::UnsupportedVersion(version));
    }
    let _flags: u16 = h.u16()?;
    let expected: u32 = h.u32()?;
    let payload_len: usize = h.u16()? as usize;
    if data.len() - HEADER_LEN < payload_len {
        return Err(PatchError::Truncated);
    }
    let payload = slice_subrange(data, HEADER_LEN, HEADER_LEN + payload_len);
    let actual: u32 = crc32(payload);
    if actual != expected {
        return Err(PatchError::BadCrc { expected, actual });
    }
    read_payload(payload, version)
}

/// A message names what it is about.
pub proof fn messages_name_the_trouble(n: usize, word: u32, other: u32, version: u16, tag: u8)
    ensures
        patch_message(PatchError::BadMagic(word)) == "bad magic 0x"@ + hex(word as nat, 8, true)
            + " (expected SNDP)"@,
        patch_message(PatchError::UnsupportedVersion(version))
            == "unsupported patch format version "@ + decimal(version as nat),
        patch_message(PatchError::BadCrc { expected: word, actual: other })
            == "crc mismatch: header 0x"@ + hex(word as nat, 8, false) + " \u{2260} computed 0x"@
            + hex(other as nat, 8, false),
        patch_message(PatchError::BadTag { what: "curve", tag }) == "invalid "@ + "curve"@ + " tag "@
            + decimal(tag as nat),
        patch_message(PatchError::TooManyNodes(n)) == decimal(n as nat) + " nodes exceeds max 8"@,
        patch_message(PatchError::TooManyParams(n)) == decimal(n as nat)
            + " params exceeds max 16"@,
        patch_message(PatchError::TooLarge(n)) == "payload "@ + decimal(n as nat)
            + " bytes exceeds 4 KB sector"@,
{
}

} // verus!
