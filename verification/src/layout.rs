//! What the bytes of a patch sector are.
//!
//! The byte layout as functions on sequences: each `*_bytes` function gives the
//! bytes of a value, each `get_*` function reads a value at a position and
//! gives it back with the position behind it. [`crate::binary`] computes both.
use crate::binary::PatchError;
use crate::fields::{fitting, payload_fields, strung};
use crate::patch::{
    Bits, GlobalControls, GlobalParam, MACRO_NAME_LEN, MAX_NODES, MAX_PARAMS, MacroMappingSpec,
    MacroModel, MacroTarget, MorphConfig, MorphCurve, MorphMode, NUM_MACROS, NodeModel,
    PATCH_FORMAT_VERSION, PATCH_MAGIC, PATCH_NAME_LEN, PatchEdge, PatchEndpoint, PatchModel,
    SECTOR_SIZE,
};
use vstd::prelude::*;
use vstd::utf8::{decode_utf8, encode_utf8, is_char_boundary, valid_utf8};

verus! {

/// `s` holds `run` at position `pos`.
pub open spec fn holds_at<T>(s: Seq<T>, pos: int, run: Seq<T>) -> bool {
    &&& 0 <= pos
    &&& pos + run.len() <= s.len()
    &&& s.subrange(pos, pos + run.len()) == run
}

/// Two runs stand one behind the other exactly if their concatenation stands
/// there.
pub broadcast proof fn holds_at_concat<T>(s: Seq<T>, pos: int, a: Seq<T>, b: Seq<T>)
    ensures
        #[trigger] holds_at(s, pos, a + b) <==> holds_at(s, pos, a) && holds_at(
            s,
            pos + a.len(),
            b,
        ),
{
    if holds_at(s, pos, a + b) {
        assert(s.subrange(pos, pos + a.len()) =~= (a + b).take(a.len() as int));
        assert((a + b).take(a.len() as int) =~= a);
        assert(s.subrange(pos + a.len(), pos + a.len() + b.len()) =~= (a + b).skip(a.len() as int));
        assert((a + b).skip(a.len() as int) =~= b);
    }
    if holds_at(s, pos, a) && holds_at(s, pos + a.len(), b) {
        assert(s.subrange(pos, pos + (a + b).len()) =~= s.subrange(pos, pos + a.len())
            + s.subrange(pos + a.len(), pos + a.len() + b.len()));
    }
}

/// Length of the sector header.
pub const HEADER_LEN: usize = 16;

/// Most items that a one-byte count can announce.
pub const MAX_COUNT: usize = 255;

// CRC-32 (IEEE 802.3, reflected).

/// The register after one bit has been shifted out.
pub open spec fn crc_bit(c: u32) -> u32 {
    if c & 1 == 1 {
        (c >> 1) ^ 0xEDB8_8320
    } else {
        c >> 1
    }
}

/// The register after `n` bits have been shifted out.
pub open spec fn crc_bits(c: u32, n: nat) -> u32
    decreases n,
{
    if n == 0 {
        c
    } else {
        crc_bit(crc_bits(c, (n - 1) as nat))
    }
}

/// The register after the given bytes have been fed in.
pub open spec fn crc_register(bytes: Seq<u8>) -> u32
    decreases bytes.len(),
{
    if bytes.len() == 0 {
        0xFFFF_FFFF
    } else {
        crc_bits(crc_register(bytes.drop_last()) ^ (bytes.last() as u32), 8)
    }
}

/// The checksum of the given bytes.
pub open spec fn crc32_of(bytes: Seq<u8>) -> u32 {
    !crc_register(bytes)
}

// Integers.

/// The two bytes of `v`, least significant first.
pub open spec fn le16(v: u16) -> Seq<u8> {
    seq![(v % 0x100) as u8, (v / 0x100) as u8]
}

/// The four bytes of `v`, least significant first.
pub open spec fn le32(v: u32) -> Seq<u8> {
    seq![
        (v % 0x100) as u8,
        (v / 0x100 % 0x100) as u8,
        (v / 0x1_0000 % 0x100) as u8,
        (v / 0x100_0000) as u8,
    ]
}

/// The little-endian 16-bit word that starts at `pos`.
pub open spec fn word16(s: Seq<u8>, pos: int) -> u16 {
    (s[pos] + 0x100 * s[pos + 1]) as u16
}

/// The little-endian 32-bit word that starts at `pos`.
pub open spec fn word32(s: Seq<u8>, pos: int) -> u32 {
    (s[pos] + 0x100 * s[pos + 1] + 0x1_0000 * s[pos + 2] + 0x100_0000 * s[pos + 3]) as u32
}

/// The byte at `pos`.
pub open spec fn get_u8(s: Seq<u8>, pos: int) -> Result<(u8, int), PatchError> {
    if pos + 1 <= s.len() {
        Ok((s[pos], pos + 1))
    } else {
        Err(PatchError::Truncated)
    }
}

/// The little-endian 16-bit word at `pos`.
pub open spec fn get_u16(s: Seq<u8>, pos: int) -> Result<(u16, int), PatchError> {
    if pos + 2 <= s.len() {
        Ok((word16(s, pos), pos + 2))
    } else {
        Err(PatchError::Truncated)
    }
}

/// The little-endian 32-bit word at `pos`.
pub open spec fn get_u32(s: Seq<u8>, pos: int) -> Result<(u32, int), PatchError> {
    if pos + 4 <= s.len() {
        Ok((word32(s, pos), pos + 4))
    } else {
        Err(PatchError::Truncated)
    }
}

/// The words of a parameter snapshot, one behind the other.
pub open spec fn words_bytes(words: Seq<Bits>) -> Seq<u8>
    decreases words.len(),
{
    if words.len() == 0 {
        Seq::empty()
    } else {
        words_bytes(words.drop_last()) + le32(words.last())
    }
}

/// `n` words, one behind the other.
pub open spec fn get_words(s: Seq<u8>, pos: int, n: nat) -> Result<(Seq<Bits>, int), PatchError>
    decreases n,
{
    if n == 0 {
        Ok((Seq::empty(), pos))
    } else {
        match get_words(s, pos, (n - 1) as nat) {
            Err(e) => Err(e),
            Ok((before, p)) => match get_u32(s, p) {
                Err(e) => Err(e),
                Ok((w, q)) => Ok((before.push(w), q)),
            },
        }
    }
}

// Text fields.

/// The last character boundary at or before byte `n`.
pub open spec fn boundary_at_or_before(bytes: Seq<u8>, n: nat) -> nat
    decreases n,
{
    if n == 0 || is_char_boundary(bytes, n as int) {
        n
    } else {
        boundary_at_or_before(bytes, (n - 1) as nat)
    }
}

/// How many bytes of a text fit into a field of `len` bytes without splitting
/// a character.
pub open spec fn fitting_len(bytes: Seq<u8>, len: nat) -> nat {
    boundary_at_or_before(
        bytes,
        if bytes.len() < len {
            bytes.len()
        } else {
            len
        },
    )
}

/// `n` NUL bytes.
pub open spec fn padding(n: nat) -> Seq<u8> {
    Seq::new(n, |i: int| 0u8)
}

/// A text as a NUL-padded field of exactly `len` bytes (UTF-8, truncated at a
/// character boundary).
pub open spec fn fixed_field(text: Seq<char>, len: nat) -> Seq<u8> {
    let bytes = encode_utf8(text);
    let n = fitting_len(bytes, len);
    bytes.take(n as int) + padding((len - n) as nat)
}

/// What `String::from_utf8_lossy` makes of bytes that are not valid UTF-8.
pub uninterp spec fn utf8_lossy(bytes: Seq<u8>) -> Seq<char>;

/// The text that bytes stand for: their UTF-8 decoding where they have one,
/// else the lossy decoding.
pub open spec fn text_of(bytes: Seq<u8>) -> Seq<char> {
    if valid_utf8(bytes) {
        decode_utf8(bytes)
    } else {
        utf8_lossy(bytes)
    }
}

/// Everything before the first NUL byte, or everything where there is none.
pub open spec fn before_nul(bytes: Seq<u8>) -> Seq<u8>
    decreases bytes.len(),
{
    if bytes.len() == 0 || bytes[0] == 0 {
        Seq::empty()
    } else {
        seq![bytes[0]] + before_nul(bytes.drop_first())
    }
}

/// The text in the NUL-padded field of `len` bytes at `pos`.
pub open spec fn get_field(s: Seq<u8>, pos: int, len: nat) -> Result<(Seq<char>, int), PatchError> {
    if pos + len <= s.len() {
        Ok((text_of(before_nul(s.subrange(pos, pos + len))), pos + len))
    } else {
        Err(PatchError::Truncated)
    }
}

// Enums.

pub open spec fn curve_byte(c: MorphCurve) -> u8 {
    match c {
        MorphCurve::Linear => 0,
        MorphCurve::Logarithmic => 1,
        MorphCurve::Snap => 2,
    }
}

pub open spec fn get_curve(b: u8) -> Result<MorphCurve, PatchError> {
    if b == 0 {
        Ok(MorphCurve::Linear)
    } else if b == 1 {
        Ok(MorphCurve::Logarithmic)
    } else if b == 2 {
        Ok(MorphCurve::Snap)
    } else {
        Err(PatchError::BadTag { what: "curve", tag: b })
    }
}

pub open spec fn mode_byte(m: MorphMode) -> u8 {
    match m {
        MorphMode::Ramp => 0,
        MorphMode::Momentary => 1,
        MorphMode::Latch => 2,
    }
}

pub open spec fn get_mode(b: u8) -> Result<MorphMode, PatchError> {
    if b == 0 {
        Ok(MorphMode::Ramp)
    } else if b == 1 {
        Ok(MorphMode::Momentary)
    } else if b == 2 {
        Ok(MorphMode::Latch)
    } else {
        Err(PatchError::BadTag { what: "morph-mode", tag: b })
    }
}

pub open spec fn global_byte(g: GlobalParam) -> u8 {
    match g {
        GlobalParam::InputGain => 0,
        GlobalParam::MasterVolume => 1,
        GlobalParam::MorphPosition => 2,
        GlobalParam::MorphSpeed => 3,
    }
}

pub open spec fn get_global(b: u8) -> Result<GlobalParam, PatchError> {
    if b == 0 {
        Ok(GlobalParam::InputGain)
    } else if b == 1 {
        Ok(GlobalParam::MasterVolume)
    } else if b == 2 {
        Ok(GlobalParam::MorphPosition)
    } else if b == 3 {
        Ok(GlobalParam::MorphSpeed)
    } else {
        Err(PatchError::BadTag { what: "global-param", tag: b })
    }
}

pub open spec fn target_bytes(t: MacroTarget) -> Seq<u8> {
    match t {
        MacroTarget::Slot { slot, param } => seq![0u8, slot, param],
        MacroTarget::Global(g) => seq![1u8, global_byte(g), 0u8],
    }
}

/// A macro target. The third byte of a global target is ignored.
pub open spec fn get_target(s: Seq<u8>, pos: int) -> Result<(MacroTarget, int), PatchError> {
    if pos + 3 > s.len() {
        Err(PatchError::Truncated)
    } else if s[pos] == 0 {
        Ok((MacroTarget::Slot { slot: s[pos + 1], param: s[pos + 2] }, pos + 3))
    } else if s[pos] == 1 {
        match get_global(s[pos + 1]) {
            Err(e) => Err(e),
            Ok(g) => Ok((MacroTarget::Global(g), pos + 3)),
        }
    } else {
        Err(PatchError::BadTag { what: "macro-target", tag: s[pos] })
    }
}

pub open spec fn endpoint_bytes(e: PatchEndpoint) -> Seq<u8> {
    match e {
        PatchEndpoint::Input => seq![0u8, 0u8],
        PatchEndpoint::Output => seq![1u8, 0u8],
        PatchEndpoint::Node(i) => seq![2u8, i],
        PatchEndpoint::Split(i) => seq![3u8, i],
        PatchEndpoint::Merge(i) => seq![4u8, i],
    }
}

/// An edge endpoint. The second byte of the input and the output is ignored.
pub open spec fn get_endpoint(s: Seq<u8>, pos: int) -> Result<(PatchEndpoint, int), PatchError> {
    if pos + 2 > s.len() {
        Err(PatchError::Truncated)
    } else if s[pos] == 0 {
        Ok((PatchEndpoint::Input, pos + 2))
    } else if s[pos] == 1 {
        Ok((PatchEndpoint::Output, pos + 2))
    } else if s[pos] == 2 {
        Ok((PatchEndpoint::Node(s[pos + 1]), pos + 2))
    } else if s[pos] == 3 {
        Ok((PatchEndpoint::Split(s[pos + 1]), pos + 2))
    } else if s[pos] == 4 {
        Ok((PatchEndpoint::Merge(s[pos + 1]), pos + 2))
    } else {
        Err(PatchError::BadTag { what: "endpoint", tag: s[pos] })
    }
}

// Macros.

/// How many of `n` items a one-byte count lets through.
pub open spec fn stored_count(n: nat) -> nat {
    if n < MAX_COUNT {
        n
    } else {
        MAX_COUNT as nat
    }
}

pub open spec fn mapping_bytes(m: MacroMappingSpec) -> Seq<u8> {
    target_bytes(m.target) + le32(m.min) + le32(m.max) + seq![curve_byte(m.curve)]
}

pub open spec fn get_mapping(s: Seq<u8>, pos: int) -> Result<(MacroMappingSpec, int), PatchError> {
    match get_target(s, pos) {
        Err(e) => Err(e),
        Ok((target, p1)) => match get_u32(s, p1) {
            Err(e) => Err(e),
            Ok((min, p2)) => match get_u32(s, p2) {
                Err(e) => Err(e),
                Ok((max, p3)) => match get_u8(s, p3) {
                    Err(e) => Err(e),
                    Ok((b, p4)) => match get_curve(b) {
                        Err(e) => Err(e),
                        Ok(curve) => Ok((MacroMappingSpec { target, min, max, curve }, p4)),
                    },
                },
            },
        },
    }
}

pub open spec fn mappings_bytes(ms: Seq<MacroMappingSpec>) -> Seq<u8>
    decreases ms.len(),
{
    if ms.len() == 0 {
        Seq::empty()
    } else {
        mappings_bytes(ms.drop_last()) + mapping_bytes(ms.last())
    }
}

pub open spec fn get_mappings(s: Seq<u8>, pos: int, n: nat) -> Result<
    (Seq<MacroMappingSpec>, int),
    PatchError,
>
    decreases n,
{
    if n == 0 {
        Ok((Seq::empty(), pos))
    } else {
        match get_mappings(s, pos, (n - 1) as nat) {
            Err(e) => Err(e),
            Ok((before, p)) => match get_mapping(s, p) {
                Err(e) => Err(e),
                Ok((m, q)) => Ok((before.push(m), q)),
            },
        }
    }
}

/// A macro; of its mappings, those that the count byte lets through.
pub open spec fn macro_bytes(m: MacroModel) -> Seq<u8> {
    let n = stored_count(m.mappings.len());
    fixed_field(m.name, MACRO_NAME_LEN as nat) + seq![n as u8] + mappings_bytes(
        m.mappings.take(n as int),
    )
}

pub open spec fn get_macro(s: Seq<u8>, pos: int) -> Result<(MacroModel, int), PatchError> {
    match get_field(s, pos, MACRO_NAME_LEN as nat) {
        Err(e) => Err(e),
        Ok((name, p1)) => match get_u8(s, p1) {
            Err(e) => Err(e),
            Ok((count, p2)) => match get_mappings(s, p2, count as nat) {
                Err(e) => Err(e),
                Ok((mappings, p3)) => Ok((MacroModel { name, mappings }, p3)),
            },
        },
    }
}

pub open spec fn macros_bytes(ms: Seq<MacroModel>) -> Seq<u8>
    decreases ms.len(),
{
    if ms.len() == 0 {
        Seq::empty()
    } else {
        macros_bytes(ms.drop_last()) + macro_bytes(ms.last())
    }
}

pub open spec fn get_macros(s: Seq<u8>, pos: int, n: nat) -> Result<
    (Seq<MacroModel>, int),
    PatchError,
>
    decreases n,
{
    if n == 0 {
        Ok((Seq::empty(), pos))
    } else {
        match get_macros(s, pos, (n - 1) as nat) {
            Err(e) => Err(e),
            Ok((before, p)) => match get_macro(s, p) {
                Err(e) => Err(e),
                Ok((m, q)) => Ok((before.push(m), q)),
            },
        }
    }
}

// Nodes.

pub open spec fn node_bytes(n: NodeModel) -> Seq<u8> {
    le16(n.effect_uid) + seq![
        if n.bypassed {
            1u8
        } else {
            0u8
        },
        n.params_a.len() as u8,
    ] + words_bytes(n.params_a) + words_bytes(n.params_b)
}

/// A node. Any non-zero bypass byte means bypassed.
pub open spec fn get_node(s: Seq<u8>, pos: int) -> Result<(NodeModel, int), PatchError> {
    match get_u16(s, pos) {
        Err(e) => Err(e),
        Ok((effect_uid, p1)) => match get_u8(s, p1) {
            Err(e) => Err(e),
            Ok((bypass, p2)) => match get_u8(s, p2) {
                Err(e) => Err(e),
                Ok((count, p3)) => if count > MAX_PARAMS {
                    Err(PatchError::TooManyParams(count as usize))
                } else {
                    match get_words(s, p3, count as nat) {
                        Err(e) => Err(e),
                        Ok((params_a, p4)) => match get_words(s, p4, count as nat) {
                            Err(e) => Err(e),
                            Ok((params_b, p5)) => Ok(
                                (
                                    NodeModel {
                                        effect_uid,
                                        bypassed: bypass != 0,
                                        params_a,
                                        params_b,
                                    },
                                    p5,
                                ),
                            ),
                        },
                    }
                },
            },
        },
    }
}

pub open spec fn nodes_bytes(ns: Seq<NodeModel>) -> Seq<u8>
    decreases ns.len(),
{
    if ns.len() == 0 {
        Seq::empty()
    } else {
        nodes_bytes(ns.drop_last()) + node_bytes(ns.last())
    }
}

pub open spec fn get_nodes(s: Seq<u8>, pos: int, n: nat) -> Result<
    (Seq<NodeModel>, int),
    PatchError,
>
    decreases n,
{
    if n == 0 {
        Ok((Seq::empty(), pos))
    } else {
        match get_nodes(s, pos, (n - 1) as nat) {
            Err(e) => Err(e),
            Ok((before, p)) => match get_node(s, p) {
                Err(e) => Err(e),
                Ok((m, q)) => Ok((before.push(m), q)),
            },
        }
    }
}

// Edges.

pub open spec fn edge_bytes(e: PatchEdge) -> Seq<u8> {
    endpoint_bytes(e.from) + endpoint_bytes(e.to)
}

pub open spec fn get_edge(s: Seq<u8>, pos: int) -> Result<(PatchEdge, int), PatchError> {
    match get_endpoint(s, pos) {
        Err(e) => Err(e),
        Ok((from, p)) => match get_endpoint(s, p) {
            Err(e) => Err(e),
            Ok((to, q)) => Ok((PatchEdge { from, to }, q)),
        },
    }
}

pub open spec fn edges_bytes(es: Seq<PatchEdge>) -> Seq<u8>
    decreases es.len(),
{
    if es.len() == 0 {
        Seq::empty()
    } else {
        edges_bytes(es.drop_last()) + edge_bytes(es.last())
    }
}

pub open spec fn get_edges(s: Seq<u8>, pos: int, n: nat) -> Result<
    (Seq<PatchEdge>, int),
    PatchError,
>
    decreases n,
{
    if n == 0 {
        Ok((Seq::empty(), pos))
    } else {
        match get_edges(s, pos, (n - 1) as nat) {
            Err(e) => Err(e),
            Ok((before, p)) => match get_edge(s, p) {
                Err(e) => Err(e),
                Ok((m, q)) => Ok((before.push(m), q)),
            },
        }
    }
}

// The sector.

/// The fields before the macros.
pub open spec fn preamble_bytes(p: PatchModel) -> Seq<u8> {
    fixed_field(p.name, PATCH_NAME_LEN as nat) + le32(p.globals.input_gain_db) + le32(
        p.globals.master_volume_db,
    ) + le32(p.morph.speed) + seq![mode_byte(p.morph.mode), p.morph.slot_locks]
}

/// The macros, nodes and edges; of the edges, those that the count byte lets
/// through.
pub open spec fn body_bytes(p: PatchModel) -> Seq<u8> {
    let n = stored_count(p.edges.len());
    macros_bytes(p.macros) + (seq![p.nodes.len() as u8] + nodes_bytes(p.nodes)) + (seq![n as u8]
        + edges_bytes(p.edges.take(n as int)))
}

/// The payload of a patch.
pub open spec fn payload_of(p: PatchModel) -> Seq<u8> {
    preamble_bytes(p) + body_bytes(p)
}

/// The header fields.
pub open spec fn header_bytes(crc: u32, payload_len: u16) -> Seq<u8> {
    le32(PATCH_MAGIC) + le16(PATCH_FORMAT_VERSION) + le16(0) + le32(crc) + le16(payload_len)
        + le16(0)
}

/// The header in front of a payload.
pub open spec fn header_of(payload: Seq<u8>) -> Seq<u8> {
    header_bytes(crc32_of(payload), payload.len() as u16)
}

/// The sector contents of a patch: header and payload.
pub open spec fn sector_of(p: PatchModel) -> Seq<u8> {
    header_of(payload_of(p)) + payload_of(p)
}

/// The first complaint about the nodes of a patch that rules out a sector.
pub open spec fn node_fault(nodes: Seq<NodeModel>) -> Option<PatchError>
    decreases nodes.len(),
{
    if nodes.len() == 0 {
        None
    } else {
        match node_fault(nodes.drop_last()) {
            Some(e) => Some(e),
            None => if nodes.last().params_a.len() != nodes.last().params_b.len() {
                Some(PatchError::SnapshotLenMismatch)
            } else if nodes.last().params_a.len() > MAX_PARAMS {
                Some(PatchError::TooManyParams(nodes.last().params_a.len() as usize))
            } else {
                None
            },
        }
    }
}

/// Why a patch cannot be written, whatever the buffer.
pub open spec fn patch_fault(p: PatchModel) -> Option<PatchError> {
    if p.nodes.len() > MAX_NODES {
        Some(PatchError::TooManyNodes(p.nodes.len() as usize))
    } else {
        node_fault(p.nodes)
    }
}

/// `s` with `bytes` written over it from `pos` on.
pub open spec fn overwritten(s: Seq<u8>, pos: int, bytes: Seq<u8>) -> Seq<u8> {
    s.take(pos) + bytes + s.skip(pos + bytes.len())
}

/// `before` with as many of the given fields written over it as fit behind `pos`.
pub open spec fn filled_up(before: Seq<u8>, pos: int, fields: Seq<Seq<u8>>) -> Seq<u8> {
    let n = fitting(fields, before.len() - pos);
    overwritten(before, pos, strung(fields.take(n as int)))
}

/// What writing a patch into a buffer returns, and what it leaves there.
pub open spec fn encode_outcome(
    p: PatchModel,
    before: Seq<u8>,
    after: Seq<u8>,
    r: Result<usize, PatchError>,
) -> bool {
    let payload = payload_of(p);
    let total = HEADER_LEN + payload.len();
    if let Some(fault) = patch_fault(p) {
        // The patch itself is at fault: nothing is written.
        r == Err::<usize, _>(fault) && after == before
    } else if before.len() < HEADER_LEN {
        r == Err::<usize, _>(PatchError::BufferTooSmall) && after == before
    } else if before.len() < total {
        // The payload does not fit: the header is left alone.
        r == Err::<usize, _>(PatchError::BufferTooSmall) && after == filled_up(
            before,
            HEADER_LEN as int,
            payload_fields(p),
        )
    } else if total > SECTOR_SIZE {
        r == Err::<usize, _>(PatchError::TooLarge(payload.len() as usize)) && after == overwritten(
            before,
            HEADER_LEN as int,
            payload,
        )
    } else {
        r == Ok::<_, PatchError>(total as usize) && after == sector_of(p) + before.skip(total)
    }
}

/// What a payload says, and where it ends. `version` is the header's.
pub open spec fn get_payload(s: Seq<u8>, version: u16) -> Result<PatchModel, PatchError> {
    match get_field(s, 0, PATCH_NAME_LEN as nat) {
        Err(e) => Err(e),
        Ok((name, p1)) => match get_u32(s, p1) {
            Err(e) => Err(e),
            Ok((input_gain_db, p2)) => match get_u32(s, p2) {
                Err(e) => Err(e),
                Ok((master_volume_db, p3)) => match get_u32(s, p3) {
                    Err(e) => Err(e),
                    Ok((speed, p4)) => match get_u8(s, p4) {
                        Err(e) => Err(e),
                        Ok((b, p5)) => match get_mode(b) {
                            Err(e) => Err(e),
                            Ok(mode) => match get_u8(s, p5) {
                                Err(e) => Err(e),
                                Ok((slot_locks, p6)) => get_body(
                                    s,
                                    p6,
                                    version,
                                    name,
                                    MorphConfig { speed, mode, slot_locks },
                                    GlobalControls { input_gain_db, master_volume_db },
                                ),
                            },
                        },
                    },
                },
            },
        },
    }
}

/// The macros, nodes and edges at `pos`, together with what came before them.
pub open spec fn get_body(
    s: Seq<u8>,
    pos: int,
    version: u16,
    name: Seq<char>,
    morph: MorphConfig,
    globals: GlobalControls,
) -> Result<PatchModel, PatchError> {
    match get_macros(s, pos, NUM_MACROS as nat) {
        Err(e) => Err(e),
        Ok((macros, p1)) => match get_u8(s, p1) {
            Err(e) => Err(e),
            Ok((node_count, p2)) => if node_count > MAX_NODES {
                Err(PatchError::TooManyNodes(node_count as usize))
            } else {
                match get_nodes(s, p2, node_count as nat) {
                    Err(e) => Err(e),
                    Ok((nodes, p3)) => match get_u8(s, p3) {
                        Err(e) => Err(e),
                        Ok((edge_count, p4)) => match get_edges(s, p4, edge_count as nat) {
                            Err(e) => Err(e),
                            Ok((edges, p5)) => Ok(
                                PatchModel {
                                    name,
                                    format_version: version,
                                    nodes,
                                    edges,
                                    macros,
                                    morph,
                                    globals,
                                },
                            ),
                        },
                    },
                }
            },
        },
    }
}

/// What sector data says: the patch in it, or why there is none. Data behind
/// the announced payload is ignored, and so are the reserved header fields.
pub open spec fn decoded(data: Seq<u8>) -> Result<PatchModel, PatchError> {
    let magic = word32(data, 0);
    let version = word16(data, 4);
    let expected = word32(data, 8);
    let end = HEADER_LEN + word16(data, 12);
    if data.len() < HEADER_LEN {
        Err(PatchError::Truncated)
    } else if magic != PATCH_MAGIC {
        Err(PatchError::BadMagic(magic))
    } else if version > PATCH_FORMAT_VERSION {
        Err(PatchError::UnsupportedVersion(version))
    } else if data.len() < end {
        Err(PatchError::Truncated)
    } else {
        let payload = data.subrange(HEADER_LEN as int, end);
        let actual = crc32_of(payload);
        if actual != expected {
            Err(PatchError::BadCrc { expected, actual })
        } else {
            get_payload(payload, version)
        }
    }
}

} // verus!
