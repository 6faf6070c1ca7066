//! A patch sector, byte by byte.
//!
//! ```text
//! Header (16 bytes)
//!   0   u32  magic, the letters "SNDP"
//!   4   u16  format version
//!   6   u16  reserved, 0
//!   8   u32  CRC-32 of the payload
//!   12  u16  length of the payload
//!   14  u16  reserved, 0
//! Payload
//!   name[24], input gain, master volume
//!   morph: speed, mode, locks
//!   6 macros: name[16], count, count times (target[3], min, max, curve)
//!   count, nodes: uid, bypass, count, A values, B values
//!   count, edges: from[2], to[2]
//! ```
//!
//! Words are stored least significant byte first. These laws say where each of them
//! stands, and what comes back of a patch that was written.
use crate::binary::PatchError;
use crate::layout::{
    crc32_of, curve_byte, decoded, edge_bytes, edges_bytes, encode_outcome, fitting_len,
    fixed_field, header_bytes, header_of, le16, le32, macro_bytes, macros_bytes, mapping_bytes,
    mappings_bytes, mode_byte, node_bytes, node_fault, nodes_bytes, patch_fault, payload_of,
    preamble_bytes, sector_of, target_bytes, words_bytes,
};
use crate::patch::{
    Bits, GlobalParam, MACRO_NAME_LEN, MacroMappingSpec, MacroModel, MacroTarget, MorphCurve,
    MorphMode, NodeModel, PATCH_FORMAT_VERSION, PATCH_MAGIC, PatchEdge, PatchEndpoint, PatchModel,
};
use crate::roundtrip::{
    decoded_is_encodable, encode_then_decode, faultless_nodes, field_len, lossless, stored_macro,
    stored_patch, stored_text_is_longest_fitting_prefix, text_fits,
};
use vstd::prelude::*;
use vstd::utf8::{encode_utf8, encode_utf8_valid_utf8, is_char_boundary_start_end_of_seq};

verus! {

/// The header of a sector.
pub proof fn where_the_header_stands(p: PatchModel)
    requires
        payload_of(p).len() <= u16::MAX,
    ensures
        ({
            let s = sector_of(p);
            let n = payload_of(p).len();
            &&& s.len() == 16 + n
            &&& s[0] == 0x50 && s[1] == 0x44 && s[2] == 0x4E && s[3] == 0x53
            &&& s[4] == 1 && s[5] == 0
            &&& s[6] == 0 && s[7] == 0
            &&& s[8] + 0x100 * s[9] + 0x1_0000 * s[10] + 0x100_0000 * s[11] == crc32_of(
                s.subrange(16, s.len() as int),
            )
            &&& s[12] + 0x100 * s[13] == n
            &&& s[14] == 0 && s[15] == 0
        }),
{
    let payload = payload_of(p);
    let h = header_of(payload);
    let s = sector_of(p);
    header_stands(crc32_of(payload), payload.len() as u16);
    assert forall|i: int| 0 <= i < 16 implies s[i] == #[trigger] h[i] by {}
    assert(s.subrange(16, s.len() as int) =~= payload);
}

proof fn header_stands(crc: u32, n: u16)
    ensures
        ({
            let h = header_bytes(crc, n);
            &&& h.len() == 16
            &&& h[0] == 0x50 && h[1] == 0x44 && h[2] == 0x4E && h[3] == 0x53
            &&& h[4] == 1 && h[5] == 0
            &&& h[6] == 0 && h[7] == 0
            &&& h[8] + 0x100 * h[9] + 0x1_0000 * h[10] + 0x100_0000 * h[11] == crc
            &&& h[12] + 0x100 * h[13] == n
            &&& h[14] == 0 && h[15] == 0
        }),
{
    let h = header_bytes(crc, n);
    let m = le32(PATCH_MAGIC);
    let v = le16(PATCH_FORMAT_VERSION);
    let c = le32(crc);
    let l = le16(n);
    let z = le16(0);
    assert(h == m + v + z + c + l + z);
    assert(m.len() == 4 && v.len() == 2 && z.len() == 2 && c.len() == 4 && l.len() == 2);
    assert(h[0] == m[0] && h[1] == m[1] && h[2] == m[2] && h[3] == m[3]);
    assert(h[4] == v[0] && h[5] == v[1]);
    assert(h[6] == z[0] && h[7] == z[1]);
    assert(h[8] == c[0] && h[9] == c[1] && h[10] == c[2] && h[11] == c[3]);
    assert(h[12] == l[0] && h[13] == l[1]);
    assert(h[14] == z[0] && h[15] == z[1]);
    word_stands(crc);
}

/// What stands in front of the macros: the name, the gain, the volume, and how the
/// morph behaves.
pub proof fn where_the_preamble_stands(p: PatchModel)
    ensures
        ({
            let s = payload_of(p);
            &&& s.len() >= 38
            &&& s.subrange(0, 24) == fixed_field(p.name, 24)
            &&& s[24] + 0x100 * s[25] + 0x1_0000 * s[26] + 0x100_0000 * s[27]
                == p.globals.input_gain_db
            &&& s[28] + 0x100 * s[29] + 0x1_0000 * s[30] + 0x100_0000 * s[31]
                == p.globals.master_volume_db
            &&& s[32] + 0x100 * s[33] + 0x1_0000 * s[34] + 0x100_0000 * s[35] == p.morph.speed
            &&& s[36] == match p.morph.mode {
                MorphMode::Ramp => 0u8,
                MorphMode::Momentary => 1u8,
                MorphMode::Latch => 2u8,
            }
            &&& s[37] == p.morph.slot_locks
        }),
{
    let s = payload_of(p);
    let pre = preamble_bytes(p);
    field_len(p.name, 24);
    assert(pre.len() == 38);
    assert forall|i: int| 0 <= i < 38 implies s[i] == pre[i] by {}
    let name = fixed_field(p.name, 24);
    assert forall|i: int| 0 <= i < 24 implies pre[i] == name[i] by {}
    assert(s.subrange(0, 24) =~= name);
    word_stands(p.globals.input_gain_db);
    word_stands(p.globals.master_volume_db);
    word_stands(p.morph.speed);
    let a = le32(p.globals.input_gain_db);
    let b = le32(p.globals.master_volume_db);
    let c = le32(p.morph.speed);
    assert(pre[24] == a[0] && pre[25] == a[1] && pre[26] == a[2] && pre[27] == a[3]);
    assert(pre[28] == b[0] && pre[29] == b[1] && pre[30] == b[2] && pre[31] == b[3]);
    assert(pre[32] == c[0] && pre[33] == c[1] && pre[34] == c[2] && pre[35] == c[3]);
    assert(pre[36] == mode_byte(p.morph.mode) && pre[37] == p.morph.slot_locks);
}

/// The bytes of a word stand for it.
proof fn word_stands(v: u32)
    ensures
        ({
            let b = le32(v);
            b[0] + 0x100 * b[1] + 0x1_0000 * b[2] + 0x100_0000 * b[3] == v
        }),
{
    assert(v % 0x100 + 0x100 * (v / 0x100 % 0x100) + 0x1_0000 * (v / 0x1_0000 % 0x100) + 0x100_0000
        * (v / 0x100_0000) == v);
}

/// A text stands in its field as it is, with zeros behind it, where it fits; where it
/// does not, its beginning stands there, up to a character that would be cut, and
/// zeros.
pub proof fn where_a_text_stands(text: Seq<char>, len: nat)
    ensures
        fixed_field(text, len).len() == len,
        encode_utf8(text).len() <= len ==> fixed_field(text, len).take(
            encode_utf8(text).len() as int,
        ) == encode_utf8(text) && forall|i: int|
            encode_utf8(text).len() <= i < len ==> #[trigger] fixed_field(text, len)[i] == 0,
{
    let bytes = encode_utf8(text);
    field_len(text, len);
    if bytes.len() <= len {
        let n = fitting_len(bytes, len);
        encode_utf8_valid_utf8(text);
        is_char_boundary_start_end_of_seq(bytes);
        assert(n == bytes.len());
        assert(fixed_field(text, len).take(n as int) =~= bytes);
    }
}

/// Behind the preamble stand the macros, then the number of nodes and the nodes, then
/// the number of edges and the edges.
pub proof fn where_the_body_stands(p: PatchModel)
    requires
        p.nodes.len() <= 8,
        p.edges.len() <= 255,
    ensures
        ({
            let s = payload_of(p);
            let a = 38 + macros_bytes(p.macros).len() as int;
            let b = a + 1 + nodes_bytes(p.nodes).len() as int;
            &&& s.len() == b + 1 + edges_bytes(p.edges).len()
            &&& s.subrange(38, a) == macros_bytes(p.macros)
            &&& s[a] == p.nodes.len()
            &&& s.subrange(a + 1, b) == nodes_bytes(p.nodes)
            &&& s[b] == p.edges.len()
            &&& s.subrange(b + 1, s.len() as int) == edges_bytes(p.edges)
        }),
{
    let s = payload_of(p);
    let pre = preamble_bytes(p);
    let ms = macros_bytes(p.macros);
    let ns = nodes_bytes(p.nodes);
    let es = edges_bytes(p.edges);
    field_len(p.name, 24);
    assert(pre.len() == 38);
    assert(p.edges.take(p.edges.len() as int) =~= p.edges);
    assert(s =~= pre + ms + seq![p.nodes.len() as u8] + ns + seq![p.edges.len() as u8] + es);
    let a = 38 + ms.len() as int;
    let b = a + 1 + ns.len() as int;
    assert(s.subrange(38, a) =~= ms);
    assert(s.subrange(a + 1, b) =~= ns);
    assert(s.subrange(b + 1, s.len() as int) =~= es);
}

/// Macros, nodes and edges stand one behind the other, in order.
pub proof fn items_stand_in_order(
    ms: Seq<MacroModel>,
    m: MacroModel,
    ns: Seq<NodeModel>,
    n: NodeModel,
    es: Seq<PatchEdge>,
    e: PatchEdge,
)
    ensures
        macros_bytes(Seq::empty()) == Seq::<u8>::empty(),
        macros_bytes(ms.push(m)) == macros_bytes(ms) + macros_bytes(seq![m]),
        nodes_bytes(Seq::empty()) == Seq::<u8>::empty(),
        nodes_bytes(ns.push(n)) == nodes_bytes(ns) + nodes_bytes(seq![n]),
        edges_bytes(Seq::empty()) == Seq::<u8>::empty(),
        edges_bytes(es.push(e)) == edges_bytes(es) + edges_bytes(seq![e]),
{
    assert(ms.push(m).drop_last() =~= ms);
    assert(ns.push(n).drop_last() =~= ns);
    assert(es.push(e).drop_last() =~= es);
    one_of_each(m, n, e);
}

proof fn one_of_each(m: MacroModel, n: NodeModel, e: PatchEdge)
    ensures
        macros_bytes(seq![m]) == macro_bytes(m),
        nodes_bytes(seq![n]) == node_bytes(n),
        edges_bytes(seq![e]) == edge_bytes(e),
{
    assert(seq![m].drop_last() =~= Seq::empty());
    assert(seq![n].drop_last() =~= Seq::empty());
    assert(seq![e].drop_last() =~= Seq::empty());
    assert(macros_bytes(Seq::empty()) =~= Seq::empty());
    assert(nodes_bytes(Seq::empty()) =~= Seq::empty());
    assert(edges_bytes(Seq::empty()) =~= Seq::empty());
    assert(macros_bytes(seq![m]) =~= macro_bytes(m));
    assert(nodes_bytes(seq![n]) =~= node_bytes(n));
    assert(edges_bytes(seq![e]) =~= edge_bytes(e));
}

/// A macro: its name in 16 bytes, how many mappings it has, and the mappings, twelve
/// bytes each: what is driven, from which value to which, and along which curve.
pub proof fn where_a_macro_stands(m: MacroModel, k: int)
    requires
        m.mappings.len() <= 255,
        0 <= k < m.mappings.len(),
    ensures
        ({
            let s = macros_bytes(seq![m]);
            let at = 17 + 12 * k;
            let x = m.mappings[k];
            &&& s.len() == 17 + 12 * m.mappings.len()
            &&& s.subrange(0, 16) == fixed_field(m.name, 16)
            &&& s[16] == m.mappings.len()
            &&& x.target matches MacroTarget::Slot { slot, param } ==> s[at] == 0 && s[at + 1]
                == slot && s[at + 2] == param
            &&& x.target matches MacroTarget::Global(g) ==> s[at] == 1 && s[at + 2] == 0 && s[at
                + 1] == match g {
                GlobalParam::InputGain => 0u8,
                GlobalParam::MasterVolume => 1u8,
                GlobalParam::MorphPosition => 2u8,
                GlobalParam::MorphSpeed => 3u8,
            }
            &&& s[at + 3] + 0x100 * s[at + 4] + 0x1_0000 * s[at + 5] + 0x100_0000 * s[at + 6]
                == x.min
            &&& s[at + 7] + 0x100 * s[at + 8] + 0x1_0000 * s[at + 9] + 0x100_0000 * s[at + 10]
                == x.max
            &&& s[at + 11] == match x.curve {
                MorphCurve::Linear => 0u8,
                MorphCurve::Logarithmic => 1u8,
                MorphCurve::Snap => 2u8,
            }
        }),
{
    let e = PatchEdge { from: PatchEndpoint::Input, to: PatchEndpoint::Input };
    let node = NodeModel {
        effect_uid: 0,
        bypassed: false,
        params_a: Seq::empty(),
        params_b: Seq::empty(),
    };
    one_of_each(m, node, e);
    let s = macro_bytes(m);
    let all = mappings_bytes(m.mappings);
    assert(m.mappings.take(m.mappings.len() as int) =~= m.mappings);
    field_len(m.name, 16);
    mapping_stands(m.mappings, k);
    assert(s.subrange(0, 16) =~= fixed_field(m.name, 16));
    let b = mapping_bytes(m.mappings[k]);
    what_a_mapping_is(m.mappings[k]);
    let at = 17 + 12 * k;
    assert forall|i: int| 0 <= i < 12 implies #[trigger] s[at + i] == b[i] by {
        assert(s[17 + (12 * k + i)] == all[12 * k + i]);
        assert(all.subrange(12 * k, 12 * k + 12)[i] == b[i]);
    }
    assert(s[at] == s[at + 0]);
}

/// The twelve bytes of a mapping.
proof fn what_a_mapping_is(x: MacroMappingSpec)
    ensures
        ({
            let b = mapping_bytes(x);
            &&& b.len() == 12
            &&& x.target matches MacroTarget::Slot { slot, param } ==> b[0] == 0 && b[1] == slot
                && b[2] == param
            &&& x.target matches MacroTarget::Global(g) ==> b[0] == 1 && b[2] == 0 && b[1] == match g {
                GlobalParam::InputGain => 0u8,
                GlobalParam::MasterVolume => 1u8,
                GlobalParam::MorphPosition => 2u8,
                GlobalParam::MorphSpeed => 3u8,
            }
            &&& b[3] + 0x100 * b[4] + 0x1_0000 * b[5] + 0x100_0000 * b[6] == x.min
            &&& b[7] + 0x100 * b[8] + 0x1_0000 * b[9] + 0x100_0000 * b[10] == x.max
            &&& b[11] == match x.curve {
                MorphCurve::Linear => 0u8,
                MorphCurve::Logarithmic => 1u8,
                MorphCurve::Snap => 2u8,
            }
        }),
{
    let b = mapping_bytes(x);
    word_stands(x.min);
    word_stands(x.max);
    let t = target_bytes(x.target);
    let lo = le32(x.min);
    let hi = le32(x.max);
    assert(t.len() == 3 && lo.len() == 4 && hi.len() == 4);
    assert(b[0] == t[0] && b[1] == t[1] && b[2] == t[2]);
    assert(b[3] == lo[0] && b[4] == lo[1] && b[5] == lo[2] && b[6] == lo[3]);
    assert(b[7] == hi[0] && b[8] == hi[1] && b[9] == hi[2] && b[10] == hi[3]);
    assert(b[11] == curve_byte(x.curve));
}

proof fn mapping_stands(ms: Seq<MacroMappingSpec>, k: int)
    requires
        0 <= k < ms.len(),
    ensures
        mappings_bytes(ms).len() == 12 * ms.len(),
        mappings_bytes(ms).subrange(12 * k, 12 * k + 12) == mapping_bytes(ms[k]),
    decreases ms.len(),
{
    let front = ms.drop_last();
    let before = mappings_bytes(front);
    if front.len() > 0 {
        mapping_stands(front, if k < front.len() {
            k
        } else {
            0
        });
    }
    assert(mapping_bytes(ms.last()).len() == 12);
    if k < front.len() {
        assert(mappings_bytes(ms).subrange(12 * k, 12 * k + 12) =~= before.subrange(
            12 * k,
            12 * k + 12,
        ));
    } else {
        assert(mappings_bytes(ms).subrange(12 * k, 12 * k + 12) =~= mapping_bytes(ms.last()));
    }
}

/// A node: its effect, whether it is bypassed, how many values it has, the values of
/// A, and the values of B.
pub proof fn where_a_node_stands(n: NodeModel, k: int)
    requires
        n.params_a.len() == n.params_b.len(),
        n.params_a.len() <= 16,
        0 <= k < n.params_a.len(),
    ensures
        ({
            let s = nodes_bytes(seq![n]);
            let c = n.params_a.len() as int;
            let a = 4 + 4 * k;
            let b = 4 + 4 * c + 4 * k;
            &&& s.len() == 4 + 8 * c
            &&& s[0] + 0x100 * s[1] == n.effect_uid
            &&& s[2] == if n.bypassed {
                1u8
            } else {
                0u8
            }
            &&& s[3] == c
            &&& s[a] + 0x100 * s[a + 1] + 0x1_0000 * s[a + 2] + 0x100_0000 * s[a + 3]
                == n.params_a[k]
            &&& s[b] + 0x100 * s[b + 1] + 0x1_0000 * s[b + 2] + 0x100_0000 * s[b + 3]
                == n.params_b[k]
        }),
{
    let e = PatchEdge { from: PatchEndpoint::Input, to: PatchEndpoint::Input };
    let m = MacroModel { name: Seq::empty(), mappings: Seq::empty() };
    one_of_each(m, n, e);
    let s = node_bytes(n);
    let c = n.params_a.len() as int;
    words_stand(n.params_a, k);
    words_stand(n.params_b, k);
    word_stands(n.params_a[k]);
    word_stands(n.params_b[k]);
    let wa = words_bytes(n.params_a);
    let wb = words_bytes(n.params_b);
    let la = le32(n.params_a[k]);
    let lb = le32(n.params_b[k]);
    let a = 4 + 4 * k;
    let b = 4 + 4 * c + 4 * k;
    assert forall|i: int| 0 <= i < 4 implies s[a + i] == la[i] && s[b + i] == lb[i] by {
        assert(s[4 + (4 * k + i)] == wa[4 * k + i]);
        assert(wa.subrange(4 * k, 4 * k + 4)[i] == la[i]);
        assert(s[4 + 4 * c + (4 * k + i)] == wb[4 * k + i]);
        assert(wb.subrange(4 * k, 4 * k + 4)[i] == lb[i]);
    }
    assert(s[a] == s[a + 0] && s[b] == s[b + 0]);
    let u = le16(n.effect_uid);
    assert(s[0] == u[0] && s[1] == u[1]);
}

proof fn words_stand(words: Seq<Bits>, k: int)
    requires
        0 <= k < words.len(),
    ensures
        words_bytes(words).len() == 4 * words.len(),
        words_bytes(words).subrange(4 * k, 4 * k + 4) == le32(words[k]),
    decreases words.len(),
{
    let front = words.drop_last();
    let before = words_bytes(front);
    if front.len() > 0 {
        words_stand(front, if k < front.len() {
            k
        } else {
            0
        });
    }
    if k < front.len() {
        assert(words_bytes(words).subrange(4 * k, 4 * k + 4) =~= before.subrange(
            4 * k,
            4 * k + 4,
        ));
    } else {
        assert(words_bytes(words).subrange(4 * k, 4 * k + 4) =~= le32(words.last()));
    }
}

/// An edge: two bytes for where it comes from, two for where it goes to, each a kind
/// and a number.
pub proof fn where_an_edge_stands(e: PatchEdge)
    ensures
        ({
            let s = edges_bytes(seq![e]);
            &&& s.len() == 4
            &&& (s[0], s[1]) == kind_and_number(e.from)
            &&& (s[2], s[3]) == kind_and_number(e.to)
        }),
{
    let m = MacroModel { name: Seq::empty(), mappings: Seq::empty() };
    let node = NodeModel {
        effect_uid: 0,
        bypassed: false,
        params_a: Seq::empty(),
        params_b: Seq::empty(),
    };
    one_of_each(m, node, e);
}

/// The kind and the number of an endpoint.
pub open spec fn kind_and_number(e: PatchEndpoint) -> (u8, u8) {
    match e {
        PatchEndpoint::Input => (0, 0),
        PatchEndpoint::Output => (1, 0),
        PatchEndpoint::Node(i) => (2, i),
        PatchEndpoint::Split(i) => (3, i),
        PatchEndpoint::Merge(i) => (4, i),
    }
}

/// What becomes of a buffer that a patch is written into: without success its first
/// sixteen bytes, where a header stands, are as they were; with success the patch
/// stands at the front, and what is behind it is as it was.
pub proof fn what_becomes_of_the_buffer(
    p: PatchModel,
    before: Seq<u8>,
    after: Seq<u8>,
    r: Result<usize, PatchError>,
)
    requires
        encode_outcome(p, before, after, r),
        after.len() == before.len(),
    ensures
        r is Err && before.len() >= 16 ==> after.take(16) == before.take(16),
        r is Err && before.len() < 16 ==> after == before,
        r matches Ok(n) ==> {
            &&& n == sector_of(p).len()
            &&& n <= 4096
            &&& n <= before.len()
            &&& after.take(n as int) == sector_of(p)
            &&& after.skip(n as int) == before.skip(n as int)
        },
{
    if r is Err && before.len() >= 16 {
        assert(after.take(16) =~= before.take(16));
    }
    if let Ok(n) = r {
        assert(after.take(n as int) =~= sector_of(p));
        assert(after.skip(n as int) =~= before.skip(n as int));
    }
}

/// Why a patch is not written: it has more than eight nodes, or one whose snapshots
/// differ in length or are longer than sixteen values, the first of which decides;
/// else only because it does not fit the buffer or the sector.
pub proof fn why_a_patch_is_not_written(p: PatchModel, i: int)
    requires
        0 <= i <= p.nodes.len(),
        i < p.nodes.len() ==> p.nodes[i].params_a.len() != p.nodes[i].params_b.len()
            || p.nodes[i].params_a.len() > 16,
        forall|j: int|
            0 <= j < i ==> (#[trigger] p.nodes[j]).params_a.len() == p.nodes[j].params_b.len()
                && p.nodes[j].params_a.len() <= 16,
    ensures
        p.nodes.len() > 8 ==> patch_fault(p) == Some(
            PatchError::TooManyNodes(p.nodes.len() as usize),
        ),
        p.nodes.len() <= 8 && i == p.nodes.len() ==> patch_fault(p) is None,
        p.nodes.len() <= 8 && i < p.nodes.len() && p.nodes[i].params_a.len()
            != p.nodes[i].params_b.len() ==> patch_fault(p) == Some(
            PatchError::SnapshotLenMismatch,
        ),
        p.nodes.len() <= 8 && i < p.nodes.len() && p.nodes[i].params_a.len()
            == p.nodes[i].params_b.len() ==> patch_fault(p) == Some(
            PatchError::TooManyParams(p.nodes[i].params_a.len() as usize),
        ),
{
    first_fault(p.nodes, i);
}

proof fn first_fault(nodes: Seq<NodeModel>, i: int)
    requires
        0 <= i <= nodes.len(),
        i < nodes.len() ==> nodes[i].params_a.len() != nodes[i].params_b.len()
            || nodes[i].params_a.len() > 16,
        forall|j: int|
            0 <= j < i ==> (#[trigger] nodes[j]).params_a.len() == nodes[j].params_b.len()
                && nodes[j].params_a.len() <= 16,
    ensures
        node_fault(nodes) == if i == nodes.len() {
            None
        } else if nodes[i].params_a.len() != nodes[i].params_b.len() {
            Some(PatchError::SnapshotLenMismatch)
        } else {
            Some(PatchError::TooManyParams(nodes[i].params_a.len() as usize))
        },
    decreases nodes.len(),
{
    if nodes.len() > 0 {
        let front = nodes.drop_last();
        let k = if i < front.len() {
            i
        } else {
            front.len() as int
        };
        assert forall|j: int| 0 <= j < k implies (#[trigger] front[j]).params_a.len()
            == front[j].params_b.len() && front[j].params_a.len() <= 16 by {
            assert(front[j] == nodes[j]);
        }
        first_fault(front, k);
        if i == nodes.len() {
            assert(nodes[nodes.len() - 1].params_a.len() == nodes[nodes.len() - 1].params_b.len());
        }
    }
}

/// What was written comes back: a patch of the current version whose names fit their
/// fields and hold no zero, and whose mappings and edges are no more than 255, is what
/// decoding gives, exactly.
pub proof fn what_was_written_comes_back(
    p: PatchModel,
    before: Seq<u8>,
    after: Seq<u8>,
    r: Result<usize, PatchError>,
)
    requires
        p.macros.len() == 6,
        encode_outcome(p, before, after, r),
        r is Ok,
        p.format_version == 1,
        encode_utf8(p.name).len() <= 24,
        !p.name.contains('\0'),
        forall|i: int|
            0 <= i < 6 ==> encode_utf8((#[trigger] p.macros[i]).name).len() <= 16
                && !p.macros[i].name.contains('\0') && p.macros[i].mappings.len() <= 255,
        p.edges.len() <= 255,
    ensures
        decoded(after) == Ok::<_, PatchError>(p),
{
    assert forall|i: int| 0 <= i < p.macros.len() implies text_fits(
        #[trigger] p.macros[i].name,
        MACRO_NAME_LEN as nat,
    ) by {
        assert(encode_utf8(p.macros[i].name).len() <= 16);
    }
    assert(lossless(p));
    encode_then_decode(p, before, after, r);
}

/// What data is refused before its payload is looked at, in this order: less than a
/// header, another magic word, a newer version, less than the announced payload, and a
/// payload with another checksum.
pub proof fn what_data_is_refused(data: Seq<u8>)
    ensures
        data.len() < 16 ==> decoded(data) == Err::<PatchModel, _>(PatchError::Truncated),
        data.len() >= 16 ==> {
            let magic = data[0] + 0x100 * data[1] + 0x1_0000 * data[2] + 0x100_0000 * data[3];
            let version = data[4] + 0x100 * data[5];
            let crc = data[8] + 0x100 * data[9] + 0x1_0000 * data[10] + 0x100_0000 * data[11];
            let n = data[12] + 0x100 * data[13];
            &&& magic != 0x534E_4450 ==> decoded(data) == Err::<PatchModel, _>(
                PatchError::BadMagic(magic as u32),
            )
            &&& magic == 0x534E_4450 && version > 1 ==> decoded(data) == Err::<PatchModel, _>(
                PatchError::UnsupportedVersion(version as u16),
            )
            &&& magic == 0x534E_4450 && version <= 1 && data.len() < 16 + n ==> decoded(data)
                == Err::<PatchModel, _>(PatchError::Truncated)
            &&& magic == 0x534E_4450 && version <= 1 && data.len() >= 16 + n && crc32_of(
                data.subrange(16, 16 + n),
            ) != crc ==> decoded(data) == Err::<PatchModel, _>(
                PatchError::BadCrc {
                    expected: crc as u32,
                    actual: crc32_of(data.subrange(16, 16 + n)),
                },
            )
        },
{
}

/// What comes back of any patch that was written: its nodes, its first 255 edges, its
/// morph and its gains; of each macro the first 255 mappings and as much of the name as
/// its field holds; and as much of its own name.
pub proof fn what_comes_back_of_any_patch(
    p: PatchModel,
    before: Seq<u8>,
    after: Seq<u8>,
    r: Result<usize, PatchError>,
    i: int,
)
    requires
        p.macros.len() == 6,
        encode_outcome(p, before, after, r),
        r is Ok,
        0 <= i < 6,
    ensures
        decoded(after) is Ok,
        ({
            let q = decoded(after)->Ok_0;
            &&& q.format_version == 1
            &&& q.nodes == p.nodes
            &&& p.edges.len() <= 255 ==> q.edges == p.edges
            &&& p.edges.len() > 255 ==> q.edges == p.edges.take(255)
            &&& q.morph == p.morph
            &&& q.globals == p.globals
            &&& q.macros.len() == 6
            &&& p.macros[i].mappings.len() <= 255 ==> q.macros[i].mappings
                == p.macros[i].mappings
            &&& p.macros[i].mappings.len() > 255 ==> q.macros[i].mappings
                == p.macros[i].mappings.take(255)
            &&& !p.name.contains('\0') ==> keeps_of(p.name, q.name, 24)
            &&& !p.macros[i].name.contains('\0') ==> keeps_of(
                p.macros[i].name,
                q.macros[i].name,
                16,
            )
        }),
{
    encode_then_decode(p, before, after, r);
    what_a_sector_keeps(p, decoded(after), i);
}

proof fn what_a_sector_keeps(p: PatchModel, d: Result<PatchModel, PatchError>, i: int)
    requires
        p.macros.len() == 6,
        d == Ok::<_, PatchError>(stored_patch(p)),
        0 <= i < 6,
    ensures
        ({
            let q = d->Ok_0;
            &&& q.format_version == 1
            &&& q.nodes == p.nodes
            &&& p.edges.len() <= 255 ==> q.edges == p.edges
            &&& p.edges.len() > 255 ==> q.edges == p.edges.take(255)
            &&& q.morph == p.morph
            &&& q.globals == p.globals
            &&& q.macros.len() == 6
            &&& p.macros[i].mappings.len() <= 255 ==> q.macros[i].mappings
                == p.macros[i].mappings
            &&& p.macros[i].mappings.len() > 255 ==> q.macros[i].mappings
                == p.macros[i].mappings.take(255)
            &&& !p.name.contains('\0') ==> keeps_of(p.name, q.name, 24)
            &&& !p.macros[i].name.contains('\0') ==> keeps_of(
                p.macros[i].name,
                q.macros[i].name,
                16,
            )
        }),
{
    let q = stored_patch(p);
    assert(p.edges.take(p.edges.len() as int) =~= p.edges);
    let m = p.macros[i];
    assert(q.macros[i] == stored_macro(m));
    assert(m.mappings.take(m.mappings.len() as int) =~= m.mappings);
    if !p.name.contains('\0') {
        stored_text_is_longest_fitting_prefix(p.name, 24);
    }
    if !m.name.contains('\0') {
        stored_text_is_longest_fitting_prefix(m.name, 16);
    }
}

/// Whether a text is as much of another as a field of `len` bytes holds: its beginning,
/// and with one character more it would not fit.
pub open spec fn keeps_of(text: Seq<char>, kept: Seq<char>, len: nat) -> bool {
    &&& kept.is_prefix_of(text)
    &&& encode_utf8(kept).len() <= len
    &&& kept.len() < text.len() ==> encode_utf8(text.take(kept.len() as int + 1)).len() > len
}

/// A decoded patch is of the version that its header says, has six macros and at most
/// eight nodes, none of them with more than sixteen values, as many in A as in B.
pub proof fn what_is_decoded(data: Seq<u8>, i: int)
    requires
        decoded(data) is Ok,
    ensures
        ({
            let q = decoded(data)->Ok_0;
            &&& q.format_version == data[4] + 0x100 * data[5]
            &&& q.macros.len() == 6
            &&& q.nodes.len() <= 8
            &&& 0 <= i < q.nodes.len() ==> q.nodes[i].params_a.len() == q.nodes[i].params_b.len()
                && q.nodes[i].params_a.len() <= 16
        }),
{
    decoded_is_encodable(data);
    let q = decoded(data)->Ok_0;
    if 0 <= i < q.nodes.len() {
        faultless_nodes(q.nodes);
    }
}

} // verus!
