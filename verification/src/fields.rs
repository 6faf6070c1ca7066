//! A payload as the fields that it is written in.
//!
//! A writer puts down whole fields only: words as one, texts, targets and
//! endpoints byte by byte. Where the room runs out, the fields in front of that
//! point stand, and nothing of the one that did not fit.
use crate::layout::{
    body_bytes, curve_byte, edge_bytes, edges_bytes, endpoint_bytes, fixed_field, header_bytes,
    le16, le32, macro_bytes, macros_bytes, mapping_bytes, mappings_bytes, mode_byte, node_bytes,
    nodes_bytes, payload_of, preamble_bytes, stored_count, target_bytes, words_bytes,
};
use crate::patch::{
    Bits, MACRO_NAME_LEN, MacroMappingSpec, MacroModel, NodeModel, PATCH_FORMAT_VERSION,
    PATCH_MAGIC, PATCH_NAME_LEN, PatchEdge, PatchModel,
};
use vstd::prelude::*;

verus! {

/// Fields one behind the other.
pub open spec fn strung(fields: Seq<Seq<u8>>) -> Seq<u8>
    decreases fields.len(),
{
    if fields.len() == 0 {
        Seq::empty()
    } else {
        strung(fields.drop_last()) + fields.last()
    }
}

/// How many fields the longest run from the first one has that fits into `room`
/// bytes.
pub open spec fn fitting(fields: Seq<Seq<u8>>, room: int) -> nat
    decreases fields.len(),
{
    if fields.len() == 0 || strung(fields).len() <= room {
        fields.len()
    } else {
        fitting(fields.drop_last(), room)
    }
}

/// Bytes as fields of one byte each.
pub open spec fn singles(bytes: Seq<u8>) -> Seq<Seq<u8>> {
    Seq::new(bytes.len(), |i: int| seq![bytes[i]])
}

pub open spec fn words_fields(words: Seq<Bits>) -> Seq<Seq<u8>>
    decreases words.len(),
{
    if words.len() == 0 {
        Seq::empty()
    } else {
        words_fields(words.drop_last()) + seq![le32(words.last())]
    }
}

pub open spec fn mapping_fields(m: MacroMappingSpec) -> Seq<Seq<u8>> {
    singles(target_bytes(m.target)) + seq![le32(m.min)] + seq![le32(m.max)] + seq![
        seq![curve_byte(m.curve)],
    ]
}

pub open spec fn mappings_fields(ms: Seq<MacroMappingSpec>) -> Seq<Seq<u8>>
    decreases ms.len(),
{
    if ms.len() == 0 {
        Seq::empty()
    } else {
        mappings_fields(ms.drop_last()) + mapping_fields(ms.last())
    }
}

pub open spec fn macro_fields(m: MacroModel) -> Seq<Seq<u8>> {
    let n = stored_count(m.mappings.len());
    singles(fixed_field(m.name, MACRO_NAME_LEN as nat)) + seq![seq![n as u8]] + mappings_fields(
        m.mappings.take(n as int),
    )
}

pub open spec fn macros_fields(ms: Seq<MacroModel>) -> Seq<Seq<u8>>
    decreases ms.len(),
{
    if ms.len() == 0 {
        Seq::empty()
    } else {
        macros_fields(ms.drop_last()) + macro_fields(ms.last())
    }
}

pub open spec fn node_fields(n: NodeModel) -> Seq<Seq<u8>> {
    seq![le16(n.effect_uid)] + seq![
        seq![
            if n.bypassed {
                1u8
            } else {
                0u8
            },
        ],
    ] + seq![seq![n.params_a.len() as u8]] + words_fields(n.params_a) + words_fields(n.params_b)
}

pub open spec fn nodes_fields(ns: Seq<NodeModel>) -> Seq<Seq<u8>>
    decreases ns.len(),
{
    if ns.len() == 0 {
        Seq::empty()
    } else {
        nodes_fields(ns.drop_last()) + node_fields(ns.last())
    }
}

pub open spec fn edge_fields(e: PatchEdge) -> Seq<Seq<u8>> {
    singles(endpoint_bytes(e.from)) + singles(endpoint_bytes(e.to))
}

pub open spec fn edges_fields(es: Seq<PatchEdge>) -> Seq<Seq<u8>>
    decreases es.len(),
{
    if es.len() == 0 {
        Seq::empty()
    } else {
        edges_fields(es.drop_last()) + edge_fields(es.last())
    }
}

/// The fields before the macros.
pub open spec fn preamble_fields(p: PatchModel) -> Seq<Seq<u8>> {
    singles(fixed_field(p.name, PATCH_NAME_LEN as nat)) + seq![le32(p.globals.input_gain_db)]
        + seq![le32(p.globals.master_volume_db)] + seq![le32(p.morph.speed)] + seq![
        seq![mode_byte(p.morph.mode)],
    ] + seq![seq![p.morph.slot_locks]]
}

/// The fields of the macros, the nodes and the edges.
pub open spec fn body_fields(p: PatchModel) -> Seq<Seq<u8>> {
    let n = stored_count(p.edges.len());
    macros_fields(p.macros) + (seq![seq![p.nodes.len() as u8]] + nodes_fields(p.nodes)) + (seq![
        seq![n as u8],
    ] + edges_fields(p.edges.take(n as int)))
}

/// The fields of a payload.
pub open spec fn payload_fields(p: PatchModel) -> Seq<Seq<u8>> {
    preamble_fields(p) + body_fields(p)
}

/// The fields of a header.
pub open spec fn header_fields(crc: u32, payload_len: u16) -> Seq<Seq<u8>> {
    seq![le32(PATCH_MAGIC)] + seq![le16(PATCH_FORMAT_VERSION)] + seq![le16(0)] + seq![le32(crc)]
        + seq![le16(payload_len)] + seq![le16(0)]
}

/// Two runs of fields, one behind the other.
pub broadcast proof fn strung_concat(a: Seq<Seq<u8>>, b: Seq<Seq<u8>>)
    ensures
        #[trigger] strung(a + b) == strung(a) + strung(b),
    decreases b.len(),
{
    if b.len() == 0 {
        assert(a + b =~= a);
        assert(strung(a) + strung(b) =~= strung(a));
    } else {
        strung_concat(a, b.drop_last());
        assert((a + b).drop_last() =~= a + b.drop_last());
        assert((strung(a) + strung(b.drop_last())) + b.last() =~= strung(a) + (strung(
            b.drop_last(),
        ) + b.last()));
    }
}

/// One field.
pub broadcast proof fn strung_one(f: Seq<u8>)
    ensures
        #[trigger] strung(seq![f]) == f,
{
    reveal_with_fuel(strung, 2);
    assert(seq![f].drop_last() =~= Seq::<Seq<u8>>::empty());
    assert(Seq::<u8>::empty() + f =~= f);
}

/// Bytes one behind the other are those bytes.
pub broadcast proof fn strung_singles(bytes: Seq<u8>)
    ensures
        #[trigger] strung(singles(bytes)) == bytes,
    decreases bytes.len(),
{
    if bytes.len() == 0 {
        assert(bytes =~= Seq::empty());
    } else {
        strung_singles(bytes.drop_last());
        assert(singles(bytes).drop_last() =~= singles(bytes.drop_last()));
        assert(bytes.drop_last() + seq![bytes.last()] =~= bytes);
    }
}

/// More fields are no shorter.
proof fn strung_grows(fields: Seq<Seq<u8>>, i: int, j: int)
    requires
        0 <= i <= j <= fields.len(),
    ensures
        strung(fields.take(i)).len() <= strung(fields.take(j)).len(),
    decreases j - i,
{
    if i < j {
        strung_grows(fields, i, j - 1);
        assert(fields.take(j).drop_last() =~= fields.take(j - 1));
    }
}

/// A run that fits, where one more field does not, is the longest that fits.
pub proof fn longest_run(fields: Seq<Seq<u8>>, n: int, room: int)
    requires
        0 <= n < fields.len(),
        strung(fields.take(n)).len() <= room,
        strung(fields.take(n)).len() + fields[n].len() > room,
    ensures
        fitting(fields, room) == n,
        strung(fields).len() > room,
    decreases fields.len(),
{
    reveal_with_fuel(fitting, 2);
    let m = fields.len() as int;
    assert(fields.take(m) =~= fields);
    assert(fields.take(n + 1).drop_last() =~= fields.take(n));
    strung_grows(fields, n + 1, m);
    let front = fields.drop_last();
    if n == m - 1 {
        assert(front =~= fields.take(n));
    } else {
        assert(front.take(n) =~= fields.take(n));
        longest_run(front, n, room);
    }
}

proof fn words_strung(words: Seq<Bits>)
    ensures
        strung(words_fields(words)) == words_bytes(words),
    decreases words.len(),
{
    broadcast use {strung_concat, strung_one};

    if words.len() > 0 {
        words_strung(words.drop_last());
    }
}

proof fn mappings_strung(ms: Seq<MacroMappingSpec>)
    ensures
        strung(mappings_fields(ms)) == mappings_bytes(ms),
    decreases ms.len(),
{
    broadcast use {strung_concat, strung_one, strung_singles};

    if ms.len() > 0 {
        mappings_strung(ms.drop_last());
        assert(strung(mapping_fields(ms.last())) == mapping_bytes(ms.last()));
    }
}

proof fn macros_strung(ms: Seq<MacroModel>)
    ensures
        strung(macros_fields(ms)) == macros_bytes(ms),
    decreases ms.len(),
{
    broadcast use {strung_concat, strung_one, strung_singles};

    if ms.len() > 0 {
        macros_strung(ms.drop_last());
        let m = ms.last();
        mappings_strung(m.mappings.take(stored_count(m.mappings.len()) as int));
        assert(strung(macro_fields(m)) == macro_bytes(m));
    }
}

proof fn nodes_strung(ns: Seq<NodeModel>)
    ensures
        strung(nodes_fields(ns)) == nodes_bytes(ns),
    decreases ns.len(),
{
    broadcast use {strung_concat, strung_one};

    if ns.len() > 0 {
        nodes_strung(ns.drop_last());
        let n = ns.last();
        words_strung(n.params_a);
        words_strung(n.params_b);
        let bypassed: u8 = if n.bypassed {
            1
        } else {
            0
        };
        let uid = le16(n.effect_uid);
        let count = n.params_a.len() as u8;
        assert(uid + seq![bypassed] + seq![count] =~= uid + seq![bypassed, count]);
        assert(strung(node_fields(n)) == node_bytes(n));
    }
}

proof fn edges_strung(es: Seq<PatchEdge>)
    ensures
        strung(edges_fields(es)) == edges_bytes(es),
    decreases es.len(),
{
    broadcast use {strung_concat, strung_singles};

    if es.len() > 0 {
        edges_strung(es.drop_last());
        assert(strung(edge_fields(es.last())) == edge_bytes(es.last()));
    }
}

/// The fields of a payload are the payload.
pub proof fn payload_strung(p: PatchModel)
    ensures
        strung(payload_fields(p)) == payload_of(p),
{
    broadcast use {strung_concat, strung_one, strung_singles};

    macros_strung(p.macros);
    nodes_strung(p.nodes);
    edges_strung(p.edges.take(stored_count(p.edges.len()) as int));
    let front = fixed_field(p.name, PATCH_NAME_LEN as nat) + le32(p.globals.input_gain_db) + le32(
        p.globals.master_volume_db,
    ) + le32(p.morph.speed);
    let mode = mode_byte(p.morph.mode);
    let locks = p.morph.slot_locks;
    assert(front + seq![mode] + seq![locks] =~= front + seq![mode, locks]);
    assert(strung(preamble_fields(p)) == preamble_bytes(p));
    assert(strung(body_fields(p)) == body_bytes(p));
}

/// The fields of a header are the header.
pub proof fn header_strung(crc: u32, payload_len: u16)
    ensures
        strung(header_fields(crc, payload_len)) == header_bytes(crc, payload_len),
{
    broadcast use {strung_concat, strung_one};

}

} // verus!
