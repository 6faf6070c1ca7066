//! What a sector keeps of a patch.
//!
//! Laws that tie encoding and decoding together, over the byte layout of
//! [`crate::layout`]: what is read back of what was written, what is lost, and
//! which corruptions are noticed.
use crate::binary::PatchError;
use crate::layout::{
    HEADER_LEN, MAX_COUNT, before_nul, body_bytes, boundary_at_or_before, crc32_of, crc_bit,
    crc_bits, crc_register, curve_byte, decoded, edge_bytes, edges_bytes, encode_outcome,
    endpoint_bytes, fitting_len, fixed_field, get_body, get_edges, get_endpoint, get_field,
    get_macro, get_macros, get_mapping, get_mappings, get_node, get_nodes, get_payload, get_target,
    get_u16, get_u32, get_u8, get_words, header_bytes, header_of, holds_at, holds_at_concat, le16,
    le32, macro_bytes, macros_bytes, mapping_bytes, mappings_bytes, mode_byte, node_bytes,
    node_fault, nodes_bytes, padding, patch_fault, payload_of, preamble_bytes, sector_of,
    stored_count, target_bytes, word16, word32, words_bytes,
};
use crate::patch::{
    Bits, MACRO_NAME_LEN, MAX_PARAMS, MacroMappingSpec, MacroModel, MacroTarget, NUM_MACROS,
    NodeModel, PATCH_FORMAT_VERSION, PATCH_MAGIC, PATCH_NAME_LEN, PatchEdge, PatchEndpoint,
    PatchModel, SECTOR_SIZE,
};
use vstd::prelude::*;
use vstd::utf8::{
    char_is_scalar, decode_utf8, decode_utf8_encode_utf8, decode_utf8_split, encode_scalar,
    encode_utf8, encode_utf8_decode_utf8, encode_utf8_first_scalar, encode_utf8_valid_utf8,
    is_char_boundary, is_char_boundary_start_end_of_seq, pop_first_scalar, valid_utf8,
    valid_utf8_split,
};

verus! {

/// Everything before the first NUL character.
pub open spec fn until_nul(text: Seq<char>) -> Seq<char>
    decreases text.len(),
{
    if text.len() == 0 || text[0] == '\0' {
        Seq::empty()
    } else {
        seq![text[0]] + until_nul(text.drop_first())
    }
}

/// What a field of `len` bytes keeps of a text: as many whole characters as fit,
/// up to the first NUL.
pub open spec fn stored_text(text: Seq<char>, len: nat) -> Seq<char> {
    let bytes = encode_utf8(text);
    until_nul(decode_utf8(bytes.take(fitting_len(bytes, len) as int)))
}

/// What a sector keeps of a macro.
pub open spec fn stored_macro(m: MacroModel) -> MacroModel {
    MacroModel {
        name: stored_text(m.name, MACRO_NAME_LEN as nat),
        mappings: m.mappings.take(stored_count(m.mappings.len()) as int),
    }
}

/// What a sector keeps of some macros.
pub open spec fn stored_macros(ms: Seq<MacroModel>) -> Seq<MacroModel> {
    Seq::new(ms.len(), |i: int| stored_macro(ms[i]))
}

/// What a sector keeps of a patch. The version is the one that it was written
/// in.
pub open spec fn stored_patch(p: PatchModel) -> PatchModel {
    PatchModel {
        name: stored_text(p.name, PATCH_NAME_LEN as nat),
        format_version: PATCH_FORMAT_VERSION,
        nodes: p.nodes,
        edges: p.edges.take(stored_count(p.edges.len()) as int),
        macros: stored_macros(p.macros),
        morph: p.morph,
        globals: p.globals,
    }
}

/// A text that a field of `len` bytes holds in full.
pub open spec fn text_fits(text: Seq<char>, len: nat) -> bool {
    &&& encode_utf8(text).len() <= len
    &&& !text.contains('\0')
}

/// A patch of which a sector loses nothing.
pub open spec fn lossless(p: PatchModel) -> bool {
    &&& p.format_version == PATCH_FORMAT_VERSION
    &&& text_fits(p.name, PATCH_NAME_LEN as nat)
    &&& p.edges.len() <= MAX_COUNT
    &&& forall|i: int|
        0 <= i < p.macros.len() ==> text_fits(#[trigger] p.macros[i].name, MACRO_NAME_LEN as nat)
    &&& forall|i: int|
        0 <= i < p.macros.len() ==> (#[trigger] p.macros[i]).mappings.len() <= MAX_COUNT
}

// Texts.

/// The encoding of a character other than NUL has no NUL byte.
proof fn scalar_without_nul(c: char)
    requires
        c != '\0',
    ensures
        !encode_scalar(c as u32).contains(0u8),
        encode_scalar(c as u32).len() > 0,
{
    char_is_scalar(c);
    let v = c as u32;
    assert(v <= 0x7F ==> v & 0x7F == v) by (bit_vector);
    assert(forall|x: u8| #[trigger] (0xC0u8 | x) != 0) by (bit_vector);
    assert(forall|x: u8| #[trigger] (0xE0u8 | x) != 0) by (bit_vector);
    assert(forall|x: u8| #[trigger] (0xF0u8 | x) != 0) by (bit_vector);
    assert(forall|x: u8| #[trigger] (0x80u8 | x) != 0) by (bit_vector);
}

/// Bytes without NUL come through unchanged in front of whatever follows.
proof fn before_nul_skips(a: Seq<u8>, b: Seq<u8>)
    requires
        !a.contains(0u8),
    ensures
        before_nul(a + b) == a + before_nul(b),
    decreases a.len(),
{
    if a.len() == 0 {
        assert(a + b =~= b);
        assert(a + before_nul(b) =~= before_nul(b));
    } else {
        assert(a[0] != 0);
        assert((a + b).drop_first() =~= a.drop_first() + b);
        assert(!a.drop_first().contains(0u8)) by {
            assert forall|i: int| 0 <= i < a.drop_first().len() implies a.drop_first()[i] != 0 by {
                assert(a.drop_first()[i] == a[i + 1]);
            }
        }
        before_nul_skips(a.drop_first(), b);
        assert(seq![a[0]] + (a.drop_first() + before_nul(b)) =~= a + before_nul(b));
    }
}

/// A padded encoding, cut at the first NUL byte, is the encoding cut at the
/// first NUL character.
proof fn before_nul_of_text(text: Seq<char>, n: nat)
    ensures
        before_nul(encode_utf8(text) + padding(n)) == encode_utf8(until_nul(text)),
    decreases text.len(),
{
    let all = encode_utf8(text) + padding(n);
    if text.len() == 0 {
        assert(all =~= padding(n));
        assert(before_nul(all) =~= Seq::empty());
    } else {
        let first = encode_scalar(text[0] as u32);
        let rest = encode_utf8(text.drop_first());
        assert(all =~= first + (rest + padding(n)));
        if text[0] == '\0' {
            assert(0u32 & 0x7F == 0) by (bit_vector);
            assert(first[0] == 0);
            assert(all[0] == 0);
        } else {
            scalar_without_nul(text[0]);
            before_nul_skips(first, rest + padding(n));
            before_nul_of_text(text.drop_first(), n);
            let kept = until_nul(text);
            assert(kept.drop_first() =~= until_nul(text.drop_first()));
        }
    }
}

/// The boundary found is one, and not behind `n`.
proof fn boundary_is_one(bytes: Seq<u8>, n: nat)
    requires
        valid_utf8(bytes),
    ensures
        boundary_at_or_before(bytes, n) <= n,
        is_char_boundary(bytes, boundary_at_or_before(bytes, n) as int),
        forall|m: int|
            boundary_at_or_before(bytes, n) < m <= n ==> !#[trigger] is_char_boundary(bytes, m),
    decreases n,
{
    is_char_boundary_start_end_of_seq(bytes);
    if n != 0 && !is_char_boundary(bytes, n as int) {
        boundary_is_one(bytes, (n - 1) as nat);
    }
}

/// A field is exactly as long as it should be.
pub(crate) proof fn field_len(text: Seq<char>, len: nat)
    ensures
        fixed_field(text, len).len() == len,
        fitting_len(encode_utf8(text), len) <= len,
        fitting_len(encode_utf8(text), len) <= encode_utf8(text).len(),
{
    let bytes = encode_utf8(text);
    encode_utf8_valid_utf8(text);
    boundary_is_one(
        bytes,
        if bytes.len() < len {
            bytes.len()
        } else {
            len
        },
    );
}

/// What is read from a field is what it keeps of the text written.
proof fn field_read_back(s: Seq<u8>, pos: int, text: Seq<char>, len: nat)
    requires
        holds_at(s, pos, fixed_field(text, len)),
    ensures
        get_field(s, pos, len) == Ok::<_, PatchError>((stored_text(text, len), pos + len)),
{
    let bytes = encode_utf8(text);
    let n = fitting_len(bytes, len);
    let kept = bytes.take(n as int);
    field_len(text, len);
    encode_utf8_valid_utf8(text);
    boundary_is_one(
        bytes,
        if bytes.len() < len {
            bytes.len()
        } else {
            len
        },
    );
    valid_utf8_split(bytes, n as int);
    assert(kept =~= bytes.subrange(0, n as int));
    decode_utf8_encode_utf8(kept);
    before_nul_of_text(decode_utf8(kept), (len - n) as nat);
    let text_kept = until_nul(decode_utf8(kept));
    encode_utf8_valid_utf8(text_kept);
    encode_utf8_decode_utf8(text_kept);
}

/// A name survives up to the first character that does not fit: what a field
/// keeps of a NUL-free text is a prefix of it, it fits, and the next character
/// would not have.
pub proof fn stored_text_is_longest_fitting_prefix(text: Seq<char>, len: nat)
    requires
        !text.contains('\0'),
    ensures
        stored_text(text, len).is_prefix_of(text),
        encode_utf8(stored_text(text, len)).len() <= len,
        text_fits(text, len) ==> stored_text(text, len) == text,
        stored_text(text, len).len() < text.len() ==> encode_utf8(
            text.take(stored_text(text, len).len() as int + 1),
        ).len() > len,
{
    let bytes = encode_utf8(text);
    let n = fitting_len(bytes, len);
    let most = if bytes.len() < len {
        bytes.len()
    } else {
        len
    };
    let kept = bytes.take(n as int);
    encode_utf8_valid_utf8(text);
    encode_utf8_decode_utf8(text);
    boundary_is_one(bytes, most);
    valid_utf8_split(bytes, n as int);
    decode_utf8_split(bytes, n as int);
    assert(kept =~= bytes.subrange(0, n as int));
    let prefix = decode_utf8(kept);
    decode_utf8_encode_utf8(kept);
    assert(prefix =~= text.take(prefix.len() as int));
    assert(!prefix.contains('\0')) by {
        if prefix.contains('\0') {
            let i = choose|i: int| 0 <= i < prefix.len() && prefix[i] == '\0';
            assert(text[i] == '\0');
        }
    }
    nul_free_is_kept(prefix);
    assert(stored_text(text, len) == prefix);
    if text_fits(text, len) {
        is_char_boundary_start_end_of_seq(bytes);
        assert(kept =~= bytes);
    }
    if prefix.len() < text.len() {
        let longer = text.take(prefix.len() as int + 1);
        encoding_of_prefix(text, prefix.len() as int + 1);
        encoding_of_prefix(longer, prefix.len() as int);
        assert(longer.take(prefix.len() as int) =~= prefix);
        let last = seq![longer[prefix.len() as int]];
        assert(longer =~= prefix + last);
        if encode_utf8(longer).len() <= len {
            let m = encode_utf8(longer).len();
            assert(is_char_boundary(bytes, m as int));
            assert(m > n);
        }
    }
}

/// A text without NUL is not cut.
proof fn nul_free_is_kept(text: Seq<char>)
    requires
        !text.contains('\0'),
    ensures
        until_nul(text) == text,
    decreases text.len(),
{
    if text.len() > 0 {
        assert(text[0] != '\0');
        assert(!text.drop_first().contains('\0')) by {
            assert forall|i: int| 0 <= i < text.drop_first().len() implies text.drop_first()[i]
                != '\0' by {
                assert(text.drop_first()[i] == text[i + 1]);
            }
        }
        nul_free_is_kept(text.drop_first());
        assert(seq![text[0]] + text.drop_first() =~= text);
    } else {
        assert(until_nul(text) =~= text);
    }
}

/// The encoding of the first `n` characters stands at the front of the
/// encoding, ends at a character boundary, and is shorter for smaller `n`.
proof fn encoding_of_prefix(text: Seq<char>, n: int)
    requires
        0 <= n <= text.len(),
    ensures
        encode_utf8(text.take(n)).is_prefix_of(encode_utf8(text)),
        is_char_boundary(encode_utf8(text), encode_utf8(text.take(n)).len() as int),
        n < text.len() ==> encode_utf8(text.take(n)).len() < encode_utf8(text).len(),
    decreases n,
{
    encode_utf8_valid_utf8(text);
    if n == 0 {
        is_char_boundary_start_end_of_seq(encode_utf8(text));
        if text.len() > 0 {
            encode_utf8_first_scalar(text);
            char_is_scalar(text[0]);
        }
    } else {
        let first = encode_scalar(text[0] as u32);
        char_is_scalar(text[0]);
        encode_utf8_first_scalar(text);
        encoding_of_prefix(text.drop_first(), n - 1);
        assert(text.take(n).drop_first() =~= text.drop_first().take(n - 1));
        assert(encode_utf8(text.take(n)) == first + encode_utf8(text.drop_first().take(n - 1)));
        assert(pop_first_scalar(encode_utf8(text)) =~= encode_utf8(text.drop_first()));
    }
}

// Values read back.

proof fn u8_read_back(s: Seq<u8>, pos: int, v: u8)
    requires
        holds_at(s, pos, seq![v]),
    ensures
        get_u8(s, pos) == Ok::<_, PatchError>((v, pos + 1)),
{
    assert(s.subrange(pos, pos + 1)[0] == s[pos]);
}

proof fn u16_read_back(s: Seq<u8>, pos: int, v: u16)
    requires
        holds_at(s, pos, le16(v)),
    ensures
        get_u16(s, pos) == Ok::<_, PatchError>((v, pos + 2)),
        word16(s, pos) == v,
{
    let b = s.subrange(pos, pos + 2);
    assert(b[0] == s[pos] && b[1] == s[pos + 1]);
}

proof fn u32_read_back(s: Seq<u8>, pos: int, v: u32)
    requires
        holds_at(s, pos, le32(v)),
    ensures
        get_u32(s, pos) == Ok::<_, PatchError>((v, pos + 4)),
        word32(s, pos) == v,
{
    let b = s.subrange(pos, pos + 4);
    assert(b[0] == s[pos] && b[1] == s[pos + 1] && b[2] == s[pos + 2] && b[3] == s[pos + 3]);
}

proof fn words_read_back(s: Seq<u8>, pos: int, words: Seq<Bits>)
    requires
        holds_at(s, pos, words_bytes(words)),
    ensures
        get_words(s, pos, words.len()) == Ok::<_, PatchError>(
            (words, pos + words_bytes(words).len()),
        ),
        words_bytes(words).len() == 4 * words.len(),
    decreases words.len(),
{
    if words.len() > 0 {
        holds_at_concat(s, pos, words_bytes(words.drop_last()), le32(words.last()));
        words_read_back(s, pos, words.drop_last());
        u32_read_back(s, pos + words_bytes(words.drop_last()).len(), words.last());
        assert(words.drop_last().push(words.last()) =~= words);
    } else {
        assert(words =~= Seq::empty());
    }
}

/// The three bytes of a macro target read back as it, whatever stands behind them.
pub proof fn targets_read_back(t: MacroTarget, rest: Seq<u8>)
    ensures
        target_bytes(t).len() == 3,
        get_target(target_bytes(t) + rest, 0) == Ok::<_, PatchError>((t, 3int)),
{
    let s = target_bytes(t) + rest;
    assert(s.subrange(0, 3) =~= target_bytes(t));
    target_read_back(s, 0, t);
}

/// Three bytes that no macro target has are refused, by the tag that is at fault.
pub proof fn foreign_targets_are_refused(x: u8, y: u8, z: u8, rest: Seq<u8>)
    ensures
        ({
            let said = get_target(seq![x, y, z] + rest, 0);
            &&& x > 1 ==> said == Err::<(MacroTarget, int), _>(
                PatchError::BadTag { what: "macro-target", tag: x },
            )
            &&& x == 1 && y > 3 ==> said == Err::<(MacroTarget, int), _>(
                PatchError::BadTag { what: "global-param", tag: y },
            )
            &&& said is Ok <==> x == 0 || (x == 1 && y <= 3)
        }),
{
    let s = seq![x, y, z] + rest;
    assert(s[0] == x && s[1] == y && s[2] == z);
}

proof fn target_read_back(s: Seq<u8>, pos: int, t: MacroTarget)
    requires
        holds_at(s, pos, target_bytes(t)),
    ensures
        get_target(s, pos) == Ok::<_, PatchError>((t, pos + 3)),
{
    let b = s.subrange(pos, pos + 3);
    assert(b[0] == s[pos] && b[1] == s[pos + 1] && b[2] == s[pos + 2]);
}

/// The two bytes of an endpoint read back as it, whatever stands behind them.
pub proof fn endpoints_read_back(e: PatchEndpoint, rest: Seq<u8>)
    ensures
        endpoint_bytes(e).len() == 2,
        get_endpoint(endpoint_bytes(e) + rest, 0) == Ok::<_, PatchError>((e, 2int)),
{
    let s = endpoint_bytes(e) + rest;
    assert(s.subrange(0, 2) =~= endpoint_bytes(e));
    endpoint_read_back(s, 0, e);
}

/// Two different endpoints never share their bytes.
pub proof fn endpoints_differ_in_bytes(a: PatchEndpoint, b: PatchEndpoint)
    requires
        endpoint_bytes(a) == endpoint_bytes(b),
    ensures
        a == b,
{
    endpoints_read_back(a, Seq::empty());
    endpoints_read_back(b, Seq::empty());
}

/// Two bytes that no endpoint has are refused by their tag.
pub proof fn foreign_endpoints_are_refused(x: u8, y: u8, rest: Seq<u8>)
    ensures
        ({
            let said = get_endpoint(seq![x, y] + rest, 0);
            &&& x > 4 ==> said == Err::<(PatchEndpoint, int), _>(
                PatchError::BadTag { what: "endpoint", tag: x },
            )
            &&& said is Ok <==> x <= 4
        }),
{
    let s = seq![x, y] + rest;
    assert(s[0] == x && s[1] == y);
}

proof fn endpoint_read_back(s: Seq<u8>, pos: int, e: PatchEndpoint)
    requires
        holds_at(s, pos, endpoint_bytes(e)),
    ensures
        get_endpoint(s, pos) == Ok::<_, PatchError>((e, pos + 2)),
{
    let b = s.subrange(pos, pos + 2);
    assert(b[0] == s[pos] && b[1] == s[pos + 1]);
}

proof fn mapping_read_back(s: Seq<u8>, pos: int, m: MacroMappingSpec)
    requires
        holds_at(s, pos, mapping_bytes(m)),
    ensures
        get_mapping(s, pos) == Ok::<_, PatchError>((m, pos + mapping_bytes(m).len())),
{
    broadcast use holds_at_concat;

    target_read_back(s, pos, m.target);
    u32_read_back(s, pos + 3, m.min);
    u32_read_back(s, pos + 7, m.max);
    u8_read_back(s, pos + 11, curve_byte(m.curve));
}

proof fn mappings_read_back(s: Seq<u8>, pos: int, ms: Seq<MacroMappingSpec>)
    requires
        holds_at(s, pos, mappings_bytes(ms)),
    ensures
        get_mappings(s, pos, ms.len()) == Ok::<_, PatchError>(
            (ms, pos + mappings_bytes(ms).len()),
        ),
    decreases ms.len(),
{
    if ms.len() > 0 {
        holds_at_concat(s, pos, mappings_bytes(ms.drop_last()), mapping_bytes(ms.last()));
        mappings_read_back(s, pos, ms.drop_last());
        mapping_read_back(s, pos + mappings_bytes(ms.drop_last()).len(), ms.last());
        assert(ms.drop_last().push(ms.last()) =~= ms);
    } else {
        assert(ms =~= Seq::empty());
    }
}

proof fn macro_read_back(s: Seq<u8>, pos: int, m: MacroModel)
    requires
        holds_at(s, pos, macro_bytes(m)),
    ensures
        get_macro(s, pos) == Ok::<_, PatchError>((stored_macro(m), pos + macro_bytes(m).len())),
{
    broadcast use holds_at_concat;

    let n = stored_count(m.mappings.len());
    field_len(m.name, MACRO_NAME_LEN as nat);
    field_read_back(s, pos, m.name, MACRO_NAME_LEN as nat);
    u8_read_back(s, pos + MACRO_NAME_LEN, n as u8);
    mappings_read_back(s, pos + MACRO_NAME_LEN + 1, m.mappings.take(n as int));
}

proof fn macros_read_back(s: Seq<u8>, pos: int, ms: Seq<MacroModel>)
    requires
        holds_at(s, pos, macros_bytes(ms)),
    ensures
        get_macros(s, pos, ms.len()) == Ok::<_, PatchError>(
            (stored_macros(ms), pos + macros_bytes(ms).len()),
        ),
    decreases ms.len(),
{
    if ms.len() > 0 {
        holds_at_concat(s, pos, macros_bytes(ms.drop_last()), macro_bytes(ms.last()));
        macros_read_back(s, pos, ms.drop_last());
        macro_read_back(s, pos + macros_bytes(ms.drop_last()).len(), ms.last());
        assert(stored_macros(ms.drop_last()).push(stored_macro(ms.last())) =~= stored_macros(ms));
    } else {
        assert(stored_macros(ms) =~= Seq::empty());
    }
}

proof fn node_read_back(s: Seq<u8>, pos: int, n: NodeModel)
    requires
        holds_at(s, pos, node_bytes(n)),
        n.params_a.len() == n.params_b.len() <= MAX_PARAMS,
    ensures
        get_node(s, pos) == Ok::<_, PatchError>((n, pos + node_bytes(n).len())),
{
    broadcast use holds_at_concat;

    let bypassed: u8 = if n.bypassed {
        1
    } else {
        0
    };
    let count = n.params_a.len() as u8;
    assert(seq![bypassed, count] =~= seq![bypassed] + seq![count]);
    u16_read_back(s, pos, n.effect_uid);
    u8_read_back(s, pos + 2, bypassed);
    u8_read_back(s, pos + 3, count);
    words_read_back(s, pos + 4, n.params_a);
    words_read_back(s, pos + 4 + words_bytes(n.params_a).len(), n.params_b);
}

/// Nodes without a fault have snapshots of one length, within the cap.
pub(crate) proof fn faultless_nodes(ns: Seq<NodeModel>)
    requires
        node_fault(ns) is None,
    ensures
        forall|i: int|
            #![trigger ns[i]]
            0 <= i < ns.len() ==> ns[i].params_a.len() == ns[i].params_b.len() <= MAX_PARAMS,
    decreases ns.len(),
{
    if ns.len() > 0 {
        faultless_nodes(ns.drop_last());
        assert forall|i: int| #![trigger ns[i]] 0 <= i < ns.len() implies ns[i].params_a.len()
            == ns[i].params_b.len() <= MAX_PARAMS by {
            if i < ns.len() - 1 {
                assert(ns.drop_last()[i] == ns[i]);
            }
        }
    }
}

proof fn nodes_read_back(s: Seq<u8>, pos: int, ns: Seq<NodeModel>)
    requires
        holds_at(s, pos, nodes_bytes(ns)),
        node_fault(ns) is None,
    ensures
        get_nodes(s, pos, ns.len()) == Ok::<_, PatchError>((ns, pos + nodes_bytes(ns).len())),
    decreases ns.len(),
{
    if ns.len() > 0 {
        holds_at_concat(s, pos, nodes_bytes(ns.drop_last()), node_bytes(ns.last()));
        nodes_read_back(s, pos, ns.drop_last());
        node_read_back(s, pos + nodes_bytes(ns.drop_last()).len(), ns.last());
        assert(ns.drop_last().push(ns.last()) =~= ns);
    } else {
        assert(ns =~= Seq::empty());
    }
}

proof fn edges_read_back(s: Seq<u8>, pos: int, es: Seq<PatchEdge>)
    requires
        holds_at(s, pos, edges_bytes(es)),
    ensures
        get_edges(s, pos, es.len()) == Ok::<_, PatchError>((es, pos + edges_bytes(es).len())),
    decreases es.len(),
{
    broadcast use holds_at_concat;

    if es.len() > 0 {
        let p = pos + edges_bytes(es.drop_last()).len();
        holds_at_concat(s, pos, edges_bytes(es.drop_last()), edge_bytes(es.last()));
        edges_read_back(s, pos, es.drop_last());
        endpoint_read_back(s, p, es.last().from);
        endpoint_read_back(s, p + 2, es.last().to);
        assert(es.drop_last().push(es.last()) =~= es);
    } else {
        assert(es =~= Seq::empty());
    }
}

proof fn preamble_read_back(s: Seq<u8>, p: PatchModel)
    requires
        holds_at(s, 0, preamble_bytes(p)),
    ensures
        preamble_bytes(p).len() == 38,
        get_field(s, 0, PATCH_NAME_LEN as nat) == Ok::<_, PatchError>(
            (stored_text(p.name, PATCH_NAME_LEN as nat), 24int),
        ),
        get_u32(s, 24) == Ok::<_, PatchError>((p.globals.input_gain_db, 28int)),
        get_u32(s, 28) == Ok::<_, PatchError>((p.globals.master_volume_db, 32int)),
        get_u32(s, 32) == Ok::<_, PatchError>((p.morph.speed, 36int)),
        get_u8(s, 36) == Ok::<_, PatchError>((mode_byte(p.morph.mode), 37int)),
        get_u8(s, 37) == Ok::<_, PatchError>((p.morph.slot_locks, 38int)),
{
    broadcast use holds_at_concat;

    let mode = mode_byte(p.morph.mode);
    assert(seq![mode, p.morph.slot_locks] =~= seq![mode] + seq![p.morph.slot_locks]);
    field_len(p.name, PATCH_NAME_LEN as nat);
    field_read_back(s, 0, p.name, PATCH_NAME_LEN as nat);
    u32_read_back(s, 24, p.globals.input_gain_db);
    u32_read_back(s, 28, p.globals.master_volume_db);
    u32_read_back(s, 32, p.morph.speed);
    u8_read_back(s, 36, mode);
    u8_read_back(s, 37, p.morph.slot_locks);
}

/// Where a count and what it announces stand, they stand one behind the other.
proof fn counted(s: Seq<u8>, pos: int, n: u8, bytes: Seq<u8>)
    requires
        holds_at(s, pos, seq![n] + bytes),
    ensures
        get_u8(s, pos) == Ok::<_, PatchError>((n, pos + 1)),
        holds_at(s, pos + 1, bytes),
{
    holds_at_concat(s, pos, seq![n], bytes);
    u8_read_back(s, pos, n);
}

proof fn body_read_back(s: Seq<u8>, pos: int, p: PatchModel)
    requires
        patch_fault(p) is None,
        p.macros.len() == NUM_MACROS,
        holds_at(s, pos, body_bytes(p)),
    ensures
        get_body(
            s,
            pos,
            PATCH_FORMAT_VERSION,
            stored_text(p.name, PATCH_NAME_LEN as nat),
            p.morph,
            p.globals,
        ) == Ok::<_, PatchError>(stored_patch(p)),
{
    let n = stored_count(p.edges.len());
    let macros = macros_bytes(p.macros);
    let nodes = seq![p.nodes.len() as u8] + nodes_bytes(p.nodes);
    let edges = seq![n as u8] + edges_bytes(p.edges.take(n as int));
    holds_at_concat(s, pos, macros + nodes, edges);
    holds_at_concat(s, pos, macros, nodes);
    macros_read_back(s, pos, p.macros);
    let c = pos + macros.len();
    counted(s, c, p.nodes.len() as u8, nodes_bytes(p.nodes));
    nodes_read_back(s, c + 1, p.nodes);
    let d = c + 1 + nodes_bytes(p.nodes).len();
    assert(d == pos + (macros + nodes).len());
    counted(s, d, n as u8, edges_bytes(p.edges.take(n as int)));
    edges_read_back(s, d + 1, p.edges.take(n as int));
}

#[verifier::rlimit(40)]
proof fn payload_read_back(p: PatchModel)
    requires
        patch_fault(p) is None,
        p.macros.len() == NUM_MACROS,
    ensures
        get_payload(payload_of(p), PATCH_FORMAT_VERSION) == Ok::<_, PatchError>(stored_patch(p)),
{
    let s = payload_of(p);
    assert(s.subrange(0, s.len() as int) =~= s);
    holds_at_concat(s, 0, preamble_bytes(p), body_bytes(p));
    preamble_read_back(s, p);
    body_read_back(s, 38, p);
}

proof fn header_read_back(s: Seq<u8>, crc: u32, payload_len: u16)
    requires
        holds_at(s, 0, header_bytes(crc, payload_len)),
    ensures
        header_bytes(crc, payload_len).len() == HEADER_LEN,
        word32(s, 0) == PATCH_MAGIC,
        word16(s, 4) == PATCH_FORMAT_VERSION,
        word32(s, 8) == crc,
        word16(s, 12) == payload_len,
{
    broadcast use holds_at_concat;

    u32_read_back(s, 0, PATCH_MAGIC);
    u16_read_back(s, 4, PATCH_FORMAT_VERSION);
    u32_read_back(s, 8, crc);
    u16_read_back(s, 12, payload_len);
}

/// A sector gives back what it keeps of the patch written into it, whatever
/// stands behind it in the buffer.
pub proof fn sector_reads_back(p: PatchModel, rest: Seq<u8>)
    requires
        patch_fault(p) is None,
        p.macros.len() == NUM_MACROS,
        payload_of(p).len() <= u16::MAX,
    ensures
        decoded(sector_of(p) + rest) == Ok::<_, PatchError>(stored_patch(p)),
{
    let payload = payload_of(p);
    let header = header_of(payload);
    let data = sector_of(p) + rest;
    assert(data.subrange(0, header.len() as int) =~= header);
    header_read_back(data, crc32_of(payload), payload.len() as u16);
    assert(data.subrange(HEADER_LEN as int, HEADER_LEN + payload.len()) =~= payload);
    payload_read_back(p);
}

/// A knob that fits its fields is kept whole.
proof fn lossless_macro(m: MacroModel)
    requires
        text_fits(m.name, MACRO_NAME_LEN as nat),
        m.mappings.len() <= MAX_COUNT,
    ensures
        stored_macro(m) == m,
{
    stored_text_is_longest_fitting_prefix(m.name, MACRO_NAME_LEN as nat);
    assert(m.mappings.take(m.mappings.len() as int) =~= m.mappings);
}

/// What is kept of a patch that fits its fields is the patch.
proof fn lossless_is_kept(p: PatchModel)
    requires
        lossless(p),
    ensures
        stored_patch(p) == p,
{
    stored_text_is_longest_fitting_prefix(p.name, PATCH_NAME_LEN as nat);
    assert forall|i: int| 0 <= i < p.macros.len() implies stored_macros(p.macros)[i]
        == p.macros[i] by {
        assert(text_fits(p.macros[i].name, MACRO_NAME_LEN as nat));
        lossless_macro(p.macros[i]);
    }
    assert(stored_macros(p.macros) =~= p.macros);
    assert(p.edges.take(p.edges.len() as int) =~= p.edges);
}

/// A patch that fits its fields survives the sector intact.
pub proof fn lossless_round_trip(p: PatchModel, rest: Seq<u8>)
    requires
        lossless(p),
        patch_fault(p) is None,
        p.macros.len() == NUM_MACROS,
        payload_of(p).len() <= u16::MAX,
    ensures
        decoded(sector_of(p) + rest) == Ok::<_, PatchError>(p),
{
    sector_reads_back(p, rest);
    lossless_is_kept(p);
}

// Lengths.

proof fn words_len(words: Seq<Bits>)
    ensures
        words_bytes(words).len() == 4 * words.len(),
    decreases words.len(),
{
    if words.len() > 0 {
        words_len(words.drop_last());
    }
}

proof fn mappings_len(ms: Seq<MacroMappingSpec>)
    ensures
        mappings_bytes(ms).len() == 12 * ms.len(),
    decreases ms.len(),
{
    if ms.len() > 0 {
        mappings_len(ms.drop_last());
    }
}

proof fn edges_len(es: Seq<PatchEdge>)
    ensures
        edges_bytes(es).len() == 4 * es.len(),
    decreases es.len(),
{
    if es.len() > 0 {
        edges_len(es.drop_last());
    }
}

proof fn macros_len_at_most(ms: Seq<MacroModel>, most: nat)
    requires
        forall|i: int| 0 <= i < ms.len() ==> (#[trigger] ms[i]).mappings.len() <= most,
    ensures
        macros_bytes(ms).len() <= ms.len() * (17 + 12 * most),
    decreases ms.len(),
{
    if ms.len() > 0 {
        let m = ms.last();
        let n = stored_count(m.mappings.len());
        assert forall|i: int| 0 <= i < ms.drop_last().len() implies (
        #[trigger] ms.drop_last()[i]).mappings.len() <= most by {
            assert(ms.drop_last()[i] == ms[i]);
        }
        macros_len_at_most(ms.drop_last(), most);
        field_len(m.name, MACRO_NAME_LEN as nat);
        mappings_len(m.mappings.take(n as int));
        assert(m.mappings.len() <= most);
        assert(ms.len() * (17 + 12 * most) == (ms.len() - 1) * (17 + 12 * most) + (17 + 12 * most))
            by (nonlinear_arith)
            requires
                ms.len() > 0,
        ;
    }
}

proof fn nodes_len_at_most(ns: Seq<NodeModel>)
    requires
        node_fault(ns) is None,
    ensures
        nodes_bytes(ns).len() <= 132 * ns.len(),
    decreases ns.len(),
{
    if ns.len() > 0 {
        nodes_len_at_most(ns.drop_last());
        words_len(ns.last().params_a);
        words_len(ns.last().params_b);
    }
}

/// The largest patch that the design allows for takes less than half a sector:
/// a full set of nodes with full snapshots, eight mappings on every knob, and
/// twenty-four edges.
pub proof fn design_worst_case_fits(p: PatchModel)
    requires
        patch_fault(p) is None,
        p.macros.len() == NUM_MACROS,
        p.edges.len() <= 24,
        forall|i: int| 0 <= i < p.macros.len() ==> (#[trigger] p.macros[i]).mappings.len() <= 8,
    ensures
        sector_of(p).len() < 2048,
{
    let n = stored_count(p.edges.len());
    field_len(p.name, PATCH_NAME_LEN as nat);
    macros_len_at_most(p.macros, 8);
    nodes_len_at_most(p.nodes);
    edges_len(p.edges.take(n as int));
}

proof fn words_read_len(s: Seq<u8>, pos: int, n: nat)
    requires
        get_words(s, pos, n) is Ok,
    ensures
        get_words(s, pos, n)->Ok_0.0.len() == n,
        get_words(s, pos, n)->Ok_0.1 == pos + 4 * n,
        n > 0 ==> pos + 4 * n <= s.len(),
    decreases n,
{
    if n > 0 {
        words_read_len(s, pos, (n - 1) as nat);
    }
}

proof fn mappings_read_len(s: Seq<u8>, pos: int, n: nat)
    requires
        get_mappings(s, pos, n) is Ok,
    ensures
        get_mappings(s, pos, n)->Ok_0.0.len() == n,
        get_mappings(s, pos, n)->Ok_0.1 == pos + 12 * n,
    decreases n,
{
    if n > 0 {
        mappings_read_len(s, pos, (n - 1) as nat);
    }
}

proof fn edges_read_len(s: Seq<u8>, pos: int, n: nat)
    requires
        get_edges(s, pos, n) is Ok,
        pos <= s.len(),
    ensures
        get_edges(s, pos, n)->Ok_0.0.len() == n,
        get_edges(s, pos, n)->Ok_0.1 == pos + 4 * n,
        pos + 4 * n <= s.len(),
    decreases n,
{
    if n > 0 {
        edges_read_len(s, pos, (n - 1) as nat);
    }
}

proof fn macros_read_len(s: Seq<u8>, pos: int, n: nat)
    requires
        get_macros(s, pos, n) is Ok,
    ensures
        get_macros(s, pos, n)->Ok_0.0.len() == n,
        get_macros(s, pos, n)->Ok_0.1 == pos + macros_bytes(get_macros(s, pos, n)->Ok_0.0).len(),
    decreases n,
{
    if n > 0 {
        macros_read_len(s, pos, (n - 1) as nat);
        let (before, p) = get_macros(s, pos, (n - 1) as nat)->Ok_0;
        let (m, q) = get_macro(s, p)->Ok_0;
        let count = get_u8(s, p + MACRO_NAME_LEN)->Ok_0.0;
        mappings_read_len(s, p + MACRO_NAME_LEN + 1, count as nat);
        mappings_len(m.mappings);
        field_len(m.name, MACRO_NAME_LEN as nat);
        assert(m.mappings.take(m.mappings.len() as int) =~= m.mappings);
        assert(before.push(m).drop_last() =~= before);
    }
}

proof fn nodes_read_len(s: Seq<u8>, pos: int, n: nat)
    requires
        get_nodes(s, pos, n) is Ok,
    ensures
        get_nodes(s, pos, n)->Ok_0.0.len() == n,
        get_nodes(s, pos, n)->Ok_0.1 == pos + nodes_bytes(get_nodes(s, pos, n)->Ok_0.0).len(),
        node_fault(get_nodes(s, pos, n)->Ok_0.0) is None,
    decreases n,
{
    if n > 0 {
        nodes_read_len(s, pos, (n - 1) as nat);
        let (before, p) = get_nodes(s, pos, (n - 1) as nat)->Ok_0;
        let (m, q) = get_node(s, p)->Ok_0;
        let count = get_u8(s, p + 3)->Ok_0.0;
        words_read_len(s, p + 4, count as nat);
        words_read_len(s, p + 4 + 4 * count, count as nat);
        words_len(m.params_a);
        words_len(m.params_b);
        assert(before.push(m).drop_last() =~= before);
    }
}

/// A payload that was read is no shorter than what its patch is written as, and
/// its patch has no fault.
proof fn payload_read_len(s: Seq<u8>, version: u16)
    requires
        get_payload(s, version) is Ok,
    ensures
        payload_of(get_payload(s, version)->Ok_0).len() <= s.len(),
        patch_fault(get_payload(s, version)->Ok_0) is None,
        get_payload(s, version)->Ok_0.macros.len() == NUM_MACROS,
{
    let p = get_payload(s, version)->Ok_0;
    let c = get_macros(s, 38, NUM_MACROS as nat)->Ok_0.1;
    let node_count = get_u8(s, c)->Ok_0.0;
    let d = get_nodes(s, c + 1, node_count as nat)->Ok_0.1;
    let edge_count = get_u8(s, d)->Ok_0.0;
    macros_read_len(s, 38, NUM_MACROS as nat);
    nodes_read_len(s, c + 1, node_count as nat);
    edges_read_len(s, d + 1, edge_count as nat);
    edges_len(p.edges);
    field_len(p.name, PATCH_NAME_LEN as nat);
    assert(p.edges.take(p.edges.len() as int) =~= p.edges);
}

/// Whatever decodes can be encoded again: a patch that was read from at most one
/// sector fits into a buffer of that size.
pub proof fn decoded_is_encodable(data: Seq<u8>)
    requires
        decoded(data) is Ok,
    ensures
        patch_fault(decoded(data)->Ok_0) is None,
        decoded(data)->Ok_0.macros.len() == NUM_MACROS,
        sector_of(decoded(data)->Ok_0).len() <= data.len(),
{
    let end = HEADER_LEN + word16(data, 12);
    payload_read_len(data.subrange(HEADER_LEN as int, end), word16(data, 4));
}

/// Encoding succeeds exactly where the patch has no fault and its sector fits,
/// and decoding the buffer then gives back what a sector keeps of the patch.
pub proof fn encode_then_decode(
    p: PatchModel,
    before: Seq<u8>,
    after: Seq<u8>,
    r: Result<usize, PatchError>,
)
    requires
        p.macros.len() == NUM_MACROS,
        encode_outcome(p, before, after, r),
    ensures
        r is Ok <==> patch_fault(p) is None && sector_of(p).len() <= SECTOR_SIZE
            && sector_of(p).len() <= before.len(),
        r is Ok ==> decoded(after) == Ok::<_, PatchError>(stored_patch(p)),
        r is Ok && lossless(p) ==> decoded(after) == Ok::<_, PatchError>(p),
{
    let rest = before.skip(sector_of(p).len() as int);
    assert(sector_of(p).len() == HEADER_LEN + payload_of(p).len());
    if r is Ok {
        sector_reads_back(p, rest);
        if lossless(p) {
            lossless_round_trip(p, rest);
        }
    }
}

/// Any bytes that decode, from at most one sector, encode again without an error
/// into a buffer of at least their size.
pub proof fn decoded_encodes_again(
    data: Seq<u8>,
    p: PatchModel,
    before: Seq<u8>,
    after: Seq<u8>,
    r: Result<usize, PatchError>,
)
    requires
        decoded(data) == Ok::<_, PatchError>(p),
        data.len() <= SECTOR_SIZE,
        before.len() >= data.len(),
        encode_outcome(p, before, after, r),
    ensures
        r is Ok,
{
    decoded_is_encodable(data);
    encode_then_decode(p, before, after, r);
}

// Corruption.

/// Any proper prefix of a sector is reported as truncated.
pub proof fn cut_sector_is_truncated(p: PatchModel, n: int)
    requires
        0 <= n < sector_of(p).len(),
        payload_of(p).len() <= u16::MAX,
    ensures
        decoded(sector_of(p).take(n)) == Err::<PatchModel, _>(PatchError::Truncated),
{
    let payload = payload_of(p);
    let header = header_of(payload);
    let data = sector_of(p).take(n);
    if n >= HEADER_LEN {
        assert(data.subrange(0, HEADER_LEN as int) =~= header);
        header_read_back(data, crc32_of(payload), payload.len() as u16);
    }
}

/// Shifting a bit out of the register loses nothing.
proof fn crc_bit_injective(a: u32, b: u32)
    requires
        crc_bit(a) == crc_bit(b),
    ensures
        a == b,
{
    assert((if a & 1 == 1 {
        (a >> 1) ^ 0xEDB8_8320
    } else {
        a >> 1
    }) == (if b & 1 == 1 {
        (b >> 1) ^ 0xEDB8_8320
    } else {
        b >> 1
    }) ==> a == b) by (bit_vector);
}

proof fn crc_bits_injective(a: u32, b: u32, n: nat)
    requires
        crc_bits(a, n) == crc_bits(b, n),
    ensures
        a == b,
    decreases n,
{
    if n > 0 {
        crc_bit_injective(crc_bits(a, (n - 1) as nat), crc_bits(b, (n - 1) as nat));
        crc_bits_injective(a, b, (n - 1) as nat);
    }
}

/// A change of one byte changes the register, whatever follows.
proof fn register_notices(s: Seq<u8>, i: int, b: u8)
    requires
        0 <= i < s.len(),
        s[i] != b,
    ensures
        crc_register(s) != crc_register(s.update(i, b)),
    decreases s.len(),
{
    let t = s.update(i, b);
    let before_s = crc_register(s.drop_last());
    let before_t = crc_register(t.drop_last());
    let (ls, lt) = (s.last() as u32, t.last() as u32);
    if i == s.len() - 1 {
        assert(t.drop_last() =~= s.drop_last());
        assert(before_s ^ ls == before_s ^ lt ==> ls == lt) by (bit_vector);
    } else {
        assert(t.drop_last() =~= s.drop_last().update(i, b));
        register_notices(s.drop_last(), i, b);
        assert(before_s ^ ls == before_t ^ ls ==> before_s == before_t) by (bit_vector);
    }
    if crc_register(s) == crc_register(t) {
        crc_bits_injective(before_s ^ ls, before_t ^ lt, 8);
    }
}

/// The checksum notices every change of a single byte.
pub proof fn checksum_notices(s: Seq<u8>, i: int, b: u8)
    requires
        0 <= i < s.len(),
        s[i] != b,
    ensures
        crc32_of(s) != crc32_of(s.update(i, b)),
{
    let x = crc_register(s);
    let y = crc_register(s.update(i, b));
    register_notices(s, i, b);
    assert(!x == !y ==> x == y) by (bit_vector);
}

/// A change of one byte of a word changes the word.
proof fn word_notices(s: Seq<u8>, pos: int, i: int, b: u8)
    requires
        0 <= pos <= i < pos + 4 <= s.len(),
        s[i] != b,
    ensures
        word32(s.update(i, b), pos) != word32(s, pos),
{
}

/// Corruption of a single byte is caught: in the magic word it is a bad magic,
/// in the checksum or anywhere in the payload it is a bad checksum.
#[verifier::rlimit(40)]
pub proof fn corrupt_byte_is_caught(p: PatchModel, i: int, b: u8)
    requires
        0 <= i < sector_of(p).len(),
        payload_of(p).len() <= u16::MAX,
        sector_of(p)[i] != b,
    ensures
        i < 4 ==> decoded(sector_of(p).update(i, b)) matches Err(PatchError::BadMagic(_)),
        8 <= i < 12 || i >= HEADER_LEN ==> decoded(sector_of(p).update(i, b)) matches Err(
            PatchError::BadCrc { .. },
        ),
{
    let payload = payload_of(p);
    let header = header_of(payload);
    let sector = sector_of(p);
    let data = sector.update(i, b);
    assert(sector.subrange(0, HEADER_LEN as int) =~= header);
    header_read_back(sector, crc32_of(payload), payload.len() as u16);
    assert(sector.subrange(HEADER_LEN as int, HEADER_LEN + payload.len()) =~= payload);
    assert(data.len() == sector.len());
    if i < 4 {
        word_notices(sector, 0, i, b);
    } else {
        assert(word32(data, 0) == word32(sector, 0));
        if i >= HEADER_LEN {
            assert(data.subrange(HEADER_LEN as int, HEADER_LEN + payload.len()) =~= payload.update(
                i - HEADER_LEN,
                b,
            ));
            checksum_notices(payload, i - HEADER_LEN, b);
        } else if 8 <= i < 12 {
            word_notices(sector, 8, i, b);
            assert(data.subrange(HEADER_LEN as int, HEADER_LEN + payload.len()) =~= payload);
        }
    }
}

} // verus!
