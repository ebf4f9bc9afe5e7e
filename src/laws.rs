use vstd::prelude::*;
use crate::bytes::{le_u16, le_u32, le_u64};
use crate::error::{CryptoError, DatabaseError, FormatError, IntegrityError};
use crate::database::open_spec;
use crate::kdf::header_master_key;
use crate::payload::{decrypt_spec, starts_with};
use crate::header::{
    apply_field, empty_model, parse_fields, parse_header, CompressionAlgorithm, HeaderModel,
    FILE_SIGNATURE_1, FILE_SIGNATURE_2, MAX_MAJOR_VERSION,
};

verus! {

/// One header field as it stands in a file: code, two-byte length, value.
pub open spec fn encode_field(code: u8, v: Seq<u8>) -> Seq<u8> {
    seq![code, (v.len() % 256) as u8, (v.len() / 256) as u8] + v
}

/// A list of header fields, one after the other.
pub open spec fn encode_fields(fs: Seq<(u8, Seq<u8>)>) -> Seq<u8>
    decreases fs.len(),
{
    if fs.len() == 0 {
        Seq::empty()
    } else {
        encode_field(fs[0].0, fs[0].1) + encode_fields(fs.drop_first())
    }
}

/// A field that the parser accepts: a known non-terminator code, a value
/// that fits the length field, the fixed length where the type has one, a
/// known compression flag, and a positive round count.
pub open spec fn valid_field(code: u8, v: Seq<u8>) -> bool {
    &&& 1 <= code <= 10
    &&& v.len() < 0x10000
    &&& code == 2 ==> v.len() == 16
    &&& code == 3 ==> v.len() == 4 && (le_u32(v) == 0 || le_u32(v) == 1)
    &&& (code == 4 || code == 5 || code == 8 || code == 9) ==> v.len() == 32
    &&& code == 6 ==> v.len() == 8 && le_u64(v) != 0
    &&& code == 7 ==> v.len() == 16
    &&& code == 10 ==> v.len() == 4
}

/// The header holds, in the slot of `code`, the decoded value `v`.
pub open spec fn holds_field(h: HeaderModel, code: u8, v: Seq<u8>) -> bool {
    if code == 1 {
        h.comment == Some(v)
    } else if code == 2 {
        h.cipher_id == Some(v)
    } else if code == 3 {
        h.compression == Some(
            if le_u32(v) == 0 {
                CompressionAlgorithm::Uncompressed
            } else {
                CompressionAlgorithm::Gzip
            },
        )
    } else if code == 4 {
        h.master_seed == Some(v)
    } else if code == 5 {
        h.transform_seed == Some(v)
    } else if code == 6 {
        h.transform_rounds == Some(le_u64(v) as u64)
    } else if code == 7 {
        h.encryption_iv == Some(v)
    } else if code == 8 {
        h.protected_stream_key == Some(v)
    } else if code == 9 {
        h.stream_start_bytes == Some(v)
    } else {
        h.inner_random_stream_id == Some(le_u32(v) as u32)
    }
}

/// The two headers agree in the slot of `code`, and in signatures and version.
pub open spec fn same_slot(a: HeaderModel, b: HeaderModel, code: u8) -> bool {
    &&& a.file_signature_1 == b.file_signature_1
    &&& a.file_signature_2 == b.file_signature_2
    &&& a.file_version_minor == b.file_version_minor
    &&& a.file_version_major == b.file_version_major
    &&& code == 1 ==> a.comment == b.comment
    &&& code == 2 ==> a.cipher_id == b.cipher_id
    &&& code == 3 ==> a.compression == b.compression
    &&& code == 4 ==> a.master_seed == b.master_seed
    &&& code == 5 ==> a.transform_seed == b.transform_seed
    &&& code == 6 ==> a.transform_rounds == b.transform_rounds
    &&& code == 7 ==> a.encryption_iv == b.encryption_iv
    &&& code == 8 ==> a.protected_stream_key == b.protected_stream_key
    &&& code == 9 ==> a.stream_start_bytes == b.stream_start_bytes
    &&& code == 10 ==> a.inner_random_stream_id == b.inner_random_stream_id
}

/// No two fields of the list share a code.
pub open spec fn distinct_codes(fs: Seq<(u8, Seq<u8>)>) -> bool {
    forall|i: int, j: int| 0 <= i < j < fs.len() ==> fs[i].0 != fs[j].0
}

proof fn lemma_apply_valid_field(h: HeaderModel, code: u8, v: Seq<u8>)
    requires
        valid_field(code, v),
    ensures
        apply_field(h, code, v) matches Ok(h2) && holds_field(h2, code, v) && (forall|c: u8|
            c != code ==> #[trigger] same_slot(h, h2, c)),
{
    reveal(apply_field);
}

proof fn lemma_encoded_length(code: u8, v: Seq<u8>)
    requires
        v.len() < 0x10000,
    ensures
        encode_field(code, v).len() == 3 + v.len(),
        le_u16(encode_field(code, v).subrange(1, 3)) == v.len(),
{
    let e = encode_field(code, v);
    assert(e[1] == (v.len() % 256) as u8);
    assert(e[2] == (v.len() / 256) as u8);
}

/// Header round trip: a run of valid fields with distinct codes, in any
/// order, followed by a terminator, is read back with each field in its
/// slot holding the value encoded, every slot that no field names left as
/// it was, and the walk ending just past the terminator's value.
pub proof fn lemma_header_round_trip(
    prefix: Seq<u8>,
    fs: Seq<(u8, Seq<u8>)>,
    end_value: Seq<u8>,
    rest: Seq<u8>,
    h: HeaderModel,
)
    requires
        forall|i: int| 0 <= i < fs.len() ==> valid_field(#[trigger] fs[i].0, fs[i].1),
        distinct_codes(fs),
        end_value.len() < 0x10000,
    ensures
        parse_fields(
            prefix + encode_fields(fs) + encode_field(0, end_value) + rest,
            prefix.len() as int,
            h,
        ) matches Ok((h2, end)) && end == prefix.len() + encode_fields(fs).len() + 3
            + end_value.len() && (forall|i: int|
            0 <= i < fs.len() ==> holds_field(h2, #[trigger] fs[i].0, fs[i].1)) && (forall|c: u8|
            (forall|i: int| 0 <= i < fs.len() ==> #[trigger] fs[i].0 != c) ==> #[trigger] same_slot(
                h,
                h2,
                c,
            )),
    decreases fs.len(),
{
    let tail = encode_field(0, end_value) + rest;
    let data = prefix + encode_fields(fs) + tail;
    assert(prefix + encode_fields(fs) + encode_field(0, end_value) + rest =~= data);
    lemma_encoded_length(0, end_value);
    if fs.len() == 0 {
        assert(encode_fields(fs) =~= Seq::<u8>::empty());
        assert(data.subrange(prefix.len() as int + 1, prefix.len() as int + 3) =~= encode_field(0, end_value).subrange(1, 3));
        assert(data[prefix.len() as int] == 0);
    } else {
        let code = fs[0].0;
        let v = fs[0].1;
        let e = encode_field(code, v);
        let more = fs.drop_first();
        lemma_encoded_length(code, v);
        assert(encode_fields(fs) == e + encode_fields(more));
        let before = prefix + e;
        assert(data =~= before + encode_fields(more) + tail);
        assert(data.subrange(prefix.len() as int + 1, prefix.len() as int + 3) =~= e.subrange(1, 3));
        assert(data.subrange(prefix.len() as int + 3, prefix.len() as int + 3 + v.len() as int) =~= v);
        assert(data[prefix.len() as int] == code);
        assert(valid_field(fs[0].0, fs[0].1));
        lemma_apply_valid_field(h, code, v);
        let h1 = apply_field(h, code, v)->Ok_0;
        assert forall|i: int| 0 <= i < more.len() implies valid_field(#[trigger] more[i].0, more[i].1) by {
            assert(more[i] == fs[i + 1]);
            assert(valid_field(fs[i + 1].0, fs[i + 1].1));
        }
        assert forall|i: int, j: int| 0 <= i < j < more.len() implies more[i].0 != more[j].0 by {
            assert(more[i] == fs[i + 1]);
            assert(more[j] == fs[j + 1]);
        }
        lemma_header_round_trip(before, more, end_value, rest, h1);
        assert(before + encode_fields(more) + encode_field(0, end_value) + rest =~= data);
        let h2 = parse_fields(data, before.len() as int, h1)->Ok_0.0;
        assert forall|i: int| 0 <= i < fs.len() implies holds_field(h2, #[trigger] fs[i].0, fs[i].1) by {
            if i > 0 {
                assert(more[i - 1] == fs[i]);
            } else {
                assert forall|j: int| 0 <= j < more.len() implies #[trigger] more[j].0 != code by {
                    assert(more[j] == fs[j + 1]);
                }
                assert(same_slot(h1, h2, code));
            }
        }
        assert forall|c: u8| (forall|i: int| 0 <= i < fs.len() ==> #[trigger] fs[i].0 != c) implies #[trigger] same_slot(h, h2, c) by {
            assert(fs[0].0 != c);
            assert forall|j: int| 0 <= j < more.len() implies #[trigger] more[j].0 != c by {
                assert(more[j] == fs[j + 1]);
            }
            assert(same_slot(h, h1, c));
            assert(same_slot(h1, h2, c));
        }
    }
}

proof fn lemma_fields_end_in_buffer(data: Seq<u8>, pos: int, h: HeaderModel)
    ensures
        parse_fields(data, pos, h) matches Ok((_, end)) ==> end <= data.len(),
    decreases data.len() - pos,
{
    if pos >= 0 && pos + 3 <= data.len() {
        let code = data[pos];
        let next = pos + 3 + le_u16(data.subrange(pos + 1, pos + 3));
        if next <= data.len() && code != 0 {
            if let Ok(h2) = apply_field(h, code, data.subrange(pos + 3, next)) {
                lemma_fields_end_in_buffer(data, next, h2);
            }
        }
    }
}

/// Encoded size of the fields of the list that carry `code`.
pub open spec fn code_size(fs: Seq<(u8, Seq<u8>)>, code: u8) -> int
    decreases fs.len(),
{
    if fs.len() == 0 {
        0
    } else {
        (if fs[0].0 == code {
            3 + fs[0].1.len()
        } else {
            0
        }) + code_size(fs.drop_first(), code)
    }
}

/// Encoded size of the fields of the list whose codes lie below `k`.
pub open spec fn size_below(fs: Seq<(u8, Seq<u8>)>, k: nat) -> int
    decreases k,
{
    if k == 0 {
        0
    } else {
        size_below(fs, (k - 1) as nat) + code_size(fs, (k - 1) as u8)
    }
}

proof fn lemma_size_below_step(fs: Seq<(u8, Seq<u8>)>, k: nat)
    requires
        fs.len() > 0,
        k <= 256,
    ensures
        size_below(fs, k) == (if (fs[0].0 as nat) < k {
            3 + fs[0].1.len()
        } else {
            0
        }) + size_below(fs.drop_first(), k),
    decreases k,
{
    if k > 0 {
        lemma_size_below_step(fs, (k - 1) as nat);
    }
}

proof fn lemma_encoded_size(fs: Seq<(u8, Seq<u8>)>)
    requires
        forall|i: int| 0 <= i < fs.len() ==> (#[trigger] fs[i]).1.len() < 0x10000,
    ensures
        encode_fields(fs).len() == size_below(fs, 256),
    decreases fs.len(),
{
    if fs.len() == 0 {
        assert(size_below(fs, 256) == 0) by {
            lemma_size_below_empty(fs, 256);
        }
    } else {
        let more = fs.drop_first();
        assert forall|i: int| 0 <= i < more.len() implies (#[trigger] more[i]).1.len() < 0x10000 by {
            assert(more[i] == fs[i + 1]);
        }
        lemma_encoded_size(more);
        assert(fs[0].1.len() < 0x10000);
        lemma_encoded_length(fs[0].0, fs[0].1);
        lemma_size_below_step(fs, 256);
    }
}

proof fn lemma_size_below_empty(fs: Seq<(u8, Seq<u8>)>, k: nat)
    requires
        fs.len() == 0,
    ensures
        size_below(fs, k) == 0,
    decreases k,
{
    if k > 0 {
        lemma_size_below_empty(fs, (k - 1) as nat);
    }
}

/// With distinct codes, the size of `code` is that of the one field carrying
/// it, or zero where none does.
proof fn lemma_code_size_distinct(fs: Seq<(u8, Seq<u8>)>, code: u8)
    requires
        distinct_codes(fs),
    ensures
        names_code(fs, code) ==> ({
            let i = choose|i: int| 0 <= i < fs.len() && #[trigger] fs[i].0 == code;
            code_size(fs, code) == 3 + fs[i].1.len()
        }),
        !names_code(fs, code) ==> code_size(fs, code) == 0,
    decreases fs.len(),
{
    if fs.len() > 0 {
        let more = fs.drop_first();
        assert forall|i: int, j: int| 0 <= i < j < more.len() implies more[i].0 != more[j].0 by {
            assert(more[i] == fs[i + 1]);
            assert(more[j] == fs[j + 1]);
        }
        lemma_code_size_distinct(more, code);
        if fs[0].0 == code {
            assert(names_code(fs, code));
            assert(!names_code(more, code)) by {
                if names_code(more, code) {
                    let j = choose|j: int| 0 <= j < more.len() && #[trigger] more[j].0 == code;
                    assert(more[j] == fs[j + 1]);
                }
            }
            let i = choose|i: int| 0 <= i < fs.len() && #[trigger] fs[i].0 == code;
            assert(i == 0);
        } else {
            if names_code(fs, code) {
                let i = choose|i: int| 0 <= i < fs.len() && #[trigger] fs[i].0 == code;
                assert(more[i - 1] == fs[i]);
                assert(names_code(more, code));
                let j = choose|j: int| 0 <= j < more.len() && #[trigger] more[j].0 == code;
                assert(more[j] == fs[j + 1]);
            } else {
                assert(!names_code(more, code)) by {
                    if names_code(more, code) {
                        let j = choose|j: int| 0 <= j < more.len() && #[trigger] more[j].0 == code;
                        assert(more[j] == fs[j + 1]);
                    }
                }
            }
        }
    }
}

/// Every field of `a` is a field of `b`.
pub open spec fn fields_within(a: Seq<(u8, Seq<u8>)>, b: Seq<(u8, Seq<u8>)>) -> bool {
    forall|i: int| 0 <= i < a.len() ==> #[trigger] b.contains(a[i])
}

proof fn lemma_same_fields_same_size(fs1: Seq<(u8, Seq<u8>)>, fs2: Seq<(u8, Seq<u8>)>, k: nat)
    requires
        distinct_codes(fs1),
        distinct_codes(fs2),
        fields_within(fs1, fs2),
        fields_within(fs2, fs1),
        k <= 256,
    ensures
        size_below(fs1, k) == size_below(fs2, k),
    decreases k,
{
    if k > 0 {
        lemma_same_fields_same_size(fs1, fs2, (k - 1) as nat);
        let c = (k - 1) as u8;
        lemma_code_size_distinct(fs1, c);
        lemma_code_size_distinct(fs2, c);
        if names_code(fs1, c) {
            let i = choose|i: int| 0 <= i < fs1.len() && #[trigger] fs1[i].0 == c;
            assert(fs2.contains(fs1[i]));
            let j = choose|j: int| 0 <= j < fs2.len() && fs2[j] == fs1[i];
            assert(fs2[j].0 == c);
            assert(names_code(fs2, c));
            let j2 = choose|j: int| 0 <= j < fs2.len() && #[trigger] fs2[j].0 == c;
            assert(j2 == j);
        } else if names_code(fs2, c) {
            let j = choose|j: int| 0 <= j < fs2.len() && #[trigger] fs2[j].0 == c;
            assert(fs1.contains(fs2[j]));
            let i = choose|i: int| 0 <= i < fs1.len() && fs1[i] == fs2[j];
            assert(fs1[i].0 == c);
        }
    }
}

proof fn lemma_holds_field_same_slot(a: HeaderModel, b: HeaderModel, code: u8, v: Seq<u8>)
    requires
        holds_field(a, code, v),
        holds_field(b, code, v),
        1 <= code <= 10,
        a.file_signature_1 == b.file_signature_1,
        a.file_signature_2 == b.file_signature_2,
        a.file_version_minor == b.file_version_minor,
        a.file_version_major == b.file_version_major,
    ensures
        same_slot(a, b, code),
{
}

/// Field order does not matter: two runs holding the same valid fields with
/// distinct codes, in any two orders, each followed by the same terminator
/// and bytes, parse to equal headers ending at equal offsets.
pub proof fn lemma_field_order_irrelevant(
    prefix: Seq<u8>,
    fs1: Seq<(u8, Seq<u8>)>,
    fs2: Seq<(u8, Seq<u8>)>,
    end_value: Seq<u8>,
    rest: Seq<u8>,
    h: HeaderModel,
)
    requires
        forall|i: int| 0 <= i < fs1.len() ==> valid_field(#[trigger] fs1[i].0, fs1[i].1),
        forall|i: int| 0 <= i < fs2.len() ==> valid_field(#[trigger] fs2[i].0, fs2[i].1),
        distinct_codes(fs1),
        distinct_codes(fs2),
        fields_within(fs1, fs2),
        fields_within(fs2, fs1),
        end_value.len() < 0x10000,
    ensures
        parse_fields(
            prefix + encode_fields(fs1) + encode_field(0, end_value) + rest,
            prefix.len() as int,
            h,
        ) matches Ok((h1, e1)) && parse_fields(
            prefix + encode_fields(fs2) + encode_field(0, end_value) + rest,
            prefix.len() as int,
            h,
        ) matches Ok((h2, e2)) && h1 == h2 && e1 == e2,
{
    let d1 = prefix + encode_fields(fs1) + encode_field(0, end_value) + rest;
    let d2 = prefix + encode_fields(fs2) + encode_field(0, end_value) + rest;
    lemma_header_round_trip(prefix, fs1, end_value, rest, h);
    lemma_header_round_trip(prefix, fs2, end_value, rest, h);
    assert forall|i: int| 0 <= i < fs1.len() implies (#[trigger] fs1[i]).1.len() < 0x10000 by {
        assert(valid_field(fs1[i].0, fs1[i].1));
    }
    assert forall|i: int| 0 <= i < fs2.len() implies (#[trigger] fs2[i]).1.len() < 0x10000 by {
        assert(valid_field(fs2[i].0, fs2[i].1));
    }
    lemma_encoded_size(fs1);
    lemma_encoded_size(fs2);
    lemma_same_fields_same_size(fs1, fs2, 256);
    let h1 = parse_fields(d1, prefix.len() as int, h)->Ok_0.0;
    let h2 = parse_fields(d2, prefix.len() as int, h)->Ok_0.0;
    assert forall|i: int| 0 <= i < fs1.len() implies #[trigger] fs1[i].0 != 0 by {
        assert(valid_field(fs1[i].0, fs1[i].1));
    }
    assert forall|i: int| 0 <= i < fs2.len() implies #[trigger] fs2[i].0 != 0 by {
        assert(valid_field(fs2[i].0, fs2[i].1));
    }
    assert(same_slot(h, h1, 0));
    assert(same_slot(h, h2, 0));
    assert forall|c: u8| 1 <= c <= 10 implies #[trigger] same_slot(h1, h2, c) by {
        if names_code(fs1, c) {
            let i = choose|i: int| 0 <= i < fs1.len() && #[trigger] fs1[i].0 == c;
            assert(fs2.contains(fs1[i]));
            let j = choose|j: int| 0 <= j < fs2.len() && fs2[j] == fs1[i];
            assert(holds_field(h1, fs1[i].0, fs1[i].1));
            assert(holds_field(h2, fs2[j].0, fs2[j].1));
            lemma_holds_field_same_slot(h1, h2, c, fs1[i].1);
        } else {
            assert forall|i: int| 0 <= i < fs1.len() implies #[trigger] fs1[i].0 != c by {
                if fs1[i].0 == c {
                    assert(names_code(fs1, c));
                }
            }
            assert forall|j: int| 0 <= j < fs2.len() implies #[trigger] fs2[j].0 != c by {
                if fs2[j].0 == c {
                    assert(fs1.contains(fs2[j]));
                    let i = choose|i: int| 0 <= i < fs1.len() && fs1[i] == fs2[j];
                    assert(fs1[i].0 == c);
                }
            }
            assert(same_slot(h, h1, c));
            assert(same_slot(h, h2, c));
        }
    }
    assert(same_slot(h1, h2, 1) && same_slot(h1, h2, 2) && same_slot(h1, h2, 3));
    assert(same_slot(h1, h2, 4) && same_slot(h1, h2, 5) && same_slot(h1, h2, 6));
    assert(same_slot(h1, h2, 7) && same_slot(h1, h2, 8) && same_slot(h1, h2, 9));
    assert(same_slot(h1, h2, 10));
    assert(h1 == h2);
}

/// The twelve bytes that open a file: both signatures and the version.
pub open spec fn file_prefix(minor: u16, major: u16) -> Seq<u8> {
    seq![
        0x03u8, 0xD9u8, 0xA2u8, 0x9Au8, 0x67u8, 0xFBu8, 0x4Bu8, 0xB5u8,
        (minor % 256) as u8, (minor / 256) as u8, (major % 256) as u8, (major / 256) as u8,
    ]
}

/// Some field of the list carries `code`.
pub open spec fn names_code(fs: Seq<(u8, Seq<u8>)>, code: u8) -> bool {
    exists|i: int| 0 <= i < fs.len() && #[trigger] fs[i].0 == code
}

/// The slot of `code` holds a value.
pub open spec fn has_slot(h: HeaderModel, code: u8) -> bool {
    if code == 2 {
        h.cipher_id is Some
    } else if code == 3 {
        h.compression is Some
    } else if code == 4 {
        h.master_seed is Some
    } else if code == 5 {
        h.transform_seed is Some
    } else if code == 6 {
        h.transform_rounds is Some
    } else if code == 7 {
        h.encryption_iv is Some
    } else if code == 8 {
        h.protected_stream_key is Some
    } else if code == 9 {
        h.stream_start_bytes is Some
    } else {
        h.inner_random_stream_id is Some
    }
}

/// Header round trip for a whole file: signatures, a supported version, and
/// valid fields with distinct codes that name every required field, in any
/// order, then a terminator; parsing gives back the version, each field's
/// value in its slot, no comment unless one was written, and the payload
/// offset just past the terminator.
pub proof fn lemma_file_header_round_trip(
    minor: u16,
    major: u16,
    fs: Seq<(u8, Seq<u8>)>,
    end_value: Seq<u8>,
    rest: Seq<u8>,
)
    requires
        major <= MAX_MAJOR_VERSION,
        forall|i: int| 0 <= i < fs.len() ==> valid_field(#[trigger] fs[i].0, fs[i].1),
        distinct_codes(fs),
        forall|c: u8| 2 <= c <= 10 ==> #[trigger] names_code(fs, c),
        end_value.len() < 0x10000,
    ensures
        parse_header(file_prefix(minor, major) + encode_fields(fs) + encode_field(0, end_value) + rest)
            matches Ok((h, end)) && end == 12 + encode_fields(fs).len() + 3 + end_value.len()
            && h.file_version_minor == minor && h.file_version_major == major && (forall|i: int|
            0 <= i < fs.len() ==> holds_field(h, #[trigger] fs[i].0, fs[i].1)) && ((forall|i: int|
            0 <= i < fs.len() ==> #[trigger] fs[i].0 != 1) ==> h.comment is None),
{
    let prefix = file_prefix(minor, major);
    let data = prefix + encode_fields(fs) + encode_field(0, end_value) + rest;
    assert(data.subrange(0, 4) =~= prefix.subrange(0, 4));
    assert(data.subrange(4, 8) =~= prefix.subrange(4, 8));
    assert(data.subrange(8, 10) =~= prefix.subrange(8, 10));
    assert(data.subrange(10, 12) =~= prefix.subrange(10, 12));
    assert(le_u32(data.subrange(0, 4)) == FILE_SIGNATURE_1);
    assert(le_u32(data.subrange(4, 8)) == FILE_SIGNATURE_2);
    assert(le_u16(data.subrange(8, 10)) == minor);
    assert(le_u16(data.subrange(10, 12)) == major);
    let h0 = empty_model(FILE_SIGNATURE_1, FILE_SIGNATURE_2, minor, major);
    assert(data.len() >= 12);
    lemma_header_round_trip(prefix, fs, end_value, rest, h0);
    assert(parse_fields(data, 12, h0) is Ok);
    let h = parse_fields(data, 12, h0)->Ok_0.0;
    assert forall|c: u8| 2 <= c <= 10 implies #[trigger] has_slot(h, c) by {
        assert(names_code(fs, c));
        let i = choose|i: int| 0 <= i < fs.len() && #[trigger] fs[i].0 == c;
        assert(holds_field(h, fs[i].0, fs[i].1));
    }
    assert(has_slot(h, 2) && has_slot(h, 3) && has_slot(h, 4) && has_slot(h, 5));
    assert(has_slot(h, 6) && has_slot(h, 7) && has_slot(h, 8) && has_slot(h, 9));
    assert(has_slot(h, 10));
    assert(crate::header::first_missing(h) is None);
    assert forall|i: int| 0 <= i < fs.len() implies #[trigger] fs[i].0 != 0 by {
        assert(valid_field(fs[i].0, fs[i].1));
    }
    assert(same_slot(h0, h, 0));
    if forall|i: int| 0 <= i < fs.len() ==> #[trigger] fs[i].0 != 1 {
        assert(same_slot(h0, h, 1));
    }
}

/// Walking fields over a buffer cut anywhere before the walk's end fails.
pub proof fn lemma_fields_truncation(data: Seq<u8>, pos: int, h: HeaderModel, k: int)
    requires
        parse_fields(data, pos, h) matches Ok((_, end)) && 0 <= k < end,
    ensures
        parse_fields(data.subrange(0, k), pos, h) is Err,
    decreases data.len() - pos,
{
    lemma_fields_end_in_buffer(data, pos, h);
    let cut = data.subrange(0, k);
    if pos + 3 <= k {
        assert(cut.subrange(pos + 1, pos + 3) =~= data.subrange(pos + 1, pos + 3));
        let code = data[pos];
        let next = pos + 3 + le_u16(data.subrange(pos + 1, pos + 3));
        if next <= k {
            assert(cut[pos] == code);
            assert(cut.subrange(pos + 3, next) =~= data.subrange(pos + 3, next));
            if let Ok(h2) = apply_field(h, code, data.subrange(pos + 3, next)) {
                lemma_fields_truncation(data, next, h2, k);
            }
        }
    }
}

/// Truncation safety: cutting a buffer whose header parses anywhere before
/// the end of its terminator field makes parsing fail with a format error.
pub proof fn lemma_header_truncation(data: Seq<u8>, k: int)
    requires
        parse_header(data) matches Ok((_, end)) && 0 <= k < end,
    ensures
        parse_header(data.subrange(0, k)) is Err,
{
    let h0 = crate::header::empty_model(
        crate::header::FILE_SIGNATURE_1,
        crate::header::FILE_SIGNATURE_2,
        le_u16(data.subrange(8, 10)) as u16,
        le_u16(data.subrange(10, 12)) as u16,
    );
    lemma_fields_end_in_buffer(data, 12, h0);
    let cut = data.subrange(0, k);
    if k >= 12 {
        assert(cut.subrange(0, 4) =~= data.subrange(0, 4));
        assert(cut.subrange(4, 8) =~= data.subrange(4, 8));
        assert(cut.subrange(8, 10) =~= data.subrange(8, 10));
        assert(cut.subrange(10, 12) =~= data.subrange(10, 12));
        lemma_fields_truncation(data, 12, h0, k);
    }
}

/// An unknown field is rejected: wherever the walk meets a whole field whose
/// code lies outside the table, it stops with `UnknownField` of that code.
pub proof fn lemma_unknown_field_rejected(data: Seq<u8>, pos: int, h: HeaderModel)
    requires
        0 <= pos,
        pos + 3 + le_u16(data.subrange(pos + 1, pos + 3)) <= data.len(),
        data[pos] > 10,
    ensures
        parse_fields(data, pos, h) == Err::<(HeaderModel, int), FormatError>(
            FormatError::UnknownField(data[pos]),
        ),
{
    reveal(apply_field);
}

/// An unknown field injected before the terminator, after valid fields with
/// distinct codes, is rejected with `UnknownField` of its code.
pub proof fn lemma_injected_unknown_field(
    prefix: Seq<u8>,
    fs: Seq<(u8, Seq<u8>)>,
    code: u8,
    v: Seq<u8>,
    rest: Seq<u8>,
    h: HeaderModel,
)
    requires
        forall|i: int| 0 <= i < fs.len() ==> valid_field(#[trigger] fs[i].0, fs[i].1),
        distinct_codes(fs),
        code > 10,
        v.len() < 0x10000,
    ensures
        parse_fields(
            prefix + encode_fields(fs) + encode_field(code, v) + rest,
            prefix.len() as int,
            h,
        ) == Err::<(HeaderModel, int), FormatError>(FormatError::UnknownField(code)),
    decreases fs.len(),
{
    let data = prefix + encode_fields(fs) + encode_field(code, v) + rest;
    lemma_encoded_length(code, v);
    if fs.len() == 0 {
        assert(encode_fields(fs) =~= Seq::<u8>::empty());
        assert(data.subrange(prefix.len() as int + 1, prefix.len() as int + 3) =~= encode_field(code, v).subrange(1, 3));
        assert(data[prefix.len() as int] == code);
        lemma_unknown_field_rejected(data, prefix.len() as int, h);
    } else {
        let c0 = fs[0].0;
        let v0 = fs[0].1;
        let e = encode_field(c0, v0);
        let more = fs.drop_first();
        assert(valid_field(fs[0].0, fs[0].1));
        lemma_encoded_length(c0, v0);
        assert(encode_fields(fs) == e + encode_fields(more));
        let before = prefix + e;
        assert(data =~= before + encode_fields(more) + encode_field(code, v) + rest);
        assert(data.subrange(prefix.len() as int + 1, prefix.len() as int + 3) =~= e.subrange(1, 3));
        assert(data.subrange(prefix.len() as int + 3, prefix.len() as int + 3 + v0.len() as int) =~= v0);
        assert(data[prefix.len() as int] == c0);
        lemma_apply_valid_field(h, c0, v0);
        let h1 = apply_field(h, c0, v0)->Ok_0;
        assert forall|i: int| 0 <= i < more.len() implies valid_field(#[trigger] more[i].0, more[i].1) by {
            assert(more[i] == fs[i + 1]);
            assert(valid_field(fs[i + 1].0, fs[i + 1].1));
        }
        assert forall|i: int, j: int| 0 <= i < j < more.len() implies more[i].0 != more[j].0 by {
            assert(more[i] == fs[i + 1]);
            assert(more[j] == fs[j + 1]);
        }
        lemma_injected_unknown_field(before, more, code, v, rest, h1);
    }
}

/// Wrong passwords are caught: where a file opens with one passphrase,
/// another passphrase can make opening fail only by a decryption failure, an
/// authentication failure or a decompression failure; and opening succeeds
/// only where the plaintext decrypted under that passphrase's master key
/// begins with the header's marker bytes.
pub proof fn lemma_wrong_password_detected(data: Seq<u8>, good: Seq<u8>, other: Seq<u8>, max_rounds: u64)
    requires
        open_spec(data, good, max_rounds) is Ok,
    ensures
        open_spec(data, other, max_rounds) matches Err(e) ==> (e == DatabaseError::Crypto(
            CryptoError::DecryptionFailed,
        ) || e == DatabaseError::Integrity(IntegrityError::AuthenticationFailed) || e
            == DatabaseError::Format(FormatError::DecompressionFailed)),
        open_spec(data, other, max_rounds) is Ok ==> ({
            let (h, end) = parse_header(data)->Ok_0;
            decrypt_spec(
                header_master_key(other, h),
                h.encryption_iv->0,
                data.subrange(end, data.len() as int),
                h.cipher_id->0,
            ) matches Ok(plain) && starts_with(plain, h.stream_start_bytes->0)
        }),
{
}

} // verus!
